use chip8::machine::{Fault, LoadError, Machine, Outcome};

fn machine_with(program: &[u8]) -> Machine {
    let mut m = Machine::new();
    let image: Vec<u8> = program.to_vec();
    assert_eq!(m.load(&image), Ok(()));
    m
}

fn row_bits(m: &Machine, py: usize) -> Vec<bool> {
    (0..64).map(|px| m.pixel(px, py)).collect()
}

fn on_count(m: &Machine) -> usize {
    (0..32)
        .map(|py| row_bits(m, py).iter().filter(|p| **p).count())
        .sum()
}

#[test]
fn fresh_machine_state() {
    let m = Machine::new();
    assert_eq!(m.pc(), 0x200);
    assert_eq!(m.index_reg(), 0);
    assert_eq!(m.delay_timer(), 0);
    assert_eq!(m.sound_timer(), 0);
    assert_eq!(m.stack_depth(), 0);
    for x in 0..16 {
        assert_eq!(m.reg(x), 0);
    }
    assert_eq!(on_count(&m), 0);
}

#[test]
fn load_rejects_oversized_image() {
    let mut m = Machine::new();
    let image = vec![0u8; 3585];
    assert_eq!(m.load(&image), Err(LoadError::TooLarge));
    // Nothing changed: the fresh state still steps the zero word.
    assert_eq!(m.pc(), 0x200);
    assert_eq!(m.step(), Ok(Outcome::Unimplemented(0)));
}

#[test]
fn load_accepts_largest_image() {
    let mut m = Machine::new();
    let image = vec![0u8; 3584];
    assert_eq!(m.load(&image), Ok(()));
}

#[test]
fn load_immediate() {
    let mut m = machine_with(&[0x6A, 0x42]);
    assert_eq!(m.step(), Ok(Outcome::Executed));
    assert_eq!(m.reg(0xA), 0x42);
    assert_eq!(m.pc(), 0x202);
}

#[test]
fn add_immediate_wraps_without_carry_flag() {
    // V0 = 0xFF, add 0x02: wraps to 0x01, and VF stays untouched.
    let mut m = machine_with(&[0x60, 0xFF, 0x70, 0x02]);
    assert_eq!(m.step(), Ok(Outcome::Executed));
    assert_eq!(m.reg(0), 0xFF);
    assert_eq!(m.step(), Ok(Outcome::Executed));
    assert_eq!(m.reg(0), 0x01);
    assert_eq!(m.reg(0xF), 0, "add-immediate must not set the flag register");
    assert_eq!(m.pc(), 0x204);
}

#[test]
fn add_immediate_keeps_a_set_flag() {
    // Put 1 in VF by colliding two draws, then check that a wrapping
    // add-immediate leaves it alone.
    let mut m = machine_with(&[
        0xA0, 0x50, // I = 0x050 (font glyph '0')
        0xD0, 0x11, // draw 1 row at (0, 0)
        0xD0, 0x11, // draw it again: collision, VF = 1
        0x60, 0xFF, // V0 = 0xFF
        0x70, 0x02, // V0 += 2, wraps
    ]);
    for _ in 0..5 {
        assert_eq!(m.step(), Ok(Outcome::Executed));
    }
    assert_eq!(m.reg(0), 0x01);
    assert_eq!(m.reg(0xF), 1, "the collision flag survives add-immediate");
}

#[test]
fn load_index_register() {
    let mut m = machine_with(&[0xAB, 0xCD]);
    assert_eq!(m.step(), Ok(Outcome::Executed));
    assert_eq!(m.index_reg(), 0xBCD);
}

#[test]
fn jump_sets_pc_exactly() {
    let mut m = machine_with(&[0x1A, 0xBC]);
    assert_eq!(m.step(), Ok(Outcome::Executed));
    assert_eq!(m.pc(), 0xABC, "jump must not auto-advance afterwards");
}

#[test]
fn unknown_word_is_reported_and_skipped() {
    let mut m = machine_with(&[0x8A, 0xB3, 0x6A, 0x07]);
    assert_eq!(m.step(), Ok(Outcome::Unimplemented(0x8AB3)));
    assert_eq!(m.pc(), 0x202, "the program counter still advances");
    assert_eq!(m.step(), Ok(Outcome::Executed));
    assert_eq!(m.reg(0xA), 0x07);
}

#[test]
fn clear_after_draws_blanks_display() {
    let mut m = machine_with(&[
        0xA0, 0x50, // I = font glyph '0'
        0xD0, 0x15, // draw it at (0, 0)
        0x61, 0x1E, // V1 = 30
        0xD1, 0x15, // draw it at (30, 0)
        0x00, 0xE0, // clear
    ]);
    for _ in 0..4 {
        assert_eq!(m.step(), Ok(Outcome::Executed));
    }
    assert!(on_count(&m) > 0);
    assert_eq!(m.step(), Ok(Outcome::Executed));
    assert_eq!(on_count(&m), 0);
}

#[test]
fn draw_wraps_horizontally() {
    // Fill a row byte 0xFF into V-register-addressed coordinates via the
    // font area: glyph row 0xF0 is only 4 bits, so use two draws at
    // x = 60 and x = 64 % 64 = 0 instead; simpler: draw glyph row 0xF0
    // at x = 60 and check columns 60..63 and 0..1.
    let mut m = machine_with(&[
        0x60, 0x3C, // V0 = 60
        0x61, 0x09, // V1 = 9
        0xA0, 0x50, // I = font glyph '0' (top row 0xF0)
        0xD0, 0x11, // draw 1 row at (60, 9)
    ]);
    for _ in 0..4 {
        assert_eq!(m.step(), Ok(Outcome::Executed));
    }
    let row = row_bits(&m, 9);
    assert!(row[60] && row[61] && row[62] && row[63]);
    assert!(!row[0] && !row[1] && !row[2] && !row[3]);
    assert_eq!(on_count(&m), 4);
}

#[test]
fn draw_coordinates_taken_modulo_dimensions() {
    // V0 = 124 wraps to column 60 before drawing.
    let mut m = machine_with(&[
        0x60, 0x7C, // V0 = 124
        0x61, 0x29, // V1 = 41 -> row 9
        0xA0, 0x50, // I = font glyph '0'
        0xD0, 0x11, // draw 1 row
    ]);
    for _ in 0..4 {
        assert_eq!(m.step(), Ok(Outcome::Executed));
    }
    let row = row_bits(&m, 9);
    assert!(row[60] && row[61] && row[62] && row[63]);
    assert_eq!(on_count(&m), 4);
}

#[test]
fn fetch_past_memory_end_faults() {
    let mut m = machine_with(&[0x1F, 0xFE]); // jump to 0xFFE
    assert_eq!(m.step(), Ok(Outcome::Executed));
    assert_eq!(m.pc(), 0xFFE);
    // 0xFFE holds zeros: an unimplemented word; pc advances to 0x1000.
    assert_eq!(m.step(), Ok(Outcome::Unimplemented(0)));
    assert_eq!(m.pc(), 0x1000);
    assert_eq!(m.step(), Err(Fault::FetchOutOfBounds { addr: 0x1000 }));
    // A fault changes nothing; stepping again reports it again.
    assert_eq!(m.pc(), 0x1000);
    assert_eq!(m.step(), Err(Fault::FetchOutOfBounds { addr: 0x1000 }));
}

#[test]
fn sprite_read_past_memory_end_faults() {
    let mut m = machine_with(&[
        0xAF, 0xFF, // I = 0xFFF
        0xD0, 0x12, // draw 2 rows: second row would read 0x1000
    ]);
    assert_eq!(m.step(), Ok(Outcome::Executed));
    assert_eq!(
        m.step(),
        Err(Fault::SpriteOutOfBounds { addr: 0x1000, opcode: 0xD012 })
    );
    // The faulting draw performed no state change at all.
    assert_eq!(m.pc(), 0x202);
    assert_eq!(m.reg(0xF), 0);
    assert_eq!(on_count(&m), 0);
}

#[test]
fn one_row_sprite_at_end_of_memory_is_fine() {
    let mut m = machine_with(&[
        0xAF, 0xFF, // I = 0xFFF, the last byte
        0xD0, 0x11, // draw 1 row: reads exactly 0xFFF
    ]);
    assert_eq!(m.step(), Ok(Outcome::Executed));
    assert_eq!(m.step(), Ok(Outcome::Executed));
    assert_eq!(on_count(&m), 0, "memory at 0xFFF is zero");
}

#[test]
fn zero_height_draw_only_resets_flag() {
    let mut m = machine_with(&[
        0xA0, 0x50, // I = font glyph '0'
        0xD0, 0x11, // draw 1 row at (0,0)
        0xD0, 0x11, // draw again: VF = 1, display blank again
        0xD0, 0x10, // zero-height draw: resets VF to 0, draws nothing
    ]);
    for _ in 0..4 {
        assert_eq!(m.step(), Ok(Outcome::Executed));
    }
    assert_eq!(m.reg(0xF), 0);
    assert_eq!(on_count(&m), 0);
}

#[test]
fn timers_decrement_and_clamp_at_zero() {
    let mut m = Machine::new();
    m.set_delay_timer(2);
    m.set_sound_timer(1);
    m.tick_timers();
    assert_eq!((m.delay_timer(), m.sound_timer()), (1, 0));
    m.tick_timers();
    assert_eq!((m.delay_timer(), m.sound_timer()), (0, 0));
    m.tick_timers();
    assert_eq!((m.delay_timer(), m.sound_timer()), (0, 0));
    // Timer ticks touch nothing else.
    assert_eq!(m.pc(), 0x200);
    assert_eq!(m.stack_depth(), 0);
}

#[test]
fn frame_is_a_faithful_copy() {
    let mut m = machine_with(&[0xA0, 0x50, 0xD0, 0x15]);
    assert_eq!(m.step(), Ok(Outcome::Executed));
    assert_eq!(m.step(), Ok(Outcome::Executed));
    let f = m.frame();
    assert_eq!(f.len(), 64 * 32);
    for py in 0..32 {
        for px in 0..64 {
            assert_eq!(f[py * 64 + px], m.pixel(px, py));
        }
    }
}

#[test]
fn end_to_end_font_draw_and_loop() {
    // Load V0=5, V1=7, I=0x050, draw the '0' glyph (5 rows) at (5, 7),
    // then jump to 0x000.
    let mut m = machine_with(&[0x60, 0x05, 0x61, 0x07, 0xA0, 0x50, 0xD0, 0x15, 0x10, 0x00]);
    for _ in 0..5 {
        assert_eq!(m.step(), Ok(Outcome::Executed));
        assert_eq!(m.stack_depth(), 0);
    }
    // Top row of the '0' glyph, 0xF0 = 11110000, at row 7 from column 5.
    let row7 = row_bits(&m, 7);
    assert!(row7[5] && row7[6] && row7[7] && row7[8]);
    assert!(!row7[4] && !row7[9]);
    // The full glyph: 0xF0, 0x90, 0x90, 0x90, 0xF0 on rows 7..=11.
    for (dy, byte) in [0xF0u8, 0x90, 0x90, 0x90, 0xF0].iter().enumerate() {
        for c in 0..8 {
            let expected = byte & (0x80 >> c) != 0;
            assert_eq!(m.pixel(5 + c, 7 + dy), expected);
        }
    }
    // The jump went to 0x000; low memory holds zero words (reported
    // and skipped) and the font bytes (assorted words, none of which
    // faults), so execution marches back to 0x200 and loops for ever
    // without faults and without touching the stack.
    assert_eq!(m.pc(), 0x000);
    let mut steps = 0;
    while m.pc() != 0x200 {
        let r = m.step();
        assert!(r.is_ok(), "no fault while marching through low memory: {r:?}");
        assert_eq!(m.stack_depth(), 0);
        steps += 1;
        assert!(steps < 1000, "execution must come back to the program");
    }
    // A second pass erases and redraws the glyph by XOR; after its draw
    // the glyph is gone (drawn twice in total) ... and so on for ever.
    for _ in 0..4 {
        assert_eq!(m.step(), Ok(Outcome::Executed));
    }
    assert_eq!(on_count(&m), 0);
    assert_eq!(m.reg(0xF), 1, "the second pass collided with the first");
}

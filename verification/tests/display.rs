use chip8::display::Display;

fn count_on(d: &Display) -> usize {
    let mut n = 0;
    for py in 0..32 {
        for px in 0..64 {
            if d.get(px, py) {
                n += 1;
            }
        }
    }
    n
}

#[test]
fn new_display_is_blank() {
    let d = Display::new();
    assert_eq!(count_on(&d), 0);
}

#[test]
fn draw_sets_msb_first() {
    let mut d = Display::new();
    let rows = vec![0b1010_0001u8];
    let coll = d.draw_sprite(10, 4, &rows);
    assert!(!coll);
    assert!(d.get(10, 4));
    assert!(!d.get(11, 4));
    assert!(d.get(12, 4));
    assert!(!d.get(13, 4));
    assert!(!d.get(14, 4));
    assert!(!d.get(15, 4));
    assert!(!d.get(16, 4));
    assert!(d.get(17, 4));
    assert_eq!(count_on(&d), 3);
}

#[test]
fn draw_wraps_at_right_edge() {
    // An 8x1 all-on sprite at x = 60 lights columns 60..63 and 0..3.
    let mut d = Display::new();
    let rows = vec![0xFFu8];
    let coll = d.draw_sprite(60, 9, &rows);
    assert!(!coll);
    for px in [60usize, 61, 62, 63, 0, 1, 2, 3] {
        assert!(d.get(px, 9), "column {px} should be on");
    }
    assert_eq!(count_on(&d), 8);
}

#[test]
fn draw_wraps_at_bottom_edge() {
    let mut d = Display::new();
    let rows = vec![0x80u8, 0x80, 0x80];
    let coll = d.draw_sprite(0, 30, &rows);
    assert!(!coll);
    assert!(d.get(0, 30));
    assert!(d.get(0, 31));
    assert!(d.get(0, 0));
    assert_eq!(count_on(&d), 3);
}

#[test]
fn draw_twice_restores_and_collides() {
    let mut d = Display::new();
    // Some background to restore.
    let background = vec![0x3Cu8, 0x42, 0x81];
    d.draw_sprite(20, 10, &background);
    let before: Vec<bool> = (0..32)
        .flat_map(|py| (0..64).map(move |px| (px, py)))
        .map(|(px, py)| d.get(px, py))
        .collect();

    let sprite = vec![0xF0u8, 0x90, 0xF0];
    let first = d.draw_sprite(22, 10, &sprite);
    assert!(first, "sprite overlaps the background");
    let second = d.draw_sprite(22, 10, &sprite);
    // The second draw finds every one of its on bits lit by the first
    // draw wherever the first draw turned the pixel on, i.e. wherever
    // the background had it off; here some bit did, so it collides.
    assert!(second);

    let after: Vec<bool> = (0..32)
        .flat_map(|py| (0..64).map(move |px| (px, py)))
        .map(|(px, py)| d.get(px, py))
        .collect();
    assert_eq!(before, after, "double draw must restore the display");
}

#[test]
fn clear_after_draws_is_blank() {
    let mut d = Display::new();
    d.draw_sprite(0, 0, &vec![0xFFu8, 0xFF]);
    d.draw_sprite(60, 30, &vec![0xAAu8, 0x55, 0xAA]);
    assert!(count_on(&d) > 0);
    d.clear();
    assert_eq!(count_on(&d), 0);
}

#[test]
fn off_bits_never_clear_pixels() {
    let mut d = Display::new();
    d.draw_sprite(5, 5, &vec![0xFFu8]);
    // A sprite of all-off bits over the same spot changes nothing and
    // reports no collision.
    let coll = d.draw_sprite(5, 5, &vec![0x00u8]);
    assert!(!coll);
    assert_eq!(count_on(&d), 8);
}

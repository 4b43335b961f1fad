use chip8::decoder::Instr;

#[test]
fn decode_draw_word() {
    let ins = Instr::decode(0xD0, 0x15);
    assert_eq!(ins.n1, 0xD);
    assert_eq!(ins.n2, 0x0);
    assert_eq!(ins.n3, 0x1);
    assert_eq!(ins.n4, 0x5);
    assert_eq!(ins.nn, 0x15);
    assert_eq!(ins.nnn, 0x015);
}

#[test]
fn decode_jump_word() {
    let ins = Instr::decode(0x1A, 0xBC);
    assert_eq!(ins.n1, 0x1);
    assert_eq!(ins.n2, 0xA);
    assert_eq!(ins.n3, 0xB);
    assert_eq!(ins.n4, 0xC);
    assert_eq!(ins.nn, 0xBC);
    assert_eq!(ins.nnn, 0xABC);
}

#[test]
fn decode_extremes() {
    let all_on = Instr::decode(0xFF, 0xFF);
    assert_eq!(
        (all_on.n1, all_on.n2, all_on.n3, all_on.n4, all_on.nn, all_on.nnn),
        (0xF, 0xF, 0xF, 0xF, 0xFF, 0xFFF)
    );
    let all_off = Instr::decode(0x00, 0x00);
    assert_eq!(
        (all_off.n1, all_off.n2, all_off.n3, all_off.n4, all_off.nn, all_off.nnn),
        (0, 0, 0, 0, 0, 0)
    );
}

#[test]
fn decode_is_a_function_of_the_word_alone() {
    // Decoding the same word twice, with arbitrary other decodes in
    // between, gives identical fields.
    let first = Instr::decode(0x6A, 0x9E);
    let _noise = Instr::decode(0xFF, 0x01);
    let second = Instr::decode(0x6A, 0x9E);
    assert_eq!(first, second);
}

use chip8::pacer::Pacer;

#[test]
fn pacer_spreads_rate_over_ticks() {
    // 700 instructions per second over 60 Hz ticks: 11 or 12 per tick,
    // never losing budget.
    let mut p = Pacer::new(700);
    let mut total: u64 = 0;
    for _ in 0..60 {
        total += p.instructions_for_tick() as u64;
    }
    assert_eq!(total, 700, "one second of ticks hands out exactly the rate");
}

#[test]
fn pacer_first_ticks_of_700() {
    let mut p = Pacer::new(700);
    assert_eq!(p.instructions_for_tick(), 11); // 700 / 60, carry 40
    assert_eq!(p.instructions_for_tick(), 12); // 740 / 60, carry 20
    assert_eq!(p.instructions_for_tick(), 12); // 720 / 60, carry 0
    assert_eq!(p.instructions_for_tick(), 11);
}

#[test]
fn slow_rate_gives_zero_instruction_ticks() {
    // Below 60 instructions per second some ticks run no instruction at
    // all: the two clocks are not in lockstep.
    let mut p = Pacer::new(20);
    let first_six: Vec<u32> = (0..6).map(|_| p.instructions_for_tick()).collect();
    assert_eq!(first_six, vec![0, 0, 1, 0, 0, 1]);
}

#[test]
fn lockstep_rate_gives_one_per_tick() {
    let mut p = Pacer::new(60);
    for _ in 0..10 {
        assert_eq!(p.instructions_for_tick(), 1);
    }
}

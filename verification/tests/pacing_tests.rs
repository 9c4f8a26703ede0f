use shot_engine::pacing::Pacer;

const PERIOD: u64 = 16_000_000;

/// Runs a paced loop on a clock that only the loop moves: each sample takes
/// the time given for it, and each sleep lasts as long as the pacer says.
fn run(start: u64, period: u64, work: &[u64]) -> u64 {
    let mut now = start;
    let mut pacer = Pacer::start(now, period);
    for taken in work {
        now += taken;
        now += pacer.pause(now);
    }
    now
}

#[test]
fn pacer_sleeps_for_what_is_left_of_the_period() {
    let mut pacer = Pacer::start(1_000, 16);
    assert_eq!(pacer.deadline(), 1_016);
    assert_eq!(pacer.pause(1_002), 14);
    assert_eq!(pacer.deadline(), 1_032);
    assert_eq!(pacer.pause(1_032), 0);
    assert_eq!(pacer.pause(1_047), 1);
    assert_eq!(pacer.deadline(), 1_064);
}

#[test]
fn pacer_does_not_sleep_when_the_deadline_has_passed() {
    let mut pacer = Pacer::start(0, 16);
    assert_eq!(pacer.pause(40), 0);
    // The deadlines stay where they were: the second is at 32 and has
    // passed too, the third is at 48.
    assert_eq!(pacer.pause(40), 0);
    assert_eq!(pacer.pause(40), 8);
    assert_eq!(pacer.deadline(), 64);
}

#[test]
fn sixty_quick_samples_take_sixty_periods() {
    let start = 5_000_000_000;
    assert_eq!(run(start, PERIOD, &[0; 60]), start + 60 * PERIOD);
    assert_eq!(run(start, PERIOD, &[1_000; 60]), start + 60 * PERIOD);
    assert_eq!(run(start, PERIOD, &[PERIOD; 60]), start + 60 * PERIOD);
}

#[test]
fn a_paced_loop_is_never_early() {
    let work: Vec<u64> = (0..60).map(|i| (i * 7_919_003) % (3 * PERIOD)).collect();
    let mut now = 0u64;
    let mut pacer = Pacer::start(now, PERIOD);
    for (i, taken) in work.iter().enumerate() {
        now += taken;
        now += pacer.pause(now);
        assert!(now >= (i as u64 + 1) * PERIOD);
    }
}

#[test]
fn a_slow_sample_costs_no_later_deadline() {
    // The third sample takes two and a half periods. The loop is late once,
    // catches up without sleeping, and is on time again afterwards.
    let mut work = vec![1_000u64; 10];
    work[2] = 5 * PERIOD / 2;
    assert_eq!(run(0, PERIOD, &work[..3]), 2 * PERIOD + 5 * PERIOD / 2);
    assert_eq!(run(0, PERIOD, &work[..4]), 2 * PERIOD + 5 * PERIOD / 2 + 1_000);
    assert_eq!(run(0, PERIOD, &work[..5]), 5 * PERIOD);
    assert_eq!(run(0, PERIOD, &work), 10 * PERIOD);
}

#[test]
fn pacer_with_period_zero_never_sleeps() {
    let mut pacer = Pacer::start(100, 0);
    assert_eq!(pacer.pause(100), 0);
    assert_eq!(pacer.pause(150), 0);
    assert_eq!(pacer.pause(50), 50);
    assert_eq!(pacer.deadline(), 100);
}

#[test]
fn pacer_stops_at_the_end_of_time() {
    let mut pacer = Pacer::start(u64::MAX - 20, 16);
    assert_eq!(pacer.deadline(), u64::MAX - 4);
    assert_eq!(pacer.pause(u64::MAX - 10), 6);
    assert_eq!(pacer.deadline(), u64::MAX);
    assert_eq!(pacer.pause(u64::MAX - 1), 1);
    assert_eq!(pacer.deadline(), u64::MAX);
    assert_eq!(pacer.pause(u64::MAX), 0);
}

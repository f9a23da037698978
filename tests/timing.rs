use timing_test::{DegreeClock, DeltaHistory, Timing, TimingTest, HISTORY_SIZE, NANOS_PER_DEGREE};

fn tick(step: u64, delta: u64, updates: usize, renders: usize, start: u64, now: u64) -> Timing {
    Timing {
        fixed_step_ns: step,
        delta_ns: delta,
        updates,
        renders,
        started_at_ns: start,
        now_ns: now,
    }
}

#[test]
fn fresh_state_is_at_rest() {
    let sim = TimingTest::new();
    let s = sim.snapshot();
    assert_eq!(s.degrees, 0);
    assert_eq!(s.highest_delta_ns, 0);
    assert_eq!(s.last_delta_ns, 0);
    assert_eq!(s.budget_ns, NANOS_PER_DEGREE);
    assert_eq!(s.ticks, 0);
    assert_eq!(s.draws, 0);
    assert_eq!(s.elapsed_ns, 0);
    assert_eq!(s.history, vec![0u64; HISTORY_SIZE]);
}

#[test]
fn end_to_end_first_tick() {
    let t0: u64 = 5_000_000_000;
    let mut sim = TimingTest::new();
    sim.update(&tick(10_000_000, 12_000_000, 1, 0, t0, t0 + 10_000_000));
    let s = sim.snapshot();
    assert_eq!(s.last_delta_ns, 12_000_000);
    assert_eq!(s.highest_delta_ns, 12_000_000);
    let mut expected = vec![0u64; HISTORY_SIZE - 1];
    expected.push(12_000_000);
    assert_eq!(s.history, expected);
    assert_eq!(s.elapsed_ns, 10_000_000);
    assert_eq!(s.ticks, 1);
    assert_eq!(s.draws, 0);
    assert_eq!(s.degrees, 3);
    // 2_777_800 - 10_000_000 + 3 * 2_777_800
    assert_eq!(s.budget_ns, 1_111_200);
}

#[test]
fn record_keeps_length_and_puts_newest_last() {
    let mut h = DeltaHistory::new();
    for d in 1..=300u64 {
        h.record(d * 7);
        let w = h.window();
        assert_eq!(w.len(), HISTORY_SIZE);
        assert_eq!(*w.last().unwrap(), d * 7);
        assert_eq!(h.last(), d * 7);
    }
    let w = h.window();
    assert_eq!(w[0], 181 * 7);
    assert_eq!(w[HISTORY_SIZE - 1], 300 * 7);
}

#[test]
fn record_shifts_window_by_one() {
    let mut h = DeltaHistory::new();
    h.record(4);
    h.record(9);
    let w = h.window();
    let mut expected = vec![0u64; HISTORY_SIZE - 2];
    expected.push(4);
    expected.push(9);
    assert_eq!(w, expected);
}

#[test]
fn highest_is_lifetime_maximum() {
    let mut h = DeltaHistory::new();
    assert_eq!(h.highest(), 0);
    h.record(50);
    assert_eq!(h.highest(), 50);
    h.record(20);
    assert_eq!(h.highest(), 50);
    h.record(80);
    assert_eq!(h.highest(), 80);
    let mut previous = h.highest();
    for i in 0..200u64 {
        h.record(i % 13);
        assert!(h.highest() >= previous);
        previous = h.highest();
    }
    // the 80 has long left the window, yet stays the largest
    assert!(!h.window().contains(&80));
    assert_eq!(h.highest(), 80);
}

#[test]
fn zero_deltas_keep_highest_zero() {
    let mut h = DeltaHistory::new();
    h.record(0);
    h.record(0);
    assert_eq!(h.highest(), 0);
    assert_eq!(h.last(), 0);
}

#[test]
fn angle_stays_within_a_turn() {
    let mut c = DegreeClock::new();
    let steps: [u64; 6] = [0, 1, 8_333_333, 2_777_800, 999_999_937, 123_456_789_012];
    for round in 0..500usize {
        c.advance(steps[round % steps.len()]);
        assert!(c.degrees() < 360);
        assert!(c.budget_ns() <= NANOS_PER_DEGREE);
    }
}

#[test]
fn one_period_from_fresh_only_empties_budget() {
    let mut c = DegreeClock::new();
    c.advance(NANOS_PER_DEGREE);
    assert_eq!(c.degrees(), 0);
    assert_eq!(c.budget_ns(), 0);
}

#[test]
fn one_period_advances_one_degree() {
    let mut c = DegreeClock::new();
    c.advance(NANOS_PER_DEGREE);
    c.advance(NANOS_PER_DEGREE);
    assert_eq!(c.degrees(), 1);
    assert_eq!(c.budget_ns(), 0);
}

#[test]
fn ten_periods_in_one_step() {
    let mut c = DegreeClock::new();
    c.advance(NANOS_PER_DEGREE);
    c.advance(10 * NANOS_PER_DEGREE);
    assert_eq!(c.degrees(), 10);
    assert_eq!(c.budget_ns(), 0);
}

#[test]
fn ten_periods_from_fresh_cross_nine() {
    let mut c = DegreeClock::new();
    c.advance(10 * NANOS_PER_DEGREE);
    assert_eq!(c.degrees(), 9);
    assert_eq!(c.budget_ns(), 0);
}

#[test]
fn partial_step_carries_remainder() {
    let mut c = DegreeClock::new();
    c.advance(1_000_000);
    assert_eq!(c.degrees(), 0);
    assert_eq!(c.budget_ns(), 1_777_800);
    c.advance(2_000_000);
    assert_eq!(c.degrees(), 1);
    assert_eq!(c.budget_ns(), 2_555_600);
}

#[test]
fn zero_step_changes_nothing() {
    let mut c = DegreeClock::new();
    c.advance(0);
    assert_eq!(c.degrees(), 0);
    assert_eq!(c.budget_ns(), NANOS_PER_DEGREE);
}

#[test]
fn angle_wraps_to_zero() {
    let mut c = DegreeClock::new();
    c.advance(NANOS_PER_DEGREE);
    for expected in 1..360u16 {
        c.advance(NANOS_PER_DEGREE);
        assert_eq!(c.degrees(), expected);
    }
    c.advance(NANOS_PER_DEGREE);
    assert_eq!(c.degrees(), 0);
}

#[test]
fn one_huge_step_wraps_many_turns() {
    let mut c = DegreeClock::new();
    c.advance(NANOS_PER_DEGREE);
    c.advance(725 * NANOS_PER_DEGREE);
    assert_eq!(c.degrees(), 5);
}

#[test]
fn elapsed_saturates_when_clock_reads_early() {
    let mut sim = TimingTest::new();
    sim.update(&tick(8_333_333, 8_000_000, 1, 1, 100, 40));
    assert_eq!(sim.snapshot().elapsed_ns, 0);
}

#[test]
fn update_mirrors_counters_and_advances() {
    let mut sim = TimingTest::new();
    let start: u64 = 1_000;
    let step: u64 = 8_333_333;
    for n in 1..=120usize {
        sim.update(&tick(step, 8_000_000 + n as u64, n, n / 2, start, start + step * n as u64));
    }
    let s = sim.snapshot();
    assert_eq!(s.ticks, 120);
    assert_eq!(s.draws, 60);
    assert_eq!(s.elapsed_ns, step * 120);
    assert_eq!(s.highest_delta_ns, 8_000_120);
    assert_eq!(s.last_delta_ns, 8_000_120);
    assert_eq!(s.history[0], 8_000_001);
    // 120 * 8_333_333 = 999_999_960 ns spent against a first budget of one
    // period: ceil((999_999_960 - 2_777_800) / 2_777_800) = 359 degrees,
    // leaving 359 * 2_777_800 - 997_222_160 = 8_040 ns
    assert_eq!(s.degrees, 359);
    assert_eq!(s.budget_ns, 8_040);
}

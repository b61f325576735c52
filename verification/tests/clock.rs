use apogeetrak::clock::{TimeState, MAX_INSTANT, MIN_INSTANT, START_INSTANT};

#[test]
fn new_clock_runs_from_noon_of_new_year_2025() {
    let clock = TimeState::default();
    assert!(!clock.is_paused());
    assert_eq!(clock.speed_mult(), 1);
    assert_eq!(clock.sim_time(), START_INSTANT);
    let start = chrono::DateTime::parse_from_rfc3339("2025-01-01T12:00:00Z").unwrap();
    assert_eq!(clock.sim_time(), start.timestamp_millis());
}

#[test]
fn clock_shows_every_instant_of_the_calendar() {
    assert_eq!(MIN_INSTANT, chrono::DateTime::<chrono::Utc>::MIN_UTC.timestamp_millis());
    assert_eq!(MAX_INSTANT, chrono::DateTime::<chrono::Utc>::MAX_UTC.timestamp_millis());
    assert!(chrono::DateTime::from_timestamp_millis(MIN_INSTANT).is_some());
    assert!(chrono::DateTime::from_timestamp_millis(MAX_INSTANT).is_some());
    assert!(chrono::DateTime::from_timestamp_millis(MIN_INSTANT - 1).is_none());
    assert!(chrono::DateTime::from_timestamp_millis(MAX_INSTANT + 1).is_none());
}

#[test]
fn stepping_forward_doubles_up_to_4096() {
    let mut clock = TimeState::default();
    let mut expected = 1;
    for _ in 0..12 {
        clock.step_forward();
        expected *= 2;
        assert_eq!(clock.speed_mult(), expected);
    }
    assert_eq!(clock.speed_mult(), 4096);
    clock.step_forward();
    assert_eq!(clock.speed_mult(), 4096);
}

#[test]
fn stepping_backward_passes_through_normal_speed() {
    let mut clock = TimeState::default();
    clock.step_forward();
    clock.step_forward();
    let mut speeds = vec![];
    for _ in 0..17 {
        clock.step_backward();
        speeds.push(clock.speed_mult());
    }
    assert_eq!(
        speeds,
        vec![2, 1, -1, -2, -4, -8, -16, -32, -64, -128, -256, -512, -1024, -2048, -4096, -4096, -4096]
    );
    let mut speeds = vec![];
    for _ in 0..15 {
        clock.step_forward();
        speeds.push(clock.speed_mult());
    }
    assert_eq!(speeds, vec![-2048, -1024, -512, -256, -128, -64, -32, -16, -8, -4, -2, -1, 1, 2, 4]);
}

#[test]
fn stepping_lets_a_paused_clock_run() {
    let mut clock = TimeState::default();
    clock.set_paused(true);
    assert!(clock.is_paused());
    clock.step_forward();
    assert!(!clock.is_paused());
    clock.set_paused(true);
    clock.step_backward();
    assert!(!clock.is_paused());
    assert_eq!(clock.speed_mult(), 1);
    clock.set_paused(true);
    clock.step_backward();
    clock.reset_to_normal();
    assert!(!clock.is_paused());
    assert_eq!(clock.speed_mult(), 1);
    assert_eq!(clock.sim_time(), START_INSTANT);
}

#[test]
fn tick_advances_by_real_time_times_speed() {
    let mut clock = TimeState::default();
    clock.update(16_667);
    assert_eq!(clock.sim_time(), START_INSTANT + 16);
    clock.step_forward();
    clock.step_forward();
    clock.update(16_667);
    assert_eq!(clock.sim_time(), START_INSTANT + 16 + 66);
    clock.update(999);
    assert_eq!(clock.sim_time(), START_INSTANT + 16 + 66 + 3);
    clock.update(0);
    assert_eq!(clock.sim_time(), START_INSTANT + 85);
}

#[test]
fn tick_runs_backwards_at_negative_speed() {
    let mut clock = TimeState::default();
    clock.step_backward();
    assert_eq!(clock.speed_mult(), -1);
    clock.update(1_000_000);
    assert_eq!(clock.sim_time(), START_INSTANT - 1_000);
    clock.update(1_999);
    assert_eq!(clock.sim_time(), START_INSTANT - 1_001);
    clock.step_backward();
    clock.update(500);
    assert_eq!(clock.sim_time(), START_INSTANT - 1_002);
    clock.update(499);
    assert_eq!(clock.sim_time(), START_INSTANT - 1_002);
}

#[test]
fn paused_clock_stands_still() {
    let mut clock = TimeState::default();
    clock.set_paused(true);
    clock.update(5_000_000);
    assert_eq!(clock.sim_time(), START_INSTANT);
    clock.set_paused(false);
    clock.update(5_000_000);
    assert_eq!(clock.sim_time(), START_INSTANT + 5_000);
}

#[test]
fn tick_beyond_the_calendar_is_not_taken() {
    let mut clock = TimeState::default();
    clock.update(u64::MAX);
    assert_eq!(clock.sim_time(), START_INSTANT);
    let to_end = (MAX_INSTANT - START_INSTANT) as u64;
    clock.update(to_end * 1000 + 1000);
    assert_eq!(clock.sim_time(), START_INSTANT);
    clock.update(to_end * 1000 + 999);
    assert_eq!(clock.sim_time(), MAX_INSTANT);
    clock.update(1_000);
    assert_eq!(clock.sim_time(), MAX_INSTANT);
    clock.step_backward();
    let span = (MAX_INSTANT - MIN_INSTANT) as u64;
    clock.update(span * 1000 + 1000);
    assert_eq!(clock.sim_time(), MAX_INSTANT);
    clock.update(span * 1000);
    assert_eq!(clock.sim_time(), MIN_INSTANT);
    clock.update(1_000);
    assert_eq!(clock.sim_time(), MIN_INSTANT);
    for _ in 0..12 {
        clock.step_backward();
    }
    clock.update(u64::MAX);
    assert_eq!(clock.sim_time(), MIN_INSTANT);
}

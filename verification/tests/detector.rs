use gotta_watch_em_all::hwm::{HighWaterMark, ThresholdConfig};

fn cfg(absolute: u64, rel_num: u64, rel_den: u64, nth: Option<u8>) -> ThresholdConfig {
    ThresholdConfig {
        threshold_absolute: absolute,
        threshold_relative_num: rel_num,
        threshold_relative_den: rel_den,
        check_interval_ms: 250,
        report_every_nth: nth,
        show_free: false,
        show_command: false,
    }
}

#[test]
fn first_tick_triggers_over_absolute_threshold() {
    // hwm = 0, absolute 1024, relative 0: an aggregate of 1800 KiB
    // triggers (1800 > 1024 and 1800 > 0) and becomes the new mark.
    let mut state = HighWaterMark::new();
    let c = cfg(1024, 0, 1, None);
    let d = state.observe(1800, &c);
    assert!(d.triggered);
    assert!(d.report);
    assert_eq!(state.hwm_kib, 1800);
    assert_eq!(state.tick_index, 1);
}

#[test]
fn small_growth_does_not_trigger() {
    // Continuing: the next tick sees 1900 KiB; 1900 > 1800 + 1024 is
    // false, so nothing triggers and the mark stays at 1800.
    let mut state = HighWaterMark::new();
    let c = cfg(1024, 0, 1, None);
    state.observe(1800, &c);
    let d = state.observe(1900, &c);
    assert!(!d.triggered);
    assert!(!d.report);
    assert_eq!(state.hwm_kib, 1800);
    assert_eq!(state.tick_index, 2);
}

#[test]
fn trigger_needs_both_thresholds() {
    // Absolute met but relative not: a 50% requirement on top of a mark
    // of 1000 demands more than 1500.
    let mut state = HighWaterMark::new();
    let c = cfg(0, 1, 2, None);
    let d0 = state.observe(1000, &c);
    assert!(d0.triggered);
    assert_eq!(state.hwm_kib, 1000);
    let d1 = state.observe(1500, &c);
    assert!(!d1.triggered);
    assert_eq!(state.hwm_kib, 1000);
    let d2 = state.observe(1501, &c);
    assert!(d2.triggered);
    assert_eq!(state.hwm_kib, 1501);
}

#[test]
fn zero_relative_degenerates_to_strict_growth() {
    // With a relative threshold of 0 the relative test is exactly
    // "aggregate exceeds the mark".
    let mut state = HighWaterMark::new();
    let c = cfg(0, 0, 1, None);
    let d0 = state.observe(100, &c);
    assert!(d0.triggered);
    let d1 = state.observe(100, &c);
    assert!(!d1.triggered);
    let d2 = state.observe(101, &c);
    assert!(d2.triggered);
}

#[test]
fn hwm_never_decreases() {
    let mut state = HighWaterMark::new();
    let c = cfg(10, 0, 1, None);
    let aggregates = [500u64, 100, 700, 600, 50, 900, 0];
    let mut last = 0u64;
    for a in aggregates {
        state.observe(a, &c);
        assert!(state.hwm_kib >= last);
        last = state.hwm_kib;
    }
    assert_eq!(state.hwm_kib, 900);
}

#[test]
fn periodic_cadence_fires_every_third_tick() {
    // N = 3 reports on ticks 0, 3 and 6 whatever the aggregate does; a
    // huge absolute threshold keeps the trigger quiet.
    let mut state = HighWaterMark::new();
    let c = cfg(u64::MAX, 0, 1, Some(3));
    let mut pattern = Vec::new();
    for a in [5u64, 900, 3, 700, 100, 2, 800] {
        let d = state.observe(a, &c);
        assert!(!d.triggered);
        pattern.push(d.report);
    }
    assert_eq!(pattern, vec![true, false, false, true, false, false, true]);
}

#[test]
fn zero_cadence_is_disabled() {
    let mut state = HighWaterMark::new();
    let c = cfg(u64::MAX, 0, 1, Some(0));
    for a in [5u64, 6, 7] {
        let d = state.observe(a, &c);
        assert!(!d.report);
    }
}

#[test]
fn absent_cadence_is_disabled() {
    let mut state = HighWaterMark::new();
    let c = cfg(u64::MAX, 0, 1, None);
    for a in [5u64, 6, 7] {
        let d = state.observe(a, &c);
        assert!(!d.periodic_due);
        assert!(!d.report);
    }
}

#[test]
fn skip_tick_moves_only_the_counter() {
    let mut state = HighWaterMark::new();
    let c = cfg(0, 0, 1, None);
    state.observe(500, &c);
    state.skip_tick();
    assert_eq!(state.hwm_kib, 500);
    assert_eq!(state.tick_index, 2);
}

#[test]
fn config_wf_check() {
    assert!(cfg(0, 0, 1, None).is_wf());
    assert!(!cfg(0, 0, 0, None).is_wf());
    assert!(!cfg(0, u64::MAX, 2, None).is_wf());
}

use gotta_watch_em_all::hwm::ThresholdConfig;
use gotta_watch_em_all::monitor::{Monitor, SamplerPhase};
use gotta_watch_em_all::process::ProcessRecord;

fn cfg(absolute: u64, nth: Option<u8>) -> ThresholdConfig {
    ThresholdConfig {
        threshold_absolute: absolute,
        threshold_relative_num: 0,
        threshold_relative_den: 1,
        check_interval_ms: 250,
        report_every_nth: nth,
        show_free: false,
        show_command: false,
    }
}

fn rec(pid: u64, parent: Option<u64>, memory_kib: u64) -> ProcessRecord {
    ProcessRecord {
        pid,
        parent,
        memory_kib,
        name: format!("proc{}", pid),
        exe: format!("/bin/proc{}", pid),
        cmd: vec![],
    }
}

fn family(root_kib: u64) -> Vec<ProcessRecord> {
    vec![rec(1, None, root_kib), rec(2, Some(1), 500), rec(3, Some(1), 300)]
}

#[test]
fn tick_reports_on_new_high_water_mark() {
    let mut monitor = Monitor::new(cfg(1024, None));
    let out = monitor.on_tick(&family(1000), 1, None);
    let text = out.expect("1800 KiB over a zero mark must report");
    assert!(text.starts_with("🌊 gotta-watch-em-all: high water mark reached: 1 MiB used\n"));
    assert!(text.contains("proc1 (1)"));
    assert!(text.contains("proc2 (2)"));
    assert!(text.ends_with("\n\n"));
    assert_eq!(monitor.detector.hwm_kib, 1800);
    assert_eq!(monitor.detector.tick_index, 1);
    assert!(monitor.pending.is_empty());
}

#[test]
fn tick_below_threshold_keeps_report_pending() {
    let mut monitor = Monitor::new(cfg(1024, None));
    monitor.on_tick(&family(1000), 1, None).expect("first tick reports");
    // 1900 KiB is not 1024 over the mark of 1800: nothing is written,
    // the text stays pending and the mark stays put.
    let out = monitor.on_tick(&family(1100), 1, None);
    assert!(out.is_none());
    assert_eq!(monitor.detector.hwm_kib, 1800);
    assert!(!monitor.pending.is_empty());
    assert!(monitor.pending.starts_with("🌊 gotta-watch-em-all: presently at: 1 MiB used\n"));
}

#[test]
fn cancellation_flushes_pending_exactly_once() {
    let mut monitor = Monitor::new(cfg(1024, None));
    monitor.on_tick(&family(1000), 1, None).expect("first tick reports");
    monitor.on_tick(&family(1100), 1, None);
    let pending_before = monitor.pending.clone();
    assert!(!pending_before.is_empty());
    let flush = monitor.on_cancelled();
    assert_eq!(flush.as_deref(), Some(pending_before.as_str()));
    assert!(monitor.pending.is_empty());
    assert!(matches!(monitor.phase, SamplerPhase::Draining));
    monitor.on_drained();
    assert!(matches!(monitor.phase, SamplerPhase::Stopped));
    assert!(monitor.pending.is_empty());
}

#[test]
fn cancellation_with_nothing_pending_flushes_nothing() {
    let mut monitor = Monitor::new(cfg(1024, None));
    monitor.on_tick(&family(1000), 1, None).expect("first tick reports");
    let flush = monitor.on_cancelled();
    assert!(flush.is_none());
    monitor.on_drained();
    assert!(matches!(monitor.phase, SamplerPhase::Stopped));
}

#[test]
fn vanished_root_skips_the_tick() {
    let mut monitor = Monitor::new(cfg(1024, None));
    monitor.on_tick(&family(1000), 1, None).expect("first tick reports");
    monitor.on_tick(&family(1100), 1, None);
    let pending_before = monitor.pending.clone();
    let out = monitor.on_tick(&Vec::new(), 1, None);
    assert!(out.is_none());
    assert_eq!(monitor.pending, pending_before);
    assert_eq!(monitor.detector.hwm_kib, 1800);
    assert_eq!(monitor.detector.tick_index, 3);
}

#[test]
fn periodic_cadence_reports_without_growth() {
    let mut monitor = Monitor::new(cfg(u64::MAX, Some(3)));
    let mut pattern = Vec::new();
    for _ in 0..7 {
        pattern.push(monitor.on_tick(&family(1000), 1, None).is_some());
    }
    assert_eq!(pattern, vec![true, false, false, true, false, false, true]);
    assert_eq!(monitor.detector.hwm_kib, 0);
    for report in [
        monitor.on_tick(&family(5000), 1, None).is_none(),
        monitor.on_tick(&family(9000), 1, None).is_none(),
    ] {
        assert!(report);
    }
}

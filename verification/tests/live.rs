use gotta_watch_em_all::hwm::ThresholdConfig;
use gotta_watch_em_all::monitor::Monitor;
use gotta_watch_em_all::snapshot::sample_tick;
use sysinfo::{PidExt, SystemExt};

#[test]
fn live_snapshot_reports_this_process() {
    // With a cadence of every tick, the first live tick must find the
    // test process itself in the table and hand back a rendered report.
    let config = ThresholdConfig {
        threshold_absolute: 0,
        threshold_relative_num: 0,
        threshold_relative_den: 1,
        check_interval_ms: 250,
        report_every_nth: Some(1),
        show_free: true,
        show_command: false,
    };
    let mut monitor = Monitor::new(config);
    let mut sys = sysinfo::System::new_all();
    let me = sysinfo::get_current_pid().expect("current pid") ;
    let out = sample_tick(&mut monitor, &mut sys, me.as_u32() as u64);
    assert_eq!(monitor.detector.tick_index, 1);
    let text = out.expect("cadence of one reports every tick");
    assert!(text.starts_with("🌊 gotta-watch-em-all: "));
    assert!(text.contains(&format!("({})", me.as_u32())));
    assert!(text.contains("total        used        free   available"));
}

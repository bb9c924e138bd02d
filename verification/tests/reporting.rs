use gotta_watch_em_all::hwm::ThresholdConfig;
use gotta_watch_em_all::process::{MemInfo, ProcessRecord};
use gotta_watch_em_all::render::{handle_write_err, print_stats, write_free_stats, write_message_line};
use gotta_watch_em_all::stats::compute_memory_stats;
use gotta_watch_em_all::tree::get_process_children;

fn cfg(show_command: bool) -> ThresholdConfig {
    ThresholdConfig {
        threshold_absolute: 1024,
        threshold_relative_num: 0,
        threshold_relative_den: 1,
        check_interval_ms: 250,
        report_every_nth: None,
        show_free: false,
        show_command,
    }
}

fn rec(pid: u64, parent: Option<u64>, memory_kib: u64, exe: &str, name: &str) -> ProcessRecord {
    ProcessRecord {
        pid,
        parent,
        memory_kib,
        name: name.to_string(),
        exe: exe.to_string(),
        cmd: vec![],
    }
}

fn header() -> String {
    format!(
        "🌊 {:<50}{}{:>9}MiB {:>9}MiB\n",
        "process",
        " ".repeat(30),
        "private ",
        "total "
    )
}

fn node_line(title: &str, depth: usize, private_mib: u64, aggregate_mib: u64) -> String {
    format!(
        "🌊 {}{:<50}{}{:>9}MiB {:>9}MiB\n",
        " ".repeat(2 * depth),
        title,
        " ".repeat(30 - 2 * depth),
        private_mib,
        aggregate_mib
    )
}

#[test]
fn message_line_presently_at() {
    let mut buffer = String::from("x");
    write_message_line(&mut buffer, false, 1800);
    assert_eq!(buffer, "x🌊 gotta-watch-em-all: presently at: 1 MiB used\n");
}

#[test]
fn message_line_high_water_mark() {
    let mut buffer = String::new();
    write_message_line(&mut buffer, true, 3072);
    assert_eq!(buffer, "🌊 gotta-watch-em-all: high water mark reached: 3 MiB used\n");
}

#[test]
fn write_err_appends_line() {
    let mut buffer = String::from("head\n");
    handle_write_err(&mut buffer, "boom");
    assert_eq!(buffer, "head\n🌊 gotta-watch-em-all: error boom\n");
}

#[test]
fn free_stats_format() {
    let mem = MemInfo {
        total_kib: 2048,
        used_kib: 1024,
        free_kib: 0,
        available_kib: 10240,
        swap_total_kib: 4096,
        swap_used_kib: 0,
        swap_free_kib: 4096,
    };
    let mut buffer = String::new();
    write_free_stats(&mut buffer, &mem);
    let expected = format!(
        "🌊                 total        used        free   available\n🌊   Mem:   {:>10}Mi{:>10}Mi{:>10}Mi{:>10}Mi\n🌊   Swap:  {:>10}Mi{:>10}Mi{:>10}Mi\n",
        2, 1, 0, 10, 4, 0, 4
    );
    assert_eq!(buffer, expected);
}

#[test]
fn table_of_single_process() {
    let records = vec![rec(1, None, 3072, "/usr/bin/widget", "ignored")];
    let table = get_process_children(&records);
    let stats = compute_memory_stats(1, &table);
    let mut buffer = String::new();
    print_stats(&mut buffer, 1, &table, &stats, &cfg(false));
    let expected = format!("{}{}\n", header(), node_line("widget (1)", 0, 3, 3));
    assert_eq!(buffer, expected);
}

#[test]
fn table_indents_children_and_keeps_discovery_order() {
    let records = vec![
        rec(1, None, 2048, "/bin/parent", "parent"),
        rec(2, Some(1), 1024, "/bin/kid-a", "kid-a"),
        rec(3, Some(1), 1024, "/bin/kid-b", "kid-b"),
    ];
    let table = get_process_children(&records);
    let stats = compute_memory_stats(1, &table);
    let mut buffer = String::new();
    print_stats(&mut buffer, 1, &table, &stats, &cfg(false));
    let expected = format!(
        "{}{}{}{}\n",
        header(),
        node_line("parent (1)", 0, 2, 4),
        node_line("kid-a (2)", 1, 1, 1),
        node_line("kid-b (3)", 1, 1, 1)
    );
    assert_eq!(buffer, expected);
}

#[test]
fn table_falls_back_to_reported_name() {
    // An executable path that yields no file name falls back to the
    // reported process name.
    let records = vec![rec(1, None, 1024, "", "bare-name")];
    let table = get_process_children(&records);
    let stats = compute_memory_stats(1, &table);
    let mut buffer = String::new();
    print_stats(&mut buffer, 1, &table, &stats, &cfg(false));
    let expected = format!("{}{}\n", header(), node_line("bare-name (1)", 0, 1, 1));
    assert_eq!(buffer, expected);
}

#[test]
fn table_of_absent_root_is_header_only() {
    let records = vec![rec(1, None, 1024, "/bin/a", "a")];
    let table = get_process_children(&records);
    let stats = compute_memory_stats(7, &table);
    let mut buffer = String::new();
    print_stats(&mut buffer, 7, &table, &stats, &cfg(false));
    let expected = format!("{}\n", header());
    assert_eq!(buffer, expected);
}

#[test]
fn command_block_short_arguments() {
    let mut r = rec(1, None, 1024, "/bin/tool", "tool");
    r.cmd = vec!["tool".to_string(), "--fast".to_string()];
    let records = vec![r];
    let table = get_process_children(&records);
    let stats = compute_memory_stats(1, &table);
    let mut buffer = String::new();
    print_stats(&mut buffer, 1, &table, &stats, &cfg(true));
    let expected = format!(
        "{}{}🌊    tool --fast\n\n",
        header(),
        node_line("tool (1)", 0, 1, 1)
    );
    assert_eq!(buffer, expected);
}

#[test]
fn command_block_wraps_long_lines() {
    let long = "y".repeat(120);
    let mut r = rec(1, None, 1024, "/bin/tool", "tool");
    r.cmd = vec![long.clone(), "tail".to_string()];
    let records = vec![r];
    let table = get_process_children(&records);
    let stats = compute_memory_stats(1, &table);
    let mut buffer = String::new();
    print_stats(&mut buffer, 1, &table, &stats, &cfg(true));
    let expected = format!(
        "{}{}🌊    {}\n🌊      tail\n\n",
        header(),
        node_line("tool (1)", 0, 1, 1),
        long
    );
    assert_eq!(buffer, expected);
}

#[test]
fn orphan_parent_renders_bare_pid() {
    let records = vec![rec(5, Some(99), 2048, "/bin/kid", "kid")];
    let table = get_process_children(&records);
    let stats = compute_memory_stats(99, &table);
    let mut buffer = String::new();
    print_stats(&mut buffer, 99, &table, &stats, &cfg(false));
    let expected = format!(
        "{}{}{}\n",
        header(),
        node_line("(99)", 0, 0, 2),
        node_line("kid (5)", 1, 2, 2)
    );
    assert_eq!(buffer, expected);
}

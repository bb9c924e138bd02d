use gotta_watch_em_all::process::ProcessRecord;
use gotta_watch_em_all::stats::compute_memory_stats;
use gotta_watch_em_all::tree::get_process_children;

fn rec(pid: u64, parent: Option<u64>, memory_kib: u64) -> ProcessRecord {
    ProcessRecord {
        pid,
        parent,
        memory_kib,
        name: format!("proc{}", pid),
        exe: format!("/bin/proc{}", pid),
        cmd: vec![],
    }
}

#[test]
fn builder_attaches_records_and_children() {
    let records = vec![rec(1, None, 100), rec(2, Some(1), 50), rec(3, Some(1), 25)];
    let table = get_process_children(&records);
    assert_eq!(table.len(), 3);
    let root = table.get(&1).unwrap();
    assert!(root.record.is_some());
    assert_eq!(root.record.as_ref().unwrap().memory_kib, 100);
    assert_eq!(root.children, vec![2, 3]);
    assert!(table.get(&2).unwrap().children.is_empty());
    assert!(table.get(&3).unwrap().children.is_empty());
}

#[test]
fn builder_tolerates_orphan_child() {
    // A child names a parent that is absent from the snapshot: the parent
    // gets a record-less entry, reachable only when queried directly.
    let records = vec![rec(5, Some(99), 10)];
    let table = get_process_children(&records);
    assert_eq!(table.len(), 2);
    let ghost_parent = table.get(&99).unwrap();
    assert!(ghost_parent.record.is_none());
    assert_eq!(ghost_parent.children, vec![5]);
    assert!(table.get(&5).unwrap().record.is_some());
}

#[test]
fn builder_child_order_follows_discovery() {
    let records = vec![rec(7, Some(1), 1), rec(1, None, 1), rec(3, Some(1), 1)];
    let table = get_process_children(&records);
    assert_eq!(table.get(&1).unwrap().children, vec![7, 3]);
}

#[test]
fn aggregate_sums_subtree() {
    // Root of 1000 KiB with two children of 500 and 300 KiB and no
    // grandchildren: the root's aggregate is 1800 KiB.
    let records = vec![rec(1, None, 1000), rec(2, Some(1), 500), rec(3, Some(1), 300)];
    let table = get_process_children(&records);
    let stats = compute_memory_stats(1, &table);
    let root = stats.get(&1).unwrap();
    assert_eq!(root.aggregate_kib, 1800);
    assert_eq!(root.private_kib, 1000);
    let child = stats.get(&2).unwrap();
    assert_eq!(child.aggregate_kib, 500);
    assert_eq!(child.private_kib, 500);
    assert_eq!(stats.get(&3).unwrap().aggregate_kib, 300);
}

#[test]
fn aggregate_of_deeper_tree() {
    let records = vec![
        rec(1, None, 10),
        rec(2, Some(1), 20),
        rec(3, Some(2), 40),
        rec(4, Some(3), 80),
    ];
    let table = get_process_children(&records);
    let stats = compute_memory_stats(1, &table);
    assert_eq!(stats.get(&1).unwrap().aggregate_kib, 150);
    assert_eq!(stats.get(&2).unwrap().aggregate_kib, 140);
    assert_eq!(stats.get(&3).unwrap().aggregate_kib, 120);
    assert_eq!(stats.get(&4).unwrap().aggregate_kib, 80);
}

#[test]
fn aggregate_counts_missing_record_as_zero() {
    // The orphan parent has no record: its own contribution is zero but
    // its child is still summed.
    let records = vec![rec(5, Some(99), 10)];
    let table = get_process_children(&records);
    let stats = compute_memory_stats(99, &table);
    let top = stats.get(&99).unwrap();
    assert_eq!(top.private_kib, 0);
    assert_eq!(top.aggregate_kib, 10);
}

#[test]
fn aggregate_of_absent_pid_is_empty() {
    let records = vec![rec(1, None, 100)];
    let table = get_process_children(&records);
    let stats = compute_memory_stats(42, &table);
    assert!(stats.is_empty());
}

#[test]
fn aggregate_terminates_on_cyclic_snapshot() {
    // A torn snapshot can show two processes as each other's parent; the
    // traversal must cut the cycle instead of looping.
    let records = vec![rec(1, Some(2), 100), rec(2, Some(1), 30)];
    let table = get_process_children(&records);
    let stats = compute_memory_stats(1, &table);
    let root = stats.get(&1).unwrap();
    assert_eq!(root.aggregate_kib, 130);
    assert_eq!(root.private_kib, 100);
}

#[test]
fn builder_keeps_last_record_for_duplicate_pid() {
    // A torn snapshot can hand back two records for one pid; the later
    // one wins the entry.
    let records = vec![rec(1, None, 100), rec(1, None, 250)];
    let table = get_process_children(&records);
    assert_eq!(table.get(&1).unwrap().record.as_ref().unwrap().memory_kib, 250);
}

#[test]
fn aggregate_saturates_instead_of_wrapping() {
    let records = vec![rec(1, None, u64::MAX), rec(2, Some(1), 100)];
    let table = get_process_children(&records);
    let stats = compute_memory_stats(1, &table);
    assert_eq!(stats.get(&1).unwrap().aggregate_kib, u64::MAX);
    assert_eq!(stats.get(&1).unwrap().private_kib, u64::MAX);
    assert_eq!(stats.get(&2).unwrap().aggregate_kib, 100);
}

#[test]
fn aggregate_of_single_process() {
    let records = vec![rec(1, None, 2048)];
    let table = get_process_children(&records);
    let stats = compute_memory_stats(1, &table);
    assert_eq!(stats.get(&1).unwrap().aggregate_kib, 2048);
    assert_eq!(stats.len(), 1);
}

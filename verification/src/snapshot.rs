//! Snapshot Provider: the trusted boundary to the `sysinfo` crate. The
//! OS process table is queried here and handed to the rest of the
//! library as plain records; nothing else in the library touches the
//! outside world.
//!
//! What the table holds at any instant depends on the machine, so the
//! wrappers promise almost nothing: only what `sysinfo`'s own structures
//! guarantee, such as pids being distinct within one snapshot.
use vstd::prelude::*;
use sysinfo::{PidExt, ProcessExt, SystemExt};
use crate::process::{MemInfo, ProcessRecord};
use crate::monitor::Monitor;
use crate::hwm::next_tick;

verus! {

#[verifier::external_type_specification]
#[verifier::external_body]
pub struct ExSystem(sysinfo::System);

/// Relies on `sysinfo::SystemExt::refresh_processes`: refreshes the
/// process list from the OS. What it finds depends on the machine alone.
#[verifier::external_body]
fn refresh_processes(sys: &mut sysinfo::System) {
    sys.refresh_processes();
}

/// Relies on `sysinfo::SystemExt::refresh_memory`: refreshes the
/// machine-wide memory figures.
#[verifier::external_body]
fn refresh_memory(sys: &mut sysinfo::System) {
    sys.refresh_memory();
}

/// Relies on `sysinfo::SystemExt::processes` and the `ProcessExt`
/// accessors: converts the refreshed process table to plain records.
/// The pids are the keys of `sysinfo`'s own map, so they are distinct
/// within one snapshot; nothing else can be promised of a table the OS
/// rewrites at will.
#[verifier::external_body]
fn collect_records(sys: &sysinfo::System) -> (records: Vec<ProcessRecord>)
    ensures
        forall|i: int, j: int|
            0 <= i < j < records@.len() ==> records@[i].pid != records@[j].pid,
{
    let mut records = Vec::new();
    for (pid, process) in sys.processes() {
        records.push(ProcessRecord {
            pid: pid.as_u32() as u64,
            parent: process.parent().map(|q| q.as_u32() as u64),
            memory_kib: process.memory(),
            name: process.name().to_owned(),
            exe: process.exe().to_string_lossy().into_owned(),
            cmd: process.cmd().to_vec(),
        });
    }
    records
}

/// Relies on `sysinfo::SystemExt`'s memory accessors (`total_memory`,
/// `used_memory`, `free_memory`, `available_memory`, `total_swap`,
/// `used_swap`, `free_swap`), all in KiB: converts the refreshed
/// machine-wide figures to a plain struct. The values are whatever the
/// machine reported.
#[verifier::external_body]
fn read_mem_info(sys: &sysinfo::System) -> (mem: MemInfo) {
    MemInfo {
        total_kib: sys.total_memory(),
        used_kib: sys.used_memory(),
        free_kib: sys.free_memory(),
        available_kib: sys.available_memory(),
        swap_total_kib: sys.total_swap(),
        swap_used_kib: sys.used_swap(),
        swap_free_kib: sys.free_swap(),
    }
}

/// One full tick against the live machine: refreshes the process table
/// and the memory figures, and runs the monitor's tick over what came
/// back. Whatever the snapshot held, the phase stays `Running`, the high
/// water mark does not decrease, and the tick counter moves by one.
pub fn sample_tick(monitor: &mut Monitor, sys: &mut sysinfo::System, root_pid: u64) -> (out: Option<
    String,
>)
    requires
        old(monitor).wf(),
        old(monitor).phase is Running,
    ensures
        final(monitor).wf(),
        final(monitor).phase is Running,
        final(monitor).config == old(monitor).config,
        final(monitor).detector.hwm_kib >= old(monitor).detector.hwm_kib,
        final(monitor).detector.tick_index == next_tick(old(monitor).detector.tick_index),
{
    refresh_processes(sys);
    refresh_memory(sys);
    let mem: Option<MemInfo> = if monitor.config.show_free {
        Some(read_mem_info(sys))
    } else {
        None
    };
    let records = collect_records(sys);
    monitor.on_tick(&records, root_pid, mem)
}

} // verus!

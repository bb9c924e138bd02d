//! Scheduler core: the sampling task's state machine. One tick runs the
//! Tree Builder, the Aggregate Calculator, the High-Water-Mark Detector
//! and the Reporter over a snapshot handed in as plain records; the
//! cancellation path drains the pending buffer exactly once and stops.
//!
//! The surrounding loop — the timer, the cancellation signal, the output
//! sink — lives outside; this type only decides.
use vstd::prelude::*;
use crate::process::{MemInfo, ProcessRecord, ProcessRecordV};
use crate::tree::{get_process_children, records_view, table_view, tree_of};
use crate::stats::{aggregate_kib_of, compute_memory_stats, sat64, stats_map};
use crate::hwm::{
    next_hwm, next_tick, report_due, triggered, HighWaterMark, ThresholdConfig,
};
use crate::render::{
    free_stats_lines, message_line, print_stats, report_table, write_free_stats,
    write_message_line,
};

verus! {

/// The sampling task's phase: ticking, draining what one last flush owes,
/// or done.
pub enum SamplerPhase {
    Running,
    Draining,
    Stopped,
}

/// The aggregate memory of one tick, as the watched pid's subtree sums it
/// over the snapshot's records, capped at `u64::MAX`.
pub open spec fn tick_aggregate_kib(records: Seq<ProcessRecordV>, root_pid: u64) -> u64 {
    sat64(aggregate_kib_of(tree_of(records), root_pid))
}

/// The machine-wide block a tick appends: present only when asked for
/// and when the snapshot brought the figures.
pub open spec fn mem_block(mem: Option<MemInfo>, cfg: ThresholdConfig) -> Seq<char> {
    match mem {
        Some(m) => if cfg.show_free {
            free_stats_lines(m)
        } else {
            Seq::empty()
        },
        None => Seq::empty(),
    }
}

/// The whole text one tick renders: the opening message, the process
/// table, and the optional machine-wide block.
pub open spec fn tick_text(
    records: Seq<ProcessRecordV>,
    root_pid: u64,
    hwm_before: u64,
    cfg: ThresholdConfig,
    mem: Option<MemInfo>,
) -> Seq<char> {
    let t = tree_of(records);
    let a = tick_aggregate_kib(records, root_pid);
    message_line(triggered(a, hwm_before, cfg), a) + report_table(
        t,
        stats_map(t, root_pid),
        root_pid,
        cfg.show_command,
    ) + mem_block(mem, cfg)
}

/// The state the sampling task owns: its phase, the detector, the
/// options it was started with, and the last tick's report when that
/// report was not written — the cancellation path flushes it.
pub struct Monitor {
    pub phase: SamplerPhase,
    pub detector: HighWaterMark,
    pub config: ThresholdConfig,
    pub pending: String,
}

impl Monitor {
    /// The configuration stays well formed for the monitor's lifetime.
    pub open spec fn wf(&self) -> bool {
        self.config.wf()
    }

    /// A monitor about to run its first tick.
    pub fn new(config: ThresholdConfig) -> (m: Monitor)
        requires
            config.wf(),
        ensures
            m.wf(),
            m.phase is Running,
            m.detector.hwm_kib == 0,
            m.detector.tick_index == 0,
            m.pending@ == Seq::<char>::empty(),
            m.config == config,
    {
        Monitor { phase: SamplerPhase::Running, detector: HighWaterMark::new(), config, pending: String::new() }
    }

    /// Runs one tick over a snapshot: builds the tree, sums the watched
    /// subtree, evaluates the thresholds and the cadence, and renders the
    /// report. The report is returned for writing exactly when the tick
    /// triggered or the cadence was due; otherwise it is kept pending for
    /// the cancellation path. A snapshot that no longer resolves the
    /// watched pid reports nothing and leaves the pending buffer alone.
    pub fn on_tick(
        &mut self,
        records: &Vec<ProcessRecord>,
        root_pid: u64,
        mem: Option<MemInfo>,
    ) -> (out: Option<String>)
        requires
            old(self).wf(),
            old(self).phase is Running,
        ensures
            final(self).wf(),
            final(self).phase is Running,
            final(self).config == old(self).config,
            final(self).detector.hwm_kib >= old(self).detector.hwm_kib,
            final(self).detector.tick_index == next_tick(old(self).detector.tick_index),
            ({
                let t = tree_of(records_view(records@));
                let a = tick_aggregate_kib(records_view(records@), root_pid);
                let cfg = old(self).config;
                let hwm0 = old(self).detector.hwm_kib;
                let tick0 = old(self).detector.tick_index;
                let text = tick_text(records_view(records@), root_pid, hwm0, cfg, mem);
                if t.contains_key(root_pid) {
                    &&& final(self).detector.hwm_kib == next_hwm(a, hwm0, cfg)
                    &&& (out is Some <==> report_due(a, hwm0, tick0, cfg))
                    &&& match out {
                        Some(s) => s@ == text && final(self).pending@ == Seq::<char>::empty(),
                        None => final(self).pending@ == text,
                    }
                } else {
                    &&& final(self).detector.hwm_kib == hwm0
                    &&& out is None
                    &&& final(self).pending@ == old(self).pending@
                }
            }),
    {
        let ghost rv = records_view(records@);
        let process_children = get_process_children(records);
        let process_memory = compute_memory_stats(root_pid, &process_children);
        proof {
            assert(table_view(process_children@) == tree_of(rv));
        }
        match process_memory.get(&root_pid) {
            Some(stats) => {
                let aggregate_kib = stats.aggregate_kib;
                proof {
                    assert(tree_of(rv).contains_key(root_pid));
                    assert(aggregate_kib == tick_aggregate_kib(rv, root_pid));
                }
                let decision = self.detector.observe(aggregate_kib, &self.config);
                let mut buffer = String::new();
                write_message_line(&mut buffer, decision.triggered, aggregate_kib);
                print_stats(
                    &mut buffer,
                    root_pid,
                    &process_children,
                    &process_memory,
                    &self.config,
                );
                if self.config.show_free {
                    match &mem {
                        Some(m) => write_free_stats(&mut buffer, m),
                        None => {},
                    }
                }
                proof {
                    assert(buffer@ =~= tick_text(
                        rv,
                        root_pid,
                        old(self).detector.hwm_kib,
                        old(self).config,
                        mem,
                    ));
                }
                if decision.report {
                    self.pending = String::new();
                    Some(buffer)
                } else {
                    self.pending = buffer;
                    None
                }
            },
            None => {
                proof {
                    assert(!tree_of(rv).contains_key(root_pid));
                }
                self.detector.skip_tick();
                None
            },
        }
    }

    /// Takes the cancellation signal: the task enters its draining phase,
    /// and hands back the pending report — exactly once, and only when
    /// one is pending — for the caller to flush.
    pub fn on_cancelled(&mut self) -> (flush: Option<String>)
        requires
            old(self).phase is Running,
        ensures
            final(self).phase is Draining,
            final(self).pending@ == Seq::<char>::empty(),
            final(self).detector == old(self).detector,
            final(self).config == old(self).config,
            match flush {
                Some(s) => old(self).pending@.len() > 0 && s@ == old(self).pending@,
                None => old(self).pending@.len() == 0,
            },
    {
        self.phase = SamplerPhase::Draining;
        if !self.pending.as_str().is_empty() {
            let out = self.pending.clone();
            self.pending = String::new();
            Some(out)
        } else {
            proof {
                assert(self.pending@ =~= Seq::<char>::empty());
            }
            None
        }
    }

    /// The drain is done: the task stops. Nothing is flushed twice, since
    /// only the draining phase leads here and it holds nothing pending.
    pub fn on_drained(&mut self)
        requires
            old(self).phase is Draining,
        ensures
            final(self).phase is Stopped,
            final(self).pending@ == old(self).pending@,
            final(self).detector == old(self).detector,
            final(self).config == old(self).config,
    {
        self.phase = SamplerPhase::Stopped;
    }
}

} // verus!

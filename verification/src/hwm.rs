//! High-Water-Mark Detector: the stateful threshold evaluator that decides,
//! tick by tick, whether the watched tree's aggregate memory deserves a
//! report.
//!
//! The relative threshold is a fraction `num / den`; the test
//! `A > hwm * (1 + num/den)` is evaluated exactly over the integers as
//! `A * den > hwm * (den + num)`.
use vstd::prelude::*;

verus! {

/// What the caller asked the detector to look for, together with the other
/// per-run options a tick consumes.
#[derive(Clone, Copy)]
pub struct ThresholdConfig {
    /// The minimum increase, in KiB, over the high water mark required to
    /// report.
    pub threshold_absolute: u64,
    /// Numerator of the minimum relative increase over the high water mark.
    pub threshold_relative_num: u64,
    /// Denominator of the minimum relative increase; at least 1.
    pub threshold_relative_den: u64,
    /// How often to sample, in milliseconds.
    pub check_interval_ms: u64,
    /// Report every Nth tick regardless of the thresholds; `None` or zero
    /// disables the cadence.
    pub report_every_nth: Option<u8>,
    /// Append machine-wide memory figures to each report.
    pub show_free: bool,
    /// Append each process's argument list beneath its line.
    pub show_command: bool,
}

impl ThresholdConfig {
    /// The fraction is well formed and small enough that the cross products
    /// of the relative test fit in a `u128`.
    pub open spec fn wf(&self) -> bool {
        &&& self.threshold_relative_den >= 1
        &&& self.threshold_relative_num + self.threshold_relative_den <= u64::MAX
    }

    /// Run-time check of `wf`, for callers that take the fraction from
    /// outside input.
    pub fn is_wf(&self) -> (b: bool)
        ensures
            b == self.wf(),
    {
        self.threshold_relative_den >= 1 && self.threshold_relative_num
            <= u64::MAX - self.threshold_relative_den
    }
}

/// `A > hwm + thresholdAbsolute`.
pub open spec fn exceeds_absolute(aggregate_kib: u64, hwm_kib: u64, cfg: ThresholdConfig) -> bool {
    aggregate_kib > hwm_kib + cfg.threshold_absolute
}

/// `A > hwm * (1 + thresholdRelative)`, evaluated exactly as
/// `A * den > hwm * (den + num)`.
pub open spec fn exceeds_relative(aggregate_kib: u64, hwm_kib: u64, cfg: ThresholdConfig) -> bool {
    (aggregate_kib as int) * (cfg.threshold_relative_den as int) > (hwm_kib as int) * (
    cfg.threshold_relative_den + cfg.threshold_relative_num)
}

/// A tick reaches a new high water mark iff both threshold tests hold.
pub open spec fn triggered(aggregate_kib: u64, hwm_kib: u64, cfg: ThresholdConfig) -> bool {
    exceeds_absolute(aggregate_kib, hwm_kib, cfg) && exceeds_relative(aggregate_kib, hwm_kib, cfg)
}

/// The periodic cadence is due on every tick whose index is a multiple of
/// the configured N; a missing or zero N disables it.
pub open spec fn periodic_due(tick_index: u64, cfg: ThresholdConfig) -> bool {
    match cfg.report_every_nth {
        Some(n) => n > 0 && tick_index % (n as u64) == 0,
        None => false,
    }
}

/// A report is emitted iff the thresholds were met or the cadence is due.
pub open spec fn report_due(aggregate_kib: u64, hwm_kib: u64, tick_index: u64, cfg: ThresholdConfig) -> bool {
    triggered(aggregate_kib, hwm_kib, cfg) || periodic_due(tick_index, cfg)
}

/// The high water mark after one tick: raised to the aggregate exactly
/// when the tick triggered, otherwise unchanged.
pub open spec fn next_hwm(aggregate_kib: u64, hwm_kib: u64, cfg: ThresholdConfig) -> u64 {
    if triggered(aggregate_kib, hwm_kib, cfg) {
        aggregate_kib
    } else {
        hwm_kib
    }
}

/// The tick counter after one tick; it wraps rather than stopping.
pub open spec fn next_tick(tick_index: u64) -> u64 {
    if tick_index == u64::MAX {
        0
    } else {
        (tick_index + 1) as u64
    }
}

/// What one tick decided.
#[derive(Clone, Copy, PartialEq, Eq, Structural)]
pub struct TickDecision {
    pub triggered: bool,
    pub periodic_due: bool,
    pub report: bool,
}

/// The detector's state across ticks: the high water mark in KiB, which
/// never decreases, and the index of the next tick.
#[derive(Clone, Copy, PartialEq, Eq, Structural)]
pub struct HighWaterMark {
    pub hwm_kib: u64,
    pub tick_index: u64,
}

impl HighWaterMark {
    /// A fresh detector: no high water mark yet, about to run tick 0.
    pub fn new() -> (s: Self)
        ensures
            s.hwm_kib == 0,
            s.tick_index == 0,
    {
        HighWaterMark { hwm_kib: 0, tick_index: 0 }
    }

    /// Advances the tick counter without evaluating anything: the index
    /// moves on every tick, also when the watched pid has vanished from
    /// the snapshot and there is no aggregate to judge.
    pub fn skip_tick(&mut self)
        ensures
            final(self).hwm_kib == old(self).hwm_kib,
            final(self).tick_index == next_tick(old(self).tick_index),
    {
        self.tick_index = if self.tick_index == u64::MAX {
            0
        } else {
            self.tick_index + 1
        };
    }

    /// Evaluates one tick's aggregate against the thresholds and the
    /// cadence, raises the high water mark when the tick triggered, and
    /// advances the tick counter unconditionally.
    pub fn observe(&mut self, aggregate_kib: u64, cfg: &ThresholdConfig) -> (d: TickDecision)
        requires
            cfg.wf(),
        ensures
            d.triggered == triggered(aggregate_kib, old(self).hwm_kib, *cfg),
            d.periodic_due == periodic_due(old(self).tick_index, *cfg),
            d.report == report_due(aggregate_kib, old(self).hwm_kib, old(self).tick_index, *cfg),
            final(self).hwm_kib == next_hwm(aggregate_kib, old(self).hwm_kib, *cfg),
            final(self).tick_index == next_tick(old(self).tick_index),
            final(self).hwm_kib >= old(self).hwm_kib,
    {
        let met_threshold_absolute: bool = if self.hwm_kib <= u64::MAX - cfg.threshold_absolute {
            aggregate_kib > self.hwm_kib + cfg.threshold_absolute
        } else {
            false
        };
        proof {
            lemma_u64_products_fit(aggregate_kib, self.hwm_kib, *cfg);
        }
        let a_lhs: u128 = (aggregate_kib as u128) * (cfg.threshold_relative_den as u128);
        let a_rhs: u128 = (self.hwm_kib as u128) * ((cfg.threshold_relative_den as u128)
            + (cfg.threshold_relative_num as u128));
        let met_threshold_relative: bool = a_lhs > a_rhs;
        let met_thresholds = met_threshold_absolute && met_threshold_relative;
        let print_anyway: bool = match cfg.report_every_nth {
            Some(n) => n > 0 && self.tick_index % (n as u64) == 0,
            None => false,
        };
        if met_thresholds {
            self.hwm_kib = aggregate_kib;
        }
        self.tick_index = if self.tick_index == u64::MAX {
            0
        } else {
            self.tick_index + 1
        };
        TickDecision {
            triggered: met_thresholds,
            periodic_due: print_anyway,
            report: met_thresholds || print_anyway,
        }
    }
}

/// The cross products of the relative test stay within `u128`, so the
/// executable comparison means what `exceeds_relative` says.
proof fn lemma_u64_products_fit(aggregate_kib: u64, hwm_kib: u64, cfg: ThresholdConfig)
    requires
        cfg.wf(),
    ensures
        (aggregate_kib as int) * (cfg.threshold_relative_den as int) <= u128::MAX,
        (hwm_kib as int) * (cfg.threshold_relative_den + cfg.threshold_relative_num) <= u128::MAX,
{
    let a = aggregate_kib as int;
    let h = hwm_kib as int;
    let d = cfg.threshold_relative_den as int;
    let s = cfg.threshold_relative_den + cfg.threshold_relative_num as int;
    assert(a * d <= u64::MAX * u64::MAX) by (nonlinear_arith)
        requires
            0 <= a <= u64::MAX,
            0 <= d <= u64::MAX,
    ;
    assert(h * s <= u64::MAX * u64::MAX) by (nonlinear_arith)
        requires
            0 <= h <= u64::MAX,
            0 <= s <= u64::MAX,
    ;
}

/// The high water mark left after running a sequence of tick aggregates,
/// oldest first, through the detector.
pub open spec fn hwm_after(hwm0: u64, aggregates: Seq<u64>, cfg: ThresholdConfig) -> u64
    decreases aggregates.len(),
{
    if aggregates.len() == 0 {
        hwm0
    } else {
        next_hwm(aggregates.last(), hwm_after(hwm0, aggregates.drop_last(), cfg), cfg)
    }
}

/// Law: the high water mark is non-decreasing across any sequence of
/// ticks.
pub proof fn lemma_hwm_monotonic(hwm0: u64, aggregates: Seq<u64>, cfg: ThresholdConfig)
    ensures
        hwm_after(hwm0, aggregates, cfg) >= hwm0,
    decreases aggregates.len(),
{
    if aggregates.len() > 0 {
        lemma_hwm_monotonic(hwm0, aggregates.drop_last(), cfg);
    }
}

/// Law: while the high water mark is still zero, the relative test asks
/// only that any memory shows at all, so the first tick is gated by the
/// absolute threshold alone.
pub proof fn lemma_zero_mark_relative(aggregate_kib: u64, cfg: ThresholdConfig)
    requires
        cfg.wf(),
    ensures
        exceeds_relative(aggregate_kib, 0, cfg) == (aggregate_kib > 0),
{
    let a = aggregate_kib as int;
    let d = cfg.threshold_relative_den as int;
    assert((a * d > 0) == (a > 0)) by (nonlinear_arith)
        requires
            d >= 1,
    ;
}

/// Law: with a zero relative threshold, the relative test degenerates to
/// a strict comparison against the high water mark alone.
pub proof fn lemma_relative_zero_degenerates(aggregate_kib: u64, hwm_kib: u64, cfg: ThresholdConfig)
    requires
        cfg.wf(),
        cfg.threshold_relative_num == 0,
    ensures
        exceeds_relative(aggregate_kib, hwm_kib, cfg) == (aggregate_kib > hwm_kib),
{
    let a = aggregate_kib as int;
    let h = hwm_kib as int;
    let d = cfg.threshold_relative_den as int;
    assert((a * d > h * d) == (a > h)) by (nonlinear_arith)
        requires
            d >= 1,
    ;
}

} // verus!

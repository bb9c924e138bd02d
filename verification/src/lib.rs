//! Watches a process tree's memory. A snapshot of the OS process table is
//! turned into a parent→children index, the watched pid's subtree is
//! summed post-order, the sum is held against a high-water-mark detector
//! with an absolute and a relative threshold, and a report is rendered
//! when either the thresholds or a periodic cadence says so. The sampling
//! loop's decisions — including the drain on cancellation — live in
//! [`monitor::Monitor`]; the loop itself, the timer and the output sink
//! stay outside the library.
pub mod process;
pub mod tree;
pub mod stats;
pub mod hwm;
pub mod render;
pub mod monitor;
pub mod snapshot;

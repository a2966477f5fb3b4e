//! Sampling-and-delta computation for Linux host telemetry.
//!
//! The kernel exposes cumulative counters as text. This library turns one read
//! of such a text into a snapshot of counter rows, and two snapshots taken some
//! time apart into exact utilisation shares and throughput ratios. Reading the
//! files and waiting between the two reads is left to the caller.
#![allow(non_snake_case)]

pub mod delta;
pub mod sampling;
pub mod snapshot;
pub mod text;

pub use delta::{
    compute_cpu_delta, compute_network_delta, CpuUsage, NetworkRate, ProcessorUsage, Ratio,
};
pub use sampling::{
    cpuUsage, finish_cpu_sample, finish_network_sample, getRate, getStats, networkRate,
    take_reading, SamplingConfig,
};
pub use snapshot::{parse_snapshot, Family, SampleError, Snapshot};

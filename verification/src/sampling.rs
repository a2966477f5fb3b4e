//! The two sampling operations, from the texts read to the result.
//!
//! The caller reads the counter source, waits, and reads it again; these
//! functions do the rest, either both texts at once or one text at a time, so
//! that a failure of the first read is known before the wait. A source that
//! could not be read is handed over as an empty text.
use vstd::prelude::*;
use crate::delta::{
    column_total, compute_cpu_delta, compute_network_delta, cpu_delta, network_delta, received,
    transmitted, CpuUsage, CpuUsageView, NetworkRate,
};
use crate::snapshot::{is_parse_of, parse, parse_snapshot, Family, SampleError, Snapshot};

verus! {

/// How long to wait between the two reads of a counter source.
#[derive(Clone, Copy, Debug, PartialEq, Eq, Structural)]
pub struct SamplingConfig {
    /// Milliseconds between the two reads of the processor counters: a longer
    /// wait gives a finer result and a slower answer.
    pub cpuSampleIntervalMs: u64,
    /// Milliseconds between the two reads of the interface counters: the
    /// window over which the throughput is averaged.
    pub networkSampleIntervalMs: u64,
}

impl Default for SamplingConfig {
    /// A quarter of a second for the processors, half a second for the network.
    fn default() -> (r: SamplingConfig)
        ensures
            r.cpuSampleIntervalMs == 250,
            r.networkSampleIntervalMs == 500,
    {
        SamplingConfig { cpuSampleIntervalMs: 250, networkSampleIntervalMs: 500 }
    }
}

/// Parses the text of the processor counters.
pub fn getStats(text: &[u8]) -> (r: Result<Snapshot, SampleError>)
    ensures
        is_parse_of(r, text@, Family::Cpu),
{
    parse_snapshot(text, Family::Cpu)
}

/// The traffic totals that a text of interface counters holds: received and
/// transmitted bytes, each summed over the interfaces.
pub open spec fn totals(text: Seq<u8>) -> Result<(int, int), SampleError> {
    match parse(text, Family::Network) {
        Ok(rows) => Ok((received(rows), transmitted(rows))),
        Err(e) => Err(e),
    }
}

/// Parses the text of the interface counters and adds up the received and the
/// transmitted bytes of all interfaces.
pub fn getRate(text: &[u8]) -> (r: Result<(u128, u128), SampleError>)
    ensures
        match r {
            Ok(t) => totals(text@) == Ok::<(int, int), SampleError>((t.0 as int, t.1 as int)),
            Err(e) => totals(text@) == Err::<(int, int), SampleError>(e),
        },
{
    match parse_snapshot(text, Family::Network) {
        Ok(s) => {
            let down = column_total(&s, 0);
            let up = column_total(&s, 8);
            Ok((down, up))
        },
        Err(e) => Err(e),
    }
}

impl SamplingConfig {
    /// The configured wait for a family of counters, in milliseconds.
    pub open spec fn interval(self, family: Family) -> u64 {
        match family {
            Family::Cpu => self.cpuSampleIntervalMs,
            Family::Network => self.networkSampleIntervalMs,
        }
    }

    /// Executable form of [`SamplingConfig::interval`].
    pub fn interval_ms(&self, family: Family) -> (ms: u64)
        ensures
            ms == self.interval(family),
    {
        match family {
            Family::Cpu => self.cpuSampleIntervalMs,
            Family::Network => self.networkSampleIntervalMs,
        }
    }
}

/// What one read of a counter source gives: no text stands for a source that
/// could not be read, any other text is parsed.
pub open spec fn read_result(text: Seq<u8>, family: Family) -> Result<
    Seq<Seq<usize>>,
    SampleError,
> {
    if text.len() == 0 {
        Err(SampleError::SourceUnavailable)
    } else {
        parse(text, family)
    }
}

/// What an earlier reading of the processor counters and the text of a later
/// read show.
pub open spec fn cpu_usage_since(first: Seq<Seq<usize>>, text: Seq<u8>) -> Result<
    CpuUsageView,
    SampleError,
> {
    match read_result(text, Family::Cpu) {
        Err(e) => Err(e),
        Ok(second) => cpu_delta(first, second),
    }
}

/// What an earlier reading of the interface counters and the text of a read
/// made `elapsed_ms` milliseconds later show.
pub open spec fn network_rate_since(
    first: Seq<Seq<usize>>,
    text: Seq<u8>,
    elapsed_ms: int,
) -> Result<NetworkRate, SampleError> {
    match read_result(text, Family::Network) {
        Err(e) => Err(e),
        Ok(second) => network_delta(first, second, elapsed_ms),
    }
}

/// What two texts of the processor counters show. The earlier text is dealt
/// with first, so its failure comes first.
pub open spec fn cpu_usage(before: Seq<u8>, after: Seq<u8>) -> Result<CpuUsageView, SampleError> {
    match read_result(before, Family::Cpu) {
        Err(e) => Err(e),
        Ok(first) => cpu_usage_since(first, after),
    }
}

/// What two texts of the interface counters show over `elapsed_ms`
/// milliseconds. The earlier text is dealt with first, so its failure comes
/// first.
pub open spec fn network_rate(before: Seq<u8>, after: Seq<u8>, elapsed_ms: int) -> Result<
    NetworkRate,
    SampleError,
> {
    match read_result(before, Family::Network) {
        Err(e) => Err(e),
        Ok(first) => network_rate_since(first, after, elapsed_ms),
    }
}

/// Takes in one read of a counter source. A failure here is known before any
/// waiting is done.
pub fn take_reading(text: &[u8], family: Family) -> (r: Result<Snapshot, SampleError>)
    ensures
        match r {
            Ok(s) => read_result(text@, family) == Ok::<Seq<Seq<usize>>, SampleError>(s@),
            Err(e) => read_result(text@, family) == Err::<Seq<Seq<usize>>, SampleError>(e),
        },
{
    if text.len() == 0 {
        return Err(SampleError::SourceUnavailable);
    }
    parse_snapshot(text, family)
}

/// Derives processor usage from an earlier reading and the text of a later read.
pub fn finish_cpu_sample(first: &Snapshot, text: &[u8]) -> (r: Result<CpuUsage, SampleError>)
    ensures
        match r {
            Ok(u) => cpu_usage_since(first@, text@) == Ok::<CpuUsageView, SampleError>(u@),
            Err(e) => cpu_usage_since(first@, text@) == Err::<CpuUsageView, SampleError>(e),
        },
{
    match take_reading(text, Family::Cpu) {
        Ok(second) => compute_cpu_delta(first, &second),
        Err(e) => Err(e),
    }
}

/// Derives the traffic rate from an earlier reading and the text of a read
/// made `elapsed_ms` milliseconds later.
pub fn finish_network_sample(first: &Snapshot, text: &[u8], elapsed_ms: u64) -> (r: Result<
    NetworkRate,
    SampleError,
>)
    ensures
        r == network_rate_since(first@, text@, elapsed_ms as int),
{
    match take_reading(text, Family::Network) {
        Ok(second) => compute_network_delta(first, &second, elapsed_ms),
        Err(e) => Err(e),
    }
}

/// Derives processor usage from two reads of the processor counters. An empty
/// text stands for a source that could not be read.
pub fn cpuUsage(before: &[u8], after: &[u8]) -> (r: Result<CpuUsage, SampleError>)
    ensures
        match r {
            Ok(u) => cpu_usage(before@, after@) == Ok::<CpuUsageView, SampleError>(u@),
            Err(e) => cpu_usage(before@, after@) == Err::<CpuUsageView, SampleError>(e),
        },
{
    match take_reading(before, Family::Cpu) {
        Ok(first) => finish_cpu_sample(&first, after),
        Err(e) => Err(e),
    }
}

/// Derives the traffic rate from two reads of the interface counters taken
/// `elapsed_ms` milliseconds apart. An empty text stands for a source that
/// could not be read.
pub fn networkRate(before: &[u8], after: &[u8], elapsed_ms: u64) -> (r: Result<
    NetworkRate,
    SampleError,
>)
    ensures
        r == network_rate(before@, after@, elapsed_ms as int),
{
    match take_reading(before, Family::Network) {
        Ok(first) => finish_network_sample(&first, after, elapsed_ms),
        Err(e) => Err(e),
    }
}

} // verus!

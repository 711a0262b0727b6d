use vstd::arithmetic::div_mod::{lemma_fundamental_div_mod, lemma_mod_pos_bound};
use vstd::prelude::*;

verus! {

/// Milli-events per second in one event per nanosecond.
pub const MILLI_PER_NANO: u128 = 1_000_000_000_000;

/// Throughput in milli-events per second, rounded down: `event_count`
/// events over `duration_ns` nanoseconds, and 0 over an empty window.
pub open spec fn throughput_spec(event_count: nat, duration_ns: nat) -> nat {
    if duration_ns == 0 {
        0
    } else {
        event_count * (MILLI_PER_NANO as nat) / duration_ns
    }
}

/// Events per second, in thousandths, of `event_count` events consumed in a
/// window of `duration_ns` nanoseconds; 0 when the window is empty.
pub fn throughput_milli(event_count: u64, duration_ns: u64) -> (r: u128)
    ensures
        r == throughput_spec(event_count as nat, duration_ns as nat),
{
    if duration_ns == 0 {
        0
    } else {
        assert(event_count as u128 * MILLI_PER_NANO <= u64::MAX as u128 * MILLI_PER_NANO) by (nonlinear_arith);
        (event_count as u128 * MILLI_PER_NANO) / (duration_ns as u128)
    }
}

/// Throughput is the event count divided by the duration: over a non-empty
/// window it is the largest `t` with `t * duration <= count` (in the unit of
/// milli-events per second), and over an empty window it is zero.
pub proof fn lemma_throughput_is_count_over_duration(event_count: nat, duration_ns: nat)
    ensures
        duration_ns == 0 ==> throughput_spec(event_count, duration_ns) == 0,
        duration_ns > 0 ==> throughput_spec(event_count, duration_ns) * duration_ns <= event_count * (MILLI_PER_NANO as nat),
        duration_ns > 0 ==> event_count * (MILLI_PER_NANO as nat) < (throughput_spec(event_count, duration_ns) + 1) * duration_ns,
{
    if duration_ns > 0 {
        let x = (event_count * (MILLI_PER_NANO as nat)) as int;
        let d = duration_ns as int;
        lemma_fundamental_div_mod(x, d);
        lemma_mod_pos_bound(x, d);
        let t = x / d;
        assert(t * d + d == (t + 1) * d) by (nonlinear_arith);
        assert(d * t == t * d) by (nonlinear_arith);
    }
}

/// A diagnostic recorded into a run's result; none of them aborts the run.
#[derive(Debug, Clone, Copy, PartialEq, Eq)]
pub enum RunError {
    /// The commit counter disagrees with the number of records consumed.
    CounterMismatch { committed: u64, consumed: u64 },
}

/// The summary of one measurement window.
#[derive(Debug, PartialEq, Eq)]
pub struct BenchmarkResult {
    pub name: String,
    pub language: String,
    pub program_type: String,
    pub data_mechanism: String,
    /// Measured length of the window, in nanoseconds.
    pub duration_ns: u64,
    /// Records consumed in the window.
    pub event_count: u64,
    /// Consumed records per second, in thousandths.
    pub throughput_milli: u128,
    /// Estimate of the bytes held by retained records.
    pub memory_usage: u64,
    pub start_time: String,
    pub end_time: String,
    /// Distinct CPU ids of the consumed records, ascending.
    pub cpu_ids: Vec<u32>,
    pub errors: Vec<RunError>,
}

/// Two results agree in every field.
pub open spec fn same_result(a: BenchmarkResult, b: BenchmarkResult) -> bool {
    &&& a.name@ == b.name@
    &&& a.language@ == b.language@
    &&& a.program_type@ == b.program_type@
    &&& a.data_mechanism@ == b.data_mechanism@
    &&& a.duration_ns == b.duration_ns
    &&& a.event_count == b.event_count
    &&& a.throughput_milli == b.throughput_milli
    &&& a.memory_usage == b.memory_usage
    &&& a.start_time@ == b.start_time@
    &&& a.end_time@ == b.end_time@
    &&& a.cpu_ids@ == b.cpu_ids@
    &&& a.errors@ == b.errors@
}

} // verus!

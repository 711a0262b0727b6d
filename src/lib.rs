//! A bounded kernel-to-userspace event transport, the probe that feeds it,
//! the collector that drains it and the throughput report of a measurement
//! window, each with a verified contract.

mod benchmark;
mod clock;
mod counters;
mod event;
mod probe;
mod report;
mod ringbuf;

pub use benchmark::{
    lemma_drained_run_has_no_mismatch, lemma_results_are_reproducible, RingBufferBenchmark, Step, BASE_FIRINGS_PER_TICK, DEFAULT_CAPACITY,
    FIRINGS_PER_CPU, NANOS_PER_SEC,
};
pub use counters::{CounterTable, COMMIT_INDEX, COUNTER_MODULUS, COUNTER_SLOTS};
pub use event::{Event, EVENT_SIZE, EVENT_TYPE_TRACEPOINT};
pub use probe::{lemma_commit_counter_is_exact, ringbuf_throughput, try_ringbuf_throughput, ProbeContext};
pub use report::{lemma_throughput_is_count_over_duration, throughput_milli, BenchmarkResult, RunError, MILLI_PER_NANO};
pub use ringbuf::{
    lemma_commit_order_is_consume_order, lemma_never_over_capacity, Handle, RingBuffer, TransportError, TransportOp,
};

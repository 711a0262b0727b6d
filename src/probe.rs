use vstd::prelude::*;

use crate::counters::{bumped, zeroed_table, CounterTable, COMMIT_INDEX, COUNTER_SLOTS};
use crate::event::{Event, EVENT_SIZE, EVENT_TYPE_TRACEPOINT};
use crate::ringbuf::RingBuffer;

verus! {

/// What the trace-point context supplies to one firing of the probe.
#[derive(Debug, Clone, Copy, PartialEq, Eq)]
pub struct ProbeContext {
    /// Monotonic clock at the firing, in nanoseconds.
    pub timestamp: u64,
    /// Thread-group id in the upper 32 bits, thread id in the lower.
    pub pid_tgid: u64,
    /// Logical CPU the trace point fired on.
    pub cpu_id: u32,
    /// Payload or sequence value to carry.
    pub data: u32,
}

/// The record that one firing with `ctx` emits.
pub open spec fn event_of(ctx: ProbeContext) -> Event {
    Event {
        timestamp: ctx.timestamp,
        pid: (ctx.pid_tgid >> 32u64) as u32,
        cpu_id: ctx.cpu_id,
        event_type: EVENT_TYPE_TRACEPOINT,
        data: ctx.data,
    }
}

/// The counter table after one firing: the commit counter moves on success,
/// and nothing changes on a drop.
pub open spec fn counted(t: Seq<u64>, committed: bool) -> Seq<u64> {
    if committed {
        bumped(t, COMMIT_INDEX as int)
    } else {
        t
    }
}

/// One firing of the probe: a single reserve, fill and commit of an
/// `EVENT_SIZE` record, never waiting for space. `Ok(0)` when the record was
/// published, `Err(1)` when the transport was full and the event dropped;
/// counting drops is left to the caller.
pub fn try_ringbuf_throughput(ring: &mut RingBuffer, counters: &mut CounterTable, ctx: ProbeContext) -> (r: Result<u32, u32>)
    requires
        old(ring).wf(),
        old(counters).wf(),
    ensures
        final(ring).wf(),
        final(counters).wf(),
        final(ring).cap() == old(ring).cap(),
        r.is_ok() <==> old(ring).used() + EVENT_SIZE <= old(ring).cap() && !old(ring).handles_exhausted(),
        r.is_ok() ==> r == Ok::<u32, u32>(0) && final(ring).ready() == old(ring).ready().push((EVENT_SIZE, event_of(ctx))),
        r.is_err() ==> r == Err::<u32, u32>(1) && final(ring).ready() == old(ring).ready(),
        final(ring).pending() == old(ring).pending(),
        final(ring).used() == old(ring).used() + (if r.is_ok() { EVENT_SIZE } else { 0 }),
        old(ring).pending().len() == 0 && old(ring).next_handle() == 0 ==> final(ring).next_handle() == 0,
        final(counters)@ == counted(old(counters)@, r.is_ok()),
{
    let h = match ring.reserve(EVENT_SIZE) {
        Ok(h) => h,
        Err(_) => {
            return Err(1);
        },
    };
    let pid_tgid: u64 = ctx.pid_tgid;
    assert((pid_tgid >> 32u64) <= u32::MAX as u64) by (bit_vector);
    let event = Event {
        timestamp: ctx.timestamp,
        pid: (pid_tgid >> 32u64) as u32,
        cpu_id: ctx.cpu_id,
        event_type: EVENT_TYPE_TRACEPOINT,
        data: ctx.data,
    };
    let ghost mid = ring.pending();
    let published = ring.commit(h, event);
    proof {
        assert(published);
        let i = choose|i: int| 0 <= i < mid.len() && mid[i].0 == h.id()
            && ring.pending() == mid.remove(i)
            && ring.ready() == old(ring).ready().push((mid[i].1, event));
        if i < mid.len() - 1 {
            assert(old(ring).pending()[i] == mid[i]);
        }
        assert(mid.remove(mid.len() - 1) =~= old(ring).pending());
    }
    counters.increment(COMMIT_INDEX);
    Ok(0)
}

/// The trace-point entry: fires the probe once and reports 0 on a publish,
/// 1 on a drop.
pub fn ringbuf_throughput(ring: &mut RingBuffer, counters: &mut CounterTable, ctx: ProbeContext) -> (r: u32)
    requires
        old(ring).wf(),
        old(counters).wf(),
    ensures
        final(ring).wf(),
        final(counters).wf(),
        final(ring).cap() == old(ring).cap(),
        final(ring).pending() == old(ring).pending(),
        final(ring).used() == old(ring).used() + (if r == 0 { EVENT_SIZE } else { 0 }),
        old(ring).pending().len() == 0 && old(ring).next_handle() == 0 ==> final(ring).next_handle() == 0,
        r == 0 <==> old(ring).used() + EVENT_SIZE <= old(ring).cap() && !old(ring).handles_exhausted(),
        r == 0 ==> final(ring).ready() == old(ring).ready().push((EVENT_SIZE, event_of(ctx))),
        r != 0 ==> r == 1 && final(ring).ready() == old(ring).ready(),
        final(counters)@ == counted(old(counters)@, r == 0),
{
    match try_ringbuf_throughput(ring, counters, ctx) {
        Ok(ret) => ret,
        Err(ret) => ret,
    }
}

/// Number of entries of `outcomes` equal to `v`.
pub open spec fn count_of(outcomes: Seq<bool>, v: bool) -> nat
    decreases outcomes.len(),
{
    if outcomes.len() == 0 {
        0
    } else {
        count_of(outcomes.drop_last(), v) + if outcomes.last() == v { 1nat } else { 0nat }
    }
}

/// The counter table after firings with the given outcomes, in order
/// (`true` for a published record, `false` for a drop).
pub open spec fn counted_all(t: Seq<u64>, outcomes: Seq<bool>) -> Seq<u64>
    decreases outcomes.len(),
{
    if outcomes.len() == 0 {
        t
    } else {
        counted(counted_all(t, outcomes.drop_last()), outcomes.last())
    }
}

/// Starting from a zeroed table, the commit counter after any run of firings
/// equals exactly the number of records published, and every other slot
/// stays zero. Consumption never touches the table, so this holds however
/// the consumer's draining interleaves with the firings.
pub proof fn lemma_commit_counter_is_exact(outcomes: Seq<bool>)
    requires
        count_of(outcomes, true) <= u64::MAX,
    ensures
        counted_all(zeroed_table(), outcomes).len() == COUNTER_SLOTS,
        counted_all(zeroed_table(), outcomes)[COMMIT_INDEX as int] == count_of(outcomes, true),
        forall|i: int| 0 <= i < COUNTER_SLOTS && i != COMMIT_INDEX ==>
            #[trigger] counted_all(zeroed_table(), outcomes)[i] == 0,
    decreases outcomes.len(),
{
    if outcomes.len() > 0 {
        let prefix = outcomes.drop_last();
        lemma_commit_counter_is_exact(prefix);
    }
}

} // verus!

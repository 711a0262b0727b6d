use std::collections::VecDeque;
use vstd::prelude::*;

use crate::event::Event;

verus! {

/// Why a reservation was refused.
#[derive(Debug, Clone, Copy, PartialEq, Eq)]
pub enum TransportError {
    /// The region lacks the requested bytes beside the data not yet consumed.
    BufferFull,
}

/// A claim on a reserved, not yet committed, byte range of a `RingBuffer`.
/// It is consumed by `commit`, so a slot is published at most once. It names
/// the reservation by an id that is unique among the outstanding
/// reservations of the buffer that issued it; buffers do not tell their
/// handles apart, so a handle must go back to the buffer that issued it.
#[derive(Debug)]
pub struct Handle {
    id: u64,
}

impl Handle {
    pub closed spec fn id(self) -> u64 {
        self.id
    }
}

/// A bounded, byte-capacity-limited transport. A producer reserves a byte
/// range, fills it and commits it; only committed records are visible to the
/// single consumer, which takes them in commit order.
pub struct RingBuffer {
    capacity: u64,
    used: u64,
    next_id: u64,
    /// Outstanding reservations, `(handle id, size)`, in reservation order.
    pending: Vec<(u64, u64)>,
    /// Committed records not yet consumed, `(size, record)`, in commit order.
    ready: VecDeque<(u64, Event)>,
}

/// Bytes held by a sequence of outstanding reservations.
pub open spec fn pending_bytes(s: Seq<(u64, u64)>) -> nat
    decreases s.len(),
{
    if s.len() == 0 {
        0
    } else {
        pending_bytes(s.drop_last()) + s.last().1 as nat
    }
}

/// Bytes held by a sequence of committed, unconsumed records.
pub open spec fn ready_bytes(s: Seq<(u64, Event)>) -> nat
    decreases s.len(),
{
    if s.len() == 0 {
        0
    } else {
        ready_bytes(s.drop_last()) + s.last().0 as nat
    }
}

/// The records, without their sizes, of a queue of committed records.
pub open spec fn records_of(s: Seq<(u64, Event)>) -> Seq<Event> {
    s.map_values(|r: (u64, Event)| r.1)
}

/// What one consumption does to the queue of committed records: the oldest
/// one leaves and is handed out; an empty queue stays empty.
pub open spec fn consume_step(q: Seq<(u64, Event)>) -> (Seq<(u64, Event)>, Option<Event>) {
    if q.len() == 0 {
        (q, None)
    } else {
        (q.drop_first(), Some(q[0].1))
    }
}

proof fn lemma_pending_bytes_remove(s: Seq<(u64, u64)>, i: int)
    requires
        0 <= i < s.len(),
    ensures
        pending_bytes(s) == pending_bytes(s.remove(i)) + s[i].1,
    decreases s.len(),
{
    if i < s.len() - 1 {
        lemma_pending_bytes_remove(s.drop_last(), i);
        assert(s.remove(i).drop_last() =~= s.drop_last().remove(i));
    } else {
        assert(s.remove(i) =~= s.drop_last());
    }
}

proof fn lemma_ready_bytes_drop_first(s: Seq<(u64, Event)>)
    requires
        s.len() > 0,
    ensures
        ready_bytes(s) == s[0].0 + ready_bytes(s.drop_first()),
    decreases s.len(),
{
    if s.len() > 1 {
        lemma_ready_bytes_drop_first(s.drop_last());
        assert(s.drop_first().drop_last() =~= s.drop_last().drop_first());
        assert(s.drop_last()[0] == s[0]);
        assert(s.drop_first().last() == s.last());
    } else {
        assert(s.drop_first() =~= Seq::<(u64, Event)>::empty());
        assert(s.drop_last() =~= Seq::<(u64, Event)>::empty());
    }
}

impl RingBuffer {
    /// The fixed capacity in bytes.
    pub closed spec fn cap(&self) -> nat {
        self.capacity as nat
    }

    /// Outstanding reservations, `(handle id, size)`, oldest first.
    pub closed spec fn pending(&self) -> Seq<(u64, u64)> {
        self.pending@
    }

    /// Committed, unconsumed records with their sizes, in commit order.
    pub closed spec fn ready(&self) -> Seq<(u64, Event)> {
        self.ready@
    }

    /// The id that the next reservation's handle receives.
    pub closed spec fn next_handle(&self) -> u64 {
        self.next_id
    }

    /// Bytes reserved but not yet committed, plus bytes committed but not
    /// yet consumed.
    pub open spec fn used(&self) -> nat {
        pending_bytes(self.pending()) + ready_bytes(self.ready())
    }

    /// No further handle can be issued until the buffer is recreated.
    pub open spec fn handles_exhausted(&self) -> bool {
        self.next_handle() == u64::MAX
    }

    /// Whether `h` names an outstanding reservation of this buffer.
    pub open spec fn holds(&self, h: Handle) -> bool {
        exists|i: int| 0 <= i < self.pending().len() && #[trigger] self.pending()[i].0 == h.id()
    }

    pub closed spec fn wf(&self) -> bool {
        &&& self.used as nat == self.used()
        &&& self.used() <= self.cap()
        &&& forall|i: int| 0 <= i < self.pending@.len() ==> #[trigger] self.pending@[i].0 < self.next_id
        &&& forall|i: int, j: int|
            0 <= i < j < self.pending@.len() ==> #[trigger] self.pending@[i].0 < #[trigger] self.pending@[j].0
    }

    /// An empty transport of `capacity` bytes.
    pub fn new(capacity: u64) -> (r: RingBuffer)
        ensures
            r.wf(),
            r.cap() == capacity,
            r.pending() == Seq::<(u64, u64)>::empty(),
            r.ready() == Seq::<(u64, Event)>::empty(),
            r.next_handle() == 0,
            r.used() == 0,
    {
        RingBuffer { capacity, used: 0, next_id: 0, pending: Vec::new(), ready: VecDeque::new() }
    }

    pub fn capacity(&self) -> (r: u64)
        ensures
            r == self.cap(),
    {
        self.capacity
    }

    /// Bytes reserved or committed and not yet consumed.
    pub fn used_bytes(&self) -> (r: u64)
        requires
            self.wf(),
        ensures
            r == self.used(),
    {
        self.used
    }

    /// Number of reservations not yet committed; a count that stays above
    /// zero past the staging window points at a stalled producer.
    pub fn reserved_count(&self) -> (r: usize)
        ensures
            r == self.pending().len(),
    {
        self.pending.len()
    }

    /// Number of committed records waiting for the consumer.
    pub fn committed_count(&self) -> (r: usize)
        ensures
            r == self.ready().len(),
    {
        self.ready.len()
    }

    /// Claims `size` bytes without making anything visible to the consumer.
    /// Fails at once, changing nothing, when the bytes are not free.
    pub fn reserve(&mut self, size: u64) -> (r: Result<Handle, TransportError>)
        requires
            old(self).wf(),
        ensures
            final(self).wf(),
            final(self).cap() == old(self).cap(),
            final(self).ready() == old(self).ready(),
            r.is_ok() <==> old(self).used() + size <= old(self).cap() && !old(self).handles_exhausted(),
            r.is_ok() ==> final(self).next_handle() == old(self).next_handle() + 1,
            final(self).used() == (if r.is_ok() { old(self).used() + size } else { old(self).used() as int }),
            r.is_ok() ==> final(self).pending() == old(self).pending().push((r.unwrap().id(), size))
                && final(self).holds(r.unwrap())
                && forall|i: int| 0 <= i < old(self).pending().len() ==> #[trigger] old(self).pending()[i].0 != r.unwrap().id(),
            r.is_err() ==> r == Err::<Handle, TransportError>(TransportError::BufferFull)
                && final(self).pending() == old(self).pending()
                && final(self).next_handle() == old(self).next_handle(),
    {
        if size > self.capacity - self.used || self.next_id == u64::MAX {
            return Err(TransportError::BufferFull);
        }
        let id = self.next_id;
        proof {
            assert(self.pending@.push((id, size)).drop_last() =~= self.pending@);
        }
        self.pending.push((id, size));
        self.next_id = id + 1;
        self.used = self.used + size;
        let h = Handle { id };
        assert(self.pending()[self.pending().len() - 1].0 == h.id());
        Ok(h)
    }

    /// Publishes the reservation whose id `h` carries, with `event` as its
    /// content. Returns false, changing nothing, when no outstanding
    /// reservation here has that id.
    pub fn commit(&mut self, h: Handle, event: Event) -> (ok: bool)
        requires
            old(self).wf(),
        ensures
            final(self).wf(),
            final(self).cap() == old(self).cap(),
            final(self).next_handle() == (if ok && final(self).pending().len() == 0 { 0 } else { old(self).next_handle() }),
            ok == old(self).holds(h),
            final(self).used() == old(self).used(),
            ok ==> exists|i: int|
                0 <= i < old(self).pending().len() && old(self).pending()[i].0 == h.id()
                    && final(self).pending() == old(self).pending().remove(i)
                    && final(self).ready() == old(self).ready().push((old(self).pending()[i].1, event)),
            !ok ==> final(self).pending() == old(self).pending() && final(self).ready() == old(self).ready(),
    {
        let n = self.pending.len();
        let mut i: usize = 0;
        while i < n && self.pending[i].0 != h.id
            invariant
                n == self.pending@.len(),
                i <= n,
                forall|k: int| 0 <= k < i ==> #[trigger] self.pending@[k].0 != h.id(),
            decreases n - i,
        {
            i = i + 1;
        }
        if i == n {
            return false;
        }
        assert(self.pending()[i as int].0 == h.id());
        let ghost old_pending = self.pending@;
        let ghost old_ready = self.ready@;
        let (_, size) = self.pending.remove(i);
        proof {
            lemma_pending_bytes_remove(old_pending, i as int);
            assert(old_ready.push((size, event)).drop_last() =~= old_ready);
            assert forall|a: int, b: int| 0 <= a < b < self.pending@.len() implies
                #[trigger] self.pending@[a].0 < #[trigger] self.pending@[b].0 by {
                let a0 = if a < i { a } else { a + 1 };
                let b0 = if b < i { b } else { b + 1 };
                assert(self.pending@[a] == old_pending[a0]);
                assert(self.pending@[b] == old_pending[b0]);
            }
            assert forall|a: int| 0 <= a < self.pending@.len() implies
                #[trigger] self.pending@[a].0 < self.next_id by {
                let a0 = if a < i { a } else { a + 1 };
                assert(self.pending@[a] == old_pending[a0]);
            }
        }
        if self.pending.len() == 0 {
            self.next_id = 0;
        }
        self.ready.push_back((size, event));
        assert(old_pending[i as int].0 == h.id() && self.pending() == old_pending.remove(i as int)
            && self.ready() == old_ready.push((old_pending[i as int].1, event)));
        true
    }

    /// Hands out the oldest committed record, freeing its bytes, or `None`
    /// when nothing is committed.
    pub fn try_consume(&mut self) -> (r: Option<Event>)
        requires
            old(self).wf(),
        ensures
            final(self).wf(),
            final(self).cap() == old(self).cap(),
            final(self).next_handle() == old(self).next_handle(),
            final(self).pending() == old(self).pending(),
            (final(self).ready(), r) == consume_step(old(self).ready()),
            final(self).used() == (if r.is_some() { old(self).used() - old(self).ready()[0].0 } else { old(self).used() as int }),
    {
        let ghost old_ready = self.ready@;
        match self.ready.pop_front() {
            None => None,
            Some((size, event)) => {
                proof {
                    lemma_ready_bytes_drop_first(old_ready);
                }
                self.used = self.used - size;
                Some(event)
            },
        }
    }
}

/// The transport never holds more reserved and unconsumed bytes than its
/// capacity, whatever sequence of calls brought it to its state.
pub proof fn lemma_never_over_capacity(rb: RingBuffer)
    requires
        rb.wf(),
    ensures
        rb.used() <= rb.cap(),
{
}

/// One call on the transport's publish/consume side, as a law speaks of it.
pub enum TransportOp {
    /// A commit of a record of the given size.
    Commit(u64, Event),
    /// A consumption attempt.
    Consume,
}

/// The records committed by `ops`, in order.
pub open spec fn committed_by(ops: Seq<TransportOp>) -> Seq<Event>
    decreases ops.len(),
{
    if ops.len() == 0 {
        Seq::empty()
    } else {
        match ops.last() {
            TransportOp::Commit(_, e) => committed_by(ops.drop_last()).push(e),
            TransportOp::Consume => committed_by(ops.drop_last()),
        }
    }
}

/// Runs `ops` from the queue `q`: the queue that results and the records
/// handed to the consumer, in the order it received them.
pub open spec fn run_ops(q: Seq<(u64, Event)>, ops: Seq<TransportOp>) -> (Seq<(u64, Event)>, Seq<Event>)
    decreases ops.len(),
{
    if ops.len() == 0 {
        (q, Seq::empty())
    } else {
        let prev = run_ops(q, ops.drop_last());
        match ops.last() {
            TransportOp::Commit(s, e) => (prev.0.push((s, e)), prev.1),
            TransportOp::Consume => {
                let step = consume_step(prev.0);
                match step.1 {
                    Some(e) => (step.0, prev.1.push(e)),
                    None => (step.0, prev.1),
                }
            },
        }
    }
}

/// Commit order is consumption order: over any interleaving of commits and
/// consumptions, what the consumer received followed by what still waits is
/// exactly what was waiting at the start followed by what was committed, in
/// commit order. So of two records, the one committed first is consumed first.
pub proof fn lemma_commit_order_is_consume_order(q: Seq<(u64, Event)>, ops: Seq<TransportOp>)
    ensures
        records_of(q) + committed_by(ops) == run_ops(q, ops).1 + records_of(run_ops(q, ops).0),
    decreases ops.len(),
{
    if ops.len() > 0 {
        let prefix = ops.drop_last();
        lemma_commit_order_is_consume_order(q, prefix);
        let prev = run_ops(q, prefix);
        match ops.last() {
            TransportOp::Commit(s, e) => {
                assert(records_of(prev.0.push((s, e))) =~= records_of(prev.0).push(e));
                assert(records_of(q) + committed_by(prefix).push(e) =~= (records_of(q)
                    + committed_by(prefix)).push(e));
                assert(prev.1 + records_of(prev.0).push(e) =~= (prev.1 + records_of(prev.0)).push(e));
            },
            TransportOp::Consume => {
                if prev.0.len() > 0 {
                    assert(prev.1.push(prev.0[0].1) + records_of(prev.0.drop_first()) =~= prev.1
                        + records_of(prev.0));
                }
            },
        }
    }
}

} // verus!

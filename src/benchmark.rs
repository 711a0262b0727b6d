use vstd::arithmetic::div_mod::lemma_small_mod;
use vstd::prelude::*;

use crate::clock::local_timestamp;
use crate::counters::{lemma_bump_tracks_count, zeroed_table, CounterTable, COMMIT_INDEX, COUNTER_MODULUS};
use crate::event::{Event, EVENT_SIZE};
use crate::probe::{counted, counted_all, event_of, ringbuf_throughput, ProbeContext};
use crate::report::{throughput_milli, throughput_spec, BenchmarkResult, RunError, same_result};
use crate::ringbuf::{records_of, RingBuffer};

verus! {

/// Default transport capacity: 256 KiB.
pub const DEFAULT_CAPACITY: u64 = 256 * 1024;

/// Nanoseconds in one second.
pub const NANOS_PER_SEC: u64 = 1_000_000_000;

/// Firings per simulated tick, before those added per CPU.
pub const BASE_FIRINGS_PER_TICK: u64 = 100;

/// Firings added to a simulated tick for each CPU.
pub const FIRINGS_PER_CPU: u64 = 10;

/// What the driver of the measurement loop does next.
#[derive(Debug, Clone, Copy, PartialEq, Eq, Structural)]
pub enum Step {
    /// Back off briefly, then poll again.
    Continue,
    /// The window is closed; the result can be derived.
    Stop,
}

pub open spec fn strictly_ascending(s: Seq<u32>) -> bool {
    forall|i: int, j: int| 0 <= i < j < s.len() ==> s[i] < s[j]
}

/// Some record of `events` fired on CPU `c`.
pub open spec fn has_cpu(events: Seq<Event>, c: u32) -> bool {
    exists|i: int| 0 <= i < events.len() && events[i].cpu_id == c
}

/// Bytes held by `n` retained records, saturating at the largest `u64`.
pub open spec fn retained_bytes(n: nat) -> u64 {
    if n * (EVENT_SIZE as nat) > u64::MAX {
        u64::MAX
    } else {
        (n * (EVENT_SIZE as nat)) as u64
    }
}

/// The diagnostics of a closed window: a mismatch is recorded when the
/// commit counter disagrees with the number of records consumed.
pub open spec fn errors_of(committed: u64, consumed: u64) -> Seq<RunError> {
    if committed != consumed {
        seq![RunError::CounterMismatch { committed, consumed }]
    } else {
        Seq::empty()
    }
}

/// The context of firing `k` of a simulated tick.
pub open spec fn tick_ctx(k: int, num_cpus: u32, timestamp: u64, pid: u32) -> ProbeContext {
    ProbeContext {
        timestamp,
        pid_tgid: ((pid as u64) << 32u64) as u64,
        cpu_id: (k % (num_cpus as int)) as u32,
        data: k as u32,
    }
}

/// Inserts `c` into the strictly ascending `v`, unless it is there already.
fn insert_cpu(v: &mut Vec<u32>, c: u32)
    requires
        strictly_ascending(old(v)@),
    ensures
        strictly_ascending(final(v)@),
        forall|x: u32| final(v)@.contains(x) <==> old(v)@.contains(x) || x == c,
{
    let mut i: usize = 0;
    while i < v.len() && v[i] < c
        invariant
            v@ == old(v)@,
            i <= v@.len(),
            forall|k: int| 0 <= k < i ==> #[trigger] v@[k] < c,
        decreases v@.len() - i,
    {
        i = i + 1;
    }
    if i < v.len() && v[i] == c {
        assert(v@[i as int] == c);
        assert(v@.contains(c));
        return;
    }
    let ghost before = v@;
    v.insert(i, c);
    proof {
        assert forall|a: int, b: int| 0 <= a < b < v@.len() implies v@[a] < v@[b] by {
            if b < i {
                assert(v@[a] == before[a] && v@[b] == before[b]);
            } else if b == i {
                assert(v@[a] == before[a]);
            } else if a < i {
                assert(v@[a] == before[a] && v@[b] == before[b - 1]);
                assert(before[i as int] > c);
                if b - 1 > i {
                    assert(before[i as int] < before[b - 1]);
                }
            } else if a == i {
                assert(v@[b] == before[b - 1]);
                if b - 1 > i {
                    assert(before[i as int] < before[b - 1]);
                }
            } else {
                assert(v@[a] == before[a - 1] && v@[b] == before[b - 1]);
            }
        }
        assert forall|x: u32| v@.contains(x) <==> before.contains(x) || x == c by {
            if v@.contains(x) {
                let k = choose|k: int| 0 <= k < v@.len() && v@[k] == x;
                if k < i {
                    assert(before[k] == x);
                } else if k > i {
                    assert(before[k - 1] == x);
                }
            }
            if before.contains(x) {
                let k = choose|k: int| 0 <= k < before.len() && before[k] == x;
                if k < i {
                    assert(v@[k] == x);
                } else {
                    assert(v@[k + 1] == x);
                }
            }
            if x == c {
                assert(v@[i as int] == c);
            }
        }
        assert(before == old(v)@);
        assert(forall|x: u32| v@.contains(x) <==> old(v)@.contains(x) || x == c);
    }
}

/// One measurement run: the transport, the counter table the probe keeps,
/// and the collector's tally of consumed records and the CPUs they came
/// from, over a wall-clock window.
pub struct RingBufferBenchmark {
    duration_secs: u64,
    verbose: bool,
    ring: RingBuffer,
    counters: CounterTable,
    events: Vec<Event>,
    cpu_ids: Vec<u32>,
    dropped: u64,
    start_time: String,
    end_time: String,
    elapsed_ns: u64,
    closed: bool,
}

impl RingBufferBenchmark {
    pub closed spec fn ring_state(&self) -> RingBuffer {
        self.ring
    }

    pub closed spec fn counter_table(&self) -> Seq<u64> {
        self.counters@
    }

    /// Records consumed so far, in the order they were consumed.
    pub closed spec fn consumed(&self) -> Seq<Event> {
        self.events@
    }

    /// Distinct CPU ids seen in consumed records.
    pub closed spec fn cpus(&self) -> Seq<u32> {
        self.cpu_ids@
    }

    /// Firings dropped because the transport was full, modulo the range of
    /// a 64-bit counter.
    pub closed spec fn drop_total(&self) -> u64 {
        self.dropped
    }

    /// Every CPU id noted is that of a consumed record, and every consumed
    /// record's CPU id is noted, in strictly ascending order.
    pub open spec fn cpus_match(&self) -> bool {
        &&& strictly_ascending(self.cpus())
        &&& forall|c: u32| self.cpus().contains(c) <==> has_cpu(self.consumed(), c)
    }

    pub closed spec fn window_secs(&self) -> u64 {
        self.duration_secs
    }

    pub closed spec fn is_verbose(&self) -> bool {
        self.verbose
    }

    pub closed spec fn is_closed(&self) -> bool {
        self.closed
    }

    /// Measured length of the window, fixed when it closed.
    pub closed spec fn elapsed(&self) -> u64 {
        self.elapsed_ns
    }

    pub closed spec fn start_stamp(&self) -> Seq<char> {
        self.start_time@
    }

    pub closed spec fn end_stamp(&self) -> Seq<char> {
        self.end_time@
    }

    pub closed spec fn wf(&self) -> bool {
        &&& self.ring.wf()
        &&& self.counters.wf()
        &&& self.ring.pending().len() == 0
        &&& self.ring.next_handle() == 0
        &&& strictly_ascending(self.cpu_ids@)
        &&& forall|c: u32| self.cpu_ids@.contains(c) <==> has_cpu(self.events@, c)
        &&& self.counters@[COMMIT_INDEX as int] as int == (self.events@.len() + self.ring.ready().len()) as int
            % (COUNTER_MODULUS as int)
    }

    /// The result a closed window yields.
    pub open spec fn describes(&self, r: BenchmarkResult) -> bool {
        &&& r.name@ == "Ring Buffer Throughput"@
        &&& r.language@ == "Rust"@
        &&& r.program_type@ == "tracepoint"@
        &&& r.data_mechanism@ == "ring_buffer"@
        &&& r.duration_ns == self.elapsed()
        &&& r.event_count == self.consumed().len() as u64
        &&& r.throughput_milli == throughput_spec(r.event_count as nat, self.elapsed() as nat)
        &&& r.memory_usage == retained_bytes(self.consumed().len())
        &&& r.start_time@ == self.start_stamp()
        &&& r.end_time@ == self.end_stamp()
        &&& r.cpu_ids@ == self.cpus()
        &&& r.errors@ == errors_of(self.counter_table()[COMMIT_INDEX as int], r.event_count)
    }

    /// A run over a window of `duration_secs` seconds on a transport of
    /// `capacity` bytes, nothing produced or consumed yet.
    pub fn with_capacity(duration_secs: u64, verbose: bool, capacity: u64) -> (r: RingBufferBenchmark)
        ensures
            r.wf(),
            r.window_secs() == duration_secs,
            r.is_verbose() == verbose,
            r.ring_state().cap() == capacity,
            r.ring_state().ready().len() == 0,
            r.counter_table() == zeroed_table(),
            r.ring_state().used() == 0,
            r.drop_total() == 0,
            r.consumed().len() == 0,
            r.cpus().len() == 0,
            !r.is_closed(),
    {
        let r = RingBufferBenchmark {
            duration_secs,
            verbose,
            ring: RingBuffer::new(capacity),
            counters: CounterTable::new(),
            events: Vec::new(),
            cpu_ids: Vec::new(),
            dropped: 0,
            start_time: String::new(),
            end_time: String::new(),
            elapsed_ns: 0,
            closed: false,
        };
        assert forall|c: u32| r.cpu_ids@.contains(c) <==> has_cpu(r.events@, c) by {}
        r
    }

    /// A run over a window of `duration_secs` seconds on a transport of
    /// `DEFAULT_CAPACITY` bytes.
    pub fn new(duration_secs: u64, verbose: bool) -> (r: RingBufferBenchmark)
        ensures
            r.wf(),
            r.window_secs() == duration_secs,
            r.is_verbose() == verbose,
            r.ring_state().cap() == DEFAULT_CAPACITY,
            r.ring_state().ready().len() == 0,
            r.counter_table() == zeroed_table(),
            r.ring_state().used() == 0,
            r.drop_total() == 0,
            r.consumed().len() == 0,
            r.cpus().len() == 0,
            !r.is_closed(),
    {
        Self::with_capacity(duration_secs, verbose, DEFAULT_CAPACITY)
    }

    pub fn verbose(&self) -> (r: bool)
        ensures
            r == self.is_verbose(),
    {
        self.verbose
    }

    pub fn duration_secs(&self) -> (r: u64)
        ensures
            r == self.window_secs(),
    {
        self.duration_secs
    }

    /// The transport, for inspection.
    pub fn ring(&self) -> (r: &RingBuffer)
        ensures
            *r == self.ring_state(),
    {
        &self.ring
    }

    /// The counter table, for cross-checking.
    pub fn counters(&self) -> (r: &CounterTable)
        ensures
            r@ == self.counter_table(),
    {
        &self.counters
    }

    /// Number of records consumed so far.
    pub fn consumed_count(&self) -> (r: usize)
        ensures
            r == self.consumed().len(),
    {
        self.events.len()
    }

    /// Number of firings dropped because the transport was full, wrapping
    /// at the range of a 64-bit counter.
    pub fn drops(&self) -> (r: u64)
        ensures
            r == self.drop_total(),
    {
        self.dropped
    }

    /// Records the wall-clock start of the window.
    pub fn open_window(&mut self)
        requires
            old(self).wf(),
        ensures
            final(self).wf(),
            final(self).start_stamp().len() >= 19,
            final(self).drop_total() == old(self).drop_total(),
            final(self).elapsed() == old(self).elapsed(),
            final(self).end_stamp() == old(self).end_stamp(),
            final(self).ring_state() == old(self).ring_state(),
            final(self).counter_table() == old(self).counter_table(),
            final(self).consumed() == old(self).consumed(),
            final(self).cpus() == old(self).cpus(),
            final(self).window_secs() == old(self).window_secs(),
            final(self).is_verbose() == old(self).is_verbose(),
            final(self).is_closed() == old(self).is_closed(),
    {
        self.start_time = local_timestamp();
    }

    /// One firing of the probe on this run's transport and counter table.
    pub fn fire(&mut self, ctx: ProbeContext) -> (r: u32)
        requires
            old(self).wf(),
        ensures
            final(self).wf(),
            final(self).ring_state().cap() == old(self).ring_state().cap(),
            r == 0 <==> old(self).ring_state().used() + EVENT_SIZE <= old(self).ring_state().cap(),
            r == 0 ==> final(self).ring_state().ready() == old(self).ring_state().ready().push((EVENT_SIZE, event_of(ctx))),
            r != 0 ==> r == 1 && final(self).ring_state().ready() == old(self).ring_state().ready(),
            final(self).ring_state().used() == old(self).ring_state().used() + (if r == 0 { EVENT_SIZE } else { 0 }),
            final(self).counter_table() == counted(old(self).counter_table(), r == 0),
            final(self).drop_total() == (if r == 0 { old(self).drop_total() } else if old(self).drop_total() == u64::MAX { 0 } else { (old(self).drop_total() + 1) as u64 }),
            final(self).consumed() == old(self).consumed(),
            final(self).cpus() == old(self).cpus(),
            final(self).window_secs() == old(self).window_secs(),
            final(self).is_verbose() == old(self).is_verbose(),
            final(self).is_closed() == old(self).is_closed(),
            final(self).elapsed() == old(self).elapsed(),
            final(self).start_stamp() == old(self).start_stamp(),
            final(self).end_stamp() == old(self).end_stamp(),
    {
        let ghost n = (self.events@.len() + self.ring.ready().len()) as nat;
        let ghost c = self.counters@[COMMIT_INDEX as int];
        let r = ringbuf_throughput(&mut self.ring, &mut self.counters, ctx);
        if r != 0 {
            self.dropped = if self.dropped == u64::MAX { 0 } else { self.dropped + 1 };
        }
        proof {
            if r == 0 {
                lemma_bump_tracks_count(c, n);
            }
        }
        r
    }

    /// Stands in for the kernel's trace point over one tick: fires the probe
    /// `100 + 10 * num_cpus` times, firing `k` on CPU `k % num_cpus` with `k`
    /// as payload. Returns how many records were published; once the
    /// transport is full, the rest of the tick is dropped.
    pub fn simulate_events(&mut self, num_cpus: u32, timestamp: u64, pid: u32) -> (r: u64)
        requires
            old(self).wf(),
            num_cpus > 0,
        ensures
            final(self).wf(),
            ({
                let n = BASE_FIRINGS_PER_TICK + FIRINGS_PER_CPU * num_cpus;
                let ring0 = old(self).ring_state();
                &&& r <= n
                &&& ring0.used() + EVENT_SIZE * r <= ring0.cap()
                &&& (r == n || ring0.used() + EVENT_SIZE * (r + 1) > ring0.cap())
                &&& final(self).ring_state().ready() == ring0.ready() + Seq::new(
                    r as nat,
                    |k: int| (EVENT_SIZE, event_of(tick_ctx(k, num_cpus, timestamp, pid))),
                )
                &&& final(self).counter_table() == counted_all(
                    old(self).counter_table(),
                    Seq::new(n as nat, |k: int| k < r),
                )
                &&& final(self).drop_total() as int == (old(self).drop_total() + (n - r)) % (COUNTER_MODULUS as int)
            }),
            final(self).ring_state().cap() == old(self).ring_state().cap(),
            final(self).consumed() == old(self).consumed(),
            final(self).cpus() == old(self).cpus(),
            final(self).window_secs() == old(self).window_secs(),
            final(self).is_verbose() == old(self).is_verbose(),
            final(self).is_closed() == old(self).is_closed(),
            final(self).elapsed() == old(self).elapsed(),
            final(self).start_stamp() == old(self).start_stamp(),
            final(self).end_stamp() == old(self).end_stamp(),
    {
        let n: u64 = BASE_FIRINGS_PER_TICK + FIRINGS_PER_CPU * num_cpus as u64;
        let pid_tgid: u64 = (pid as u64) << 32u64;
        let ghost ring0 = self.ring;
        let ghost counters0 = self.counters@;
        let mut published: u64 = 0;
        let mut i: u64 = 0;
        proof {
            lemma_small_mod(self.dropped as nat, COUNTER_MODULUS as nat);
        }
        while i < n
            invariant
                self.wf(),
                i <= n,
                n == BASE_FIRINGS_PER_TICK + FIRINGS_PER_CPU * num_cpus,
                num_cpus > 0,
                pid_tgid == ((pid as u64) << 32u64) as u64,
                published <= i,
                self.ring.cap() == ring0.cap(),
                self.ring.used() == ring0.used() + EVENT_SIZE * published,
                published == i || ring0.used() + EVENT_SIZE * (published + 1) > ring0.cap(),
                self.ring.ready() == ring0.ready() + Seq::new(
                    published as nat,
                    |k: int| (EVENT_SIZE, event_of(tick_ctx(k, num_cpus, timestamp, pid))),
                ),
                self.counters@ == counted_all(counters0, Seq::new(i as nat, |k: int| k < published)),
                self.dropped as int == (old(self).dropped + (i - published)) % (COUNTER_MODULUS as int),
                self.events@ == old(self).events@,
                self.cpu_ids@ == old(self).cpu_ids@,
                self.duration_secs == old(self).duration_secs,
                self.verbose == old(self).verbose,
                self.closed == old(self).closed,
                self.elapsed_ns == old(self).elapsed_ns,
                self.start_time@ == old(self).start_time@,
                self.end_time@ == old(self).end_time@,
            decreases n - i,
        {
            let ctx = ProbeContext {
                timestamp,
                pid_tgid,
                cpu_id: (i % num_cpus as u64) as u32,
                data: #[verifier::truncate] (i as u32),
            };
            assert(ctx == tick_ctx(i as int, num_cpus, timestamp, pid));
            let ghost ready_before = self.ring.ready();
            let ghost outcomes_before = Seq::new(i as nat, |k: int| k < published);
            let ghost dropped_before = self.dropped;
            let ret = self.fire(ctx);
            proof {
                if ret != 0 {
                    lemma_bump_tracks_count(dropped_before, (old(self).dropped + (i - published)) as nat);
                }
            }
            if ret == 0 {
                assert(published == i);
                assert(self.ring.ready().drop_last() =~= ready_before);
                published = published + 1;
                assert(self.ring.ready() =~= ring0.ready() + Seq::new(
                    published as nat,
                    |k: int| (EVENT_SIZE, event_of(tick_ctx(k, num_cpus, timestamp, pid))),
                ));
            }
            i = i + 1;
            assert(Seq::new(i as nat, |k: int| k < published).drop_last() =~= outcomes_before);
        }
        proof {
            // the bound on the published count comes from the final state
            crate::ringbuf::lemma_never_over_capacity(self.ring);
        }
        published
    }

    /// The collector drains every committed record, in commit order, into
    /// its tally and notes each record's CPU. Returns how many it took.
    pub fn drain(&mut self) -> (r: usize)
        requires
            old(self).wf(),
        ensures
            final(self).wf(),
            r == old(self).ring_state().ready().len(),
            final(self).consumed() == old(self).consumed() + records_of(old(self).ring_state().ready()),
            final(self).ring_state().ready().len() == 0,
            final(self).ring_state().used() == 0,
            final(self).cpus_match(),
            final(self).drop_total() == old(self).drop_total(),
            final(self).ring_state().cap() == old(self).ring_state().cap(),
            final(self).counter_table() == old(self).counter_table(),
            final(self).window_secs() == old(self).window_secs(),
            final(self).is_verbose() == old(self).is_verbose(),
            final(self).is_closed() == old(self).is_closed(),
            final(self).elapsed() == old(self).elapsed(),
            final(self).start_stamp() == old(self).start_stamp(),
            final(self).end_stamp() == old(self).end_stamp(),
    {
        let ghost events0 = self.events@;
        let ghost ready0 = self.ring.ready();
        let waiting = self.ring.committed_count();
        let mut taken: usize = 0;
        loop
            invariant
                self.wf(),
                waiting == ready0.len(),
                self.events@ + records_of(self.ring.ready()) == events0 + records_of(ready0),
                taken + self.ring.ready().len() == ready0.len(),
                self.ring.cap() == old(self).ring.cap(),
                self.counters@ == old(self).counters@,
                self.dropped == old(self).dropped,
                self.duration_secs == old(self).duration_secs,
                self.verbose == old(self).verbose,
                self.closed == old(self).closed,
                self.elapsed_ns == old(self).elapsed_ns,
                self.start_time@ == old(self).start_time@,
                self.end_time@ == old(self).end_time@,
            ensures
                self.wf(),
                self.ring.ready().len() == 0,
                self.events@ == events0 + records_of(ready0),
                taken == ready0.len(),
                self.ring.cap() == old(self).ring.cap(),
                self.counters@ == old(self).counters@,
                self.dropped == old(self).dropped,
                self.duration_secs == old(self).duration_secs,
                self.verbose == old(self).verbose,
                self.closed == old(self).closed,
                self.elapsed_ns == old(self).elapsed_ns,
                self.start_time@ == old(self).start_time@,
                self.end_time@ == old(self).end_time@,
            decreases self.ring.ready().len(),
        {
            let ghost q = self.ring.ready();
            let ghost ev = self.events@;
            match self.ring.try_consume() {
                None => {
                    assert(records_of(q) =~= Seq::<Event>::empty());
                    assert(self.events@ + records_of(q) =~= self.events@);
                    break;
                },
                Some(e) => {
                    self.events.push(e);
                    insert_cpu(&mut self.cpu_ids, e.cpu_id);
                    taken = taken + 1;
                    proof {
                        assert(records_of(q) =~= seq![e] + records_of(self.ring.ready()));
                        assert(self.events@ + records_of(self.ring.ready()) =~= ev + records_of(q));
                        assert forall|c: u32| self.cpu_ids@.contains(c) <==> has_cpu(self.events@, c) by {
                            if has_cpu(self.events@, c) {
                                let k = choose|k: int| 0 <= k < self.events@.len() && self.events@[k].cpu_id == c;
                                if k < ev.len() {
                                    assert(ev[k] == self.events@[k]);
                                    assert(has_cpu(ev, c));
                                }
                            }
                            if has_cpu(ev, c) {
                                let k = choose|k: int| 0 <= k < ev.len() && ev[k].cpu_id == c;
                                assert(self.events@[k] == ev[k]);
                            }
                            if c == e.cpu_id {
                                assert(self.events@[ev.len() as int] == e);
                            }
                        }
                    }
                },
            }
        }
        taken
    }

    /// One iteration of the collector's loop at `elapsed_ns` into the window:
    /// drain what is committed, then close the window once its duration has
    /// passed. A closed window is left as it is.
    pub fn poll(&mut self, elapsed_ns: u64) -> (r: Step)
        requires
            old(self).wf(),
        ensures
            final(self).wf(),
            old(self).is_closed() ==> r == Step::Stop && *final(self) == *old(self),
            !old(self).is_closed() ==> {
                &&& final(self).consumed() == old(self).consumed() + records_of(old(self).ring_state().ready())
                &&& final(self).ring_state().ready().len() == 0
                &&& final(self).ring_state().used() == 0
                &&& (r == Step::Stop ==> final(self).end_stamp().len() >= 19)
                &&& (r == Step::Stop <==> elapsed_ns >= old(self).window_secs() * NANOS_PER_SEC)
                &&& (r == Step::Stop ==> final(self).is_closed() && final(self).elapsed() == elapsed_ns)
                &&& (r == Step::Continue ==> !final(self).is_closed())
            },
            final(self).cpus_match(),
            final(self).drop_total() == old(self).drop_total(),
            final(self).ring_state().cap() == old(self).ring_state().cap(),
            final(self).counter_table() == old(self).counter_table(),
            final(self).window_secs() == old(self).window_secs(),
            final(self).is_verbose() == old(self).is_verbose(),
            final(self).start_stamp() == old(self).start_stamp(),
    {
        if self.closed {
            return Step::Stop;
        }
        self.drain();
        if elapsed_ns as u128 >= self.duration_secs as u128 * NANOS_PER_SEC as u128 {
            self.elapsed_ns = elapsed_ns;
            self.end_time = local_timestamp();
            self.closed = true;
            Step::Stop
        } else {
            Step::Continue
        }
    }

    /// The result of the closed window, or `None` while it is open. It is a
    /// function of the closed run alone: nothing is measured again.
    pub fn get_results(&self) -> (r: Option<BenchmarkResult>)
        requires
            self.wf(),
        ensures
            r.is_some() <==> self.is_closed(),
            r.is_some() ==> self.describes(r.unwrap()),
            r.is_some() ==> strictly_ascending(r.unwrap().cpu_ids@),
            r.is_some() ==> forall|c: u32| r.unwrap().cpu_ids@.contains(c) <==> has_cpu(self.consumed(), c),
    {
        if !self.closed {
            return None;
        }
        let event_count = self.events.len() as u64;
        let memory_usage = if event_count > u64::MAX / EVENT_SIZE {
            u64::MAX
        } else {
            event_count * EVENT_SIZE
        };
        let mut cpu_ids: Vec<u32> = Vec::new();
        let mut k: usize = 0;
        while k < self.cpu_ids.len()
            invariant
                k <= self.cpu_ids@.len(),
                cpu_ids@ == self.cpu_ids@.subrange(0, k as int),
            decreases self.cpu_ids@.len() - k,
        {
            cpu_ids.push(self.cpu_ids[k]);
            k = k + 1;
            assert(cpu_ids@ =~= self.cpu_ids@.subrange(0, k as int));
        }
        assert(cpu_ids@ =~= self.cpu_ids@);
        let mut errors: Vec<RunError> = Vec::new();
        let committed = match self.counters.get(COMMIT_INDEX) {
            Some(v) => v,
            None => 0,
        };
        if committed != event_count {
            errors.push(RunError::CounterMismatch { committed, consumed: event_count });
        }
        assert(errors@ =~= errors_of(self.counters@[COMMIT_INDEX as int], event_count));
        Some(BenchmarkResult {
            name: "Ring Buffer Throughput".to_owned(),
            language: "Rust".to_owned(),
            program_type: "tracepoint".to_owned(),
            data_mechanism: "ring_buffer".to_owned(),
            duration_ns: self.elapsed_ns,
            event_count,
            throughput_milli: throughput_milli(event_count, self.elapsed_ns),
            memory_usage,
            start_time: self.start_time.clone(),
            end_time: self.end_time.clone(),
            cpu_ids,
            errors,
        })
    }
}

/// The commit counter always equals, modulo its range, the records consumed
/// plus those committed and waiting, however draining interleaved with the
/// firings. So once the collector has drained everything, and fewer records
/// than the counter's range were consumed, no counter mismatch is reported.
pub proof fn lemma_drained_run_has_no_mismatch(b: RingBufferBenchmark)
    requires
        b.wf(),
    ensures
        b.counter_table()[COMMIT_INDEX as int] as int == (b.consumed().len() + b.ring_state().ready().len()) as int
            % (COUNTER_MODULUS as int),
        b.ring_state().ready().len() == 0 && b.consumed().len() < COUNTER_MODULUS ==> errors_of(
            b.counter_table()[COMMIT_INDEX as int],
            b.consumed().len() as u64,
        ) == Seq::<RunError>::empty(),
{
    if b.ring_state().ready().len() == 0 && b.consumed().len() < COUNTER_MODULUS {
        assert(b.consumed().len() as int % (COUNTER_MODULUS as int) == b.consumed().len() as int);
    }
}

/// Deriving the result twice from one closed window gives the same record
/// in every field: the derivation reads the closed run and nothing else.
pub proof fn lemma_results_are_reproducible(b: RingBufferBenchmark, r1: BenchmarkResult, r2: BenchmarkResult)
    requires
        b.describes(r1),
        b.describes(r2),
    ensures
        same_result(r1, r2),
{
}

} // verus!

use vstd::arithmetic::div_mod::{lemma_fundamental_div_mod, lemma_fundamental_div_mod_converse, lemma_mod_pos_bound};
use vstd::prelude::*;

verus! {

/// Number of counters in a `CounterTable`.
pub const COUNTER_SLOTS: usize = 10;

/// Slot counting successful commits.
pub const COMMIT_INDEX: usize = 0;

/// A small fixed-size array of 64-bit counters that the producer increments
/// and the reporter reads to cross-check the consumer's own tally.
pub struct CounterTable {
    counters: Vec<u64>,
}

/// The table after one increment of slot `index`, wrapping as 64-bit
/// machine counters do.
pub open spec fn bumped(t: Seq<u64>, index: int) -> Seq<u64> {
    t.update(index, if t[index] == u64::MAX { 0 } else { (t[index] + 1) as u64 })
}

/// A table of `COUNTER_SLOTS` counters, all zero.
pub open spec fn zeroed_table() -> Seq<u64> {
    Seq::new(COUNTER_SLOTS as nat, |i: int| 0u64)
}

/// Number of distinct values of a 64-bit counter.
pub const COUNTER_MODULUS: u128 = 0x1_0000_0000_0000_0000;

/// A counter that holds `n` modulo its range holds `n + 1` modulo its range
/// after one wrapping increment.
pub proof fn lemma_bump_tracks_count(c: u64, n: nat)
    requires
        c as int == n as int % (COUNTER_MODULUS as int),
    ensures
        (if c == u64::MAX { 0 } else { (c + 1) as u64 }) as int == (n + 1) as int % (COUNTER_MODULUS as int),
{
    let m = COUNTER_MODULUS as int;
    lemma_fundamental_div_mod(n as int, m);
    lemma_mod_pos_bound(n as int, m);
    let q = n as int / m;
    if c == u64::MAX {
        assert((n + 1) as int == (q + 1) * m + 0) by (nonlinear_arith)
            requires n as int == m * q + c, c == m - 1;
        lemma_fundamental_div_mod_converse((n + 1) as int, m, q + 1, 0);
    } else {
        assert((n + 1) as int == q * m + (c + 1)) by (nonlinear_arith)
            requires n as int == m * q + c;
        lemma_fundamental_div_mod_converse((n + 1) as int, m, q, c + 1);
    }
}

impl View for CounterTable {
    type V = Seq<u64>;

    closed spec fn view(&self) -> Seq<u64> {
        self.counters@
    }
}

impl CounterTable {
    pub open spec fn wf(&self) -> bool {
        self@.len() == COUNTER_SLOTS
    }

    /// A table with every counter at zero.
    pub fn new() -> (r: CounterTable)
        ensures
            r.wf(),
            r@ == zeroed_table(),
    {
        let mut counters: Vec<u64> = Vec::new();
        let mut i: usize = 0;
        while i < COUNTER_SLOTS
            invariant
                i <= COUNTER_SLOTS,
                counters@ == Seq::new(i as nat, |k: int| 0u64),
            decreases COUNTER_SLOTS - i,
        {
            counters.push(0);
            i = i + 1;
            assert(counters@ =~= Seq::new(i as nat, |k: int| 0u64));
        }
        assert(counters@ =~= zeroed_table());
        CounterTable { counters }
    }

    /// The counter at `index`, or `None` past the table's end.
    pub fn get(&self, index: usize) -> (r: Option<u64>)
        ensures
            r == (if index < self@.len() { Some(self@[index as int]) } else { None::<u64> }),
    {
        if index < self.counters.len() {
            Some(self.counters[index])
        } else {
            None
        }
    }

    /// Adds one to the counter at `index`; returns false, changing nothing,
    /// past the table's end.
    pub fn increment(&mut self, index: usize) -> (ok: bool)
        ensures
            ok == (index < old(self)@.len()),
            final(self)@ == (if ok { bumped(old(self)@, index as int) } else { old(self)@ }),
    {
        if index < self.counters.len() {
            let c = self.counters[index];
            let v = if c == u64::MAX { 0 } else { c + 1 };
            self.counters.set(index, v);
            assert(self.counters@ =~= bumped(old(self)@, index as int));
            true
        } else {
            false
        }
    }
}

} // verus!

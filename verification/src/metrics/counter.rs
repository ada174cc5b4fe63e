//! Counters: a 64-bit count that only grows, and wraps at 2^64.

use super::{Metric, Named};
use crate::labels::Labels;
use crate::stats::{lemma_total_ignores_order, total};
use vstd::prelude::*;

verus! {

/// What a counter is: its identity and its current value.
pub struct CounterView {
    pub name: Seq<char>,
    pub labels: Map<Seq<char>, Seq<char>>,
    pub value: u64,
}

/// A counter.
pub struct Counter {
    name: String,
    labels: Labels,
    value: u64,
}

/// The residue of `n` modulo 2^64.
pub open spec fn wrapped(n: int) -> u64 {
    (n % 0x1_0000_0000_0000_0000) as u64
}

/// The value of a counter that stood at `start` after one increment for
/// each element of `deltas`, in order.
pub open spec fn value_after(start: u64, deltas: Seq<u64>) -> u64
    decreases deltas.len(),
{
    if deltas.len() == 0 {
        start
    } else {
        wrapped(value_after(start, deltas.drop_last()) + deltas.last())
    }
}

/// Increments add up: after any sequence of increments the counter stands
/// at its start value plus the sum of the increments, modulo 2^64.
pub proof fn lemma_increments_add_up(start: u64, deltas: Seq<u64>)
    ensures
        value_after(start, deltas) == wrapped(start + total(deltas)),
    decreases deltas.len(),
{
    if deltas.len() > 0 {
        let before = deltas.drop_last();
        lemma_increments_add_up(start, before);
        let a = start + total(before);
        let d = deltas.last() as int;
        assert(((a % 0x1_0000_0000_0000_0000) + d) % 0x1_0000_0000_0000_0000 == (a + d)
            % 0x1_0000_0000_0000_0000) by (nonlinear_arith);
    }
}

/// The order of the increments is immaterial: the same increments in any
/// order leave the counter at the same value, so none is lost or applied
/// twice however callers take turns.
pub proof fn lemma_increment_order_is_immaterial(start: u64, first: Seq<u64>, second: Seq<u64>)
    requires
        first.to_multiset() == second.to_multiset(),
    ensures
        value_after(start, first) == value_after(start, second),
{
    lemma_increments_add_up(start, first);
    lemma_increments_add_up(start, second);
    lemma_total_ignores_order(first, second);
}

/// After `n` increments by one a fresh counter stands at `n` modulo 2^64.
pub proof fn lemma_unit_increments(n: nat)
    ensures
        value_after(0, Seq::new(n, |i: int| 1u64)) == wrapped(n as int),
{
    let ones = Seq::new(n, |i: int| 1u64);
    lemma_increments_add_up(0, ones);
    lemma_total_of_ones(n);
}

/// `n` ones add up to `n`.
proof fn lemma_total_of_ones(n: nat)
    ensures
        total(Seq::new(n, |i: int| 1u64)) == n,
    decreases n,
{
    if n > 0 {
        lemma_total_of_ones((n - 1) as nat);
        assert(Seq::new(n, |i: int| 1u64).drop_last() == Seq::new((n - 1) as nat, |i: int| 1u64));
    }
}

impl Named for CounterView {
    open spec fn name(&self) -> Seq<char> {
        self.name
    }
}

impl View for Counter {
    type V = CounterView;

    closed spec fn view(&self) -> CounterView {
        CounterView { name: self.name@, labels: self.labels@, value: self.value }
    }
}

impl Counter {
    /// Creates a counter that stands at zero.
    pub fn new(name: &str, labels: Labels) -> (counter: Counter)
        ensures
            counter@ == (CounterView { name: name@, labels: labels@, value: 0 }),
    {
        Counter { name: name.to_owned(), labels, value: 0 }
    }

    /// Increments the counter by one.
    pub fn increment(&mut self)
        ensures
            final(self)@ == (CounterView { value: wrapped(old(self)@.value + 1), ..old(self)@ }),
    {
        self.increment_by(1);
    }

    /// Increments the counter by `amount`. Past 2^64 - 1 the count starts
    /// again from zero.
    pub fn increment_by(&mut self, amount: u64)
        ensures
            final(self)@ == (CounterView {
                value: wrapped(old(self)@.value + amount),
                ..old(self)@
            }),
            old(self)@.value + amount <= u64::MAX ==> final(self)@.value == old(self)@.value
                + amount,
    {
        self.value = self.value.wrapping_add(amount);
    }

    /// The current value.
    pub fn get(&self) -> (value: u64)
        ensures
            value == self@.value,
    {
        self.value
    }
}

impl Metric for Counter {
    open spec fn name_text(&self) -> Seq<char> {
        self@.name
    }

    open spec fn label_map(&self) -> Map<Seq<char>, Seq<char>> {
        self@.labels
    }

    fn name(&self) -> (name: &str) {
        self.name.as_str()
    }

    fn labels(&self) -> (labels: &Labels) {
        proof {
            use_type_invariant(&self.labels);
        }
        &self.labels
    }
}

} // verus!

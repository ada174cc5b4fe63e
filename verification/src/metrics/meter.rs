//! Meters: a count of occurrences and the instant of creation, which never
//! changes; the rate is the count over the time since then.

use super::{Metric, Named};
use crate::labels::Labels;
use crate::metrics::counter::{lemma_unit_increments, value_after, wrapped};
use std::time::Instant;
use vstd::prelude::*;

verus! {

/// What a meter is: its identity, the occurrences counted so far and the
/// instant of its creation.
pub struct MeterView {
    pub name: Seq<char>,
    pub labels: Map<Seq<char>, Seq<char>>,
    pub count: u64,
    pub created: Instant,
}

/// A meter.
pub struct Meter {
    name: String,
    labels: Labels,
    count: u64,
    start_time: Instant,
}

/// An average rate: `events` occurrences in `nanos` nanoseconds, with
/// `nanos` above zero. A rate of zero has no events.
#[derive(Clone, Copy, Debug, PartialEq, Eq)]
pub struct Rate {
    pub events: u64,
    pub nanos: u128,
}

/// The rate of `count` occurrences over `elapsed` nanoseconds: zero while
/// no time has passed.
pub open spec fn rate_of(count: u64, elapsed: u128) -> Rate {
    if elapsed == 0 {
        Rate { events: 0, nanos: 1 }
    } else {
        Rate { events: count, nanos: elapsed }
    }
}

/// After `marks` occurrences a new meter's rate over `seconds` whole
/// seconds is `marks` occurrences in that time, and over no time it is zero.
pub proof fn lemma_rate_is_count_over_time(marks: nat, seconds: nat)
    requires
        marks <= u64::MAX,
        seconds * 1_000_000_000 <= u128::MAX,
    ensures
        ({
            let count = value_after(0, Seq::new(marks, |i: int| 1u64));
            let rate = rate_of(count, (seconds * 1_000_000_000) as u128);
            &&& seconds > 0 ==> rate.events == marks && rate.nanos == seconds * 1_000_000_000
            &&& seconds > 0 ==> rate.whole_per_second() == marks / seconds
            &&& seconds == 0 ==> rate.events == 0 && rate.whole_per_second() == 0
        }),
{
    lemma_unit_increments(marks);
    if seconds > 0 {
        let m = marks as int;
        let s = seconds as int;
        let q = m / s;
        let r = m % s;
        assert(m == q * s + r && 0 <= r < s) by (nonlinear_arith)
            requires
                q == m / s,
                r == m % s,
                s > 0,
        ;
        assert(m * 1_000_000_000 == q * (s * 1_000_000_000) + r * 1_000_000_000 && 0 <= r
            * 1_000_000_000 < s * 1_000_000_000) by (nonlinear_arith)
            requires
                m == q * s + r,
                0 <= r < s,
        ;
        vstd::arithmetic::div_mod::lemma_fundamental_div_mod_converse(
            m * 1_000_000_000,
            s * 1_000_000_000,
            q,
            r * 1_000_000_000,
        );
    }
}

impl Rate {
    /// Whole occurrences per second, rounded down.
    pub open spec fn whole_per_second(&self) -> int {
        self.events * 1_000_000_000 / self.nanos as int
    }

    /// Whole occurrences per second, rounded down.
    pub fn per_second(&self) -> (rate: u128)
        requires
            self.nanos > 0,
        ensures
            rate == self.whole_per_second(),
    {
        (self.events as u128) * 1_000_000_000 / self.nanos
    }
}

impl Named for MeterView {
    open spec fn name(&self) -> Seq<char> {
        self.name
    }
}

impl View for Meter {
    type V = MeterView;

    closed spec fn view(&self) -> MeterView {
        MeterView {
            name: self.name@,
            labels: self.labels@,
            count: self.count,
            created: self.start_time,
        }
    }
}

impl Meter {
    /// The instant at which the meter was made.
    pub open spec fn created(&self) -> Instant {
        self@.created
    }

    /// Creates a meter that has counted nothing and starts its clock now:
    /// the instant of creation is the clock's reading, whatever it is.
    pub fn new(name: &str, labels: Labels) -> (meter: Meter)
        ensures
            meter@ == (MeterView {
                name: name@,
                labels: labels@,
                count: 0,
                created: meter.created(),
            }),
    {
        Meter { name: name.to_owned(), labels, count: 0, start_time: Instant::now() }
    }

    /// Counts one occurrence. Past 2^64 - 1 the count starts again from
    /// zero. The instant of creation stays as it is: the rate is always over
    /// the time since the meter was made.
    pub fn mark(&mut self)
        ensures
            final(self)@ == (MeterView { count: wrapped(old(self)@.count + 1), ..old(self)@ }),
            final(self).created() == old(self).created(),
            old(self)@.count < u64::MAX ==> final(self)@.count == old(self)@.count + 1,
    {
        self.count = self.count.wrapping_add(1);
    }

    /// The occurrences counted so far.
    pub fn count(&self) -> (count: u64)
        ensures
            count == self@.count,
    {
        self.count
    }

    /// The average rate if `elapsed` nanoseconds have passed since the
    /// meter was made.
    pub fn rate_over(&self, elapsed: u128) -> (rate: Rate)
        ensures
            rate == rate_of(self@.count, elapsed),
            rate.nanos > 0,
    {
        if elapsed == 0 {
            Rate { events: 0, nanos: 1 }
        } else {
            Rate { events: self.count, nanos: elapsed }
        }
    }

    /// The average rate since the meter was made, by the clock's reading
    /// now. Whatever the clock reads, the rate is that of the current count
    /// over some span.
    pub fn get_rate(&self) -> (rate: Rate)
        ensures
            exists|elapsed: u128| rate == rate_of(self@.count, elapsed),
            rate.nanos > 0,
    {
        let elapsed = self.start_time.elapsed().as_nanos();
        self.rate_over(elapsed)
    }
}

impl Metric for Meter {
    open spec fn name_text(&self) -> Seq<char> {
        self@.name
    }

    open spec fn label_map(&self) -> Map<Seq<char>, Seq<char>> {
        self@.labels
    }

    fn name(&self) -> (name: &str) {
        self.name.as_str()
    }

    fn labels(&self) -> (labels: &Labels) {
        proof {
            use_type_invariant(&self.labels);
        }
        &self.labels
    }
}

} // verus!

//! Timers: a histogram of elapsed times, in nanoseconds, and a handle that
//! measures one span from its start to its stop. A handle belongs to the
//! timer that started it, which it knows by name.

use super::{Metric, Named};
use crate::clock::duration_nanos;
use crate::labels::Labels;
use crate::stats::{summarize, Summary};
use crate::text::str_eq;
use std::time::{Duration, Instant};
use vstd::prelude::*;

verus! {

/// What a timer is: its identity and the recorded times, in nanoseconds and
/// in order of arrival.
pub struct TimerView {
    pub name: Seq<char>,
    pub labels: Map<Seq<char>, Seq<char>>,
    pub samples: Seq<u64>,
}

/// A timer.
pub struct Timer {
    name: String,
    labels: Labels,
    observations: Vec<u64>,
}

/// The sample that stands for a length of `nanos` nanoseconds: the length
/// itself, or the largest sample if the length is beyond it.
pub open spec fn sample_of(nanos: u128) -> u64 {
    if nanos > u64::MAX {
        u64::MAX
    } else {
        nanos as u64
    }
}

impl Named for TimerView {
    open spec fn name(&self) -> Seq<char> {
        self.name
    }
}

impl View for Timer {
    type V = TimerView;

    closed spec fn view(&self) -> TimerView {
        TimerView { name: self.name@, labels: self.labels@, samples: self.observations@ }
    }
}

impl Timer {
    /// Creates a timer without samples.
    pub fn new(name: &str, labels: Labels) -> (timer: Timer)
        ensures
            timer@ == (TimerView { name: name@, labels: labels@, samples: Seq::<u64>::empty() }),
    {
        Timer { name: name.to_owned(), labels, observations: Vec::new() }
    }

    /// Starts measuring a span, from the clock's reading now. The handle
    /// belongs to this timer: it will record in a timer of this name and in
    /// no other.
    pub fn start(&self) -> (handle: TimerHandle)
        ensures
            handle.timer_name() == self@.name,
    {
        TimerHandle { start_time: Instant::now(), timer: self.name.clone() }
    }

    /// Records one elapsed time. A time of more than `u64::MAX` nanoseconds,
    /// some 584 years, is recorded as that many.
    pub fn observe_duration(&mut self, duration: Duration)
        ensures
            final(self)@ == (TimerView {
                samples: old(self)@.samples.push(sample_of(duration_nanos(duration))),
                ..old(self)@
            }),
    {
        let nanos: u128 = duration.as_nanos();
        self.observe_nanos(nanos);
    }

    /// Records an elapsed time of `nanos` nanoseconds.
    pub fn observe_nanos(&mut self, nanos: u128)
        ensures
            final(self)@ == (TimerView {
                samples: old(self)@.samples.push(sample_of(nanos)),
                ..old(self)@
            }),
    {
        let sample: u64 = if nanos > u64::MAX as u128 {
            u64::MAX
        } else {
            nanos as u64
        };
        self.observations.push(sample);
    }

    /// The recorded times, in nanoseconds so far, in the order of arrival.
    pub fn observations(&self) -> (observations: &Vec<u64>)
        ensures
            observations@ == self@.samples,
    {
        &self.observations
    }

    /// The summary of all recorded times so far, or nothing if there are
    /// none.
    pub fn get_summary(&self) -> (summary: Option<TimerSummary>)
        ensures
            self@.samples.len() == 0 <==> summary is None,
            summary matches Some(s) ==> s.summary().describes(self@.samples),
    {
        TimerSummary::from_observations(self.observations.as_slice())
    }
}

impl Metric for Timer {
    open spec fn name_text(&self) -> Seq<char> {
        self@.name
    }

    open spec fn label_map(&self) -> Map<Seq<char>, Seq<char>> {
        self@.labels
    }

    fn name(&self) -> (name: &str) {
        self.name.as_str()
    }

    fn labels(&self) -> (labels: &Labels) {
        proof {
            use_type_invariant(&self.labels);
        }
        &self.labels
    }
}

/// A span that is being measured, for the timer that started it. Stopping
/// consumes the handle, so a span is recorded at most once.
pub struct TimerHandle {
    start_time: Instant,
    timer: String,
}

impl TimerHandle {
    /// The name of the timer that the handle belongs to.
    pub closed spec fn timer_name(&self) -> Seq<char> {
        self.timer@
    }

    /// Stops the measurement and records the elapsed time in `timer`, if
    /// that is the timer the handle belongs to. Says whether it is; if it
    /// is, exactly one sample is added, whatever the clock reads, and if it
    /// is not, nothing changes.
    pub fn stop(self, timer: &mut Timer) -> (recorded: bool)
        ensures
            recorded == (self.timer_name() == old(timer)@.name),
            recorded ==> final(timer)@ == (TimerView {
                samples: old(timer)@.samples.push(final(timer)@.samples.last()),
                ..old(timer)@
            }),
            !recorded ==> final(timer)@ == old(timer)@,
    {
        if !str_eq(self.timer.as_str(), timer.name.as_str()) {
            return false;
        }
        let elapsed = self.start_time.elapsed();
        timer.observe_duration(elapsed);
        true
    }
}

/// The summary of a timer's samples, all in nanoseconds. The mean and the
/// standard deviation are rounded down to whole nanoseconds.
#[derive(Clone, Copy, Debug, PartialEq, Eq)]
pub struct TimerSummary {
    pub count: usize,
    pub sum: u128,
    pub min: u64,
    pub max: u64,
    pub mean: u64,
    pub std_dev: u64,
}

impl TimerSummary {
    /// The same figures as a plain summary.
    pub open spec fn summary(&self) -> Summary {
        Summary {
            count: self.count,
            sum: self.sum,
            min: self.min,
            max: self.max,
            mean: self.mean,
            std_dev: self.std_dev,
        }
    }

    /// Summarizes the observations, or reports that there are none.
    pub fn from_observations(observations: &[u64]) -> (summary: Option<TimerSummary>)
        ensures
            observations@.len() == 0 <==> summary is None,
            summary matches Some(s) ==> s.summary().describes(observations@),
    {
        match summarize(observations) {
            Some(s) => Some(
                TimerSummary {
                    count: s.count,
                    sum: s.sum,
                    min: s.min,
                    max: s.max,
                    mean: s.mean,
                    std_dev: s.std_dev,
                },
            ),
            None => None,
        }
    }
}

} // verus!

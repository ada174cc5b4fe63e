//! Histograms: every observed sample is kept, in the order of arrival, and
//! percentiles and summaries are computed from all of them on demand.
//! Samples are unsigned 64-bit integers.

use super::{Metric, Named};
use crate::labels::Labels;
use crate::stats::{ascending, nearest_rank, quantile, summarize, Summary};
use vstd::prelude::*;

verus! {

/// What a histogram is: its identity and its samples in order of arrival.
pub struct HistogramView {
    pub name: Seq<char>,
    pub labels: Map<Seq<char>, Seq<char>>,
    pub samples: Seq<u64>,
}

/// A histogram.
pub struct Histogram {
    name: String,
    labels: Labels,
    observations: Vec<u64>,
}

impl Named for HistogramView {
    open spec fn name(&self) -> Seq<char> {
        self.name
    }
}

impl View for Histogram {
    type V = HistogramView;

    closed spec fn view(&self) -> HistogramView {
        HistogramView { name: self.name@, labels: self.labels@, samples: self.observations@ }
    }
}

impl Histogram {
    /// Creates a histogram without samples.
    pub fn new(name: &str, labels: Labels) -> (histogram: Histogram)
        ensures
            histogram@ == (HistogramView {
                name: name@,
                labels: labels@,
                samples: Seq::<u64>::empty(),
            }),
    {
        Histogram { name: name.to_owned(), labels, observations: Vec::new() }
    }

    /// Records one sample.
    pub fn observe(&mut self, value: u64)
        ensures
            final(self)@ == (HistogramView {
                samples: old(self)@.samples.push(value),
                ..old(self)@
            }),
    {
        self.observations.push(value);
    }

    /// The sample at the nearest rank for `percentile` percent: among the
    /// samples in ascending order, the one at position
    /// `ceil(percentile / 100 * n) - 1`, kept within the sequence. Nothing
    /// if there are no samples.
    pub fn get_percentile(&self, percentile: u64) -> (value: Option<u64>)
        ensures
            self@.samples.len() == 0 <==> value is None,
            value matches Some(v) ==> v == ascending(self@.samples)[nearest_rank(
                percentile as int,
                100,
                self@.samples.len() as int,
            )],
    {
        quantile(self.observations.as_slice(), percentile, 100)
    }

    /// The sample at the nearest rank for the quantile
    /// `numerator / denominator`.
    pub fn get_quantile(&self, numerator: u64, denominator: u64) -> (value: Option<u64>)
        requires
            denominator > 0,
        ensures
            self@.samples.len() == 0 <==> value is None,
            value matches Some(v) ==> v == ascending(self@.samples)[nearest_rank(
                numerator as int,
                denominator as int,
                self@.samples.len() as int,
            )],
    {
        quantile(self.observations.as_slice(), numerator, denominator)
    }

    /// The samples so far, in the order of arrival.
    pub fn observations(&self) -> (observations: &Vec<u64>)
        ensures
            observations@ == self@.samples,
    {
        &self.observations
    }

    /// The summary of all samples so far, or nothing if there are none.
    pub fn get_summary(&self) -> (summary: Option<HistogramSummary>)
        ensures
            self@.samples.len() == 0 <==> summary is None,
            summary matches Some(s) ==> s.summary().describes(self@.samples),
    {
        HistogramSummary::from_observations(self.observations.as_slice())
    }
}

impl Metric for Histogram {
    open spec fn name_text(&self) -> Seq<char> {
        self@.name
    }

    open spec fn label_map(&self) -> Map<Seq<char>, Seq<char>> {
        self@.labels
    }

    fn name(&self) -> (name: &str) {
        self.name.as_str()
    }

    fn labels(&self) -> (labels: &Labels) {
        proof {
            use_type_invariant(&self.labels);
        }
        &self.labels
    }
}

/// The summary of a histogram's samples. The mean and the standard
/// deviation are rounded down to whole units.
#[derive(Clone, Copy, Debug, PartialEq, Eq)]
pub struct HistogramSummary {
    pub count: usize,
    pub sum: u128,
    pub min: u64,
    pub max: u64,
    pub mean: u64,
    pub std_dev: u64,
}

impl HistogramSummary {
    /// The same figures as a plain summary.
    pub open spec fn summary(&self) -> Summary {
        Summary {
            count: self.count,
            sum: self.sum,
            min: self.min,
            max: self.max,
            mean: self.mean,
            std_dev: self.std_dev,
        }
    }

    /// Summarizes the observations, or reports that there are none.
    pub fn from_observations(observations: &[u64]) -> (summary: Option<HistogramSummary>)
        ensures
            observations@.len() == 0 <==> summary is None,
            summary matches Some(s) ==> s.summary().describes(observations@),
    {
        match summarize(observations) {
            Some(s) => Some(
                HistogramSummary {
                    count: s.count,
                    sum: s.sum,
                    min: s.min,
                    max: s.max,
                    mean: s.mean,
                    std_dev: s.std_dev,
                },
            ),
            None => None,
        }
    }
}

} // verus!

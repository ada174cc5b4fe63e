//! Gauges: a 64-bit floating-point reading that may move either way. The
//! library keeps the reading as its IEEE-754 bit pattern and never looks
//! inside it; arithmetic on readings is left to the caller.

use super::{Metric, Named};
use crate::labels::Labels;
use vstd::prelude::*;

verus! {

/// What a gauge is: its identity and the bit pattern of its reading.
pub struct GaugeView {
    pub name: Seq<char>,
    pub labels: Map<Seq<char>, Seq<char>>,
    pub bits: u64,
}

/// A gauge.
pub struct Gauge {
    name: String,
    labels: Labels,
    bits: u64,
}

impl Named for GaugeView {
    open spec fn name(&self) -> Seq<char> {
        self.name
    }
}

impl View for Gauge {
    type V = GaugeView;

    closed spec fn view(&self) -> GaugeView {
        GaugeView { name: self.name@, labels: self.labels@, bits: self.bits }
    }
}

impl Gauge {
    /// Creates a gauge that reads positive zero, whose bit pattern is zero.
    pub fn new(name: &str, labels: Labels) -> (gauge: Gauge)
        ensures
            gauge@ == (GaugeView { name: name@, labels: labels@, bits: 0 }),
    {
        Gauge { name: name.to_owned(), labels, bits: 0 }
    }

    /// Sets the reading to the number with the given bit pattern.
    pub fn set(&mut self, bits: u64)
        ensures
            final(self)@ == (GaugeView { bits: bits, ..old(self)@ }),
    {
        self.bits = bits;
    }

    /// The bit pattern of the current reading.
    pub fn get(&self) -> (bits: u64)
        ensures
            bits == self@.bits,
    {
        self.bits
    }
}

impl Metric for Gauge {
    open spec fn name_text(&self) -> Seq<char> {
        self@.name
    }

    open spec fn label_map(&self) -> Map<Seq<char>, Seq<char>> {
        self@.labels
    }

    fn name(&self) -> (name: &str) {
        self.name.as_str()
    }

    fn labels(&self) -> (labels: &Labels) {
        proof {
            use_type_invariant(&self.labels);
        }
        &self.labels
    }
}

} // verus!

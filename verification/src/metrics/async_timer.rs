//! Timing of work that runs elsewhere: each finished piece of work adds its
//! duration to a histogram and one occurrence to a meter.

use crate::metrics::counter::wrapped;
use crate::metrics::histogram::HistogramView;
use crate::metrics::meter::MeterView;
use crate::registry::{Registry, RegistryView};
use vstd::prelude::*;

verus! {

/// The histogram and the meter that record the timed work, by their
/// handles.
pub struct AsyncTimer {
    histogram: usize,
    meter: usize,
}

impl AsyncTimer {
    /// The handle of the histogram.
    pub closed spec fn histogram_id(&self) -> usize {
        self.histogram
    }

    /// The handle of the meter.
    pub closed spec fn meter_id(&self) -> usize {
        self.meter
    }

    /// A timer that records in the histogram and the meter with these
    /// handles.
    pub fn new(histogram: usize, meter: usize) -> (timer: AsyncTimer)
        ensures
            timer.histogram_id() == histogram,
            timer.meter_id() == meter,
    {
        AsyncTimer { histogram, meter }
    }

    /// The registry after one piece of work that took `sample`: the sample
    /// is in the histogram and the meter has counted once. An instrument
    /// that the registry does not have records nothing.
    pub open spec fn recorded(&self, registry: RegistryView, sample: u64) -> RegistryView {
        let h = self.histogram_id() as int;
        let m = self.meter_id() as int;
        RegistryView {
            histograms: if h < registry.histograms.len() {
                registry.histograms.update(
                    h,
                    HistogramView {
                        samples: registry.histograms[h].samples.push(sample),
                        ..registry.histograms[h]
                    },
                )
            } else {
                registry.histograms
            },
            meters: if m < registry.meters.len() {
                registry.meters.update(
                    m,
                    MeterView {
                        count: wrapped(registry.meters[m].count + 1),
                        ..registry.meters[m]
                    },
                )
            } else {
                registry.meters
            },
            ..registry
        }
    }

    /// Records one finished piece of work that took `sample`. The meter
    /// keeps its instant of creation.
    pub fn record(&self, registry: &mut Registry, sample: u64)
        ensures
            final(registry)@ == self.recorded(old(registry)@, sample),
            ({
                let m = self.meter_id() as int;
                m < old(registry)@.meters.len() ==> final(registry)@.meters[m].created == old(
                    registry,
                )@.meters[m].created
            }),
            final(registry).wf(),
    {
        let _ = registry.observe_histogram(self.histogram, sample);
        let _ = registry.mark_meter(self.meter);
    }
}

} // verus!

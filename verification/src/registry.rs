//! The registry: for each kind of instrument, the instruments made so far,
//! each under a name of its own. An instrument is made when its name is
//! first registered and stays for the registry's lifetime. Its handle is its
//! position in the order of registration, which never changes.
//!
//! Identity is by name alone: registering a name again returns the
//! instrument that is there, whatever labels the second call brings.

use crate::clock::duration_nanos;
use crate::labels::Labels;
use crate::metrics::counter::{wrapped, Counter, CounterView};
use crate::metrics::gauge::{Gauge, GaugeView};
use crate::metrics::histogram::{Histogram, HistogramView};
use crate::metrics::meter::{Meter, MeterView};
use crate::metrics::timer::{sample_of, Timer, TimerHandle, TimerView};
use crate::metrics::{names, names_of, Metric, Named};
use crate::text::str_eq;
use std::time::Duration;
use vstd::prelude::*;

verus! {

/// No name occurs twice.
pub open spec fn distinct(names: Seq<Seq<char>>) -> bool {
    forall|i: int, j: int| 0 <= i < j < names.len() ==> names[i] != names[j]
}

/// The handle under which `name` is registered, or will be if it is
/// registered next.
pub open spec fn slot<V: Named>(views: Seq<V>, name: Seq<char>) -> int {
    if names(views).contains(name) {
        names(views).index_of(name)
    } else {
        views.len() as int
    }
}

/// The instruments after `name` has been registered: as before if the name
/// was there, else with `fresh` at the end.
pub open spec fn enrolled<V: Named>(views: Seq<V>, name: Seq<char>, fresh: V) -> Seq<V> {
    if names(views).contains(name) {
        views
    } else {
        views.push(fresh)
    }
}

/// Among distinct names, a name is found at one position only.
pub proof fn lemma_slot_of_present<V: Named>(views: Seq<V>, at: int)
    requires
        distinct(names(views)),
        0 <= at < views.len(),
    ensures
        slot(views, views[at].name()) == at,
{
    let all = names(views);
    let name = views[at].name();
    assert(all[at] == name);
    let found = all.index_of(name);
    assert(0 <= found < all.len() && all[found] == name);
}

/// Registration keeps the names distinct, and puts the name at its handle.
pub proof fn lemma_enrolled<V: Named>(views: Seq<V>, name: Seq<char>, fresh: V)
    requires
        distinct(names(views)),
        fresh.name() == name,
    ensures
        distinct(names(enrolled(views, name, fresh))),
        names(enrolled(views, name, fresh)).contains(name),
        0 <= slot(views, name) < enrolled(views, name, fresh).len(),
        enrolled(views, name, fresh)[slot(views, name)].name() == name,
        !names(views).contains(name) ==> enrolled(views, name, fresh)[slot(views, name)] == fresh,
        names(views).contains(name) ==> enrolled(views, name, fresh)[slot(views, name)]
            == views[slot(views, name)],
{
    let after = enrolled(views, name, fresh);
    let all = names(after);
    if names(views).contains(name) {
        let at = names(views).index_of(name);
        assert(0 <= at < views.len() && names(views)[at] == name);
    } else {
        assert forall|i: int, j: int| 0 <= i < j < all.len() implies all[i] != all[j] by {
            assert(all[i] == names(views)[i]);
            if j < views.len() {
                assert(all[j] == names(views)[j]);
            }
        }
        assert(all[views.len() as int] == name);
    }
}

/// Registering a name again gives the same handle and changes nothing: the
/// instrument keeps what the first registration gave it, whatever the
/// second one brings.
pub proof fn lemma_register_again<V: Named>(
    views: Seq<V>,
    name: Seq<char>,
    first: V,
    second: V,
)
    requires
        distinct(names(views)),
        first.name() == name,
        second.name() == name,
    ensures
        enrolled(enrolled(views, name, first), name, second) == enrolled(views, name, first),
        slot(enrolled(views, name, first), name) == slot(views, name),
        !names(views).contains(name) ==> enrolled(enrolled(views, name, first), name, second)[slot(
            views,
            name,
        )] == first,
{
    lemma_enrolled(views, name, first);
    let once = enrolled(views, name, first);
    lemma_slot_of_present(once, slot(views, name));
}

/// Registering one name does not move the handle of another.
pub proof fn lemma_register_other<V: Named>(
    views: Seq<V>,
    name: Seq<char>,
    fresh: V,
    other: Seq<char>,
)
    requires
        distinct(names(views)),
        fresh.name() == name,
        names(views).contains(other),
    ensures
        slot(enrolled(views, name, fresh), other) == slot(views, other),
        enrolled(views, name, fresh)[slot(views, other)] == views[slot(views, other)],
{
    lemma_enrolled(views, name, fresh);
    let at = names(views).index_of(other);
    assert(0 <= at < views.len() && names(views)[at] == other);
    let after = enrolled(views, name, fresh);
    assert(after[at] == views[at]);
    assert(names(after)[at] == other);
    lemma_slot_of_present(after, at);
}

/// Adding an instrument under a new name keeps the names distinct.
proof fn lemma_distinct_push<M: Metric>(before: Seq<M>, after: Seq<M>)
    requires
        distinct(names_of(before)),
        after.len() == before.len() + 1,
        after.drop_last() == before,
        !names_of(before).contains(after.last().name_text()),
    ensures
        distinct(names_of(after)),
{
    let all = names_of(after);
    assert forall|i: int, j: int| 0 <= i < j < all.len() implies all[i] != all[j] by {
        assert(after[i] == before[i]);
        assert(all[i] == names_of(before)[i]);
        if j < before.len() {
            assert(after[j] == before[j]);
            assert(all[j] == names_of(before)[j]);
        }
    }
}

/// The first position of an instrument called `name`, if there is one.
pub fn find<M: Metric>(items: &Vec<M>, name: &str) -> (found: Option<usize>)
    ensures
        names_of(items@).contains(name@) <==> found is Some,
        found matches Some(i) ==> i < items@.len() && items@[i as int].name_text() == name@
            && forall|j: int| 0 <= j < i ==> #[trigger] names_of(items@)[j] != name@,
{
    let mut i: usize = 0;
    while i < items.len()
        invariant
            i <= items@.len(),
            forall|j: int| 0 <= j < i ==> #[trigger] names_of(items@)[j] != name@,
        decreases items@.len() - i,
    {
        if str_eq(items[i].name(), name) {
            proof {
                assert(names_of(items@)[i as int] == name@);
            }
            return Some(i);
        }
        i = i + 1;
    }
    None
}

/// What a registry is: the instruments of each kind, in the order of their
/// registration.
pub struct RegistryView {
    pub counters: Seq<CounterView>,
    pub gauges: Seq<GaugeView>,
    pub histograms: Seq<HistogramView>,
    pub meters: Seq<MeterView>,
    pub timers: Seq<TimerView>,
}

impl RegistryView {
    /// Within each kind no name occurs twice.
    pub open spec fn wf(&self) -> bool {
        &&& distinct(names(self.counters))
        &&& distinct(names(self.gauges))
        &&& distinct(names(self.histograms))
        &&& distinct(names(self.meters))
        &&& distinct(names(self.timers))
    }
}

/// A registry.
pub struct Registry {
    counters: Vec<Counter>,
    gauges: Vec<Gauge>,
    histograms: Vec<Histogram>,
    meters: Vec<Meter>,
    timers: Vec<Timer>,
}

/// The views of a sequence of counters.
pub open spec fn counter_views(items: Seq<Counter>) -> Seq<CounterView> {
    Seq::new(items.len(), |i: int| items[i]@)
}

/// The views of a sequence of gauges.
pub open spec fn gauge_views(items: Seq<Gauge>) -> Seq<GaugeView> {
    Seq::new(items.len(), |i: int| items[i]@)
}

/// The views of a sequence of histograms.
pub open spec fn histogram_views(items: Seq<Histogram>) -> Seq<HistogramView> {
    Seq::new(items.len(), |i: int| items[i]@)
}

/// The views of a sequence of meters.
pub open spec fn meter_views(items: Seq<Meter>) -> Seq<MeterView> {
    Seq::new(items.len(), |i: int| items[i]@)
}

/// The views of a sequence of timers.
pub open spec fn timer_views(items: Seq<Timer>) -> Seq<TimerView> {
    Seq::new(items.len(), |i: int| items[i]@)
}

impl View for Registry {
    type V = RegistryView;

    closed spec fn view(&self) -> RegistryView {
        RegistryView {
            counters: counter_views(self.counters@),
            gauges: gauge_views(self.gauges@),
            histograms: histogram_views(self.histograms@),
            meters: meter_views(self.meters@),
            timers: timer_views(self.timers@),
        }
    }
}

impl Registry {
    /// Within each kind no name occurs twice.
    #[verifier::type_invariant]
    pub closed spec fn wf(&self) -> bool {
        &&& distinct(names_of(self.counters@))
        &&& distinct(names_of(self.gauges@))
        &&& distinct(names_of(self.histograms@))
        &&& distinct(names_of(self.meters@))
        &&& distinct(names_of(self.timers@))
    }

    /// The view of a valid registry is valid.
    pub proof fn lemma_view_wf(&self)
        requires
            self.wf(),
        ensures
            self@.wf(),
    {
        assert(names_of(self.counters@) =~= names(self@.counters));
        assert(names_of(self.gauges@) =~= names(self@.gauges));
        assert(names_of(self.histograms@) =~= names(self@.histograms));
        assert(names_of(self.meters@) =~= names(self@.meters));
        assert(names_of(self.timers@) =~= names(self@.timers));
    }

    /// Creates a registry without instruments.
    pub fn new() -> (registry: Registry)
        ensures
            registry@ == (RegistryView {
                counters: Seq::<CounterView>::empty(),
                gauges: Seq::<GaugeView>::empty(),
                histograms: Seq::<HistogramView>::empty(),
                meters: Seq::<MeterView>::empty(),
                timers: Seq::<TimerView>::empty(),
            }),
            registry.wf(),
            registry@.wf(),
    {
        let registry = Registry {
            counters: Vec::new(),
            gauges: Vec::new(),
            histograms: Vec::new(),
            meters: Vec::new(),
            timers: Vec::new(),
        };
        proof {
            assert(registry@.counters =~= Seq::<CounterView>::empty());
            assert(registry@.gauges =~= Seq::<GaugeView>::empty());
            assert(registry@.histograms =~= Seq::<HistogramView>::empty());
            assert(registry@.meters =~= Seq::<MeterView>::empty());
            assert(registry@.timers =~= Seq::<TimerView>::empty());
        }
        registry
    }

    /// The counter called `name`: the one that is there, or else a new one with
    /// the given labels. The labels of a counter that is there stay as they are.
    pub fn register_counter(&mut self, name: &str, labels: Labels) -> (id: usize)
        ensures
            final(self).wf(),
            final(self)@.wf(),
            final(self)@ == (RegistryView {
                counters: enrolled(
                    old(self)@.counters,
                    name@,
                    CounterView { name: name@, labels: labels@, value: 0 },
                ),
                ..old(self)@
            }),
            id == slot(old(self)@.counters, name@),
            id < final(self)@.counters.len(),
            final(self)@.counters[id as int].name == name@,
    {
        proof {
            use_type_invariant(&*self);
            self.lemma_view_wf();
            assert(names_of(self.counters@) =~= names(self@.counters));
        }
        let id = match find(&self.counters, name) {
            Some(id) => {
                proof {
                    lemma_slot_of_present(self@.counters, id as int);
                }
                id
            },
            None => {
                let mut counters: Vec<Counter> = Vec::new();
                std::mem::swap(&mut counters, &mut self.counters);
                let id = counters.len();
                let ghost before = counters@;
                counters.push(Counter::new(name, labels));
                proof {
                    assert(counters@.drop_last() =~= before);
                    lemma_distinct_push(before, counters@);
                }
                self.counters = counters;
                proof {
                    assert(self@.counters =~= old(self)@.counters.push(
                        CounterView { name: name@, labels: labels@, value: 0 },
                    ));
                }
                id
            },
        };
        proof {
            use_type_invariant(&*self);
            self.lemma_view_wf();
        }
        id
    }

    /// The gauge called `name`: the one that is there, or else a new one with
    /// the given labels. The labels of a gauge that is there stay as they are.
    pub fn register_gauge(&mut self, name: &str, labels: Labels) -> (id: usize)
        ensures
            final(self).wf(),
            final(self)@.wf(),
            final(self)@ == (RegistryView {
                gauges: enrolled(
                    old(self)@.gauges,
                    name@,
                    GaugeView { name: name@, labels: labels@, bits: 0 },
                ),
                ..old(self)@
            }),
            id == slot(old(self)@.gauges, name@),
            id < final(self)@.gauges.len(),
            final(self)@.gauges[id as int].name == name@,
    {
        proof {
            use_type_invariant(&*self);
            self.lemma_view_wf();
            assert(names_of(self.gauges@) =~= names(self@.gauges));
        }
        let id = match find(&self.gauges, name) {
            Some(id) => {
                proof {
                    lemma_slot_of_present(self@.gauges, id as int);
                }
                id
            },
            None => {
                let mut gauges: Vec<Gauge> = Vec::new();
                std::mem::swap(&mut gauges, &mut self.gauges);
                let id = gauges.len();
                let ghost before = gauges@;
                gauges.push(Gauge::new(name, labels));
                proof {
                    assert(gauges@.drop_last() =~= before);
                    lemma_distinct_push(before, gauges@);
                }
                self.gauges = gauges;
                proof {
                    assert(self@.gauges =~= old(self)@.gauges.push(
                        GaugeView { name: name@, labels: labels@, bits: 0 },
                    ));
                }
                id
            },
        };
        proof {
            use_type_invariant(&*self);
            self.lemma_view_wf();
        }
        id
    }

    /// The histogram called `name`: the one that is there, or else a new one with
    /// the given labels. The labels of a histogram that is there stay as they are.
    pub fn register_histogram(&mut self, name: &str, labels: Labels) -> (id: usize)
        ensures
            final(self).wf(),
            final(self)@.wf(),
            final(self)@ == (RegistryView {
                histograms: enrolled(
                    old(self)@.histograms,
                    name@,
                    HistogramView { name: name@, labels: labels@, samples: Seq::<u64>::empty() },
                ),
                ..old(self)@
            }),
            id == slot(old(self)@.histograms, name@),
            id < final(self)@.histograms.len(),
            final(self)@.histograms[id as int].name == name@,
    {
        proof {
            use_type_invariant(&*self);
            self.lemma_view_wf();
            assert(names_of(self.histograms@) =~= names(self@.histograms));
        }
        let id = match find(&self.histograms, name) {
            Some(id) => {
                proof {
                    lemma_slot_of_present(self@.histograms, id as int);
                }
                id
            },
            None => {
                let mut histograms: Vec<Histogram> = Vec::new();
                std::mem::swap(&mut histograms, &mut self.histograms);
                let id = histograms.len();
                let ghost before = histograms@;
                histograms.push(Histogram::new(name, labels));
                proof {
                    assert(histograms@.drop_last() =~= before);
                    lemma_distinct_push(before, histograms@);
                }
                self.histograms = histograms;
                proof {
                    assert(self@.histograms =~= old(self)@.histograms.push(
                        HistogramView {
                            name: name@,
                            labels: labels@,
                            samples: Seq::<u64>::empty(),
                        },
                    ));
                }
                id
            },
        };
        proof {
            use_type_invariant(&*self);
            self.lemma_view_wf();
        }
        id
    }

    /// The meter called `name`: the one that is there, or else a new one with
    /// the given labels, made at the clock's reading now. The labels and the
    /// instant of creation of a meter that is there stay as they are.
    pub fn register_meter(&mut self, name: &str, labels: Labels) -> (id: usize)
        ensures
            final(self).wf(),
            final(self)@.wf(),
            final(self)@ == (RegistryView {
                meters: enrolled(
                    old(self)@.meters,
                    name@,
                    MeterView {
                        name: name@,
                        labels: labels@,
                        count: 0,
                        created: final(self)@.meters[slot(old(self)@.meters, name@)].created,
                    },
                ),
                ..old(self)@
            }),
            id == slot(old(self)@.meters, name@),
            id < final(self)@.meters.len(),
            final(self)@.meters[id as int].name == name@,
    {
        proof {
            use_type_invariant(&*self);
            self.lemma_view_wf();
            assert(names_of(self.meters@) =~= names(self@.meters));
        }
        let id = match find(&self.meters, name) {
            Some(id) => {
                proof {
                    lemma_slot_of_present(self@.meters, id as int);
                }
                id
            },
            None => {
                let mut meters: Vec<Meter> = Vec::new();
                std::mem::swap(&mut meters, &mut self.meters);
                let id = meters.len();
                let ghost before = meters@;
                meters.push(Meter::new(name, labels));
                proof {
                    assert(meters@.drop_last() =~= before);
                    lemma_distinct_push(before, meters@);
                }
                self.meters = meters;
                proof {
                    assert(self@.meters =~= old(self)@.meters.push(
                        MeterView {
                            name: name@,
                            labels: labels@,
                            count: 0,
                            created: self@.meters[id as int].created,
                        },
                    ));
                }
                id
            },
        };
        proof {
            use_type_invariant(&*self);
            self.lemma_view_wf();
        }
        id
    }

    /// The timer called `name`: the one that is there, or else a new one with
    /// the given labels. The labels of a timer that is there stay as they are.
    pub fn register_timer(&mut self, name: &str, labels: Labels) -> (id: usize)
        ensures
            final(self).wf(),
            final(self)@.wf(),
            final(self)@ == (RegistryView {
                timers: enrolled(
                    old(self)@.timers,
                    name@,
                    TimerView { name: name@, labels: labels@, samples: Seq::<u64>::empty() },
                ),
                ..old(self)@
            }),
            id == slot(old(self)@.timers, name@),
            id < final(self)@.timers.len(),
            final(self)@.timers[id as int].name == name@,
    {
        proof {
            use_type_invariant(&*self);
            self.lemma_view_wf();
            assert(names_of(self.timers@) =~= names(self@.timers));
        }
        let id = match find(&self.timers, name) {
            Some(id) => {
                proof {
                    lemma_slot_of_present(self@.timers, id as int);
                }
                id
            },
            None => {
                let mut timers: Vec<Timer> = Vec::new();
                std::mem::swap(&mut timers, &mut self.timers);
                let id = timers.len();
                let ghost before = timers@;
                timers.push(Timer::new(name, labels));
                proof {
                    assert(timers@.drop_last() =~= before);
                    lemma_distinct_push(before, timers@);
                }
                self.timers = timers;
                proof {
                    assert(self@.timers =~= old(self)@.timers.push(
                        TimerView { name: name@, labels: labels@, samples: Seq::<u64>::empty() },
                    ));
                }
                id
            },
        };
        proof {
            use_type_invariant(&*self);
            self.lemma_view_wf();
        }
        id
    }

    /// The counters, in the order of their registration.
    pub fn counters(&self) -> (counters: &Vec<Counter>)
        ensures
            counter_views(counters@) == self@.counters,
            self@.wf(),
    {
        proof {
            use_type_invariant(self);
            self.lemma_view_wf();
        }
        &self.counters
    }

    /// The gauges, in the order of their registration.
    pub fn gauges(&self) -> (gauges: &Vec<Gauge>)
        ensures
            gauge_views(gauges@) == self@.gauges,
            self@.wf(),
    {
        proof {
            use_type_invariant(self);
            self.lemma_view_wf();
        }
        &self.gauges
    }

    /// The histograms, in the order of their registration.
    pub fn histograms(&self) -> (histograms: &Vec<Histogram>)
        ensures
            histogram_views(histograms@) == self@.histograms,
            self@.wf(),
    {
        proof {
            use_type_invariant(self);
            self.lemma_view_wf();
        }
        &self.histograms
    }

    /// The meters, in the order of their registration.
    pub fn meters(&self) -> (meters: &Vec<Meter>)
        ensures
            meter_views(meters@) == self@.meters,
            self@.wf(),
    {
        proof {
            use_type_invariant(self);
            self.lemma_view_wf();
        }
        &self.meters
    }

    /// The timers, in the order of their registration.
    pub fn timers(&self) -> (timers: &Vec<Timer>)
        ensures
            timer_views(timers@) == self@.timers,
            self@.wf(),
    {
        proof {
            use_type_invariant(self);
            self.lemma_view_wf();
        }
        &self.timers
    }

    /// Increments the counter `id` by one. Says whether there is
    /// such a counter; if there is none, nothing changes.
    pub fn increment_counter(&mut self, id: usize) -> (known: bool)
        ensures
            final(self).wf(),
            final(self)@.wf(),
            known == (id < old(self)@.counters.len()),
            known ==> final(self)@ == (RegistryView {
                counters: old(self)@.counters.update(
                    id as int,
                    CounterView {
                        value: wrapped(old(self)@.counters[id as int].value + 1),
                        ..old(self)@.counters[id as int]
                    },
                ),
                ..old(self)@
            }),
            !known ==> final(self)@ == old(self)@,
    {
        proof {
            use_type_invariant(&*self);
        }
        if id >= self.counters.len() {
            proof {
                self.lemma_view_wf();
            }
            return false;
        }
        let mut counters: Vec<Counter> = Vec::new();
        std::mem::swap(&mut counters, &mut self.counters);
        let ghost before = counters@;
        counters[id].increment();
        proof {
            assert(names_of(counters@) =~= names_of(before));
        }
        self.counters = counters;
        proof {
            assert(self@.counters =~= old(self)@.counters.update(
                id as int,
                CounterView {
                    value: wrapped(old(self)@.counters[id as int].value + 1),
                    ..old(self)@.counters[id as int]
                },
            ));
            use_type_invariant(&*self);
            self.lemma_view_wf();
        }
        true
    }

    /// Increments the counter `id` by `amount`. Says whether there is
    /// such a counter; if there is none, nothing changes.
    pub fn increment_counter_by(&mut self, id: usize, amount: u64) -> (known: bool)
        ensures
            final(self).wf(),
            final(self)@.wf(),
            known == (id < old(self)@.counters.len()),
            known ==> final(self)@ == (RegistryView {
                counters: old(self)@.counters.update(
                    id as int,
                    CounterView {
                        value: wrapped(old(self)@.counters[id as int].value + amount),
                        ..old(self)@.counters[id as int]
                    },
                ),
                ..old(self)@
            }),
            !known ==> final(self)@ == old(self)@,
    {
        proof {
            use_type_invariant(&*self);
        }
        if id >= self.counters.len() {
            proof {
                self.lemma_view_wf();
            }
            return false;
        }
        let mut counters: Vec<Counter> = Vec::new();
        std::mem::swap(&mut counters, &mut self.counters);
        let ghost before = counters@;
        counters[id].increment_by(amount);
        proof {
            assert(names_of(counters@) =~= names_of(before));
        }
        self.counters = counters;
        proof {
            assert(self@.counters =~= old(self)@.counters.update(
                id as int,
                CounterView {
                    value: wrapped(old(self)@.counters[id as int].value + amount),
                    ..old(self)@.counters[id as int]
                },
            ));
            use_type_invariant(&*self);
            self.lemma_view_wf();
        }
        true
    }

    /// Sets the reading of the gauge `id`. Says whether there is
    /// such a gauge; if there is none, nothing changes.
    pub fn set_gauge(&mut self, id: usize, bits: u64) -> (known: bool)
        ensures
            final(self).wf(),
            final(self)@.wf(),
            known == (id < old(self)@.gauges.len()),
            known ==> final(self)@ == (RegistryView {
                gauges: old(self)@.gauges.update(
                    id as int,
                    GaugeView { bits: bits, ..old(self)@.gauges[id as int] },
                ),
                ..old(self)@
            }),
            !known ==> final(self)@ == old(self)@,
    {
        proof {
            use_type_invariant(&*self);
        }
        if id >= self.gauges.len() {
            proof {
                self.lemma_view_wf();
            }
            return false;
        }
        let mut gauges: Vec<Gauge> = Vec::new();
        std::mem::swap(&mut gauges, &mut self.gauges);
        let ghost before = gauges@;
        gauges[id].set(bits);
        proof {
            assert(names_of(gauges@) =~= names_of(before));
        }
        self.gauges = gauges;
        proof {
            assert(self@.gauges =~= old(self)@.gauges.update(
                id as int,
                GaugeView { bits: bits, ..old(self)@.gauges[id as int] },
            ));
            use_type_invariant(&*self);
            self.lemma_view_wf();
        }
        true
    }

    /// Records one sample in the histogram `id`. Says whether there is
    /// such a histogram; if there is none, nothing changes.
    pub fn observe_histogram(&mut self, id: usize, value: u64) -> (known: bool)
        ensures
            final(self).wf(),
            final(self)@.wf(),
            known == (id < old(self)@.histograms.len()),
            known ==> final(self)@ == (RegistryView {
                histograms: old(self)@.histograms.update(
                    id as int,
                    HistogramView {
                        samples: old(self)@.histograms[id as int].samples.push(value),
                        ..old(self)@.histograms[id as int]
                    },
                ),
                ..old(self)@
            }),
            !known ==> final(self)@ == old(self)@,
    {
        proof {
            use_type_invariant(&*self);
        }
        if id >= self.histograms.len() {
            proof {
                self.lemma_view_wf();
            }
            return false;
        }
        let mut histograms: Vec<Histogram> = Vec::new();
        std::mem::swap(&mut histograms, &mut self.histograms);
        let ghost before = histograms@;
        histograms[id].observe(value);
        proof {
            assert(names_of(histograms@) =~= names_of(before));
        }
        self.histograms = histograms;
        proof {
            assert(self@.histograms =~= old(self)@.histograms.update(
                id as int,
                HistogramView {
                    samples: old(self)@.histograms[id as int].samples.push(value),
                    ..old(self)@.histograms[id as int]
                },
            ));
            use_type_invariant(&*self);
            self.lemma_view_wf();
        }
        true
    }

    /// Counts one occurrence in the meter `id`, whose instant of creation
    /// stays as it is. Says whether there is such a meter; if there is none,
    /// nothing changes.
    pub fn mark_meter(&mut self, id: usize) -> (known: bool)
        ensures
            final(self).wf(),
            final(self)@.wf(),
            known == (id < old(self)@.meters.len()),
            known ==> final(self)@.meters[id as int].created
                == old(self)@.meters[id as int].created,
            known ==> final(self)@ == (RegistryView {
                meters: old(self)@.meters.update(
                    id as int,
                    MeterView {
                        count: wrapped(old(self)@.meters[id as int].count + 1),
                        ..old(self)@.meters[id as int]
                    },
                ),
                ..old(self)@
            }),
            !known ==> final(self)@ == old(self)@,
    {
        proof {
            use_type_invariant(&*self);
        }
        if id >= self.meters.len() {
            proof {
                self.lemma_view_wf();
            }
            return false;
        }
        let mut meters: Vec<Meter> = Vec::new();
        std::mem::swap(&mut meters, &mut self.meters);
        let ghost before = meters@;
        meters[id].mark();
        proof {
            assert(names_of(meters@) =~= names_of(before));
        }
        self.meters = meters;
        proof {
            assert(self@.meters =~= old(self)@.meters.update(
                id as int,
                MeterView {
                    count: wrapped(old(self)@.meters[id as int].count + 1),
                    ..old(self)@.meters[id as int]
                },
            ));
            use_type_invariant(&*self);
            self.lemma_view_wf();
        }
        true
    }

    /// Records one elapsed time in the timer `id`. Says whether there is
    /// such a timer; if there is none, nothing changes.
    pub fn observe_timer(&mut self, id: usize, duration: Duration) -> (known: bool)
        ensures
            final(self).wf(),
            final(self)@.wf(),
            known == (id < old(self)@.timers.len()),
            known ==> final(self)@ == (RegistryView {
                timers: old(self)@.timers.update(
                    id as int,
                    TimerView {
                        samples: old(self)@.timers[id as int].samples.push(
                            sample_of(duration_nanos(duration)),
                        ),
                        ..old(self)@.timers[id as int]
                    },
                ),
                ..old(self)@
            }),
            !known ==> final(self)@ == old(self)@,
    {
        proof {
            use_type_invariant(&*self);
        }
        if id >= self.timers.len() {
            proof {
                self.lemma_view_wf();
            }
            return false;
        }
        let mut timers: Vec<Timer> = Vec::new();
        std::mem::swap(&mut timers, &mut self.timers);
        let ghost before = timers@;
        timers[id].observe_duration(duration);
        proof {
            assert(names_of(timers@) =~= names_of(before));
        }
        self.timers = timers;
        proof {
            assert(self@.timers =~= old(self)@.timers.update(
                id as int,
                TimerView {
                    samples: old(self)@.timers[id as int].samples.push(
                        sample_of(duration_nanos(duration)),
                    ),
                    ..old(self)@.timers[id as int]
                },
            ));
            use_type_invariant(&*self);
            self.lemma_view_wf();
        }
        true
    }

    /// Stops the measurement `handle` and records the elapsed time in the
    /// timer `id`. Says whether there is such a timer and the handle
    /// belongs to it; if so, exactly one sample is added to it, whatever the
    /// clock reads, and if not, nothing changes.
    pub fn stop_timer(&mut self, id: usize, handle: TimerHandle) -> (known: bool)
        ensures
            final(self).wf(),
            final(self)@.wf(),
            known == (id < old(self)@.timers.len() && old(self)@.timers[id as int].name
                == handle.timer_name()),
            known ==> final(self)@ == (RegistryView {
                timers: old(self)@.timers.update(
                    id as int,
                    TimerView {
                        samples: old(self)@.timers[id as int].samples.push(
                            final(self)@.timers[id as int].samples.last(),
                        ),
                        ..old(self)@.timers[id as int]
                    },
                ),
                ..old(self)@
            }),
            !known ==> final(self)@ == old(self)@,
    {
        proof {
            use_type_invariant(&*self);
        }
        if id >= self.timers.len() {
            proof {
                self.lemma_view_wf();
            }
            return false;
        }
        let mut timers: Vec<Timer> = Vec::new();
        std::mem::swap(&mut timers, &mut self.timers);
        let ghost before = timers@;
        let recorded = handle.stop(&mut timers[id]);
        proof {
            assert(names_of(timers@) =~= names_of(before));
        }
        self.timers = timers;
        proof {
            if recorded {
                assert(self@.timers =~= old(self)@.timers.update(
                    id as int,
                    TimerView {
                        samples: old(self)@.timers[id as int].samples.push(
                            self@.timers[id as int].samples.last(),
                        ),
                        ..old(self)@.timers[id as int]
                    },
                ));
            } else {
                assert(self@.timers =~= old(self)@.timers);
            }
            use_type_invariant(&*self);
            self.lemma_view_wf();
        }
        recorded
    }
}

} // verus!

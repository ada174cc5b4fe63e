//! One-step forms: register an instrument and act on it at once.

use crate::labels::Labels;
use crate::metrics::counter::{wrapped, CounterView};
use crate::metrics::gauge::GaugeView;
use crate::metrics::timer::TimerView;
use crate::registry::{enrolled, slot, Registry, RegistryView};
use vstd::prelude::*;

verus! {

/// The registry after the counter `name` has been registered with `labels`
/// and incremented by `amount`.
pub open spec fn counted(
    registry: RegistryView,
    name: Seq<char>,
    labels: Map<Seq<char>, Seq<char>>,
    amount: u64,
) -> RegistryView {
    let id = slot(registry.counters, name);
    let counters = enrolled(
        registry.counters,
        name,
        CounterView { name: name, labels: labels, value: 0 },
    );
    RegistryView {
        counters: counters.update(
            id,
            CounterView { value: wrapped(counters[id].value + amount), ..counters[id] },
        ),
        ..registry
    }
}

/// The registry after the gauge `name` has been registered with `labels`
/// and set to the reading with the bit pattern `bits`.
pub open spec fn gauged(
    registry: RegistryView,
    name: Seq<char>,
    labels: Map<Seq<char>, Seq<char>>,
    bits: u64,
) -> RegistryView {
    let id = slot(registry.gauges, name);
    let gauges = enrolled(
        registry.gauges,
        name,
        GaugeView { name: name, labels: labels, bits: 0 },
    );
    RegistryView { gauges: gauges.update(id, GaugeView { bits: bits, ..gauges[id] }), ..registry }
}

/// The registry after the timer `name` has been registered with `labels`
/// and has recorded `sample`.
pub open spec fn timed(
    registry: RegistryView,
    name: Seq<char>,
    labels: Map<Seq<char>, Seq<char>>,
    sample: u64,
) -> RegistryView {
    let id = slot(registry.timers, name);
    let timers = enrolled(
        registry.timers,
        name,
        TimerView { name: name, labels: labels, samples: Seq::empty() },
    );
    RegistryView {
        timers: timers.update(
            id,
            TimerView { samples: timers[id].samples.push(sample), ..timers[id] },
        ),
        ..registry
    }
}

/// Registers the counter `name` and increments it by one.
pub fn metrics_counter(registry: &mut Registry, name: &str, labels: Labels)
    ensures
        final(registry)@ == counted(old(registry)@, name@, labels@, 1),
        final(registry).wf(),
{
    metrics_counter_by(registry, name, labels, 1);
}

/// Registers the counter `name` and increments it by `amount`.
pub fn metrics_counter_by(registry: &mut Registry, name: &str, labels: Labels, amount: u64)
    ensures
        final(registry)@ == counted(old(registry)@, name@, labels@, amount),
        final(registry).wf(),
{
    let id = registry.register_counter(name, labels);
    let known = registry.increment_counter_by(id, amount);
    assert(known);
}

/// Registers the gauge `name` and sets its reading.
pub fn metrics_gauge(registry: &mut Registry, name: &str, labels: Labels, bits: u64)
    ensures
        final(registry)@ == gauged(old(registry)@, name@, labels@, bits),
        final(registry).wf(),
{
    let id = registry.register_gauge(name, labels);
    let known = registry.set_gauge(id, bits);
    assert(known);
}

/// Registers the timer `name`, runs `code` and records the time it took.
/// Whatever the clock reads, the timer has one sample more afterwards.
pub fn metrics_timer<R, F: FnOnce() -> R>(
    registry: &mut Registry,
    name: &str,
    labels: Labels,
    code: F,
) -> (result: R)
    requires
        code.requires(()),
    ensures
        code.ensures((), result),
        final(registry)@ == timed(
            old(registry)@,
            name@,
            labels@,
            final(registry)@.timers[slot(old(registry)@.timers, name@)].samples.last(),
        ),
        final(registry).wf(),
{
    let id = registry.register_timer(name, labels);
    let handle = registry.timers()[id].start();
    let result = code();
    let known = registry.stop_timer(id, handle);
    assert(known);
    result
}

} // verus!

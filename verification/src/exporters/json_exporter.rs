//! The JSON snapshot: one object whose members are the sanitized names of
//! the counters and gauges, each with its current value. Where two
//! instruments share a sanitized name, a gauge wins over a counter and a
//! later registration over an earlier one. Histograms, timers and meters
//! are not rendered.

use crate::exporters::prometheus::{sanitize_metric_name, sanitized};
use crate::metrics::counter::CounterView;
use crate::metrics::gauge::GaugeView;
use crate::metrics::Metric;
use crate::registry::{counter_views, gauge_views, Registry};
use crate::text::decimal;
use serde_json::Value;
use vstd::prelude::*;

verus! {

/// `serde_json::Value`: any JSON value. Nothing is known of what a value
/// holds but its text.
#[verifier::external_type_specification]
#[verifier::external_body]
pub struct ExValue(serde_json::Value);

/// `serde_json::Map`: the members of a JSON object.
#[verifier::external_type_specification]
#[verifier::external_body]
#[verifier::reject_recursive_types(K)]
#[verifier::reject_recursive_types(V)]
pub struct ExMap<K, V>(serde_json::Map<K, V>);

/// A JSON object, as `serde_json` holds it.
pub type JsonObject = serde_json::Map<String, Value>;

/// The compact JSON text of a value: what `serde_json::to_string` writes
/// for it.
pub uninterp spec fn json_value_text(value: Value) -> Seq<char>;

/// The members of an object: each key with the JSON text of its value.
pub uninterp spec fn json_members(object: JsonObject) -> Map<Seq<char>, Seq<char>>;

/// The compact JSON text of an object with the given members: what
/// `serde_json::to_string` writes for it.
pub uninterp spec fn json_object_text(members: Map<Seq<char>, Seq<char>>) -> Seq<char>;

/// An object without members.
pub open spec fn no_members() -> Map<Seq<char>, Seq<char>> {
    Map::empty()
}

/// `Value::from` on an unsigned integer gives the JSON number that is
/// written as the integer's decimal numeral.
#[verifier::external_body]
fn json_number(n: u64) -> (value: Value)
    ensures
        json_value_text(value) == decimal(n as nat),
{
    Value::from(n)
}

/// `Map::new` gives an object without members.
#[verifier::external_body]
fn json_object() -> (object: JsonObject)
    ensures
        json_members(object) == no_members(),
{
    serde_json::Map::new()
}

/// `Map::insert` sets the member `key` to `value`, replacing the value the
/// key had, if any, and leaves the other members as they are.
#[verifier::external_body]
fn json_insert(object: &mut JsonObject, key: String, value: Value)
    ensures
        json_members(*final(object)) == json_members(*old(object)).insert(
            key@,
            json_value_text(value),
        ),
{
    object.insert(key, value);
}

/// `serde_json::to_string` on an object: it succeeds, and the text is that
/// of an object with these members. It can fail only where the writer
/// fails or a key is no string; here it writes into a vector of bytes, the
/// keys are strings, and a number that is not finite is written as `null`.
#[verifier::external_body]
fn json_to_string(object: &JsonObject) -> (text: Option<String>)
    ensures
        text is Some,
        text matches Some(t) ==> t@ == json_object_text(json_members(*object)),
{
    serde_json::to_string(object).ok()
}

/// The members after the first `count` counters have been set on `base`.
pub open spec fn with_counters(
    base: Map<Seq<char>, Seq<char>>,
    counters: Seq<CounterView>,
    count: int,
) -> Map<Seq<char>, Seq<char>>
    decreases count,
{
    if count <= 0 {
        base
    } else {
        with_counters(base, counters, count - 1).insert(
            sanitized(counters[count - 1].name),
            decimal(counters[count - 1].value as nat),
        )
    }
}

/// The members after the first `count` gauges have been set on `base`,
/// each to the JSON text of its reading.
pub open spec fn with_gauges(
    base: Map<Seq<char>, Seq<char>>,
    gauges: Seq<GaugeView>,
    values: Seq<Seq<char>>,
    count: int,
) -> Map<Seq<char>, Seq<char>>
    decreases count,
{
    if count <= 0 {
        base
    } else {
        with_gauges(base, gauges, values, count - 1).insert(
            sanitized(gauges[count - 1].name),
            values[count - 1],
        )
    }
}

/// The members of the snapshot of a registry, given the JSON text of each
/// gauge's reading.
pub open spec fn snapshot_members(
    counters: Seq<CounterView>,
    gauges: Seq<GaugeView>,
    values: Seq<Seq<char>>,
) -> Map<Seq<char>, Seq<char>> {
    with_gauges(
        with_counters(Map::empty(), counters, counters.len() as int),
        gauges,
        values,
        gauges.len() as int,
    )
}

/// The JSON text of each value.
pub open spec fn value_texts(values: Seq<Value>) -> Seq<Seq<char>> {
    Seq::new(values.len(), |i: int| json_value_text(values[i]))
}

/// Builds the object of the JSON snapshot of the registry. `gauge_values`
/// holds the reading of each gauge as a JSON value, in the order of
/// registration; without one reading for each gauge there is no object.
pub fn snapshot_object(registry: &Registry, gauge_values: Vec<Value>) -> (object: Option<
    JsonObject,
>)
    ensures
        gauge_values@.len() == registry@.gauges.len() <==> object is Some,
        object matches Some(built) ==> json_members(built) == snapshot_members(
            registry@.counters,
            registry@.gauges,
            value_texts(gauge_values@),
        ),
{
    let counters = registry.counters();
    let gauges = registry.gauges();
    if gauge_values.len() != gauges.len() {
        return None;
    }
    let mut object = json_object();
    let mut i: usize = 0;
    while i < counters.len()
        invariant
            i <= counters@.len(),
            counter_views(counters@) == registry@.counters,
            json_members(object) == with_counters(Map::empty(), registry@.counters, i as int),
        decreases counters@.len() - i,
    {
        let key = sanitize_metric_name(counters[i].name());
        let value = json_number(counters[i].get());
        proof {
            assert(counter_views(counters@)[i as int] == counters@[i as int]@);
        }
        json_insert(&mut object, key, value);
        i = i + 1;
    }
    let ghost base = json_members(object);
    let ghost values = value_texts(gauge_values@);
    let total: usize = gauges.len();
    let mut at: usize = 0;
    for value in iter: gauge_values
        invariant
            at == iter.index(),
            total == gauges@.len(),
            iter.seq() == gauge_values@,
            gauge_values@.len() == gauges@.len(),
            values == value_texts(gauge_values@),
            gauge_views(gauges@) == registry@.gauges,
            json_members(object) == with_gauges(
                base,
                registry@.gauges,
                values,
                iter.index() as int,
            ),
    {
        let key = sanitize_metric_name(gauges[at].name());
        proof {
            assert(gauge_views(gauges@)[at as int] == gauges@[at as int]@);
            assert(values[at as int] == json_value_text(value));
        }
        json_insert(&mut object, key, value);
        at = at + 1;
    }
    Some(object)
}

/// Renders the JSON snapshot of the registry: the text that the serializer
/// writes for the object of the snapshot. `gauge_values` holds the reading
/// of each gauge as a JSON value, in the order of registration; there is a
/// document exactly when there is one reading for each gauge.
pub fn collect_metrics_json(registry: &Registry, gauge_values: Vec<Value>) -> (document: Option<
    String,
>)
    ensures
        gauge_values@.len() == registry@.gauges.len() <==> document is Some,
        document matches Some(text) ==> text@ == json_object_text(
            snapshot_members(registry@.counters, registry@.gauges, value_texts(gauge_values@)),
        ),
{
    match snapshot_object(registry, gauge_values) {
        Some(object) => json_to_string(&object),
        None => None,
    }
}

} // verus!

//! The text exposition: one line for each counter, then one for each gauge,
//! `name{key="value",...} value`, each kind in the ascending order of the
//! names and each label block in the ascending order of the keys, so that
//! equal contents always give the same bytes.
//!
//! Label values are inserted as they are: a quote or a backslash inside a
//! value is not escaped. Histograms, timers and meters are not rendered.

use crate::labels::{ordered_pairs, Labels, TextPairs};
use crate::metrics::counter::{Counter, CounterView};
use crate::metrics::gauge::{Gauge, GaugeView};
use crate::metrics::{names, names_of, Metric};
use crate::order::{lemma_name_le_total, name_le, name_order, picked, sorted_names};
use crate::registry::{distinct, Registry, RegistryView};
use crate::text::{decimal, push_char, push_decimal, push_text};
use vstd::prelude::*;
use vstd::seq_lib::{lemma_sorted_unique, to_multiset_contains, to_multiset_len};

verus! {

/// The content type of the exposition.
pub const CONTENT_TYPE: &'static str = "text/plain; version=0.0.4";

/// A dot or a hyphen becomes an underscore; any other character stays.
pub open spec fn sanitized_char(c: char) -> char {
    if c == '.' || c == '-' {
        '_'
    } else {
        c
    }
}

/// The name with every dot and every hyphen replaced by an underscore.
pub open spec fn sanitized(name: Seq<char>) -> Seq<char> {
    Seq::new(name.len(), |i: int| sanitized_char(name[i]))
}

/// One label: `key="value"`.
pub open spec fn pair_text(pair: (Seq<char>, Seq<char>)) -> Seq<char> {
    pair.0 + seq!['=', '"'] + pair.1 + seq!['"']
}

/// The labels, separated by commas.
pub open spec fn joined_pairs(pairs: TextPairs) -> Seq<char>
    decreases pairs.len(),
{
    if pairs.len() == 0 {
        Seq::empty()
    } else if pairs.len() == 1 {
        pair_text(pairs[0])
    } else {
        joined_pairs(pairs.drop_last()) + seq![','] + pair_text(pairs.last())
    }
}

/// The label block: nothing without labels, else the labels in braces.
pub open spec fn label_block(pairs: TextPairs) -> Seq<char> {
    if pairs.len() == 0 {
        Seq::empty()
    } else {
        seq!['{'] + joined_pairs(pairs) + seq!['}']
    }
}

/// One line of the exposition.
pub open spec fn sample_line(
    name: Seq<char>,
    labels: Map<Seq<char>, Seq<char>>,
    value: Seq<char>,
) -> Seq<char> {
    sanitized(name) + label_block(ordered_pairs(labels)) + seq![' '] + value + seq!['\n']
}

/// The line of each counter, in the order of registration.
pub open spec fn counter_lines(counters: Seq<CounterView>) -> Seq<Seq<char>> {
    Seq::new(
        counters.len(),
        |i: int|
            sample_line(counters[i].name, counters[i].labels, decimal(counters[i].value as nat)),
    )
}

/// The line of each gauge, in the order of registration, with the rendered
/// reading of each.
pub open spec fn gauge_lines(gauges: Seq<GaugeView>, values: Seq<Seq<char>>) -> Seq<Seq<char>> {
    Seq::new(gauges.len(), |i: int| sample_line(gauges[i].name, gauges[i].labels, values[i]))
}

/// The first `count` lines in the ascending order of the names, one after
/// the other.
pub open spec fn arranged_upto(all: Seq<Seq<char>>, lines: Seq<Seq<char>>, count: int) -> Seq<
    char,
>
    decreases count,
{
    if count <= 0 {
        Seq::empty()
    } else {
        arranged_upto(all, lines, count - 1) + lines[all.index_of(sorted_names(all)[count - 1])]
    }
}

/// All lines in the ascending order of the names, one after the other.
pub open spec fn arranged(all: Seq<Seq<char>>, lines: Seq<Seq<char>>) -> Seq<char> {
    arranged_upto(all, lines, all.len() as int)
}

/// The text of each string.
pub open spec fn texts(values: Seq<String>) -> Seq<Seq<char>> {
    Seq::new(values.len(), |i: int| values[i]@)
}

/// The exposition of a registry, given the rendered reading of each gauge.
pub open spec fn exposition(registry: RegistryView, gauge_values: Seq<Seq<char>>) -> Seq<char> {
    arranged(names(registry.counters), counter_lines(registry.counters)) + arranged(
        names(registry.gauges),
        gauge_lines(registry.gauges, gauge_values),
    )
}

/// `b` with `second` lists what `a` with `first` lists, each name with the
/// same line, in whatever order.
pub open spec fn same_contents(
    a: Seq<Seq<char>>,
    first: Seq<Seq<char>>,
    b: Seq<Seq<char>>,
    second: Seq<Seq<char>>,
) -> bool {
    &&& first.len() == a.len()
    &&& second.len() == b.len()
    &&& forall|i: int|
        0 <= i < a.len() ==> exists|j: int|
            0 <= j < b.len() && #[trigger] b[j] == #[trigger] a[i] && second[j] == first[i]
    &&& forall|j: int|
        0 <= j < b.len() ==> exists|i: int|
            0 <= i < a.len() && #[trigger] a[i] == #[trigger] b[j] && first[i] == second[j]
}

/// Distinct names in any order sort to the same sequence.
proof fn lemma_same_names_sort_alike(a: Seq<Seq<char>>, b: Seq<Seq<char>>)
    requires
        distinct(a),
        distinct(b),
        forall|i: int| 0 <= i < a.len() ==> b.contains(#[trigger] a[i]),
        forall|j: int| 0 <= j < b.len() ==> a.contains(#[trigger] b[j]),
    ensures
        sorted_names(a) == sorted_names(b),
        a.len() == b.len(),
{
    assert(a.no_duplicates());
    assert(b.no_duplicates());
    a.lemma_multiset_has_no_duplicates();
    b.lemma_multiset_has_no_duplicates();
    assert forall|x: Seq<char>| a.to_multiset().count(x) == b.to_multiset().count(x) by {
        to_multiset_contains(a, x);
        to_multiset_contains(b, x);
        if a.contains(x) {
            let i = choose|i: int| 0 <= i < a.len() && a[i] == x;
            assert(b.contains(a[i]));
        }
        if b.contains(x) {
            let j = choose|j: int| 0 <= j < b.len() && b[j] == x;
            assert(a.contains(b[j]));
        }
    }
    assert(a.to_multiset() =~= b.to_multiset());
    to_multiset_len(a);
    to_multiset_len(b);
    lemma_name_le_total();
    a.lemma_sort_by_ensures(name_le());
    b.lemma_sort_by_ensures(name_le());
    lemma_sorted_unique(sorted_names(a), sorted_names(b), name_le());
}

/// The exposition of a kind depends on the names and their lines alone,
/// not on the order in which the instruments were registered.
pub proof fn lemma_arranged_ignores_registration_order(
    a: Seq<Seq<char>>,
    first: Seq<Seq<char>>,
    b: Seq<Seq<char>>,
    second: Seq<Seq<char>>,
)
    requires
        distinct(a),
        distinct(b),
        same_contents(a, first, b, second),
    ensures
        arranged(a, first) == arranged(b, second),
{
    assert forall|i: int| 0 <= i < a.len() implies b.contains(#[trigger] a[i]) by {
        let j = choose|j: int|
            0 <= j < b.len() && #[trigger] b[j] == #[trigger] a[i] && second[j] == first[i];
        assert(b[j] == a[i]);
    }
    assert forall|j: int| 0 <= j < b.len() implies a.contains(#[trigger] b[j]) by {
        let i = choose|i: int|
            0 <= i < a.len() && #[trigger] a[i] == #[trigger] b[j] && first[i] == second[j];
        assert(a[i] == b[j]);
    }
    lemma_same_names_sort_alike(a, b);
    lemma_arranged_upto_alike(a, first, b, second, a.len() as int);
}

/// Two expositions of the same contents are the same text.
pub proof fn lemma_exposition_reproducible(
    first: Seq<char>,
    second: Seq<char>,
    registry: RegistryView,
    gauge_values: Seq<Seq<char>>,
)
    requires
        first == exposition(registry, gauge_values),
        second == exposition(registry, gauge_values),
    ensures
        first == second,
{
}

/// Registries that hold the same counters and the same gauges with the same
/// readings have the same exposition, in whatever order the instruments
/// were registered.
pub proof fn lemma_exposition_ignores_registration_order(
    a: RegistryView,
    a_values: Seq<Seq<char>>,
    b: RegistryView,
    b_values: Seq<Seq<char>>,
)
    requires
        a.wf(),
        b.wf(),
        same_contents(
            names(a.counters),
            counter_lines(a.counters),
            names(b.counters),
            counter_lines(b.counters),
        ),
        same_contents(
            names(a.gauges),
            gauge_lines(a.gauges, a_values),
            names(b.gauges),
            gauge_lines(b.gauges, b_values),
        ),
    ensures
        exposition(a, a_values) == exposition(b, b_values),
{
    lemma_arranged_ignores_registration_order(
        names(a.counters),
        counter_lines(a.counters),
        names(b.counters),
        counter_lines(b.counters),
    );
    lemma_arranged_ignores_registration_order(
        names(a.gauges),
        gauge_lines(a.gauges, a_values),
        names(b.gauges),
        gauge_lines(b.gauges, b_values),
    );
}

/// The first lines of two arrangements of the same contents are the same.
proof fn lemma_arranged_upto_alike(
    a: Seq<Seq<char>>,
    first: Seq<Seq<char>>,
    b: Seq<Seq<char>>,
    second: Seq<Seq<char>>,
    count: int,
)
    requires
        distinct(a),
        distinct(b),
        same_contents(a, first, b, second),
        sorted_names(a) == sorted_names(b),
        a.len() == b.len(),
        0 <= count <= a.len(),
    ensures
        arranged_upto(a, first, count) == arranged_upto(b, second, count),
    decreases count,
{
    if count > 0 {
        lemma_arranged_upto_alike(a, first, b, second, count - 1);
        let sorted = sorted_names(a);
        let name = sorted[count - 1];
        lemma_name_le_total();
        a.lemma_sort_by_ensures(name_le());
        to_multiset_len(a);
        to_multiset_len(sorted);
        to_multiset_contains(a, name);
        to_multiset_contains(sorted, name);
        assert(sorted.contains(name));
        assert(a.contains(name));
        let i = a.index_of(name);
        assert(0 <= i < a.len() && a[i] == name);
        let j = choose|j: int|
            0 <= j < b.len() && #[trigger] b[j] == #[trigger] a[i] && second[j] == first[i];
        assert(b.contains(name));
        let found = b.index_of(name);
        assert(0 <= found < b.len() && b[found] == name);
        assert(found == j);
    }
}

/// A sanitized name holds neither a dot nor a hyphen, and is as long as the
/// name it was made from.
pub proof fn lemma_sanitized_is_clean(name: Seq<char>)
    ensures
        sanitized(name).len() == name.len(),
        !sanitized(name).contains('.'),
        !sanitized(name).contains('-'),
{
}

/// Replaces every dot and every hyphen of the name by an underscore.
pub fn sanitize_metric_name(name: &str) -> (clean: String)
    ensures
        clean@ == sanitized(name@),
        !clean@.contains('.'),
        !clean@.contains('-'),
{
    let mut clean = String::new();
    for c in iter: name.chars()
        invariant
            iter.seq() == name@,
            clean@ == sanitized(name@.take(iter.index() as int)),
    {
        let ghost before = clean@;
        if c == '.' || c == '-' {
            push_char(&mut clean, '_');
        } else {
            push_char(&mut clean, c);
        }
        proof {
            assert(name@.take(iter.index() + 1) == name@.take(iter.index() as int).push(c));
            assert(clean@ =~= sanitized(name@.take(iter.index() + 1)));
        }
    }
    proof {
        assert(name@.take(name@.len() as int) == name@);
        lemma_sanitized_is_clean(name@);
    }
    clean
}

/// Renders the label block of a label set.
pub fn format_labels(labels: &Labels) -> (block: String)
    ensures
        block@ == label_block(ordered_pairs(labels@)),
{
    let mut block = String::new();
    let pairs = labels.pairs();
    if pairs.len() == 0 {
        return block;
    }
    let ghost all = ordered_pairs(labels@);
    push_char(&mut block, '{');
    let mut i: usize = 0;
    while i < pairs.len()
        invariant
            i <= pairs@.len(),
            all.len() == pairs@.len(),
            forall|j: int| 0 <= j < all.len() ==> all[j] == (pairs@[j].0@, pairs@[j].1@),
            block@ == seq!['{'] + joined_pairs(all.take(i as int)),
        decreases pairs@.len() - i,
    {
        let ghost before = block@;
        if i > 0 {
            push_char(&mut block, ',');
        }
        push_text(&mut block, pairs[i].0.as_str());
        push_char(&mut block, '=');
        push_char(&mut block, '"');
        push_text(&mut block, pairs[i].1.as_str());
        push_char(&mut block, '"');
        proof {
            let next = all.take(i + 1);
            assert(next.drop_last() == all.take(i as int));
            assert(next.last() == all[i as int]);
            assert(pair_text(all[i as int]) =~= all[i as int].0 + seq!['='] + seq!['"']
                + all[i as int].1 + seq!['"']);
            if i == 0 {
                assert(joined_pairs(all.take(0)) =~= Seq::<char>::empty());
                assert(next[0] == all[0]);
            }
            assert(block@ =~= seq!['{'] + joined_pairs(next));
        }
        i = i + 1;
    }
    push_char(&mut block, '}');
    proof {
        assert(all.take(i as int) == all);
    }
    block
}

/// Appends one line of the exposition.
fn push_line(out: &mut String, name: &str, labels: &Labels, value: &str)
    ensures
        final(out)@ == old(out)@ + sample_line(name@, labels@, value@),
{
    let clean = sanitize_metric_name(name);
    let block = format_labels(labels);
    push_text(out, clean.as_str());
    push_text(out, block.as_str());
    push_char(out, ' ');
    push_text(out, value);
    push_char(out, '\n');
    proof {
        assert(out@ =~= old(out)@ + sample_line(name@, labels@, value@));
    }
}

/// Among distinct names, each name of the sorted sequence is found where
/// the order took it from.
proof fn lemma_index_of_picked(all: Seq<Seq<char>>, order: Seq<usize>, k: int)
    requires
        distinct(all),
        0 <= k < order.len(),
        order[k] < all.len(),
        picked(all, order) == sorted_names(all),
    ensures
        all.index_of(sorted_names(all)[k]) == order[k],
{
    let name = sorted_names(all)[k];
    assert(picked(all, order)[k] == all[order[k] as int]);
    let found = all.index_of(name);
    assert(0 <= found < all.len() && all[found] == name);
}

/// Appends the lines of the counters, in the ascending order of their
/// names.
fn push_counters(out: &mut String, counters: &Vec<Counter>)
    requires
        distinct(names_of(counters@)),
    ensures
        final(out)@ == old(out)@ + arranged(
            names_of(counters@),
            Seq::new(
                counters@.len(),
                |i: int|
                    sample_line(
                        counters@[i]@.name,
                        counters@[i]@.labels,
                        decimal(counters@[i]@.value as nat),
                    ),
            ),
        ),
{
    let ghost all = names_of(counters@);
    let ghost lines = Seq::new(
        counters@.len(),
        |i: int|
            sample_line(
                counters@[i]@.name,
                counters@[i]@.labels,
                decimal(counters@[i]@.value as nat),
            ),
    );
    let order = name_order(counters);
    let mut k: usize = 0;
    while k < order.len()
        invariant
            k <= order@.len(),
            order@.len() == counters@.len(),
            all == names_of(counters@),
            distinct(all),
            forall|j: int| 0 <= j < order@.len() ==> #[trigger] order@[j] < counters@.len(),
            picked(all, order@) == sorted_names(all),
            lines == Seq::new(
                counters@.len(),
                |i: int|
                    sample_line(
                        counters@[i]@.name,
                        counters@[i]@.labels,
                        decimal(counters@[i]@.value as nat),
                    ),
            ),
            out@ == old(out)@ + arranged_upto(all, lines, k as int),
        decreases order@.len() - k,
    {
        let counter = &counters[order[k]];
        let mut value = String::new();
        push_decimal(&mut value, counter.get());
        proof {
            lemma_index_of_picked(all, order@, k as int);
            assert(Seq::<char>::empty() + decimal(counter@.value as nat) =~= decimal(
                counter@.value as nat,
            ));
        }
        push_line(out, counter.name(), counter.labels(), value.as_str());
        proof {
            assert(out@ =~= old(out)@ + arranged_upto(all, lines, k + 1));
        }
        k = k + 1;
    }
}

/// Appends the lines of the gauges, in the ascending order of their names.
fn push_gauges(out: &mut String, gauges: &Vec<Gauge>, values: &Vec<String>)
    requires
        distinct(names_of(gauges@)),
        values@.len() == gauges@.len(),
    ensures
        final(out)@ == old(out)@ + arranged(
            names_of(gauges@),
            Seq::new(
                gauges@.len(),
                |i: int| sample_line(gauges@[i]@.name, gauges@[i]@.labels, values@[i]@),
            ),
        ),
{
    let ghost all = names_of(gauges@);
    let ghost lines = Seq::new(
        gauges@.len(),
        |i: int| sample_line(gauges@[i]@.name, gauges@[i]@.labels, values@[i]@),
    );
    let order = name_order(gauges);
    let mut k: usize = 0;
    while k < order.len()
        invariant
            k <= order@.len(),
            order@.len() == gauges@.len(),
            values@.len() == gauges@.len(),
            all == names_of(gauges@),
            distinct(all),
            forall|j: int| 0 <= j < order@.len() ==> #[trigger] order@[j] < gauges@.len(),
            picked(all, order@) == sorted_names(all),
            lines == Seq::new(
                gauges@.len(),
                |i: int| sample_line(gauges@[i]@.name, gauges@[i]@.labels, values@[i]@),
            ),
            out@ == old(out)@ + arranged_upto(all, lines, k as int),
        decreases order@.len() - k,
    {
        let gauge = &gauges[order[k]];
        proof {
            lemma_index_of_picked(all, order@, k as int);
        }
        push_line(out, gauge.name(), gauge.labels(), values[order[k]].as_str());
        proof {
            assert(out@ =~= old(out)@ + arranged_upto(all, lines, k + 1));
        }
        k = k + 1;
    }
}

/// Renders the exposition of the registry. `gauge_values` holds the
/// rendered reading of each gauge, in the order of registration; without
/// one reading for each gauge nothing is rendered.
pub fn collect_metrics(registry: &Registry, gauge_values: &Vec<String>) -> (document: Option<
    String,
>)
    ensures
        gauge_values@.len() == registry@.gauges.len() <==> document is Some,
        document matches Some(text) ==> text@ == exposition(registry@, texts(gauge_values@)),
{
    let counters = registry.counters();
    let gauges = registry.gauges();
    if gauge_values.len() != gauges.len() {
        return None;
    }
    let mut text = String::new();
    proof {
        assert(names_of(counters@) =~= names(registry@.counters));
        assert(names_of(gauges@) =~= names(registry@.gauges));
    }
    push_counters(&mut text, counters);
    push_gauges(&mut text, gauges, gauge_values);
    proof {
        assert(counter_lines(registry@.counters) =~= Seq::new(
            counters@.len(),
            |i: int|
                sample_line(
                    counters@[i]@.name,
                    counters@[i]@.labels,
                    decimal(counters@[i]@.value as nat),
                ),
        ));
        assert(gauge_lines(registry@.gauges, texts(gauge_values@)) =~= Seq::new(
            gauges@.len(),
            |i: int| sample_line(gauges@[i]@.name, gauges@[i]@.labels, gauge_values@[i]@),
        ));
        assert(text@ =~= exposition(registry@, texts(gauge_values@)));
    }
    Some(text)
}

} // verus!

//! Label sets: string keys with string values, kept in key order so that
//! every traversal of equal sets yields the same sequence.

use crate::text::{
    lemma_text_less_asymmetric, lemma_text_less_connected, lemma_text_less_transitive, str_eq,
    str_less, text_less,
};
use vstd::prelude::*;

verus! {

/// A sequence of key and value pairs, as plain text.
pub type TextPairs = Seq<(Seq<char>, Seq<char>)>;

/// The keys grow strictly from each pair to the next.
pub open spec fn keys_ascending(s: TextPairs) -> bool {
    forall|i: int, j: int| 0 <= i < j < s.len() ==> text_less(#[trigger] s[i].0, #[trigger] s[j].0)
}

/// Some pair of `s` has the key `k`.
pub open spec fn has_key(s: TextPairs, k: Seq<char>) -> bool {
    exists|i: int| 0 <= i < s.len() && #[trigger] s[i].0 == k
}

/// The position of a pair of `s` with the key `k`.
pub open spec fn key_index(s: TextPairs, k: Seq<char>) -> int {
    choose|i: int| 0 <= i < s.len() && #[trigger] s[i].0 == k
}

/// The mapping that a sequence of pairs stands for.
pub open spec fn pairs_map(s: TextPairs) -> Map<Seq<char>, Seq<char>> {
    Map::new(|k: Seq<char>| has_key(s, k), |k: Seq<char>| s[key_index(s, k)].1)
}

/// In a sequence with ascending keys, each pair is what the mapping holds
/// for its key.
pub proof fn lemma_pairs_map_at(s: TextPairs, at: int)
    requires
        keys_ascending(s),
        0 <= at < s.len(),
    ensures
        pairs_map(s).contains_key(s[at].0),
        pairs_map(s)[s[at].0] == s[at].1,
{
    let k = s[at].0;
    assert(has_key(s, k));
    let c = key_index(s, k);
    if c < at {
        lemma_text_less_asymmetric(s[c].0, s[at].0);
    } else if at < c {
        lemma_text_less_asymmetric(s[at].0, s[c].0);
    }
}

/// Putting a new key at its place in the order adds it to the mapping.
pub proof fn lemma_pairs_map_insert(s: TextPairs, at: int, k: Seq<char>, v: Seq<char>)
    requires
        keys_ascending(s),
        0 <= at <= s.len(),
        forall|j: int| 0 <= j < at ==> text_less(#[trigger] s[j].0, k),
        forall|j: int| at <= j < s.len() ==> text_less(k, #[trigger] s[j].0),
    ensures
        keys_ascending(s.insert(at, (k, v))),
        pairs_map(s.insert(at, (k, v))) == pairs_map(s).insert(k, v),
{
    let t = s.insert(at, (k, v));
    assert forall|i: int, j: int| 0 <= i < j < t.len() implies text_less(
        #[trigger] t[i].0,
        #[trigger] t[j].0,
    ) by {
        let oi = if i < at { i } else { i - 1 };
        let oj = if j < at { j } else { j - 1 };
        if i == at {
            assert(t[j] == s[oj]);
        } else if j == at {
            assert(t[i] == s[oi]);
        } else {
            assert(t[i] == s[oi] && t[j] == s[oj]);
        }
    }
    assert forall|q: Seq<char>| has_key(t, q) <==> (q == k || has_key(s, q)) by {
        if has_key(t, q) {
            let i = choose|i: int| 0 <= i < t.len() && #[trigger] t[i].0 == q;
            if i < at {
                assert(s[i].0 == q);
            } else if i > at {
                assert(s[i - 1].0 == q);
            }
        }
        if q == k {
            assert(t[at].0 == q);
        }
        if has_key(s, q) {
            let i = choose|i: int| 0 <= i < s.len() && #[trigger] s[i].0 == q;
            if i < at {
                assert(t[i].0 == q);
            } else {
                assert(t[i + 1].0 == q);
            }
        }
    }
    assert forall|q: Seq<char>| has_key(t, q) implies #[trigger] pairs_map(t)[q] == pairs_map(
        s,
    ).insert(k, v)[q] by {
        let i = choose|i: int| 0 <= i < t.len() && #[trigger] t[i].0 == q;
        lemma_pairs_map_at(t, i);
        if i < at {
            assert(t[i] == s[i]);
            lemma_pairs_map_at(s, i);
            lemma_text_less_asymmetric(s[i].0, k);
        } else if i > at {
            assert(t[i] == s[i - 1]);
            lemma_pairs_map_at(s, i - 1);
            lemma_text_less_asymmetric(k, s[i - 1].0);
        }
    }
    assert(pairs_map(t) =~= pairs_map(s).insert(k, v));
}

/// Replacing the value of a pair replaces it in the mapping.
pub proof fn lemma_pairs_map_update(s: TextPairs, at: int, v: Seq<char>)
    requires
        keys_ascending(s),
        0 <= at < s.len(),
    ensures
        keys_ascending(s.update(at, (s[at].0, v))),
        pairs_map(s.update(at, (s[at].0, v))) == pairs_map(s).insert(s[at].0, v),
{
    let k = s[at].0;
    let t = s.update(at, (k, v));
    assert forall|i: int, j: int| 0 <= i < j < t.len() implies text_less(
        #[trigger] t[i].0,
        #[trigger] t[j].0,
    ) by {
        assert(t[i].0 == s[i].0 && t[j].0 == s[j].0);
    }
    assert forall|q: Seq<char>| has_key(t, q) <==> (q == k || has_key(s, q)) by {
        if has_key(t, q) {
            let i = choose|i: int| 0 <= i < t.len() && #[trigger] t[i].0 == q;
            assert(s[i].0 == q);
        }
        if q == k {
            assert(t[at].0 == q);
        }
        if has_key(s, q) {
            let i = choose|i: int| 0 <= i < s.len() && #[trigger] s[i].0 == q;
            assert(t[i].0 == q);
        }
    }
    assert forall|q: Seq<char>| has_key(t, q) implies #[trigger] pairs_map(t)[q] == pairs_map(
        s,
    ).insert(k, v)[q] by {
        let i = choose|i: int| 0 <= i < t.len() && #[trigger] t[i].0 == q;
        lemma_pairs_map_at(t, i);
        if i != at {
            assert(t[i] == s[i]);
            lemma_pairs_map_at(s, i);
            if i < at {
                lemma_text_less_asymmetric(s[i].0, k);
            } else {
                lemma_text_less_asymmetric(k, s[i].0);
            }
        }
    }
    assert(pairs_map(t) =~= pairs_map(s).insert(k, v));
}

/// A mapping has only one sequence of pairs with ascending keys.
pub proof fn lemma_ascending_pairs_unique(a: TextPairs, b: TextPairs)
    requires
        keys_ascending(a),
        keys_ascending(b),
        pairs_map(a) == pairs_map(b),
    ensures
        a == b,
    decreases a.len(),
{
    if a.len() == 0 {
        if b.len() > 0 {
            lemma_pairs_map_at(b, 0);
            assert(has_key(a, b[0].0));
        }
        assert(a =~= b);
    } else if b.len() == 0 {
        lemma_pairs_map_at(a, 0);
        assert(has_key(b, a[0].0));
    } else {
        // The first keys are each the least key of the same mapping.
        lemma_pairs_map_at(a, 0);
        lemma_pairs_map_at(b, 0);
        assert(has_key(b, a[0].0));
        assert(has_key(a, b[0].0));
        let i = choose|i: int| 0 <= i < b.len() && #[trigger] b[i].0 == a[0].0;
        let j = choose|j: int| 0 <= j < a.len() && #[trigger] a[j].0 == b[0].0;
        if a[0].0 != b[0].0 {
            assert(i > 0 && j > 0);
            assert(text_less(b[0].0, b[i].0));
            assert(text_less(a[0].0, a[j].0));
            lemma_text_less_asymmetric(b[0].0, a[0].0);
        }
        assert(a[0] == b[0]);
        let ra = a.drop_first();
        let rb = b.drop_first();
        assert(keys_ascending(ra)) by {
            assert forall|x: int, y: int| 0 <= x < y < ra.len() implies text_less(
                #[trigger] ra[x].0,
                #[trigger] ra[y].0,
            ) by {
                assert(ra[x] == a[x + 1] && ra[y] == a[y + 1]);
            }
        }
        assert(keys_ascending(rb)) by {
            assert forall|x: int, y: int| 0 <= x < y < rb.len() implies text_less(
                #[trigger] rb[x].0,
                #[trigger] rb[y].0,
            ) by {
                assert(rb[x] == b[x + 1] && rb[y] == b[y + 1]);
            }
        }
        lemma_rest_map(a);
        lemma_rest_map(b);
        lemma_ascending_pairs_unique(ra, rb);
        assert(a =~= seq![a[0]] + ra);
        assert(b =~= seq![b[0]] + rb);
    }
}

/// Dropping the first pair removes its key from the mapping.
proof fn lemma_rest_map(s: TextPairs)
    requires
        keys_ascending(s),
        s.len() > 0,
    ensures
        pairs_map(s.drop_first()) == pairs_map(s).remove(s[0].0),
{
    let r = s.drop_first();
    assert(keys_ascending(r)) by {
        assert forall|x: int, y: int| 0 <= x < y < r.len() implies text_less(
            #[trigger] r[x].0,
            #[trigger] r[y].0,
        ) by {
            assert(r[x] == s[x + 1] && r[y] == s[y + 1]);
        }
    }
    assert forall|q: Seq<char>| has_key(r, q) <==> (q != s[0].0 && has_key(s, q)) by {
        if has_key(r, q) {
            let i = choose|i: int| 0 <= i < r.len() && #[trigger] r[i].0 == q;
            assert(s[i + 1].0 == q);
            assert(text_less(s[0].0, s[i + 1].0));
            lemma_text_less_asymmetric(s[0].0, q);
        }
        if q != s[0].0 && has_key(s, q) {
            let i = choose|i: int| 0 <= i < s.len() && #[trigger] s[i].0 == q;
            assert(r[i - 1].0 == q);
        }
    }
    assert forall|q: Seq<char>| has_key(r, q) implies #[trigger] pairs_map(r)[q] == pairs_map(
        s,
    )[q] by {
        let i = choose|i: int| 0 <= i < r.len() && #[trigger] r[i].0 == q;
        lemma_pairs_map_at(r, i);
        assert(r[i] == s[i + 1]);
        lemma_pairs_map_at(s, i + 1);
    }
    assert(pairs_map(r) =~= pairs_map(s).remove(s[0].0));
}

/// The pairs of a mapping in the order of their keys.
pub open spec fn ordered_pairs(m: Map<Seq<char>, Seq<char>>) -> TextPairs {
    choose|s: TextPairs| keys_ascending(s) && pairs_map(s) == m
}

/// A sequence with ascending keys is the ordered pairs of its mapping.
pub proof fn lemma_ordered_pairs(s: TextPairs)
    requires
        keys_ascending(s),
    ensures
        ordered_pairs(pairs_map(s)) == s,
{
    let t = ordered_pairs(pairs_map(s));
    lemma_ascending_pairs_unique(t, s);
}

/// The text of each pair of strings.
pub open spec fn text_of(pairs: Seq<(String, String)>) -> TextPairs {
    Seq::new(pairs.len(), |i: int| (pairs[i].0@, pairs[i].1@))
}

/// A set of labels: at most one value for each key.
pub struct Labels {
    pairs: Vec<(String, String)>,
}

impl View for Labels {
    type V = Map<Seq<char>, Seq<char>>;

    /// The mapping from keys to values.
    closed spec fn view(&self) -> Map<Seq<char>, Seq<char>> {
        pairs_map(self.entries())
    }
}

impl Labels {
    /// The pairs in the order of their keys.
    pub closed spec fn entries(&self) -> TextPairs {
        text_of(self.pairs@)
    }

    /// The pairs are held in the strict order of their keys, and they are
    /// the pairs of the mapping.
    #[verifier::type_invariant]
    pub closed spec fn wf(&self) -> bool {
        keys_ascending(self.entries())
    }

    /// The entries of a valid label set are the pairs of its mapping in the
    /// order of their keys.
    pub proof fn lemma_entries(&self)
        requires
            self.wf(),
        ensures
            keys_ascending(self.entries()),
            pairs_map(self.entries()) == self@,
            self.entries() == ordered_pairs(self@),
    {
        lemma_ordered_pairs(self.entries());
    }

    /// The empty set of labels.
    pub fn new() -> (labels: Labels)
        ensures
            labels@ == Map::<Seq<char>, Seq<char>>::empty(),
            labels.entries() == TextPairs::empty(),
            labels.wf(),
    {
        let labels = Labels { pairs: Vec::new() };
        proof {
            assert(labels.entries() =~= TextPairs::empty());
            assert(labels@ =~= Map::<Seq<char>, Seq<char>>::empty());
        }
        labels
    }

    /// How many labels there are.
    pub fn len(&self) -> (n: usize)
        ensures
            n == self.entries().len(),
    {
        self.pairs.len()
    }

    /// Whether there are no labels.
    pub fn is_empty(&self) -> (empty: bool)
        ensures
            empty == (self.entries().len() == 0),
            empty == (self@ == Map::<Seq<char>, Seq<char>>::empty()),
    {
        proof {
            use_type_invariant(self);
            if self.entries().len() > 0 {
                lemma_pairs_map_at(self.entries(), 0);
            } else {
                assert(self@ =~= Map::<Seq<char>, Seq<char>>::empty());
            }
        }
        self.pairs.len() == 0
    }

    /// The pairs in the order of their keys.
    pub fn pairs(&self) -> (pairs: &Vec<(String, String)>)
        ensures
            text_of(pairs@) == ordered_pairs(self@),
            text_of(pairs@) == self.entries(),
            self.wf(),
    {
        proof {
            use_type_invariant(self);
            self.lemma_entries();
        }
        &self.pairs
    }

    /// Sets the value of `key`, replacing the value it had, if any.
    pub fn insert(&mut self, key: String, value: String)
        ensures
            final(self)@ == old(self)@.insert(key@, value@),
            final(self).wf(),
    {
        proof {
            use_type_invariant(&*self);
        }
        let mut pairs: Vec<(String, String)> = Vec::new();
        std::mem::swap(&mut pairs, &mut self.pairs);
        let ghost before = text_of(pairs@);
        let mut at: usize = 0;
        while at < pairs.len() && str_less(pairs[at].0.as_str(), key.as_str())
            invariant
                at <= pairs.len(),
                forall|j: int| 0 <= j < at ==> text_less(#[trigger] before[j].0, key@),
                before == text_of(pairs@),
            decreases pairs.len() - at,
        {
            at = at + 1;
        }
        if at < pairs.len() && str_eq(pairs[at].0.as_str(), key.as_str()) {
            proof {
                lemma_pairs_map_update(before, at as int, value@);
            }
            pairs.set(at, (key, value));
            proof {
                assert(text_of(pairs@) =~= before.update(at as int, (key@, value@)));
            }
        } else {
            proof {
                assert forall|j: int| at <= j < before.len() implies text_less(
                    key@,
                    #[trigger] before[j].0,
                ) by {
                    lemma_text_less_connected(key@, before[at as int].0);
                    if at < j {
                        lemma_text_less_transitive(key@, before[at as int].0, before[j].0);
                    }
                }
                lemma_pairs_map_insert(before, at as int, key@, value@);
            }
            pairs.insert(at, (key, value));
            proof {
                assert(text_of(pairs@) =~= before.insert(at as int, (key@, value@)));
            }
        }
        self.pairs = pairs;
    }

    /// The value of `key`, if it has one.
    pub fn get(&self, key: &str) -> (value: Option<&String>)
        ensures
            self@.contains_key(key@) <==> value is Some,
            value matches Some(v) ==> v@ == self@[key@],
    {
        proof {
            use_type_invariant(self);
        }
        let mut i: usize = 0;
        while i < self.pairs.len()
            invariant
                i <= self.pairs.len(),
                forall|j: int| 0 <= j < i ==> #[trigger] self.entries()[j].0 != key@,
                keys_ascending(self.entries()),
            decreases self.pairs.len() - i,
        {
            if str_eq(self.pairs[i].0.as_str(), key) {
                proof {
                    lemma_pairs_map_at(self.entries(), i as int);
                }
                return Some(&self.pairs[i].1);
            }
            i = i + 1;
        }
        None
    }
}

impl Clone for Labels {
    /// A label set with the same pairs.
    fn clone(&self) -> (copy: Labels)
        ensures
            copy@ == self@,
            copy.entries() == self.entries(),
            copy.wf(),
    {
        proof {
            use_type_invariant(self);
        }
        let mut pairs: Vec<(String, String)> = Vec::new();
        let mut i: usize = 0;
        while i < self.pairs.len()
            invariant
                i <= self.pairs@.len(),
                pairs@.len() == i,
                text_of(pairs@) == text_of(self.pairs@).take(i as int),
            decreases self.pairs@.len() - i,
        {
            let ghost before = text_of(pairs@);
            let key = self.pairs[i].0.clone();
            let value = self.pairs[i].1.clone();
            pairs.push((key, value));
            proof {
                let after = text_of(pairs@);
                let goal = text_of(self.pairs@).take(i + 1);
                assert(after.len() == goal.len());
                assert forall|j: int| 0 <= j < after.len() implies after[j] == goal[j] by {
                    if j < i {
                        assert(after[j] == before[j]);
                        assert(before[j] == text_of(self.pairs@).take(i as int)[j]);
                    }
                }
                assert(after =~= goal);
            }
            i = i + 1;
        }
        proof {
            assert(text_of(self.pairs@).take(i as int) =~= text_of(self.pairs@));
        }
        Labels { pairs }
    }
}

/// Label sets with the same mapping have the same sequence of entries.
pub proof fn lemma_labels_entries_determined(a: Labels, b: Labels)
    requires
        a.wf(),
        b.wf(),
        a@ == b@,
    ensures
        a.entries() == b.entries(),
{
    lemma_ascending_pairs_unique(a.entries(), b.entries());
}

} // verus!

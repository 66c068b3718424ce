//! A map keyed by strings that remembers the order in which its keys came.
use crate::text;
use vstd::prelude::*;
use vstd::string::*;

verus! {

/// Whether no key occurs twice.
pub open spec fn distinct_keys<V>(pairs: Seq<(Seq<char>, V)>) -> bool {
    forall|i: int, j: int| 0 <= i < j < pairs.len() ==> (#[trigger] pairs[i]).0 != (#[trigger] pairs[j]).0
}

/// Whether a key occurs.
pub open spec fn has_key<V>(pairs: Seq<(Seq<char>, V)>, key: Seq<char>) -> bool {
    exists|i: int| 0 <= i < pairs.len() && (#[trigger] pairs[i]).0 == key
}

/// The place of a key that occurs.
pub open spec fn key_index<V>(pairs: Seq<(Seq<char>, V)>, key: Seq<char>) -> int {
    choose|i: int| 0 <= i < pairs.len() && (#[trigger] pairs[i]).0 == key
}

/// The value under a key that occurs.
pub open spec fn value_of<V>(pairs: Seq<(Seq<char>, V)>, key: Seq<char>) -> V {
    pairs[key_index(pairs, key)].1
}

/// The pairs after a key is given a value: in its place where the key occurs, at the
/// end where it does not.
pub open spec fn with_pair<V>(pairs: Seq<(Seq<char>, V)>, key: Seq<char>, value: V) -> Seq<(Seq<char>, V)> {
    if has_key(pairs, key) {
        pairs.update(key_index(pairs, key), (key, value))
    } else {
        pairs.push((key, value))
    }
}

/// The pairs with something in place of each value.
pub open spec fn mapped<V, W>(pairs: Seq<(Seq<char>, V)>, f: spec_fn(V) -> W) -> Seq<(Seq<char>, W)> {
    pairs.map_values(|p: (Seq<char>, V)| (p.0, f(p.1)))
}

/// The pairs of a map to texts, as characters.
pub open spec fn texts(pairs: Seq<(Seq<char>, String)>) -> Seq<(Seq<char>, Seq<char>)> {
    mapped(pairs, |t: String| t@)
}

/// Giving a key a value and putting something in place of each value can be done in
/// either order.
pub proof fn lemma_mapped<V, W>(
    pairs: Seq<(Seq<char>, V)>,
    f: spec_fn(V) -> W,
    key: Seq<char>,
    value: V,
)
    requires
        distinct_keys(pairs),
    ensures
        distinct_keys(mapped(pairs, f)),
        has_key(mapped(pairs, f), key) == has_key(pairs, key),
        has_key(pairs, key) ==> value_of(mapped(pairs, f), key) == f(value_of(pairs, key)),
        with_pair(mapped(pairs, f), key, f(value)) == mapped(with_pair(pairs, key, value), f),
{
    let after = mapped(pairs, f);
    if has_key(pairs, key) {
        let i = key_index(pairs, key);
        assert(after[i].0 == key);
        assert(key_index(after, key) == i) by {
            let j = key_index(after, key);
            assert(pairs[j].0 == key);
        }
    }
    if has_key(after, key) {
        assert(pairs[key_index(after, key)].0 == key);
    }
    assert(with_pair(after, key, f(value)) == mapped(with_pair(pairs, key, value), f));
}

/// A map from strings to values. No key occurs twice; the pairs keep the order in
/// which their keys were first inserted.
#[derive(Debug)]
#[verifier::reject_recursive_types(V)]
pub struct StrMap<V> {
    entries: Vec<(String, V)>,
}

impl<V> StrMap<V> {
    /// The pairs in order.
    pub closed spec fn pairs(&self) -> Seq<(Seq<char>, V)> {
        self.entries@.map_values(|e: (String, V)| (e.0@, e.1))
    }

    #[verifier::type_invariant]
    spec fn inv(&self) -> bool {
        distinct_keys(self.pairs())
    }

    /// An empty map.
    pub fn new() -> (r: Self)
        ensures
            r.pairs() == Seq::<(Seq<char>, V)>::empty(),
    {
        let r = StrMap { entries: Vec::new() };
        assert(r.pairs() == Seq::<(Seq<char>, V)>::empty());
        r
    }

    /// The number of keys.
    pub fn len(&self) -> (r: usize)
        ensures
            r == self.pairs().len(),
            distinct_keys(self.pairs()),
    {
        proof {
            use_type_invariant(self);
        }
        self.entries.len()
    }

    /// The key at a place.
    pub fn key_at(&self, i: usize) -> (r: &str)
        requires
            i < self.pairs().len(),
        ensures
            r@ == self.pairs()[i as int].0,
    {
        self.entries[i].0.as_str()
    }

    /// The value at a place.
    pub fn value_at(&self, i: usize) -> (r: &V)
        requires
            i < self.pairs().len(),
        ensures
            *r == self.pairs()[i as int].1,
    {
        &self.entries[i].1
    }

    /// The place of a key.
    fn position(&self, key: &str) -> (r: Option<usize>)
        ensures
            r is Some <==> has_key(self.pairs(), key@),
            r matches Some(i) ==> i < self.pairs().len() && self.pairs()[i as int].0 == key@,
    {
        let n: usize = self.entries.len();
        let mut i: usize = 0;
        while i < n
            invariant
                i <= n,
                n == self.pairs().len(),
                n == self.entries@.len(),
                forall|j: int| 0 <= j < i ==> (#[trigger] self.pairs()[j]).0 != key@,
            decreases n - i,
        {
            if text::same(self.entries[i].0.as_str(), key) {
                assert(self.pairs()[i as int].0 == key@);
                return Some(i);
            }
            i = i + 1;
        }
        None
    }

    /// The value under a key.
    pub fn get(&self, key: &str) -> (r: Option<&V>)
        ensures
            r is Some <==> has_key(self.pairs(), key@),
            r matches Some(v) ==> *v == value_of(self.pairs(), key@),
            distinct_keys(self.pairs()),
    {
        proof {
            use_type_invariant(self);
        }
        match self.position(key) {
            Some(i) => {
                assert(key_index(self.pairs(), key@) == i);
                Some(&self.entries[i].1)
            },
            None => None,
        }
    }

    /// Whether a key occurs.
    pub fn contains_key(&self, key: &str) -> (r: bool)
        ensures
            r == has_key(self.pairs(), key@),
    {
        self.position(key).is_some()
    }

    /// Gives a key a value.
    pub fn insert(&mut self, key: String, value: V)
        ensures
            final(self).pairs() == with_pair(old(self).pairs(), key@, value),
            distinct_keys(old(self).pairs()),
            distinct_keys(final(self).pairs()),
    {
        proof {
            use_type_invariant(&*self);
        }
        let at: Option<usize> = self.position(key.as_str());
        let mut entries: Vec<(String, V)> = Vec::new();
        let ghost before = self.pairs();
        let ghost k = key@;
        std::mem::swap(&mut entries, &mut self.entries);
        match at {
            Some(i) => {
                assert(key_index(before, k) == i);
                entries.set(i, (key, value));
            },
            None => {
                entries.push((key, value));
            },
        }
        assert(entries@.map_values(|e: (String, V)| (e.0@, e.1)) == with_pair(before, k, value));
        self.entries = entries;
    }
}

/// What is inserted under a key is what is read there, and every other key reads as
/// before.
pub proof fn law_insert_then_read<V>(pairs: Seq<(Seq<char>, V)>, key: Seq<char>, value: V, other: Seq<char>)
    requires
        distinct_keys(pairs),
    ensures
        distinct_keys(with_pair(pairs, key, value)),
        has_key(with_pair(pairs, key, value), key),
        value_of(with_pair(pairs, key, value), key) == value,
        other != key ==> has_key(with_pair(pairs, key, value), other) == has_key(pairs, other),
        other != key && has_key(pairs, other) ==> value_of(with_pair(pairs, key, value), other)
            == value_of(pairs, other),
{
    let after = with_pair(pairs, key, value);
    if has_key(pairs, key) {
        assert(after[key_index(pairs, key)].0 == key);
    } else {
        assert(after.last().0 == key);
    }
    if other != key && has_key(pairs, other) {
        assert(after[key_index(pairs, other)].0 == other);
    }
    if other != key && has_key(after, other) {
        assert(pairs[key_index(after, other)].0 == other);
    }
}

/// A key reads as the value beside it, wherever the pair stands.
pub proof fn law_key_reads_its_value<V>(pairs: Seq<(Seq<char>, V)>, i: int)
    requires
        distinct_keys(pairs),
        0 <= i < pairs.len(),
    ensures
        has_key(pairs, pairs[i].0),
        value_of(pairs, pairs[i].0) == pairs[i].1,
{
    assert(pairs[i].0 == pairs[i].0);
    assert(key_index(pairs, pairs[i].0) == i);
}

/// A key that is only given another value keeps its place, a new one comes last, and the
/// other pairs stay as and where they are.
pub proof fn law_insert_keeps_the_order<V>(pairs: Seq<(Seq<char>, V)>, key: Seq<char>, value: V)
    requires
        distinct_keys(pairs),
    ensures
        ({
            let after = with_pair(pairs, key, value);
            &&& forall|i: int|
                0 <= i < pairs.len() ==> #[trigger] after[i] == if pairs[i].0 == key {
                    (key, value)
                } else {
                    pairs[i]
                }
            &&& after.len() == pairs.len() || (after.len() == pairs.len() + 1 && after.last() == (
                key,
                value,
            ))
            &&& after.len() == pairs.len() <==> exists|i: int|
                0 <= i < pairs.len() && (#[trigger] pairs[i]).0 == key
        }),
{
    let after = with_pair(pairs, key, value);
    if has_key(pairs, key) {
        let k = key_index(pairs, key);
        assert forall|i: int| 0 <= i < pairs.len() implies #[trigger] after[i] == if pairs[i].0
            == key {
            (key, value)
        } else {
            pairs[i]
        } by {
            if pairs[i].0 == key {
                assert(pairs[k].0 == key);
                assert(i == k);
            }
        }
    }
}

/// What is put in place of a value stands under the same key, at the same place.
pub proof fn law_mapping_keeps_keys<V, W>(pairs: Seq<(Seq<char>, V)>, f: spec_fn(V) -> W, i: int)
    requires
        0 <= i < pairs.len(),
    ensures
        mapped(pairs, f).len() == pairs.len(),
        mapped(pairs, f)[i] == (pairs[i].0, f(pairs[i].1)),
{
}

/// A key occurs where some pair has it, and keys are distinct where no two pairs share one.
pub proof fn law_keys_occur_in_pairs<V>(pairs: Seq<(Seq<char>, V)>, key: Seq<char>, i: int, j: int)
    ensures
        has_key(pairs, key) <==> exists|k: int| 0 <= k < pairs.len() && (#[trigger] pairs[k]).0 == key,
        (forall|a: int, b: int|
            0 <= a < b < pairs.len() ==> (#[trigger] pairs[a]).0 != (#[trigger] pairs[b]).0)
            ==> distinct_keys(pairs),
        distinct_keys(pairs) && 0 <= i < pairs.len() && 0 <= j < pairs.len() && pairs[i].0
            == pairs[j].0 ==> i == j,
{
    if distinct_keys(pairs) && 0 <= i < pairs.len() && 0 <= j < pairs.len() && pairs[i].0
        == pairs[j].0 {
        if i < j {
            assert(pairs[i].0 != pairs[j].0);
        } else if j < i {
            assert(pairs[j].0 != pairs[i].0);
        }
    }
}

/// The texts of a map stand under the same keys, at the same places.
pub proof fn law_texts_keep_their_keys(pairs: Seq<(Seq<char>, String)>, i: int)
    requires
        0 <= i < pairs.len(),
    ensures
        texts(pairs).len() == pairs.len(),
        texts(pairs)[i].0 == pairs[i].0,
        texts(pairs)[i].1 == pairs[i].1@,
{
}

} // verus!

//! A mapping keyed by text, kept as a list of pairs.
//!
//! A later pair overrides an earlier pair with the same key, so every list of
//! pairs stands for a mapping and no list is ill-formed.
//!
//! A list is used, and no hash map, because nothing can be proved of a hash
//! map whose keys are `String`s: what `insert` and `get` do to it is stated
//! only for keys whose hashing and equality the verifier knows.

use vstd::prelude::*;
use crate::text::str_eq;

verus! {

/// A mapping from text to `V`.
#[derive(Debug, PartialEq, Eq)]
pub struct StrMap<V> {
    /// The pairs, oldest first. Where a key occurs more than once, the last
    /// occurrence is the one that counts.
    pub entries: Vec<(String, V)>,
}

/// The mapping that a list of pairs stands for.
pub open spec fn pairs_map<V>(pairs: Seq<(String, V)>) -> Map<Seq<char>, V>
    decreases pairs.len(),
{
    if pairs.len() == 0 {
        Map::empty()
    } else {
        pairs_map(pairs.drop_last()).insert(pairs.last().0@, pairs.last().1)
    }
}

/// The position of the last pair with key `key`, or `-1` if there is none.
pub open spec fn last_index<V>(pairs: Seq<(String, V)>, key: Seq<char>) -> int
    decreases pairs.len(),
{
    if pairs.len() == 0 {
        -1
    } else if pairs.last().0@ == key {
        pairs.len() - 1
    } else {
        last_index(pairs.drop_last(), key)
    }
}

/// The pairs of `pairs` whose key is not `key`, in their order.
pub open spec fn without_key<V>(pairs: Seq<(String, V)>, key: Seq<char>) -> Seq<(String, V)>
    decreases pairs.len(),
{
    if pairs.len() == 0 {
        Seq::empty()
    } else if pairs.last().0@ == key {
        without_key(pairs.drop_last(), key)
    } else {
        without_key(pairs.drop_last(), key).push(pairs.last())
    }
}

/// `last_index` finds the pair that decides what the mapping holds for `key`.
pub proof fn lemma_last_index<V>(pairs: Seq<(String, V)>, key: Seq<char>)
    ensures
        -1 <= last_index(pairs, key) < pairs.len(),
        last_index(pairs, key) >= 0 ==> pairs[last_index(pairs, key)].0@ == key,
        forall|j: int| last_index(pairs, key) < j < pairs.len() ==> (#[trigger] pairs[j]).0@ != key,
        pairs_map(pairs).contains_key(key) <==> last_index(pairs, key) >= 0,
        last_index(pairs, key) >= 0 ==> pairs_map(pairs)[key] == pairs[last_index(pairs, key)].1,
    decreases pairs.len(),
{
    if pairs.len() > 0 {
        lemma_last_index(pairs.drop_last(), key);
        if pairs.last().0@ != key {
            assert forall|j: int| last_index(pairs, key) < j < pairs.len() implies (
            #[trigger] pairs[j]).0@ != key by {
                if j < pairs.len() - 1 {
                    assert(pairs[j] == pairs.drop_last()[j]);
                }
            }
        }
    }
}

/// A position after which `key` does not occur again, and which holds `key`,
/// is the one that `last_index` finds.
pub proof fn lemma_last_index_is<V>(pairs: Seq<(String, V)>, key: Seq<char>, i: int)
    requires
        -1 <= i < pairs.len(),
        i >= 0 ==> pairs[i].0@ == key,
        forall|j: int| i < j < pairs.len() ==> (#[trigger] pairs[j]).0@ != key,
    ensures
        last_index(pairs, key) == i,
    decreases pairs.len(),
{
    if pairs.len() > 0 {
        if i == pairs.len() - 1 {
        } else {
            assert(pairs[pairs.len() - 1].0@ != key);
            assert forall|j: int| i < j < pairs.drop_last().len() implies (
            #[trigger] pairs.drop_last()[j]).0@ != key by {
                assert(pairs.drop_last()[j] == pairs[j]);
            }
            lemma_last_index_is(pairs.drop_last(), key, i);
        }
    }
}

/// Replacing the deciding pair for a key is an insertion into the mapping.
pub proof fn lemma_replace_last<V>(pairs: Seq<(String, V)>, i: int, key: String, value: V)
    requires
        0 <= i < pairs.len(),
        last_index(pairs, key@) == i,
    ensures
        pairs_map(pairs.update(i, (key, value))) == pairs_map(pairs).insert(key@, value),
    decreases pairs.len(),
{
    let updated = pairs.update(i, (key, value));
    if i == pairs.len() - 1 {
        assert(updated.drop_last() == pairs.drop_last());
        lemma_last_index(pairs, key@);
        assert(pairs_map(updated) =~= pairs_map(pairs).insert(key@, value));
    } else {
        assert(pairs.last().0@ != key@);
        assert(updated.drop_last() == pairs.drop_last().update(i, (key, value)));
        lemma_replace_last(pairs.drop_last(), i, key, value);
        assert(pairs_map(updated) =~= pairs_map(pairs).insert(key@, value));
    }
}

/// Dropping every pair with a key removes the key from the mapping.
pub proof fn lemma_without_key<V>(pairs: Seq<(String, V)>, key: Seq<char>)
    ensures
        pairs_map(without_key(pairs, key)) == pairs_map(pairs).remove(key),
    decreases pairs.len(),
{
    if pairs.len() == 0 {
        assert(pairs_map(without_key(pairs, key)) =~= pairs_map(pairs).remove(key));
    } else {
        lemma_without_key(pairs.drop_last(), key);
        if pairs.last().0@ == key {
            assert(pairs_map(without_key(pairs, key)) =~= pairs_map(pairs).remove(key));
        } else {
            let kept = without_key(pairs.drop_last(), key).push(pairs.last());
            assert(kept.drop_last() == without_key(pairs.drop_last(), key));
            assert(pairs_map(without_key(pairs, key)) =~= pairs_map(pairs).remove(key));
        }
    }
}

impl<V> View for StrMap<V> {
    type V = Map<Seq<char>, V>;

    open spec fn view(&self) -> Map<Seq<char>, V> {
        pairs_map(self.entries@)
    }
}

impl<V: DeepView> DeepView for StrMap<V> {
    type V = Map<Seq<char>, V::V>;

    open spec fn deep_view(&self) -> Map<Seq<char>, V::V> {
        self@.map_values(|v: V| v.deep_view())
    }
}

/// The mapping that a list of pairs of plain values stands for: as in
/// `pairs_map`, a later pair overrides an earlier one with the same key.
pub open spec fn text_map<T>(pairs: Seq<(Seq<char>, T)>) -> Map<Seq<char>, T>
    decreases pairs.len(),
{
    if pairs.len() == 0 {
        Map::empty()
    } else {
        text_map(pairs.drop_last()).insert(pairs.last().0, pairs.last().1)
    }
}

/// The mapping of the plain values of a list of pairs is the mapping of the
/// list, with each value taken as a plain value.
pub proof fn lemma_text_map<V: DeepView>(pairs: Seq<(String, V)>, plain: Seq<(Seq<char>, V::V)>)
    requires
        plain.len() == pairs.len(),
        forall|i: int|
            0 <= i < pairs.len() ==> (#[trigger] plain[i]) == (pairs[i].0@, pairs[i].1.deep_view()),
    ensures
        text_map(plain) == pairs_map(pairs).map_values(|v: V| v.deep_view()),
    decreases pairs.len(),
{
    if pairs.len() == 0 {
        assert(text_map(plain) =~= pairs_map(pairs).map_values(|v: V| v.deep_view()));
    } else {
        assert forall|i: int| 0 <= i < pairs.drop_last().len() implies (
        #[trigger] plain.drop_last()[i]) == (
            pairs.drop_last()[i].0@,
            pairs.drop_last()[i].1.deep_view(),
        ) by {
            assert(plain.drop_last()[i] == plain[i]);
        }
        lemma_text_map::<V>(pairs.drop_last(), plain.drop_last());
        assert(plain.last() == plain[plain.len() - 1]);
        assert(text_map(plain) =~= pairs_map(pairs).map_values(|v: V| v.deep_view()));
    }
}

impl<V: DeepView> StrMap<V> {
    /// The mapping is the one that its pairs stand for, with keys and values
    /// taken as plain values.
    pub proof fn lemma_deep_view(self)
        ensures
            self.deep_view() == text_map(self.entries.deep_view()),
    {
        lemma_text_map::<V>(self.entries@, self.entries.deep_view());
    }
}

impl<V> StrMap<V> {
    /// The empty mapping.
    pub fn new() -> (m: Self)
        ensures
            m@ == Map::<Seq<char>, V>::empty(),
            m.entries@.len() == 0,
    {
        StrMap { entries: Vec::new() }
    }

    /// The position of the pair that decides `key`, if the mapping holds it.
    pub fn position(&self, key: &str) -> (found: Option<usize>)
        ensures
            match found {
                Some(i) => i == last_index(self.entries@, key@) && self@.contains_key(key@)
                    && i < self.entries@.len() && self.entries@[i as int].1 == self@[key@],
                None => last_index(self.entries@, key@) == -1 && !self@.contains_key(key@),
            },
    {
        let mut i: usize = self.entries.len();
        while i > 0
            invariant
                i <= self.entries@.len(),
                forall|j: int|
                    i <= j < self.entries@.len() ==> (#[trigger] self.entries@[j]).0@ != key@,
            decreases i,
        {
            i -= 1;
            if str_eq(self.entries[i].0.as_str(), key) {
                proof {
                    lemma_last_index_is(self.entries@, key@, i as int);
                    lemma_last_index(self.entries@, key@);
                }
                return Some(i);
            }
        }
        proof {
            lemma_last_index_is(self.entries@, key@, -1);
            lemma_last_index(self.entries@, key@);
        }
        None
    }

    /// Whether the mapping holds `key`.
    pub fn contains_key(&self, key: &str) -> (held: bool)
        ensures
            held == self@.contains_key(key@),
    {
        self.position(key).is_some()
    }

    /// What the mapping holds for `key`.
    pub fn get(&self, key: &str) -> (found: Option<&V>)
        ensures
            match found {
                Some(v) => self@.contains_key(key@) && *v == self@[key@],
                None => !self@.contains_key(key@),
            },
    {
        match self.position(key) {
            Some(i) => Some(&self.entries[i].1),
            None => None,
        }
    }

    /// Makes the mapping hold `value` for `key`, whatever it held before.
    pub fn insert(&mut self, key: String, value: V)
        ensures
            final(self)@ == old(self)@.insert(key@, value),
    {
        match self.position(key.as_str()) {
            Some(i) => {
                proof {
                    lemma_replace_last(self.entries@, i as int, key, value);
                }
                self.entries.set(i, (key, value));
            },
            None => {
                self.entries.push((key, value));
                assert(self.entries@.drop_last() == old(self).entries@);
            },
        }
    }

    /// Removes `key` and hands out what the mapping held for it.
    pub fn remove(&mut self, key: &str) -> (taken: Option<V>)
        ensures
            final(self)@ == old(self)@.remove(key@),
            match taken {
                Some(v) => old(self)@.contains_key(key@) && v == old(self)@[key@],
                None => !old(self)@.contains_key(key@),
            },
    {
        let mut all: Vec<(String, V)> = Vec::new();
        std::mem::swap(&mut all, &mut self.entries);
        let ghost before = all@;
        let mut taken: Option<V> = None;
        for pair in it: all
            invariant
                it.seq() == before,
                self.entries@ == without_key(before.take(it.index()), key@),
                match taken {
                    Some(v) => last_index(before.take(it.index()), key@) >= 0
                        && v == before[last_index(before.take(it.index()), key@)].1,
                    None => last_index(before.take(it.index()), key@) == -1,
                },
        {
            proof {
                let ghost n = it.index();
                assert(before.take(n + 1).drop_last() == before.take(n));
                assert(before.take(n + 1).last() == before[n]);
                lemma_last_index(before.take(n), key@);
            }
            if str_eq(pair.0.as_str(), key) {
                taken = Some(pair.1);
            } else {
                self.entries.push(pair);
            }
        }
        proof {
            assert(before.take(before.len() as int) == before);
            lemma_without_key(before, key@);
            lemma_last_index(before, key@);
        }
        taken
    }

    /// Removes every pair.
    pub fn clear(&mut self)
        ensures
            final(self)@ == Map::<Seq<char>, V>::empty(),
            final(self).entries@.len() == 0,
    {
        self.entries.clear();
    }
}

} // verus!

use vstd::prelude::*;

use crate::text::{
    lemma_precedes_irreflexive, lemma_precedes_total, lemma_precedes_transitive, precedes,
    same_text, text_precedes,
};

verus! {

/// Whether the texts of `keys` stand in the order of names, each before all
/// that follow it. No text then occurs twice.
pub open spec fn ascending(keys: Seq<Seq<char>>) -> bool {
    forall|i: int, j: int|
        0 <= i < j < keys.len() ==> precedes(#[trigger] keys[i], #[trigger] keys[j])
}

/// The place of `key` among `keys`, if it occurs there.
pub open spec fn place_of(keys: Seq<Seq<char>>, key: Seq<char>) -> Option<int> {
    if keys.contains(key) {
        Some(keys.index_of(key))
    } else {
        None
    }
}

/// The place at which `key` stands, or would have to be put, among the
/// ascending `keys`: the number of keys that come before it.
pub open spec fn rank_of(keys: Seq<Seq<char>>, key: Seq<char>) -> int
    decreases keys.len(),
{
    if keys.len() == 0 {
        0
    } else if precedes(keys.last(), key) {
        keys.len() as int
    } else {
        rank_of(keys.drop_last(), key)
    }
}

/// In ascending keys no text occurs twice.
pub proof fn lemma_ascending_distinct(keys: Seq<Seq<char>>)
    requires
        ascending(keys),
    ensures
        keys.no_duplicates(),
{
    assert forall|i: int, j: int| 0 <= i < keys.len() && 0 <= j < keys.len() && i != j implies keys[i]
        != keys[j] by {
        lemma_precedes_irreflexive(keys[i]);
        if i < j {
            assert(precedes(keys[i], keys[j]));
        } else {
            assert(precedes(keys[j], keys[i]));
        }
    }
}

/// The place of a key that occurs among ascending keys is the one place at
/// which it stands.
pub proof fn lemma_place_of(keys: Seq<Seq<char>>, i: int)
    requires
        ascending(keys),
        0 <= i < keys.len(),
    ensures
        place_of(keys, keys[i]) == Some(i),
{
    lemma_ascending_distinct(keys);
    assert(keys.contains(keys[i]));
    let k = keys.index_of(keys[i]);
    assert(0 <= k < keys.len() && keys[k] == keys[i]);
}

/// What `rank_of` answers: the keys before that place come before `key`, the
/// others do not.
pub proof fn lemma_rank_of(keys: Seq<Seq<char>>, key: Seq<char>)
    requires
        ascending(keys),
    ensures
        0 <= rank_of(keys, key) <= keys.len(),
        forall|i: int| 0 <= i < rank_of(keys, key) ==> precedes(#[trigger] keys[i], key),
        forall|i: int| rank_of(keys, key) <= i < keys.len() ==> !precedes(#[trigger] keys[i], key),
    decreases keys.len(),
{
    if keys.len() > 0 {
        let init = keys.drop_last();
        assert(ascending(init)) by {
            assert forall|i: int, j: int| 0 <= i < j < init.len() implies precedes(
                #[trigger] init[i],
                #[trigger] init[j],
            ) by {
                assert(precedes(keys[i], keys[j]));
            }
        }
        lemma_rank_of(init, key);
        if precedes(keys.last(), key) {
            assert forall|i: int| 0 <= i < keys.len() implies precedes(#[trigger] keys[i], key) by {
                if i < keys.len() - 1 {
                    assert(precedes(keys[i], keys[keys.len() - 1]));
                    lemma_precedes_transitive(keys[i], keys.last(), key);
                }
            }
        } else {
            assert forall|i: int| rank_of(keys, key) <= i < keys.len() implies !precedes(
                #[trigger] keys[i],
                key,
            ) by {
                if i < keys.len() - 1 {
                    assert(init[i] == keys[i]);
                }
            }
            assert forall|i: int| 0 <= i < rank_of(keys, key) implies precedes(
                #[trigger] keys[i],
                key,
            ) by {
                assert(init[i] == keys[i]);
            }
        }
    }
}

/// A place with the two properties of `rank_of` is `rank_of`.
pub proof fn lemma_rank_unique(keys: Seq<Seq<char>>, key: Seq<char>, r: int)
    requires
        ascending(keys),
        0 <= r <= keys.len(),
        forall|i: int| 0 <= i < r ==> precedes(#[trigger] keys[i], key),
        forall|i: int| r <= i < keys.len() ==> !precedes(#[trigger] keys[i], key),
    ensures
        r == rank_of(keys, key),
{
    lemma_rank_of(keys, key);
    let q = rank_of(keys, key);
    if r < q {
        assert(precedes(keys[r], key));
        assert(!precedes(keys[r], key));
    } else if q < r {
        assert(precedes(keys[q], key));
        assert(!precedes(keys[q], key));
    }
}

/// A key that is put at its rank among ascending keys leaves them ascending.
pub proof fn lemma_insert_ascending(keys: Seq<Seq<char>>, key: Seq<char>)
    requires
        ascending(keys),
        !keys.contains(key),
    ensures
        ascending(keys.insert(rank_of(keys, key), key)),
{
    lemma_rank_of(keys, key);
    let r = rank_of(keys, key);
    let out = keys.insert(r, key);
    assert forall|i: int, j: int| 0 <= i < j < out.len() implies precedes(
        #[trigger] out[i],
        #[trigger] out[j],
    ) by {
        if j < r {
            assert(out[i] == keys[i] && out[j] == keys[j]);
        } else if j == r {
            assert(out[i] == keys[i]);
        } else if i < r {
            assert(out[i] == keys[i] && out[j] == keys[j - 1]);
        } else if i == r {
            assert(out[j] == keys[j - 1]);
            assert(!precedes(keys[j - 1], key));
            assert(keys.contains(keys[j - 1]));
            lemma_precedes_total(keys[j - 1], key);
        } else {
            assert(out[i] == keys[i - 1] && out[j] == keys[j - 1]);
        }
    }
}

/// Ascending keys stay ascending when one of them is taken out.
pub proof fn lemma_remove_ascending(keys: Seq<Seq<char>>, at: int)
    requires
        ascending(keys),
        0 <= at < keys.len(),
    ensures
        ascending(keys.remove(at)),
        !keys.remove(at).contains(keys[at]),
{
    let out = keys.remove(at);
    assert forall|i: int, j: int| 0 <= i < j < out.len() implies precedes(
        #[trigger] out[i],
        #[trigger] out[j],
    ) by {
        let a = if i < at { i } else { i + 1 };
        let b = if j < at { j } else { j + 1 };
        assert(out[i] == keys[a] && out[j] == keys[b]);
    }
    lemma_ascending_distinct(keys);
    if out.contains(keys[at]) {
        let k = choose|k: int| 0 <= k < out.len() && out[k] == keys[at];
        let a = if k < at { k } else { k + 1 };
        assert(keys[a] == keys[at]);
    }
}

/// A map from names to values that keeps its entries in the order of names.
///
/// It is described by two sequences of one length, its keys and its values,
/// entry by entry; the keys are ascending.
#[derive(Debug)]
pub struct NameMap<V> {
    entries: Vec<(String, V)>,
}

impl<V> NameMap<V> {
    /// The keys, in order.
    pub closed spec fn keys(&self) -> Seq<Seq<char>> {
        self.entries@.map_values(|e: (String, V)| e.0@)
    }

    /// The values, in the order of their keys.
    pub closed spec fn values(&self) -> Seq<V> {
        self.entries@.map_values(|e: (String, V)| e.1)
    }

    /// The entries as they are stored.
    pub closed spec fn entries(&self) -> Seq<(String, V)> {
        self.entries@
    }

    /// The invariant of the type: the keys are ascending.
    pub closed spec fn wf(&self) -> bool {
        ascending(self.keys())
    }

    /// The value that belongs to `key`, if any.
    pub open spec fn value_of(&self, key: Seq<char>) -> Option<V> {
        match place_of(self.keys(), key) {
            Some(i) => Some(self.values()[i]),
            None => None,
        }
    }

    /// What the stored entries say of keys and values.
    pub proof fn lemma_entries(&self)
        ensures
            self.keys().len() == self.entries().len(),
            self.values().len() == self.entries().len(),
            forall|i: int|
                0 <= i < self.entries().len() ==> (#[trigger] self.entries()[i]).0@
                    == self.keys()[i] && self.entries()[i].1 == self.values()[i],
            self.wf() ==> ascending(self.keys()),
    {
    }

    /// An empty map.
    pub fn new() -> (map: Self)
        ensures
            map.wf(),
            map.keys() == Seq::<Seq<char>>::empty(),
            map.values() == Seq::<V>::empty(),
    {
        let map = NameMap { entries: Vec::new() };
        assert(map.keys() =~= Seq::<Seq<char>>::empty());
        assert(map.values() =~= Seq::<V>::empty());
        map
    }

    /// The number of entries.
    pub fn len(&self) -> (n: usize)
        ensures
            n == self.keys().len(),
            n == self.values().len(),
    {
        self.entries.len()
    }

    /// Whether the map holds no entry.
    pub fn is_empty(&self) -> (empty: bool)
        ensures
            empty == (self.keys().len() == 0),
    {
        self.entries.len() == 0
    }

    /// The key of the entry at `i`.
    pub fn key(&self, i: usize) -> (key: &String)
        requires
            i < self.keys().len(),
        ensures
            key@ == self.keys()[i as int],
    {
        &self.entries[i].0
    }

    /// The value of the entry at `i`.
    pub fn value(&self, i: usize) -> (value: &V)
        requires
            i < self.keys().len(),
        ensures
            *value == self.values()[i as int],
    {
        &self.entries[i].1
    }

    /// The entries, in the order of their keys.
    pub fn as_entries(&self) -> (entries: &Vec<(String, V)>)
        ensures
            entries@ == self.entries(),
    {
        &self.entries
    }

    /// The place of the entry of `key`.
    #[verifier::loop_isolation(false)]
    pub fn position(&self, key: &str) -> (place: Option<usize>)
        requires
            self.wf(),
        ensures
            match place {
                Some(i) => place_of(self.keys(), key@) == Some(i as int) && i < self.keys().len(),
                None => place_of(self.keys(), key@) is None,
            },
    {
        let mut i: usize = 0;
        while i < self.entries.len()
            invariant
                i <= self.entries.len(),
                forall|j: int| 0 <= j < i ==> self.keys()[j] != key@,
            decreases self.entries.len() - i,
        {
            if same_text(self.entries[i].0.as_str(), key) {
                proof {
                    lemma_place_of(self.keys(), i as int);
                }
                return Some(i);
            }
            i += 1;
        }
        None
    }

    /// The value that belongs to `key`.
    pub fn get(&self, key: &str) -> (value: Option<&V>)
        requires
            self.wf(),
        ensures
            match value {
                Some(v) => self.value_of(key@) == Some(*v),
                None => self.value_of(key@) is None,
            },
    {
        match self.position(key) {
            Some(i) => Some(&self.entries[i].1),
            None => None,
        }
    }

    /// Whether `key` has an entry.
    pub fn contains_key(&self, key: &str) -> (found: bool)
        requires
            self.wf(),
        ensures
            found == self.keys().contains(key@),
    {
        self.position(key).is_some()
    }

    /// Puts `value` in the place of the value at `i` and hands that one back.
    pub fn replace_value(&mut self, i: usize, value: V) -> (previous: V)
        requires
            old(self).wf(),
            i < old(self).keys().len(),
        ensures
            final(self).wf(),
            final(self).keys() == old(self).keys(),
            final(self).values() == old(self).values().update(i as int, value),
            previous == old(self).values()[i as int],
    {
        let (key, previous) = self.entries.remove(i);
        self.entries.insert(i, (key, value));
        assert(self.entries@ =~= old(self).entries@.update(i as int, (key, value)));
        assert(self.keys() =~= old(self).keys());
        assert(self.values() =~= old(self).values().update(i as int, value));
        previous
    }

    /// Gives `key` the value `value`. A key that is new gets an entry at its
    /// place in the order; the value of a key that was there is replaced and
    /// handed back.
    #[verifier::loop_isolation(false)]
    pub fn insert(&mut self, key: String, value: V) -> (previous: Option<V>)
        requires
            old(self).wf(),
        ensures
            final(self).wf(),
            match place_of(old(self).keys(), key@) {
                Some(i) => {
                    &&& previous == Some(old(self).values()[i])
                    &&& final(self).keys() == old(self).keys()
                    &&& final(self).values() == old(self).values().update(i, value)
                },
                None => {
                    &&& previous is None
                    &&& final(self).keys() == old(self).keys().insert(
                        rank_of(old(self).keys(), key@),
                        key@,
                    )
                    &&& final(self).values() == old(self).values().insert(
                        rank_of(old(self).keys(), key@),
                        value,
                    )
                },
            },
    {
        let mut i: usize = 0;
        while i < self.entries.len() && text_precedes(self.entries[i].0.as_str(), key.as_str())
            invariant
                i <= self.entries.len(),
                forall|j: int| 0 <= j < i ==> precedes(#[trigger] self.keys()[j], key@),
            decreases self.entries.len() - i,
        {
            i += 1;
        }
        if i < self.entries.len() && same_text(self.entries[i].0.as_str(), key.as_str()) {
            proof {
                lemma_place_of(self.keys(), i as int);
            }
            let previous = self.replace_value(i, value);
            Some(previous)
        } else {
            proof {
                let keys = self.keys();
                assert forall|j: int| i <= j < keys.len() implies !precedes(
                    #[trigger] keys[j],
                    key@,
                ) by {
                    if j > i {
                        assert(precedes(keys[i as int], keys[j]));
                        if precedes(keys[j], key@) {
                            lemma_precedes_transitive(keys[i as int], keys[j], key@);
                        }
                    }
                }
                lemma_rank_unique(keys, key@, i as int);
                if keys.contains(key@) {
                    let k = choose|k: int| 0 <= k < keys.len() && keys[k] == key@;
                    lemma_precedes_irreflexive(key@);
                    if k > i {
                        assert(precedes(keys[i as int], keys[k]));
                    }
                }
                lemma_insert_ascending(keys, key@);
            }
            self.entries.insert(i, (key, value));
            assert(self.keys() =~= old(self).keys().insert(i as int, key@));
            assert(self.values() =~= old(self).values().insert(i as int, value));
            None
        }
    }

    /// Takes the entry at `i` out of the map and hands it back.
    pub fn remove_at(&mut self, i: usize) -> (entry: (String, V))
        requires
            old(self).wf(),
            i < old(self).keys().len(),
        ensures
            final(self).wf(),
            final(self).keys() == old(self).keys().remove(i as int),
            final(self).values() == old(self).values().remove(i as int),
            entry.0@ == old(self).keys()[i as int],
            entry.1 == old(self).values()[i as int],
            !final(self).keys().contains(entry.0@),
    {
        let entry = self.entries.remove(i);
        proof {
            lemma_remove_ascending(old(self).keys(), i as int);
        }
        assert(self.keys() =~= old(self).keys().remove(i as int));
        assert(self.values() =~= old(self).values().remove(i as int));
        entry
    }

    /// Takes all entries out of the map and hands them back, in the order of
    /// their keys.
    pub fn take_entries(&mut self) -> (entries: Vec<(String, V)>)
        requires
            old(self).wf(),
        ensures
            final(self).wf(),
            final(self).keys() == Seq::<Seq<char>>::empty(),
            final(self).values() == Seq::<V>::empty(),
            entries@ == old(self).entries(),
    {
        let mut entries: Vec<(String, V)> = Vec::new();
        core::mem::swap(&mut self.entries, &mut entries);
        assert(self.keys() =~= Seq::<Seq<char>>::empty());
        assert(self.values() =~= Seq::<V>::empty());
        entries
    }

    /// Takes the entry of `key` out of the map and hands its value back.
    pub fn remove(&mut self, key: &str) -> (previous: Option<V>)
        requires
            old(self).wf(),
        ensures
            final(self).wf(),
            match place_of(old(self).keys(), key@) {
                Some(i) => {
                    &&& previous == Some(old(self).values()[i])
                    &&& final(self).keys() == old(self).keys().remove(i)
                    &&& final(self).values() == old(self).values().remove(i)
                },
                None => {
                    &&& previous is None
                    &&& final(self).keys() == old(self).keys()
                    &&& final(self).values() == old(self).values()
                },
            },
    {
        match self.position(key) {
            Some(i) => {
                let entry = self.remove_at(i);
                Some(entry.1)
            },
            None => None,
        }
    }
}

impl<V: Clone> Clone for NameMap<V> {
    /// A map with the same keys, each with a clone of its value.
    fn clone(&self) -> (copy: Self)
        ensures
            copy.keys() == self.keys(),
            copy.values().len() == self.values().len(),
            forall|i: int|
                0 <= i < self.values().len() ==> vstd::pervasive::cloned(
                    #[trigger] self.values()[i],
                    copy.values()[i],
                ),
            self.wf() ==> copy.wf(),
    {
        let mut entries: Vec<(String, V)> = Vec::new();
        let mut i: usize = 0;
        while i < self.entries.len()
            invariant
                i <= self.entries.len(),
                entries.len() == i,
                forall|j: int| 0 <= j < i ==> (#[trigger] entries@[j]).0@ == self.entries@[j].0@,
                forall|j: int|
                    0 <= j < i ==> vstd::pervasive::cloned(
                        self.entries@[j].1,
                        (#[trigger] entries@[j]).1,
                    ),
            decreases self.entries.len() - i,
        {
            let key = self.entries[i].0.clone();
            let value = self.entries[i].1.clone();
            entries.push((key, value));
            i += 1;
        }
        let copy = NameMap { entries };
        assert(copy.keys() =~= self.keys());
        copy
    }
}

} // verus!

//! The mappings of the host: one keyed by strings, in which no key occurs
//! twice, and one that is the plain list of the entries of any mapping.

use crate::seqs::{
    distinct_keys, lemma_pairs_map_lacks, lemma_pairs_map_len, lemma_pairs_map_push,
    lemma_pairs_map_update, lemma_pairs_map_value, pairs_map,
};
use vstd::prelude::*;

verus! {

/// The pairs of a list of entries, each key by its characters.
pub open spec fn string_pairs<T>(entries: Seq<(String, T)>) -> Seq<(Seq<char>, T)> {
    Seq::new(entries.len(), |i: int| (entries[i].0@, entries[i].1))
}

/// The pairs of a list, each value by its deep view.
pub open spec fn deep_pairs<T: DeepView>(pairs: Seq<(Seq<char>, T)>) -> Seq<(Seq<char>, T::V)> {
    Seq::new(pairs.len(), |i: int| (pairs[i].0, pairs[i].1.deep_view()))
}

/// A mapping of the host from strings to values.
///
/// It keeps its entries in the order in which their keys first came, and no key
/// twice. Its view is the mapping itself, in no order.
#[derive(Debug)]
pub struct StringMap<T> {
    entries: Vec<(String, T)>,
}

impl<T> View for StringMap<T> {
    type V = Map<Seq<char>, T>;

    open spec fn view(&self) -> Map<Seq<char>, T> {
        pairs_map(self.pairs())
    }
}

impl<T: DeepView> DeepView for StringMap<T> {
    type V = Map<Seq<char>, T::V>;

    open spec fn deep_view(&self) -> Map<Seq<char>, T::V> {
        pairs_map(deep_pairs(self.pairs()))
    }
}

impl<T> StringMap<T> {
    /// The entries in the order in which they are kept.
    pub closed spec fn pairs(self) -> Seq<(Seq<char>, T)> {
        string_pairs(self.entries@)
    }

    /// No key occurs twice.
    #[verifier::type_invariant]
    pub open spec fn well_formed(self) -> bool {
        distinct_keys(self.pairs())
    }

    /// The empty mapping.
    pub fn new() -> (map: Self)
        ensures
            map.pairs() == Seq::<(Seq<char>, T)>::empty(),
            map@ == Map::<Seq<char>, T>::empty(),
    {
        let map = StringMap { entries: Vec::new() };
        map
    }

    /// Where the key `key` is kept, if it is.
    fn position(&self, key: &String) -> (found: Option<usize>)
        ensures
            match found {
                Some(i) => i < self.pairs().len() && self.pairs()[i as int].0 == key@,
                None => forall|i: int|
                    0 <= i < self.pairs().len() ==> (#[trigger] self.pairs()[i]).0 != key@,
            },
    {
        let mut i: usize = 0;
        while i < self.entries.len()
            invariant
                i <= self.entries.len(),
                forall|j: int| 0 <= j < i ==> (#[trigger] self.pairs()[j]).0 != key@,
            decreases self.entries.len() - i,
        {
            if self.entries[i].0 == *key {
                return Some(i);
            }
            i += 1;
        }
        None
    }

    /// The number of keys.
    pub fn len(&self) -> (n: usize)
        ensures
            n == self.pairs().len(),
            n == self@.len(),
    {
        proof {
            use_type_invariant(self);
            lemma_pairs_map_len(self.pairs());
        }
        self.entries.len()
    }

    /// Whether the mapping has no key.
    pub fn is_empty(&self) -> (empty: bool)
        ensures
            empty == (self@.len() == 0),
    {
        self.len() == 0
    }

    /// Files `value` under `key`. A value that was filed under the same key
    /// is replaced.
    pub fn insert(&mut self, key: String, value: T)
        ensures
            final(self)@ == old(self)@.insert(key@, value),
    {
        proof {
            use_type_invariant(&*self);
        }
        let found = self.position(&key);
        let ghost before = self.pairs();
        let mut entries: Vec<(String, T)> = Vec::new();
        std::mem::swap(&mut entries, &mut self.entries);
        match found {
            Some(i) => {
                entries.set(i, (key, value));
                proof {
                    lemma_pairs_map_update(before, i as int, key@, value);
                    assert(string_pairs(entries@) =~= before.update(i as int, (key@, value)));
                }
            },
            None => {
                entries.push((key, value));
                proof {
                    lemma_pairs_map_push(before, key@, value);
                    assert(string_pairs(entries@) =~= before.push((key@, value)));
                }
            },
        }
        self.entries = entries;
    }

    /// The value filed under `key`, if there is one.
    pub fn get(&self, key: &str) -> (found: Option<&T>)
        ensures
            match found {
                Some(value) => self@.contains_key(key@) && *value == self@[key@],
                None => !self@.contains_key(key@),
            },
    {
        proof {
            use_type_invariant(self);
        }
        let owned = key.to_owned();
        match self.position(&owned) {
            Some(i) => {
                proof {
                    lemma_pairs_map_value(self.pairs(), i as int);
                }
                Some(&self.entries[i].1)
            },
            None => {
                proof {
                    lemma_pairs_map_lacks(self.pairs(), key@);
                }
                None
            },
        }
    }

    /// Whether a value is filed under `key`.
    pub fn contains_key(&self, key: &str) -> (found: bool)
        ensures
            found == self@.contains_key(key@),
    {
        self.get(key).is_some()
    }

    /// The entries in the order in which they are kept.
    pub fn entries(&self) -> (entries: &Vec<(String, T)>)
        ensures
            string_pairs(entries@) == self.pairs(),
            distinct_keys(self.pairs()),
    {
        proof {
            use_type_invariant(self);
        }
        &self.entries
    }

    /// The entries in the order in which they are kept.
    pub fn into_entries(self) -> (entries: Vec<(String, T)>)
        ensures
            string_pairs(entries@) == self.pairs(),
            distinct_keys(self.pairs()),
    {
        proof {
            use_type_invariant(&self);
        }
        self.entries
    }

    /// The mapping that a list of entries builds when each is inserted in
    /// turn.
    pub fn from_entries(entries: Vec<(String, T)>) -> (map: Self)
        ensures
            map@ == pairs_map(string_pairs(entries@)),
    {
        let mut map = StringMap::new();
        let ghost all = string_pairs(entries@);
        for entry in it: entries
            invariant
                it.seq() == entries@,
                all == string_pairs(entries@),
                map@ == pairs_map(all.take(it.index() as int)),
        {
            let ghost n = it.index() as int;
            proof {
                lemma_pairs_map_push(all.take(n), all[n].0, all[n].1);
                assert(all.take(n).push(all[n]) =~= all.take(n + 1));
            }
            let (key, value) = entry;
            map.insert(key, value);
        }
        proof {
            assert(all.take(entries@.len() as int) =~= all);
        }
        map
    }
}

/// The mapping of a list of pairs has the keys of the mapping of their deep
/// views, and under each key the deep view of the same value.
pub proof fn lemma_deep_pairs<T: DeepView>(pairs: Seq<(Seq<char>, T)>)
    ensures
        pairs_map(deep_pairs(pairs)).dom() == pairs_map(pairs).dom(),
        forall|key: Seq<char>| #[trigger]
            pairs_map(pairs).contains_key(key) ==> pairs_map(deep_pairs(pairs))[key] == pairs_map(
                pairs,
            )[key].deep_view(),
    decreases pairs.len(),
{
    if pairs.len() == 0 {
    } else {
        let front = pairs.drop_last();
        lemma_deep_pairs(front);
        assert(deep_pairs(pairs).drop_last() =~= deep_pairs(front));
    }
}

impl<T: DeepView> StringMap<T> {
    /// What `insert` does to the view, it does to the deep view.
    pub proof fn lemma_insert_deep(before: Self, after: Self, key: Seq<char>, value: T)
        requires
            after@ == before@.insert(key, value),
        ensures
            after.deep_view() == before.deep_view().insert(key, value.deep_view()),
    {
        lemma_deep_pairs(before.pairs());
        lemma_deep_pairs(after.pairs());
    }

    /// The empty mapping has the empty deep view.
    pub proof fn lemma_empty_deep(map: Self)
        requires
            map.pairs().len() == 0,
        ensures
            map.deep_view() == Map::<Seq<char>, T::V>::empty(),
    {
    }
}

/// Any mapping of the host, as the list of its entries in the order in which
/// the host walks it. The keys of a mapping are distinct; the list is taken as
/// it comes.
#[derive(Debug, PartialEq, Eq)]
pub struct HostMap<K, T> {
    pub entries: Vec<(K, T)>,
}

} // verus!

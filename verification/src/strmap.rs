//! `StrMap`: a map keyed by strings, kept as a list of entries whose keys are
//! pairwise distinct.  Its abstract value is a `Map<Seq<char>, V>`.

use vstd::prelude::*;

verus! {

/// `names` lists every key of `m` exactly once, in some order.
pub open spec fn enumerates_keys<V>(names: Seq<Seq<char>>, m: Map<Seq<char>, V>) -> bool {
    &&& names.no_duplicates()
    &&& names.len() == m.len()
    &&& forall|k: Seq<char>| names.contains(k) <==> m.contains_key(k)
}

/// The character sequences of a list of string slices.
pub open spec fn str_views(names: Seq<&str>) -> Seq<Seq<char>> {
    names.map_values(|s: &str| s@)
}

/// A map from strings to values.  Entries are kept in the order in which
/// their keys were inserted; no key occurs twice.
#[derive(Debug)]
pub struct StrMap<V> {
    entries: Vec<(String, V)>,
}

impl<V> StrMap<V> {
    #[verifier::type_invariant]
    spec fn keys_distinct(self) -> bool {
        self.key_views().no_duplicates()
    }

    spec fn key_views(self) -> Seq<Seq<char>> {
        self.entries@.map_values(|e: (String, V)| e.0@)
    }

    spec fn slot(self, k: Seq<char>) -> int {
        choose|i: int| 0 <= i < self.entries@.len() && self.entries@[i].0@ == k
    }

    /// The abstract map: each key's characters mapped to its value.
    pub closed spec fn as_map(self) -> Map<Seq<char>, V> {
        Map::new(
            |k: Seq<char>| self.key_views().contains(k),
            |k: Seq<char>| self.entries@[self.slot(k)].1,
        )
    }

    /// The keys, as character sequences, in the order in which they were
    /// first inserted.
    pub closed spec fn key_order(self) -> Seq<Seq<char>> {
        self.key_views()
    }

    /// Replacing the value of entry `i` (its key kept) stores that value
    /// under the key and leaves everything else as it was.
    proof fn lemma_update(old_map: Self, new_map: Self, i: int)
        requires
            old_map.keys_distinct(),
            0 <= i < old_map.entries@.len(),
            new_map.entries@.len() == old_map.entries@.len(),
            new_map.entries@[i].0@ == old_map.entries@[i].0@,
            forall|j: int|
                0 <= j < old_map.entries@.len() && j != i ==> new_map.entries@[j]
                    == old_map.entries@[j],
        ensures
            new_map.key_views() == old_map.key_views(),
            new_map.keys_distinct(),
            new_map.as_map() == old_map.as_map().insert(
                old_map.entries@[i].0@,
                new_map.entries@[i].1,
            ),
    {
        let key = old_map.entries@[i].0@;
        let value = new_map.entries@[i].1;
        assert(new_map.key_views() =~= old_map.key_views());
        assert forall|k: Seq<char>|
            #![trigger new_map.as_map().contains_key(k)]
            #![trigger old_map.as_map().insert(key, value).contains_key(k)]
            true implies (new_map.as_map().contains_key(k) <==> old_map.as_map().insert(
                key,
                value,
            ).contains_key(k)) && (new_map.as_map().contains_key(k) ==> new_map.as_map()[k]
                == old_map.as_map().insert(key, value)[k]) by {
            if k == key {
                new_map.lemma_slot(i);
            } else if old_map.as_map().contains_key(k) {
                let j = old_map.lemma_contains(k);
                old_map.lemma_slot(j);
                new_map.lemma_slot(j);
            } else if new_map.as_map().contains_key(k) {
                let j = new_map.lemma_contains(k);
            }
        }
        assert(new_map.as_map() =~= old_map.as_map().insert(key, value));
    }

    proof fn lemma_slot(self, i: int)
        requires
            self.keys_distinct(),
            0 <= i < self.entries@.len(),
        ensures
            self.as_map().contains_key(self.entries@[i].0@),
            self.as_map()[self.entries@[i].0@] == self.entries@[i].1,
    {
        let k = self.entries@[i].0@;
        assert(self.key_views()[i] == k);
        assert(self.key_views().contains(k));
        let j = self.slot(k);
        assert(0 <= j < self.entries@.len() && self.entries@[j].0@ == k);
        assert(self.key_views()[j] == k);
    }

    proof fn lemma_contains(self, k: Seq<char>) -> (i: int)
        requires
            self.as_map().contains_key(k),
        ensures
            0 <= i < self.entries@.len(),
            self.entries@[i].0@ == k,
    {
        assert(self.key_views().contains(k));
        let i = choose|i: int| 0 <= i < self.key_views().len() && self.key_views()[i] == k;
        i
    }

    proof fn lemma_len(self)
        requires
            self.keys_distinct(),
        ensures
            self.as_map().len() == self.entries@.len(),
            self.as_map().dom() =~= self.key_views().to_set(),
    {
        assert(self.as_map().dom() =~= self.key_views().to_set());
        self.key_views().unique_seq_to_set();
    }

    /// Moves the entries out, leaving `self` empty.
    fn take_entries(&mut self) -> (entries: Vec<(String, V)>)
        ensures
            entries@ == old(self).entries@,
            old(self).keys_distinct(),
            final(self)@ == Map::<Seq<char>, V>::empty(),
    {
        proof {
            use_type_invariant(&*self);
        }
        let mut taken = StrMap::new();
        std::mem::swap(self, &mut taken);
        let StrMap { entries } = taken;
        entries
    }

    /// The map has finitely many keys.
    pub proof fn lemma_finite(self)
        ensures
            self@.dom().finite(),
    {
        assert(self.as_map().dom() =~= self.key_views().to_set());
    }

    /// An empty map.
    pub fn new() -> (m: Self)
        ensures
            m@ == Map::<Seq<char>, V>::empty(),
            m.key_order() == Seq::<Seq<char>>::empty(),
    {
        let m = StrMap { entries: Vec::new() };
        assert(m.key_views() =~= Seq::<Seq<char>>::empty());
        assert(m.as_map() =~= Map::<Seq<char>, V>::empty());
        m
    }

    /// Number of keys.
    pub fn len(&self) -> (n: usize)
        ensures
            n == self@.len(),
    {
        proof {
            use_type_invariant(self);
            self.lemma_len();
        }
        self.entries.len()
    }

    /// Whether the map has no key.
    pub fn is_empty(&self) -> (b: bool)
        ensures
            b == (self@.len() == 0),
    {
        proof {
            use_type_invariant(self);
            self.lemma_len();
        }
        self.entries.len() == 0
    }

    fn find(&self, key: &str) -> (r: Option<usize>)
        ensures
            match r {
                Some(i) => i < self.entries@.len() && self.entries@[i as int].0@ == key@,
                None => !self@.contains_key(key@),
            },
    {
        let probe = key.to_owned();
        let mut i: usize = 0;
        while i < self.entries.len()
            invariant
                i <= self.entries@.len(),
                probe@ == key@,
                forall|j: int| 0 <= j < i ==> self.entries@[j].0@ != key@,
            decreases self.entries@.len() - i,
        {
            if self.entries[i].0 == probe {
                return Some(i);
            }
            i += 1;
        }
        proof {
            if self.as_map().contains_key(key@) {
                let j = self.lemma_contains(key@);
            }
        }
        None
    }

    /// Whether `key` is a key of the map.
    pub fn contains_key(&self, key: &str) -> (b: bool)
        ensures
            b == self@.contains_key(key@),
    {
        proof {
            use_type_invariant(self);
        }
        match self.find(key) {
            Some(i) => {
                proof {
                    self.lemma_slot(i as int);
                }
                true
            },
            None => false,
        }
    }

    /// The value stored under `key`, if any.
    pub fn get(&self, key: &str) -> (r: Option<&V>)
        ensures
            match r {
                Some(v) => self@.contains_key(key@) && *v == self@[key@],
                None => !self@.contains_key(key@),
            },
    {
        proof {
            use_type_invariant(self);
        }
        match self.find(key) {
            Some(i) => {
                proof {
                    self.lemma_slot(i as int);
                }
                Some(&self.entries[i].1)
            },
            None => None,
        }
    }

    /// Stores `value` under `key`, replacing any value stored there.  A
    /// key already present keeps its place in the order; a new key comes
    /// last.
    pub fn insert(&mut self, key: String, value: V)
        ensures
            final(self)@ == old(self)@.insert(key@, value),
            final(self).key_order() == if old(self)@.contains_key(key@) {
                old(self).key_order()
            } else {
                old(self).key_order().push(key@)
            },
    {
        proof {
            use_type_invariant(&*self);
        }
        match self.find(key.as_str()) {
            Some(i) => {
                proof {
                    old(self).lemma_slot(i as int);
                }
                let mut entries = self.take_entries();
                entries[i] = (key, value);
                proof {
                    let ghost next = StrMap { entries };
                    StrMap::lemma_update(*old(self), next, i as int);
                }
                *self = StrMap { entries };
            },
            None => {
                let ghost k0 = key@;
                let mut entries = self.take_entries();
                entries.push((key, value));
                proof {
                    assert(entries@.map_values(|e: (String, V)| e.0@) =~= old(self).key_views().push(k0));
                    assert(!old(self).key_views().contains(k0));
                }
                *self = StrMap { entries };
                proof {
                    let n = old(self).entries@.len() as int;
                    assert(self.key_views() =~= old(self).key_views().push(k0));
                    assert forall|k: Seq<char>|
                        #![trigger self.as_map().contains_key(k)]
                        #![trigger old(self).as_map().insert(k0, value).contains_key(k)]
                        true implies (self.as_map().contains_key(k) <==> old(
                            self,
                        ).as_map().insert(k0, value).contains_key(k)) && (self.as_map().contains_key(
                            k,
                        ) ==> self.as_map()[k] == old(self).as_map().insert(k0, value)[k]) by {
                        if k == k0 {
                            self.lemma_slot(n);
                        } else if old(self).as_map().contains_key(k) {
                            let j = old(self).lemma_contains(k);
                            old(self).lemma_slot(j);
                            self.lemma_slot(j);
                        } else if self.as_map().contains_key(k) {
                            let j = self.lemma_contains(k);
                        }
                    }
                    assert(self.as_map() =~= old(self).as_map().insert(k0, value));
                }
            },
        }
    }

    /// Puts `value` in place of the value stored under `key` and hands the
    /// earlier value back; the key keeps its place in the order.  When
    /// `key` is absent, nothing changes (and `value` is dropped).
    pub fn replace(&mut self, key: &str, value: V) -> (r: Option<V>)
        ensures
            final(self).key_order() == old(self).key_order(),
            match r {
                Some(v) => old(self)@.contains_key(key@) && v == old(self)@[key@] && final(self)@
                    == old(self)@.insert(key@, value),
                None => !old(self)@.contains_key(key@) && final(self)@ == old(self)@,
            },
    {
        proof {
            use_type_invariant(&*self);
        }
        match self.find(key) {
            Some(i) => {
                proof {
                    old(self).lemma_slot(i as int);
                }
                let mut entries = self.take_entries();
                let (k, v) = entries.remove(i);
                entries.insert(i, (k, value));
                proof {
                    let ghost next = StrMap { entries };
                    assert(entries@ =~= old(self).entries@.update(i as int, (k, value)));
                    StrMap::lemma_update(*old(self), next, i as int);
                }
                *self = StrMap { entries };
                Some(v)
            },
            None => None,
        }
    }

    /// Removes `key` and hands back the value stored under it, if any.
    pub fn remove(&mut self, key: &str) -> (r: Option<V>)
        ensures
            final(self)@ == old(self)@.remove(key@),
            final(self).key_order() == old(self).key_order().remove_value(key@),
            match r {
                Some(v) => old(self)@.contains_key(key@) && v == old(self)@[key@],
                None => !old(self)@.contains_key(key@),
            },
    {
        proof {
            use_type_invariant(&*self);
        }
        match self.find(key) {
            Some(i) => {
                proof {
                    old(self).lemma_slot(i as int);
                }
                let mut entries = self.take_entries();
                let (_, v) = entries.remove(i);
                proof {
                    assert(entries@.map_values(|e: (String, V)| e.0@) =~= old(self).key_views().remove(
                        i as int,
                    ));
                }
                *self = StrMap { entries };
                proof {
                    assert(self.key_views() =~= old(self).key_views().remove(i as int));
                    use_type_invariant(&*self);
                    assert forall|k: Seq<char>|
                        #![trigger self.as_map().contains_key(k)]
                        #![trigger old(self).as_map().remove(key@).contains_key(k)]
                        true implies (self.as_map().contains_key(k) <==> old(
                            self,
                        ).as_map().remove(key@).contains_key(k)) && (self.as_map().contains_key(k)
                            ==> self.as_map()[k] == old(self).as_map().remove(key@)[k]) by {
                        if self.as_map().contains_key(k) {
                            let j = self.lemma_contains(k);
                            self.lemma_slot(j);
                            let oj = if j < i { j } else { j + 1 };
                            assert(self.entries@[j] == old(self).entries@[oj]);
                            old(self).lemma_slot(oj);
                            assert(old(self).key_views()[oj] == k);
                            assert(old(self).key_views()[i as int] == key@);
                            assert(k != key@);
                        }
                        if k != key@ && old(self).as_map().contains_key(k) {
                            let j = old(self).lemma_contains(k);
                            assert(j != i);
                            let nj = if j < i { j } else { j - 1 };
                            assert(self.entries@[nj] == old(self).entries@[j]);
                            self.lemma_slot(nj);
                        }
                    }
                    assert(self.as_map() =~= old(self).as_map().remove(key@));
                    old(self).key_views().index_of_first_ensures(key@);
                    assert(old(self).key_views()[i as int] == key@);
                    let f = old(self).key_views().index_of_first(key@).unwrap();
                    assert(f == i);
                }
                Some(v)
            },
            None => {
                proof {
                    assert(self.as_map() =~= old(self).as_map().remove(key@));
                    old(self).key_views().index_of_first_ensures(key@);
                }
                None
            },
        }
    }

    /// All keys, each once, in insertion order.
    pub fn keys(&self) -> (names: Vec<&str>)
        ensures
            str_views(names@) == self.key_order(),
            enumerates_keys(str_views(names@), self@),
    {
        proof {
            use_type_invariant(self);
            self.lemma_len();
        }
        let mut names: Vec<&str> = Vec::new();
        let mut i: usize = 0;
        while i < self.entries.len()
            invariant
                i <= self.entries@.len(),
                names@.len() == i,
                str_views(names@) =~= self.key_views().take(i as int),
            decreases self.entries@.len() - i,
        {
            let name: &str = self.entries[i].0.as_str();
            proof {
                assert(name@ == self.key_views()[i as int]);
            }
            let ghost prev = names@;
            names.push(name);
            i += 1;
            proof {
                assert(names@ == prev.push(name));
                assert(prev.len() == i - 1);
                assert(str_views(names@).len() == i);
                assert forall|j: int| 0 <= j < i implies str_views(names@)[j] == self.key_views().take(
                    i as int,
                )[j] by {
                    if j < i - 1 {
                        assert(str_views(prev)[j] == self.key_views().take(i - 1)[j]);
                    }
                }
                assert(str_views(names@) =~= self.key_views().take(i as int));
            }
        }
        proof {
            assert(self.key_views().take(i as int) =~= self.key_views());
            assert forall|k: Seq<char>|
                str_views(names@).contains(k) <==> self.as_map().contains_key(k) by {
                if self.as_map().contains_key(k) {
                    let j = self.lemma_contains(k);
                    assert(str_views(names@)[j] == k);
                }
            }
        }
        names
    }
}

impl<V: Clone> Clone for StrMap<V> {
    /// A copy holding the same keys, each with a clone of its value.
    fn clone(&self) -> (c: Self)
        ensures
            c@.dom() == self@.dom(),
            c.key_order() == self.key_order(),
            forall|k: Seq<char>| #[trigger] c@.contains_key(k) ==> cloned(self@[k], c@[k]),
    {
        proof {
            use_type_invariant(self);
        }
        let mut entries: Vec<(String, V)> = Vec::new();
        let mut i: usize = 0;
        while i < self.entries.len()
            invariant
                i <= self.entries@.len(),
                self.keys_distinct(),
                entries@.len() == i,
                forall|j: int|
                    0 <= j < i ==> (#[trigger] entries@[j]).0@ == self.entries@[j].0@ && cloned(
                        self.entries@[j].1,
                        entries@[j].1,
                    ),
            decreases self.entries@.len() - i,
        {
            let key = self.entries[i].0.clone();
            let value = self.entries[i].1.clone();
            entries.push((key, value));
            i += 1;
        }
        proof {
            assert(entries@.map_values(|e: (String, V)| e.0@) =~= self.key_views());
        }
        let c = StrMap { entries };
        proof {
            assert(c.key_views() =~= self.key_views());
            assert forall|k: Seq<char>| #[trigger] c.as_map().contains_key(k) implies cloned(
                self.as_map()[k],
                c.as_map()[k],
            ) by {
                let j = c.lemma_contains(k);
                c.lemma_slot(j);
                self.lemma_slot(j);
            }
            assert(c.as_map().dom() =~= self.as_map().dom());
        }
        c
    }
}

impl<V> View for StrMap<V> {
    type V = Map<Seq<char>, V>;

    open spec fn view(&self) -> Map<Seq<char>, V> {
        self.as_map()
    }
}

} // verus!

use vstd::prelude::*;

use crate::backing::{MapBase, MapExt};
use crate::key::MapKey;
use crate::shared::Ref;

verus! {

/// A backing map from keys to values, both held through `Ref` handles.
///
/// Every key occurs at most once; lookups compare keys with
/// `MapKey::key_eq`.
pub struct HashMap<K: View, V: View> {
    entries: Vec<(Ref<K>, Ref<V>)>,
    model: Ghost<Map<K::V, V::V>>,
}

impl<K: View, V: View> View for HashMap<K, V> {
    type V = Map<K::V, V::V>;

    closed spec fn view(&self) -> Map<K::V, V::V> {
        self.model@
    }
}

impl<K: MapKey, V: MapKey> HashMap<K, V> {
    /// The key stored at position `i`.
    spec fn key_at(&self, i: int) -> K::V {
        self.entries@[i].0@
    }

    /// The value stored at position `i`.
    spec fn val_at(&self, i: int) -> V::V {
        self.entries@[i].1@
    }

    /// The entries hold each key once, and they are exactly the model.
    pub closed spec fn well_formed(&self) -> bool {
        &&& forall|i: int|
            0 <= i < self.entries@.len() ==> {
                &&& self.model@.contains_key(#[trigger] self.key_at(i))
                &&& self.model@[self.key_at(i)] == self.val_at(i)
            }
        &&& forall|k: K::V|
            #[trigger] self.model@.contains_key(k) ==> exists|i: int|
                0 <= i < self.entries@.len() && #[trigger] self.key_at(i) == k
        &&& forall|i: int, j: int|
            0 <= i < self.entries@.len() && 0 <= j < self.entries@.len() && i != j
                ==> #[trigger] self.key_at(i) != #[trigger] self.key_at(j)
        &&& self.model@.dom().finite()
        &&& self.model@.len() == self.entries@.len()
    }

    /// The position of `key` among the entries, if it is there.
    fn find(&self, key: &K) -> (r: Option<usize>)
        requires
            self.well_formed(),
        ensures
            match r {
                Some(i) => i < self.entries@.len() && self.key_at(i as int) == key@,
                None => !self.model@.contains_key(key@),
            },
    {
        let mut i: usize = 0;
        while i < self.entries.len()
            invariant
                self.well_formed(),
                i <= self.entries@.len(),
                forall|j: int| 0 <= j < i ==> #[trigger] self.key_at(j) != key@,
            decreases self.entries@.len() - i,
        {
            if self.entries[i].0.get().key_eq(key) {
                return Some(i);
            }
            i = i + 1;
        }
        None
    }
}

impl<K: MapKey, V: MapKey> MapBase for HashMap<K, V> {
    type Key = K;

    type Val = V;

    open spec fn model(&self) -> Map<K::V, V::V> {
        self@
    }

    open spec fn wf(&self) -> bool {
        self.well_formed()
    }

    /// A well-formed map has finitely many keys.
    proof fn lemma_model_finite(&self) {
    }

    /// An empty map.
    fn new() -> (r: Self) {
        HashMap { entries: Vec::new(), model: Ghost(Map::empty()) }
    }

    /// The number of entries.
    fn len(&self) -> (r: usize) {
        self.entries.len()
    }

    /// Whether the map holds no entry.
    fn is_empty(&self) -> (r: bool) {
        self.entries.len() == 0
    }

    /// Every entry once, in the order the entries are stored.
    fn iter(&self) -> (r: Vec<(&Ref<K>, &Ref<V>)>) {
        let mut r: Vec<(&Ref<K>, &Ref<V>)> = Vec::new();
        let mut i: usize = 0;
        while i < self.entries.len()
            invariant
                self.well_formed(),
                i <= self.entries@.len(),
                r@.len() == i,
                forall|j: int|
                    0 <= j < i ==> #[trigger] r@[j].0@ == self.key_at(j) && r@[j].1@
                        == self.val_at(j),
            decreases self.entries@.len() - i,
        {
            let entry = &self.entries[i];
            r.push((&entry.0, &entry.1));
            i = i + 1;
        }
        proof {
            assert forall|a: int, b: int|
                0 <= a < r@.len() && 0 <= b < r@.len() && a != b implies #[trigger] r@[a].0@
                != #[trigger] r@[b].0@ by {
                assert(r@[a].0@ == self.key_at(a));
                assert(r@[b].0@ == self.key_at(b));
            }
            assert forall|k: K::V| #[trigger] self.model@.contains_key(k) implies exists|a: int|
                0 <= a < r@.len() && r@[a].0@ == k by {
                let a = choose|a: int| 0 <= a < self.entries@.len() && #[trigger] self.key_at(a) == k;
                assert(r@[a].0@ == k);
            }
            assert forall|a: int| 0 <= a < r@.len() implies self.model@.contains_key(
                #[trigger] r@[a].0@,
            ) && self.model@[r@[a].0@] == r@[a].1@ by {
                assert(r@[a].0@ == self.key_at(a));
            }
        }
        r
    }

    /// Stores `val` under `key`, replacing the value `key` had before.
    fn insert(&mut self, key: Ref<K>, val: Ref<V>) {
        let ghost k = key@;
        let ghost v = val@;
        match self.find(key.get()) {
            Some(i) => {
                self.entries.set(i, (key, val));
                self.model = Ghost(self.model@.insert(k, v));
                assert(self.model@.dom() =~= old(self).model@.dom());
                assert forall|a: int| 0 <= a < self.entries@.len() implies #[trigger] self.key_at(a)
                    == old(self).key_at(a) by {}
                assert forall|a: int|
                    0 <= a < self.entries@.len() implies self.model@.contains_key(
                    #[trigger] self.key_at(a),
                ) && self.model@[self.key_at(a)] == self.val_at(a) by {
                    if a != i {
                        assert(old(self).key_at(a) != old(self).key_at(i as int));
                    }
                }
                assert forall|k2: K::V| #[trigger] self.model@.contains_key(k2) implies exists|
                    j: int,
                | 0 <= j < self.entries@.len() && #[trigger] self.key_at(j) == k2 by {
                    if k2 != k {
                        assert(old(self).model@.contains_key(k2));
                        let j = choose|j: int|
                            0 <= j < old(self).entries@.len() && #[trigger] old(self).key_at(j)
                                == k2;
                        assert(self.key_at(j) == k2);
                    } else {
                        assert(self.key_at(i as int) == k2);
                    }
                }
            },
            None => {
                self.entries.push((key, val));
                self.model = Ghost(self.model@.insert(k, v));
                let ghost n = old(self).entries@.len() as int;
                assert(self.key_at(n) == k);
                assert forall|a: int| 0 <= a < n implies #[trigger] self.key_at(a) == old(
                    self,
                ).key_at(a) && old(self).key_at(a) != k by {
                    assert(old(self).model@.contains_key(old(self).key_at(a)));
                }
                assert forall|k2: K::V| #[trigger] self.model@.contains_key(k2) implies exists|
                    j: int,
                | 0 <= j < self.entries@.len() && #[trigger] self.key_at(j) == k2 by {
                    if k2 != k {
                        assert(old(self).model@.contains_key(k2));
                        let j = choose|j: int|
                            0 <= j < old(self).entries@.len() && #[trigger] old(self).key_at(j)
                                == k2;
                        assert(self.key_at(j) == k2);
                    }
                }
                assert forall|a: int|
                    0 <= a < self.entries@.len() implies self.model@.contains_key(
                    #[trigger] self.key_at(a),
                ) && self.model@[self.key_at(a)] == self.val_at(a) by {
                    if a < n {
                        assert(old(self).key_at(a) == self.key_at(a));
                    }
                }
            },
        }
    }
}

impl<K: MapKey, V: MapKey> MapExt for HashMap<K, V> {
    /// The value stored under `key`, if any.
    fn get(&self, key: &K) -> (r: Option<&Ref<V>>) {
        match self.find(key) {
            Some(i) => Some(&self.entries[i].1),
            None => None,
        }
    }

    /// Whether `key` is stored.
    fn contains(&self, key: &K) -> (r: bool) {
        self.find(key).is_some()
    }

    /// Takes the entry of `key` out of the map and hands back both handles.
    fn remove(&mut self, key: &K) -> (r: Option<(Ref<K>, Ref<V>)>) {
        match self.find(key) {
            Some(i) => {
                let ghost n = old(self).entries@.len() as int;
                let ghost last = n - 1;
                let entry = self.entries.swap_remove(i);
                self.model = Ghost(self.model@.remove(key@));
                assert(old(self).key_at(i as int) == key@);
                assert forall|a: int|
                    0 <= a < self.entries@.len() implies self.model@.contains_key(
                    #[trigger] self.key_at(a),
                ) && self.model@[self.key_at(a)] == self.val_at(a) by {
                    if a == i {
                        assert(self.key_at(a) == old(self).key_at(last));
                        assert(old(self).key_at(last) != old(self).key_at(i as int));
                    } else {
                        assert(self.key_at(a) == old(self).key_at(a));
                        assert(old(self).key_at(a) != old(self).key_at(i as int));
                    }
                }
                assert forall|k2: K::V| #[trigger] self.model@.contains_key(k2) implies exists|
                    j: int,
                | 0 <= j < self.entries@.len() && #[trigger] self.key_at(j) == k2 by {
                    assert(old(self).model@.contains_key(k2));
                    let j = choose|j: int|
                        0 <= j < old(self).entries@.len() && #[trigger] old(self).key_at(j) == k2;
                    if j == last {
                        assert(self.key_at(i as int) == k2);
                    } else {
                        assert(self.key_at(j) == k2);
                    }
                }
                assert forall|a: int, b: int|
                    0 <= a < self.entries@.len() && 0 <= b < self.entries@.len() && a
                        != b implies #[trigger] self.key_at(a) != #[trigger] self.key_at(b) by {
                    let oa = if a == i {
                        last
                    } else {
                        a
                    };
                    let ob = if b == i {
                        last
                    } else {
                        b
                    };
                    assert(self.key_at(a) == old(self).key_at(oa));
                    assert(self.key_at(b) == old(self).key_at(ob));
                }
                Some(entry)
            },
            None => None,
        }
    }
}

} // verus!

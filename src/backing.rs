use vstd::prelude::*;

use crate::key::MapKey;
use crate::shared::Ref;

verus! {

/// What a backing map offers to a `BiMap`: an empty map, its size, and
/// insertion of a key handle with a value handle.
///
/// `model` is the map's content as a mathematical map from key views to
/// value views; `wf` is the map's own well-formedness.
pub trait MapBase: Sized {
    type Key: MapKey;

    type Val: MapKey;

    /// The entries, from key views to value views.
    spec fn model(&self) -> Map<<Self::Key as View>::V, <Self::Val as View>::V>;

    /// The map's own well-formedness, which every operation keeps.
    spec fn wf(&self) -> bool;

    /// A well-formed map has finitely many keys.
    proof fn lemma_model_finite(&self)
        requires
            self.wf(),
        ensures
            self.model().dom().finite(),
    ;

    /// An empty map.
    fn new() -> (r: Self)
        ensures
            r.wf(),
            r.model() == Map::<<Self::Key as View>::V, <Self::Val as View>::V>::empty(),
    ;

    /// The number of entries.
    fn len(&self) -> (r: usize)
        requires
            self.wf(),
        ensures
            r == self.model().len(),
    ;

    /// Whether the map holds no entry.
    fn is_empty(&self) -> (r: bool)
        requires
            self.wf(),
        ensures
            r == (self.model().len() == 0),
    ;

    /// Every entry once, as a pair of handles, in no particular order.
    fn iter(&self) -> (r: Vec<(&Ref<Self::Key>, &Ref<Self::Val>)>)
        requires
            self.wf(),
        ensures
            r@.len() == self.model().len(),
            forall|k: <Self::Key as View>::V| #[trigger]
                self.model().contains_key(k) ==> exists|i: int| 0 <= i < r@.len() && r@[i].0@ == k,
            forall|i: int|
                0 <= i < r@.len() ==> {
                    &&& self.model().contains_key(#[trigger] r@[i].0@)
                    &&& self.model()[r@[i].0@] == r@[i].1@
                },
            forall|i: int, j: int|
                0 <= i < r@.len() && 0 <= j < r@.len() && i != j ==> #[trigger] r@[i].0@
                    != #[trigger] r@[j].0@,
    ;

    /// Stores `val` under `key`, replacing what `key` held before.
    fn insert(&mut self, key: Ref<Self::Key>, val: Ref<Self::Val>)
        requires
            old(self).wf(),
        ensures
            final(self).wf(),
            final(self).model() == old(self).model().insert(key@, val@),
    ;
}

/// Lookup and removal by key on a backing map.
pub trait MapExt: MapBase {
    /// The value handle stored under `key`, if any.
    fn get(&self, key: &Self::Key) -> (r: Option<&Ref<Self::Val>>)
        requires
            self.wf(),
        ensures
            match r {
                Some(v) => self.model().contains_key(key@) && v@ == self.model()[key@],
                None => !self.model().contains_key(key@),
            },
    ;

    /// Whether `key` is stored.
    fn contains(&self, key: &Self::Key) -> (r: bool)
        requires
            self.wf(),
        ensures
            r == self.model().contains_key(key@),
    ;

    /// Takes the entry of `key` out and hands back both of its handles.
    fn remove(&mut self, key: &Self::Key) -> (r: Option<(Ref<Self::Key>, Ref<Self::Val>)>)
        requires
            old(self).wf(),
        ensures
            final(self).wf(),
            match r {
                Some((k, v)) => {
                    &&& old(self).model().contains_key(key@)
                    &&& k@ == key@
                    &&& v@ == old(self).model()[key@]
                    &&& final(self).model() == old(self).model().remove(key@)
                },
                None => !old(self).model().contains_key(key@) && final(self).model() == old(
                    self,
                ).model(),
            },
    ;
}

} // verus!

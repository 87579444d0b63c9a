use vstd::prelude::*;

use crate::backing::{MapBase, MapExt};
use crate::hash_map::HashMap;
use crate::key::MapKey;
use crate::shared::Ref;

verus! {

/// `lv` and `rv` describe one bijection: each is the inverse of the other.
pub open spec fn mirrors<A, B>(lv: Map<A, B>, rv: Map<B, A>) -> bool {
    &&& forall|a: A| #[trigger]
        lv.contains_key(a) ==> rv.contains_key(lv[a]) && rv[lv[a]] == a
    &&& forall|b: B| #[trigger]
        rv.contains_key(b) ==> lv.contains_key(rv[b]) && lv[rv[b]] == b
}

/// `lv` without the pair whose other side is `b`, if there is one.
pub open spec fn without_other<A, B>(lv: Map<A, B>, rv: Map<B, A>, b: B) -> Map<A, B> {
    if rv.contains_key(b) {
        lv.remove(rv[b])
    } else {
        lv
    }
}

/// One side after the pair `(a, b)` was put in: the pairs that held `a` or
/// `b` are gone, and `a` is paired with `b`.
pub open spec fn paired<A, B>(lv: Map<A, B>, rv: Map<B, A>, a: A, b: B) -> Map<A, B> {
    without_other(lv, rv, b).insert(a, b)
}

/// A bidirectional map: pairs `(left, right)` in which each left value has
/// one right value and each right value one left value.
///
/// The left map is keyed by left values, the right map by right values; both
/// hold handles to the same stored values.
pub struct BiMap<LMap, RMap> {
    lmap: LMap,
    rmap: RMap,
}

/// A `BiMap` whose both sides are `HashMap`s.
pub type BiHashMap<L, R> = BiMap<HashMap<L, R>, HashMap<R, L>>;

impl<
    L: MapKey,
    R: MapKey,
    LMap: MapExt<Key = L, Val = R>,
    RMap: MapExt<Key = R, Val = L>,
> BiMap<LMap, RMap> {
    /// The pairs, keyed by their left value.
    pub closed spec fn left_view(&self) -> Map<L::V, R::V> {
        self.lmap.model()
    }

    /// The pairs, keyed by their right value.
    pub closed spec fn right_view(&self) -> Map<R::V, L::V> {
        self.rmap.model()
    }

    /// Both maps are well formed, hold as many entries, and are each other's
    /// inverse.
    pub closed spec fn wf(&self) -> bool {
        &&& self.lmap.wf()
        &&& self.rmap.wf()
        &&& self.lmap.model().len() == self.rmap.model().len()
        &&& mirrors(self.lmap.model(), self.rmap.model())
    }

    /// Every pair can be found from both sides: the right value of `l` is
    /// `r` exactly when the left value of `r` is `l`. Each operation keeps
    /// `wf`, so this holds after any sequence of them.
    pub proof fn lemma_bijection(&self)
        requires
            self.wf(),
        ensures
            mirrors(self.left_view(), self.right_view()),
            forall|l: L::V, r: R::V|
                (self.left_view().contains_key(l) && self.left_view()[l] == r) <==> (
                self.right_view().contains_key(r) && self.right_view()[r] == l),
    {
    }

    /// An empty bimap.
    pub fn new() -> (r: Self)
        ensures
            r.wf(),
            r.left_view() == Map::<L::V, R::V>::empty(),
            r.right_view() == Map::<R::V, L::V>::empty(),
    {
        BiMap { lmap: LMap::new(), rmap: RMap::new() }
    }

    /// The number of pairs, which both backing maps hold alike.
    pub fn len(&self) -> (r: usize)
        requires
            self.wf(),
        ensures
            r == self.left_view().len(),
            r == self.right_view().len(),
    {
        self.lmap.len()
    }

    /// Whether the bimap holds no pair.
    pub fn is_empty(&self) -> (r: bool)
        requires
            self.wf(),
        ensures
            r == (self.left_view().len() == 0),
    {
        self.lmap.is_empty()
    }

    /// Every pair once, in no particular order.
    pub fn iter(&self) -> (r: Vec<(&L, &R)>)
        requires
            self.wf(),
        ensures
            r@.len() == self.left_view().len(),
            forall|l: L::V| #[trigger]
                self.left_view().contains_key(l) ==> exists|i: int| 0 <= i < r@.len() && r@[i].0@ == l,
            forall|i: int|
                0 <= i < r@.len() ==> {
                    &&& self.left_view().contains_key(#[trigger] r@[i].0@)
                    &&& self.left_view()[r@[i].0@] == r@[i].1@
                },
            forall|i: int, j: int|
                0 <= i < r@.len() && 0 <= j < r@.len() && i != j ==> #[trigger] r@[i].0@
                    != #[trigger] r@[j].0@,
    {
        let entries = self.lmap.iter();
        let mut r: Vec<(&L, &R)> = Vec::new();
        let mut i: usize = 0;
        while i < entries.len()
            invariant
                i <= entries@.len(),
                r@.len() == i,
                forall|j: int|
                    0 <= j < i ==> #[trigger] r@[j].0@ == entries@[j].0@ && r@[j].1@
                        == entries@[j].1@,
            decreases entries@.len() - i,
        {
            let (k, v) = entries[i];
            r.push((k.get(), v.get()));
            i = i + 1;
        }
        proof {
            assert forall|a: int, b: int|
                0 <= a < r@.len() && 0 <= b < r@.len() && a != b implies #[trigger] r@[a].0@
                != #[trigger] r@[b].0@ by {
                assert(r@[a].0@ == entries@[a].0@);
                assert(r@[b].0@ == entries@[b].0@);
            }
            assert forall|l: L::V| #[trigger] self.left_view().contains_key(l) implies exists|a: int|
                0 <= a < r@.len() && r@[a].0@ == l by {
                let a = choose|a: int| 0 <= a < entries@.len() && entries@[a].0@ == l;
                assert(r@[a].0@ == l);
            }
            assert forall|a: int| 0 <= a < r@.len() implies self.left_view().contains_key(
                #[trigger] r@[a].0@,
            ) && self.left_view()[r@[a].0@] == r@[a].1@ by {
                assert(r@[a].0@ == entries@[a].0@);
            }
        }
        r
    }

    /// The right value paired with `left`, if any.
    pub fn get_left(&self, left: &L) -> (r: Option<&R>)
        requires
            self.wf(),
        ensures
            match r {
                Some(v) => self.left_view().contains_key(left@) && v@ == self.left_view()[left@],
                None => !self.left_view().contains_key(left@),
            },
    {
        match self.lmap.get(left) {
            Some(v) => Some(v.get()),
            None => None,
        }
    }

    /// The left value paired with `right`, if any.
    pub fn get_right(&self, right: &R) -> (r: Option<&L>)
        requires
            self.wf(),
        ensures
            match r {
                Some(v) => self.right_view().contains_key(right@) && v@
                    == self.right_view()[right@],
                None => !self.right_view().contains_key(right@),
            },
    {
        match self.rmap.get(right) {
            Some(v) => Some(v.get()),
            None => None,
        }
    }

    /// Whether some pair has `left` as its left value.
    pub fn contains_left(&self, left: &L) -> (r: bool)
        requires
            self.wf(),
        ensures
            r == self.left_view().contains_key(left@),
    {
        self.lmap.contains(left)
    }

    /// Whether some pair has `right` as its right value.
    pub fn contains_right(&self, right: &R) -> (r: bool)
        requires
            self.wf(),
        ensures
            r == self.right_view().contains_key(right@),
    {
        self.rmap.contains(right)
    }

    /// Puts in the pair `(left, right)`. A pair that held `left` or `right`
    /// before is dropped first, on both sides, so the bimap stays a
    /// bijection.
    pub fn insert(&mut self, left: L, right: R)
        requires
            old(self).wf(),
        ensures
            final(self).wf(),
            final(self).left_view() == paired(
                old(self).left_view(),
                old(self).right_view(),
                left@,
                right@,
            ),
            final(self).right_view() == paired(
                old(self).right_view(),
                old(self).left_view(),
                right@,
                left@,
            ),
            old(self).left_view().contains_key(left@) && old(self).left_view()[left@] != right@
                ==> !final(self).right_view().contains_key(old(self).left_view()[left@]),
            old(self).right_view().contains_key(right@) && old(self).right_view()[right@] != left@
                ==> !final(self).left_view().contains_key(old(self).right_view()[right@]),
    {
        let _evicted_left = self.remove_left(&left);
        let _evicted_right = self.remove_right(&right);
        let ghost lv = self.lmap.model();
        let ghost rv = self.rmap.model();
        proof {
            self.lmap.lemma_model_finite();
            self.rmap.lemma_model_finite();
        }
        let l = Ref::new(left);
        let r = Ref::new(right);
        self.lmap.insert(l.share(), r.share());
        self.rmap.insert(r, l);
        proof {
            lemma_insert_pair(lv, rv, left@, right@);
            assert(self.lmap.model() =~= paired(
                old(self).left_view(),
                old(self).right_view(),
                left@,
                right@,
            ));
            assert(self.rmap.model() =~= paired(
                old(self).right_view(),
                old(self).left_view(),
                right@,
                left@,
            ));
        }
    }

    /// Takes out the pair whose left value is `left` and returns it.
    pub fn remove_left(&mut self, left: &L) -> (r: Option<(L, R)>)
        requires
            old(self).wf(),
        ensures
            final(self).wf(),
            match r {
                Some((a, b)) => {
                    &&& old(self).left_view().contains_key(left@)
                    &&& a@ == left@
                    &&& b@ == old(self).left_view()[left@]
                    &&& final(self).left_view() == old(self).left_view().remove(a@)
                    &&& final(self).right_view() == old(self).right_view().remove(b@)
                },
                None => {
                    &&& !old(self).left_view().contains_key(left@)
                    &&& final(self).left_view() == old(self).left_view()
                    &&& final(self).right_view() == old(self).right_view()
                },
            },
    {
        match self.lmap.remove(left) {
            None => None,
            Some((l0, r0)) => {
                proof {
                    assert(old(self).rmap.model().contains_key(r0@));
                }
                match self.rmap.remove(r0.get()) {
                    Some((r1, l1)) => {
                        let a = Ref::join(l0, l1);
                        let b = Ref::join(r0, r1);
                        proof {
                            old(self).lmap.lemma_model_finite();
                            old(self).rmap.lemma_model_finite();
                            lemma_remove_pair(old(self).lmap.model(), old(self).rmap.model(), a@);
                        }
                        Some((a, b))
                    },
                    None => {
                        proof {
                            assert(false);
                        }
                        None
                    },
                }
            },
        }
    }

    /// Takes out the pair whose right value is `right` and returns it.
    pub fn remove_right(&mut self, right: &R) -> (r: Option<(L, R)>)
        requires
            old(self).wf(),
        ensures
            final(self).wf(),
            match r {
                Some((a, b)) => {
                    &&& old(self).right_view().contains_key(right@)
                    &&& b@ == right@
                    &&& a@ == old(self).right_view()[right@]
                    &&& final(self).left_view() == old(self).left_view().remove(a@)
                    &&& final(self).right_view() == old(self).right_view().remove(b@)
                },
                None => {
                    &&& !old(self).right_view().contains_key(right@)
                    &&& final(self).left_view() == old(self).left_view()
                    &&& final(self).right_view() == old(self).right_view()
                },
            },
    {
        match self.rmap.remove(right) {
            None => None,
            Some((r0, l0)) => {
                proof {
                    assert(old(self).lmap.model().contains_key(l0@));
                }
                match self.lmap.remove(l0.get()) {
                    Some((l1, r1)) => {
                        let a = Ref::join(l0, l1);
                        let b = Ref::join(r0, r1);
                        proof {
                            old(self).lmap.lemma_model_finite();
                            old(self).rmap.lemma_model_finite();
                            lemma_remove_pair(old(self).rmap.model(), old(self).lmap.model(), b@);
                        }
                        Some((a, b))
                    },
                    None => {
                        proof {
                            assert(false);
                        }
                        None
                    },
                }
            },
        }
    }
}

/// Putting in `(a, b)` and then taking out the pair of `a` gives back
/// `(a, b)`, and leaves both sides as they were but for the pairs that the
/// insertion dropped; from an empty bimap, both sides are empty again.
pub proof fn lemma_round_trip<A, B>(lv: Map<A, B>, rv: Map<B, A>, a: A, b: B)
    requires
        mirrors(lv, rv),
    ensures
        paired(lv, rv, a, b).contains_key(a),
        paired(lv, rv, a, b)[a] == b,
        paired(lv, rv, a, b).remove(a) == without_other(lv, rv, b).remove(a),
        paired(rv, lv, b, a).remove(b) == without_other(rv, lv, a).remove(b),
        lv.is_empty() && rv.is_empty() ==> paired(lv, rv, a, b).remove(a).is_empty(),
        lv.is_empty() && rv.is_empty() ==> paired(rv, lv, b, a).remove(b).is_empty(),
{
    assert(paired(lv, rv, a, b).remove(a) =~= without_other(lv, rv, b).remove(a));
    assert(paired(rv, lv, b, a).remove(b) =~= without_other(rv, lv, a).remove(b));
    if lv.is_empty() && rv.is_empty() {
        assert(paired(lv, rv, a, b).remove(a) =~= Map::<A, B>::empty());
        assert(paired(rv, lv, b, a).remove(b) =~= Map::<B, A>::empty());
    }
}

/// Taking out a pair by its left value and taking it out by its right value
/// are the same: both find the pair, return it, and leave the same two sides.
pub proof fn lemma_remove_symmetry<A, B>(lv: Map<A, B>, rv: Map<B, A>, a: A, b: B)
    requires
        mirrors(lv, rv),
    ensures
        lv.contains_key(a) && lv[a] == b <==> rv.contains_key(b) && rv[b] == a,
        lv.contains_key(a) && lv[a] == b ==> lv.remove(rv[b]) == lv.remove(a) && rv.remove(
            lv[a],
        ) == rv.remove(b),
{
}

/// Adding a pair whose two values are both new keeps the two sides each
/// other's inverse.
proof fn lemma_insert_pair<A, B>(lv: Map<A, B>, rv: Map<B, A>, a: A, b: B)
    requires
        mirrors(lv, rv),
        !lv.contains_key(a),
        !rv.contains_key(b),
        lv.dom().finite(),
        rv.dom().finite(),
        lv.len() == rv.len(),
    ensures
        mirrors(lv.insert(a, b), rv.insert(b, a)),
        lv.insert(a, b).len() == rv.insert(b, a).len(),
{
}

/// Removing a pair from both sides keeps the two sides each other's inverse.
proof fn lemma_remove_pair<A, B>(lv: Map<A, B>, rv: Map<B, A>, a: A)
    requires
        mirrors(lv, rv),
        lv.contains_key(a),
        lv.dom().finite(),
        rv.dom().finite(),
        lv.len() == rv.len(),
    ensures
        mirrors(lv.remove(a), rv.remove(lv[a])),
        lv.remove(a).len() == rv.remove(lv[a]).len(),
{
    assert(rv.contains_key(lv[a]));
}

} // verus!

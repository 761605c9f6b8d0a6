//! A stable insertion sort for values that carry their own strict order.

use vstd::prelude::*;

verus! {

/// Values ordered by a strict relation that the code can test.
pub trait Ranked: Sized {
    spec fn precedes(&self, other: &Self) -> bool;

    fn check_precedes(&self, other: &Self) -> (before: bool)
        ensures
            before == self.precedes(other),
    ;
}

/// The relation is a strict order: irreflexive and transitive.
pub open spec fn strict_order<T: Ranked>() -> bool {
    &&& forall|a: T| !#[trigger] a.precedes(&a)
    &&& forall|a: T, b: T, c: T| #[trigger] a.precedes(&b) && #[trigger] b.precedes(&c) ==> a.precedes(&c)
}

/// No value comes after one that it precedes.
pub open spec fn ranked_sorted<T: Ranked>(items: Seq<T>) -> bool {
    forall|i: int, j: int| 0 <= i < j < items.len() ==> !#[trigger] items[j].precedes(&#[trigger] items[i])
}

/// Neither value precedes the other.
pub open spec fn tied<T: Ranked>(a: T, b: T) -> bool {
    !a.precedes(&b) && !b.precedes(&a)
}

/// What a value ties with precedes whatever it precedes.
pub open spec fn ties_agree<T: Ranked>() -> bool {
    forall|a: T, b: T, c: T| #[trigger] tied(a, b) && #[trigger] b.precedes(&c) ==> a.precedes(&c)
}

/// `sorted` holds the items each once, and tied items keep their order.
pub open spec fn stable_arrangement<T: Ranked>(items: Seq<T>, sorted: Seq<T>) -> bool {
    exists|origin: Seq<int>| {
        &&& origin.len() == sorted.len()
        &&& forall|k: int| 0 <= k < sorted.len() ==> 0 <= #[trigger] origin[k] < items.len() && sorted[k]
            == items[origin[k]]
        &&& forall|k: int, l: int| 0 <= k < l < sorted.len() ==> #[trigger] origin[k] != #[trigger] origin[l]
        &&& forall|k: int, l: int|
            0 <= k < l < sorted.len() && tied(#[trigger] sorted[k], #[trigger] sorted[l]) ==> origin[k]
                < origin[l]
    }
}

/// Sorts by the relation; values that neither precedes keep their order.
pub fn sort_ranked<T: Ranked>(items: Vec<T>) -> (sorted: Vec<T>)
    requires
        strict_order::<T>(),
    ensures
        sorted@.to_multiset() == items@.to_multiset(),
        sorted@.len() == items@.len(),
        ranked_sorted(sorted@),
        ties_agree::<T>() ==> stable_arrangement(items@, sorted@),
{
    broadcast use vstd::seq_lib::group_to_multiset_ensures;
    let ghost source = items@;
    let ghost mut origin: Seq<int> = Seq::empty();
    let ghost mut consumed: int = 0;
    let mut pending = items;
    let mut sorted: Vec<T> = Vec::new();
    while pending.len() > 0
        invariant
            strict_order::<T>(),
            sorted@.to_multiset().add(pending@.to_multiset()) == source.to_multiset(),
            ranked_sorted(sorted@),
            0 <= consumed <= source.len(),
            pending@ == source.skip(consumed),
            origin.len() == sorted@.len(),
            forall|k: int| 0 <= k < sorted@.len() ==> 0 <= #[trigger] origin[k] < consumed && sorted@[k]
                == source[origin[k]],
            forall|k: int, l: int| 0 <= k < l < sorted@.len() ==> #[trigger] origin[k] != #[trigger] origin[l],
            ties_agree::<T>() ==> forall|k: int, l: int|
                0 <= k < l < sorted@.len() && tied(#[trigger] sorted@[k], #[trigger] sorted@[l]) ==> origin[k]
                    < origin[l],
        decreases pending@.len(),
    {
        let ghost before_pending = pending@;
        let item = pending.remove(0);
        let mut p: usize = 0;
        while p < sorted.len() && !item.check_precedes(&sorted[p])
            invariant
                0 <= p <= sorted@.len(),
                forall|i: int| 0 <= i < p ==> !item.precedes(#[trigger] &sorted@[i]),
            decreases sorted@.len() - p,
        {
            p = p + 1;
        }
        let ghost before_sorted = sorted@;
        proof {
            let s2 = before_sorted.insert(p as int, item);
            assert forall|i: int, j: int| 0 <= i < j < s2.len() implies !#[trigger] s2[j].precedes(
                &#[trigger] s2[i],
            ) by {
                if i < p && j == p {
                } else if i == p && j > p {
                    if s2[j].precedes(&item) {
                        assert(p < before_sorted.len());
                        assert(item.precedes(&before_sorted[p as int]));
                        let ghost last = before_sorted[p as int];
                        assert(s2[j] == before_sorted[j - 1]);
                        if j - 1 > p {
                            assert(!before_sorted[j - 1].precedes(&last));
                        }
                        assert(s2[j].precedes(&last));
                        if j - 1 == p {
                            assert(!last.precedes(&last));
                        }
                    }
                } else {
                    let oi = if i < p { i } else { i - 1 };
                    let oj = if j < p { j } else { j - 1 };
                    assert(s2[i] == before_sorted[oi]);
                    assert(s2[j] == before_sorted[oj]);
                }
            }
        }
        sorted.insert(p, item);
        proof {
            let old_origin = origin;
            origin = old_origin.insert(p as int, consumed);
            assert(before_pending[0] == source[consumed]);
            assert forall|k: int| 0 <= k < sorted@.len() implies 0 <= #[trigger] origin[k] < consumed + 1
                && sorted@[k] == source[origin[k]] by {
                if k < p {
                    assert(origin[k] == old_origin[k]);
                } else if k > p {
                    assert(origin[k] == old_origin[k - 1]);
                }
            }
            assert forall|k: int, l: int| 0 <= k < l < sorted@.len() implies #[trigger] origin[k]
                != #[trigger] origin[l] by {
                let ok = if k < p { k } else { k - 1 };
                let ol = if l < p { l } else { l - 1 };
                if k != p && l != p {
                    assert(origin[k] == old_origin[ok]);
                    assert(origin[l] == old_origin[ol]);
                } else if k == p {
                    assert(origin[l] == old_origin[ol]);
                } else {
                    assert(origin[k] == old_origin[ok]);
                }
            }
            if ties_agree::<T>() {
                assert forall|k: int, l: int|
                    0 <= k < l < sorted@.len() && tied(#[trigger] sorted@[k], #[trigger] sorted@[l]) implies
                    origin[k] < origin[l] by {
                    if k != p && l != p {
                        let ok = if k < p { k } else { k - 1 };
                        let ol = if l < p { l } else { l - 1 };
                        assert(origin[k] == old_origin[ok]);
                        assert(origin[l] == old_origin[ol]);
                        assert(sorted@[k] == before_sorted[ok]);
                        assert(sorted@[l] == before_sorted[ol]);
                    } else if l == p {
                        assert(origin[k] == old_origin[k]);
                    } else {
                        // k == p: the item ties with a later value, which the
                        // item's successor cannot follow.
                        let other = before_sorted[l - 1];
                        assert(sorted@[l] == other);
                        assert(p < before_sorted.len());
                        assert(item.precedes(&before_sorted[p as int]));
                        assert(tied(other, item));
                        assert(other.precedes(&before_sorted[p as int]));
                        if l - 1 == p {
                        } else {
                            assert(!before_sorted[l - 1].precedes(&before_sorted[p as int]));
                        }
                    }
                }
            }
            consumed = consumed + 1;
            assert(pending@ =~= source.skip(consumed));
            broadcast use vstd::multiset::group_multiset_axioms;
            let before_all = before_sorted.to_multiset().add(before_pending.to_multiset());
            assert(sorted@ == before_sorted.insert(p as int, item));
            assert(pending@ == before_pending.remove(0));
            assert(before_pending[0] == item);
            assert(before_pending.contains(item));
            vstd::seq_lib::to_multiset_contains(before_pending, item);
            vstd::seq_lib::to_multiset_remove(before_pending, 0);
            vstd::seq_lib::to_multiset_insert(before_sorted, p as int, item);
            let after_all = sorted@.to_multiset().add(pending@.to_multiset());
            assert forall|v: T| #[trigger] after_all.count(v) == before_all.count(v) by {
                if v == item {
                } else {
                }
            }
            assert(after_all =~= before_all);
        }
    }
    proof {
        assert(consumed == source.len());
        if ties_agree::<T>() {
            assert(stable_arrangement(source, sorted@));
        }
        assert(pending@ =~= Seq::<T>::empty());
        assert(pending@.to_multiset() =~= vstd::multiset::Multiset::empty());
        assert(sorted@.to_multiset() =~= source.to_multiset());
        assert(sorted@.to_multiset().len() == source.to_multiset().len());
    }
    sorted
}

} // verus!

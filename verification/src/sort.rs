//! Ordering by non-increasing weight.
//!
//! The report lists outer groups by falling size and, inside each group,
//! the command names by falling count.  Both orders are instances of one
//! scheme: repeatedly take the first element of greatest weight, so that
//! elements of equal weight keep their relative order.

use vstd::prelude::*;
use vstd::seq_lib::lemma_multiset_commutative;
use vstd::seq_lib::to_multiset_build;
use vstd::seq_lib::to_multiset_remove;
use vstd::seq_lib::group_to_multiset_ensures;
use vstd::multiset::group_multiset_axioms;
use vstd::multiset::Multiset;

verus! {

/// The index of the first element of greatest weight in `s[i..]`; `i`
/// itself when the range is empty or degenerate.
pub open spec fn first_max_by<T>(s: Seq<T>, w: spec_fn(T) -> nat, i: int) -> int
    decreases s.len() - i,
{
    if i < 0 || i >= s.len() - 1 {
        i
    } else {
        let m = first_max_by(s, w, i + 1);
        if w(s[i]) >= w(s[m]) {
            i
        } else {
            m
        }
    }
}

/// `first_max_by` names an index of the range, its weight is greatest,
/// and everything before it in the range weighs strictly less.
pub proof fn lemma_first_max_by<T>(s: Seq<T>, w: spec_fn(T) -> nat, i: int)
    requires
        0 <= i < s.len(),
    ensures
        i <= first_max_by(s, w, i) < s.len(),
        forall|j: int|
            i <= j < s.len() ==> w(s[first_max_by(s, w, i)]) >= w(#[trigger] s[j]),
        forall|j: int|
            i <= j < first_max_by(s, w, i) ==> w(#[trigger] s[j]) < w(s[first_max_by(s, w, i)]),
    decreases s.len() - i,
{
    if i < s.len() - 1 {
        lemma_first_max_by(s, w, i + 1);
    }
}

/// `s` ordered by non-increasing weight: the first element of greatest
/// weight, then the rest, ordered the same way.  Elements of equal weight
/// keep their relative order.
pub open spec fn sort_desc_by<T>(s: Seq<T>, w: spec_fn(T) -> nat) -> Seq<T>
    decreases s.len(),
{
    if s.len() == 0 {
        Seq::empty()
    } else {
        let m = first_max_by(s, w, 0);
        if 0 <= m < s.len() {
            seq![s[m]] + sort_desc_by(s.remove(m), w)
        } else {
            Seq::empty()
        }
    }
}

/// Sorting keeps exactly the elements: the multisets agree.
pub proof fn lemma_sort_desc_by_perm<T>(s: Seq<T>, w: spec_fn(T) -> nat)
    ensures
        sort_desc_by(s, w).to_multiset() == s.to_multiset(),
        sort_desc_by(s, w).len() == s.len(),
    decreases s.len(),
{
    broadcast use group_to_multiset_ensures;
    broadcast use group_multiset_axioms;

    if s.len() > 0 {
        lemma_first_max_by(s, w, 0);
        let m = first_max_by(s, w, 0);
        let rest = s.remove(m);
        lemma_sort_desc_by_perm(rest, w);
        let t = sort_desc_by(s, w);
        lemma_multiset_commutative(seq![s[m]], sort_desc_by(rest, w));
        assert(seq![s[m]] =~= Seq::empty().push(s[m]));
        to_multiset_build(Seq::<T>::empty(), s[m]);
        assert(Seq::<T>::empty().to_multiset() =~= Multiset::<T>::empty());
        to_multiset_remove(s, m);
        assert(s.contains(s[m]));
        assert(s.to_multiset().count(s[m]) > 0);
        assert(t.to_multiset() =~= s.to_multiset());
    }
}

/// Everything in the sorted sequence stands in the original.
pub proof fn lemma_sort_desc_by_contains<T>(s: Seq<T>, w: spec_fn(T) -> nat, x: T)
    requires
        sort_desc_by(s, w).contains(x),
    ensures
        s.contains(x),
{
    broadcast use group_to_multiset_ensures;

    lemma_sort_desc_by_perm(s, w);
    assert(sort_desc_by(s, w).to_multiset().count(x) > 0);
    assert(s.to_multiset().count(x) > 0);
}

/// The sorted sequence is ordered by non-increasing weight.
pub proof fn lemma_sort_desc_by_sorted<T>(s: Seq<T>, w: spec_fn(T) -> nat)
    ensures
        forall|i: int, j: int|
            0 <= i <= j < sort_desc_by(s, w).len() ==> w(#[trigger] sort_desc_by(s, w)[i]) >= w(
                #[trigger] sort_desc_by(s, w)[j],
            ),
    decreases s.len(),
{
    if s.len() > 0 {
        lemma_first_max_by(s, w, 0);
        let m = first_max_by(s, w, 0);
        let rest = s.remove(m);
        let t = sort_desc_by(s, w);
        lemma_sort_desc_by_sorted(rest, w);
        assert forall|i: int, j: int| 0 <= i <= j < t.len() implies w(#[trigger] t[i]) >= w(
            #[trigger] t[j],
        ) by {
            if i == 0 && j > 0 {
                let y = t[j];
                assert(y == sort_desc_by(rest, w)[j - 1]);
                assert(sort_desc_by(rest, w).contains(y));
                lemma_sort_desc_by_contains(rest, w, y);
                let k = choose|k: int| 0 <= k < rest.len() && rest[k] == y;
                assert(rest[k] == if k < m {
                    s[k]
                } else {
                    s[k + 1]
                });
            } else if i > 0 {
                assert(t[i] == sort_desc_by(rest, w)[i - 1]);
                assert(t[j] == sort_desc_by(rest, w)[j - 1]);
            }
        }
    }
}

} // verus!

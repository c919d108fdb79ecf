//! Sorting of what is shown to the user.

use vstd::multiset::Multiset;
use vstd::prelude::*;

verus! {

/// A value that is shown in lists, with the order in which it is shown. The
/// order is total and transitive on the values' models.
pub trait Ranked: View + Sized {
    /// Whether `a` is shown before `b`, or beside it.
    spec fn rank_le(a: Self::V, b: Self::V) -> bool;

    /// Decides the order of two values.
    fn precedes(&self, other: &Self) -> (r: bool)
        ensures
            r == Self::rank_le(self@, other@),
    ;

    /// Any two values are comparable.
    proof fn rank_total(a: Self::V, b: Self::V)
        ensures
            Self::rank_le(a, b) || Self::rank_le(b, a),
    ;

    /// The order is transitive.
    proof fn rank_transitive(a: Self::V, b: Self::V, c: Self::V)
        requires
            Self::rank_le(a, b),
            Self::rank_le(b, c),
        ensures
            Self::rank_le(a, c),
    ;
}

/// The models of a sequence of values, in order.
pub open spec fn views<T: View>(s: Seq<T>) -> Seq<T::V> {
    Seq::new(s.len(), |i: int| s[i]@)
}

/// Every item stands before, or beside, each item that follows it.
pub open spec fn ranked<T: Ranked>(s: Seq<T::V>) -> bool {
    forall|i: int, j: int|
        #![trigger s[i], s[j]]
        0 <= i < j < s.len() ==> T::rank_le(s[i], s[j])
}

/// A sequence without items holds nothing.
pub proof fn lemma_empty_to_multiset<A>(s: Seq<A>)
    requires
        s.len() == 0,
    ensures
        s.to_multiset() == Multiset::<A>::empty(),
{
    s.to_multiset_ensures();
    vstd::multiset::lemma_multiset_empty_len(s.to_multiset());
}

/// Inserting an item anywhere adds it once to what the sequence holds.
pub proof fn lemma_insert_to_multiset<A>(s: Seq<A>, i: int, x: A)
    requires
        0 <= i <= s.len(),
    ensures
        s.insert(i, x).to_multiset() == s.to_multiset().insert(x),
{
    let t = s.insert(i, x);
    assert(t.remove(i) =~= s);
    t.to_multiset_ensures();
}

/// Sorts the items into the order in which they are shown: the result holds
/// the same items, each before, or beside, all that follow it.
pub fn sort_ranked<T: Ranked>(items: Vec<T>) -> (r: Vec<T>)
    ensures
        ranked::<T>(views(r@)),
        views(r@).to_multiset() == views(items@).to_multiset(),
        r@.len() == items@.len(),
{
    let ghost all = views(items@);
    let mut rest = items;
    let mut out: Vec<T> = Vec::new();
    proof {
        lemma_empty_to_multiset(views(out@));
    }
    while rest.len() > 0
        invariant
            ranked::<T>(views(out@)),
            views(rest@).to_multiset().add(views(out@).to_multiset()) == all.to_multiset(),
            rest@.len() + out@.len() == all.len(),
        decreases rest.len(),
    {
        let ghost rest_before = views(rest@);
        let ghost out_before = views(out@);
        let x = rest.pop().unwrap();
        let mut p: usize = 0;
        while p < out.len() && !x.precedes(&out[p])
            invariant
                p <= out.len(),
                out_before == views(out@),
                forall|j: int| 0 <= j < p ==> !T::rank_le(x@, #[trigger] out_before[j]),
            decreases out.len() - p,
        {
            p += 1;
        }
        out.insert(p, x);
        proof {
            let grown = out_before.insert(p as int, x@);
            assert(views(out@) =~= grown);
            assert(rest_before =~= views(rest@).push(x@));
            vstd::seq_lib::to_multiset_build(views(rest@), x@);
            lemma_insert_to_multiset(out_before, p as int, x@);
            assert forall|i: int, j: int| 0 <= i < j < grown.len() implies T::rank_le(
                #[trigger] grown[i],
                #[trigger] grown[j],
            ) by {
                if j == p {
                    T::rank_total(x@, out_before[i]);
                } else if i == p && j - 1 > p {
                    T::rank_transitive(x@, out_before[p as int], out_before[j - 1]);
                }
            }
        }
    }
    proof {
        lemma_empty_to_multiset(views(rest@));
        assert(views(rest@).to_multiset().add(views(out@).to_multiset()) =~= views(
            out@,
        ).to_multiset());
    }
    out
}

} // verus!

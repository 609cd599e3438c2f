//! Laws relating whole bump sequences to the resulting histogram view.
//!
//! `Histogram::new` yields the empty multiset and each `Histogram::bump`
//! inserts one occurrence, so the view reached by a sequence of bumps is
//! [`after_bumps`] of the sequence of bumped key views. The lemmas here
//! state what that view looks like: every count is the number of
//! occurrences in the sequence, and the total is the length of the
//! sequence.

use vstd::prelude::*;
use vstd::multiset::Multiset;

verus! {

broadcast use vstd::multiset::group_multiset_axioms;

/// The histogram view reached by starting from `Histogram::new` and
/// bumping each element of `s` in order, per the contracts of `new`
/// (the empty multiset) and `bump` (insertion of one occurrence).
pub open spec fn after_bumps<V>(s: Seq<V>) -> Multiset<V>
    decreases s.len(),
{
    if s.len() == 0 {
        Multiset::empty()
    } else {
        after_bumps(s.drop_last()).insert(s.last())
    }
}

/// The number of occurrences of `x` in `s`.
pub open spec fn occurrences<V>(s: Seq<V>, x: V) -> nat
    decreases s.len(),
{
    if s.len() == 0 {
        0
    } else {
        occurrences(s.drop_last(), x) + (if s.last() == x {
            1nat
        } else {
            0nat
        })
    }
}

/// After any sequence of bumps, each item's count equals the number of
/// times it occurs in the sequence; in particular an item that never
/// occurs has count zero.
pub proof fn lemma_count_after_bumps<V>(s: Seq<V>, x: V)
    ensures
        after_bumps(s).count(x) == occurrences(s, x),
    decreases s.len(),
{
    if s.len() > 0 {
        lemma_count_after_bumps(s.drop_last(), x);
    }
}

/// After any sequence of bumps, the total number of occurrences equals
/// the number of bump calls made.
pub proof fn lemma_total_after_bumps<V>(s: Seq<V>)
    ensures
        after_bumps(s).len() == s.len(),
    decreases s.len(),
{
    if s.len() > 0 {
        lemma_total_after_bumps(s.drop_last());
    }
}

/// The view after a sequence of bumps is exactly the multiset of the
/// sequence: bumping is order-insensitive accumulation.
pub proof fn lemma_after_bumps_is_multiset<V>(s: Seq<V>)
    ensures
        after_bumps(s) == s.to_multiset(),
    decreases s.len(),
{
    broadcast use vstd::seq_lib::group_to_multiset_ensures;

    if s.len() == 0 {
        assert(s.to_multiset() =~= Multiset::<V>::empty()) by {
            assert(forall|x: V| !s.contains(x));
        }
    } else {
        lemma_after_bumps_is_multiset(s.drop_last());
        assert(s.drop_last().push(s.last()) =~= s);
    }
}

} // verus!

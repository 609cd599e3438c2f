//! The standalone mode-of-a-sequence helper.
//!
//! It consumes a non-empty sequence of items in a single pass, tallies
//! them in a temporary [`Histogram`], and returns its mode. Unlike
//! `Histogram::mode`, which reports emptiness with an absent value, an
//! empty input here is a precondition violation: there is no item to
//! return.

use vstd::prelude::*;
use vstd::pervasive::unreached;
use crate::histogram::Histogram;
use crate::keys::Key;

verus! {

/// The sequence of the views of the elements of `s`.
pub open spec fn views_of<T: Key>(s: Seq<T>) -> Seq<T::V> {
    s.map_values(|t: T| t@)
}

/// Returns an item of `items` whose number of occurrences in `items`
/// is maximal. Among items tying for the maximum, which one is
/// returned is unspecified. The input must be non-empty.
#[verifier::loop_isolation(false)]
pub fn mode<K: Key>(items: &Vec<K>) -> (r: K)
    requires
        items@.len() > 0,
    ensures
        views_of(items@).to_multiset().count(r@) > 0,
        forall|x: K::V| #[trigger] views_of(items@).to_multiset().count(x) <= views_of(
            items@,
        ).to_multiset().count(r@),
{
    broadcast use vstd::seq_lib::group_to_multiset_ensures;

    let mut counts: Histogram<K> = Histogram::new();
    let n = items.len();
    let mut j: usize = 0;
    proof {
        assert(views_of(items@.take(0)) =~= Seq::<K::V>::empty());
    }
    while j < n
        invariant
            j <= n,
            counts@ == views_of(items@.take(j as int)).to_multiset(),
        decreases n - j,
    {
        proof {
            assert(views_of(items@.take(j as int)).len() == j);
        }
        counts.bump(&items[j]);
        proof {
            assert(views_of(items@.take(j + 1)) =~= views_of(items@.take(j as int)).push(
                items@[j as int]@,
            ));
        }
        j += 1;
    }
    proof {
        assert(items@.take(n as int) =~= items@);
    }
    match counts.mode() {
        Some(t) => t,
        None => {
            proof {
                assert(views_of(items@).len() == items@.len());
                assert(false);
            }
            unreached()
        },
    }
}

} // verus!

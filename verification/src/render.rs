//! Ordered textual rendering of a histogram.
//!
//! The rendering lists the distinct items in strictly ascending key
//! order, each as `key:count; ` with a trailing separator, using the
//! order and textual form that [`OrderedKey`] supplies. An empty
//! histogram renders as the empty string.

use vstd::prelude::*;
use vstd::multiset::Multiset;
use vstd::string::StringExecFns;
use crate::digits::{dec_digits, dec_string};
use crate::histogram::Histogram;
use crate::keys::OrderedKey;

verus! {

/// The text of one rendered entry: the key's text, a colon, the
/// count's decimal text, then a semicolon and a space.
pub open spec fn entry_text<T: OrderedKey>(k: T::V, n: nat) -> Seq<char> {
    T::text_of(k) + seq![':'] + dec_digits(n) + seq![';', ' ']
}

/// The concatenated entry texts for the keys `ks`, in order, with each
/// key's count drawn from `m`.
pub open spec fn entries_text<T: OrderedKey>(m: Multiset<T::V>, ks: Seq<T::V>) -> Seq<char>
    decreases ks.len(),
{
    if ks.len() == 0 {
        Seq::empty()
    } else {
        entries_text::<T>(m, ks.drop_last()) + entry_text::<T>(ks.last(), m.count(ks.last()))
    }
}

/// `ks` lists exactly the keys of `m`, each once, in strictly
/// ascending order. Together with the order's laws this determines
/// `ks` uniquely, so a rendering satisfying it is fully determined.
pub open spec fn ascending_keys_of<T: OrderedKey>(m: Multiset<T::V>, ks: Seq<T::V>) -> bool {
    &&& forall|x: T::V| #[trigger] m.count(x) > 0 <==> ks.contains(x)
    &&& strictly_ascending::<T>(ks)
}

/// Some entry of `s` has key view `x`.
spec fn has_key<T: OrderedKey>(s: Seq<(T, usize)>, x: T::V) -> bool {
    exists|i: int| 0 <= i < s.len() && s[i].0@ == x
}

/// `ks` is strictly ascending in the key order.
pub open spec fn strictly_ascending<T: OrderedKey>(ks: Seq<T::V>) -> bool {
    forall|i: int, j: int|
        0 <= i < j < ks.len() ==> (#[trigger] T::le(ks[i], ks[j])) && ks[i] != ks[j]
}

/// Two strictly ascending sequences with the same elements are equal.
proof fn lemma_strictly_ascending_unique<T: OrderedKey>(ks1: Seq<T::V>, ks2: Seq<T::V>)
    requires
        forall|x: T::V| ks1.contains(x) <==> ks2.contains(x),
        strictly_ascending::<T>(ks1),
        strictly_ascending::<T>(ks2),
    ensures
        ks1 == ks2,
    decreases ks1.len(),
{
    if ks1.len() == 0 {
        if ks2.len() > 0 {
            assert(ks2.contains(ks2[0]));
            assert(ks1.contains(ks2[0]));
        }
        assert(ks1 =~= ks2);
    } else {
        assert(ks1.contains(ks1[0]));
        assert(ks2.contains(ks1[0]));
        assert(ks2.len() > 0);
        assert(ks1[0] == ks2[0]) by {
            let i = choose|i: int| 0 <= i < ks2.len() && ks2[i] == ks1[0];
            assert(ks2.contains(ks2[0]));
            assert(ks1.contains(ks2[0]));
            let j = choose|j: int| 0 <= j < ks1.len() && ks1[j] == ks2[0];
            if i > 0 && j > 0 {
                assert(T::le(ks2[0], ks2[i]));
                assert(T::le(ks1[0], ks1[j]));
                T::lemma_le_antisymmetric(ks1[0], ks2[0]);
            }
        }
        let t1 = ks1.skip(1);
        let t2 = ks2.skip(1);
        assert(forall|i: int| 0 <= i < t1.len() ==> t1[i] == ks1[i + 1]);
        assert(forall|i: int| 0 <= i < t2.len() ==> t2[i] == ks2[i + 1]);
        assert forall|x: T::V| t1.contains(x) <==> t2.contains(x) by {
            if t1.contains(x) {
                let i = choose|i: int| 0 <= i < t1.len() && t1[i] == x;
                assert(ks1[i + 1] == x);
                assert(ks1.contains(x));
                assert(T::le(ks1[0], ks1[i + 1]));
                assert(ks1[0] != ks1[i + 1]);
                assert(x != ks1[0]);
                let j = choose|j: int| 0 <= j < ks2.len() && ks2[j] == x;
                assert(j > 0);
                assert(t2[j - 1] == x);
                assert(t2.contains(x));
            }
            if t2.contains(x) {
                let i = choose|i: int| 0 <= i < t2.len() && t2[i] == x;
                assert(ks2[i + 1] == x);
                assert(ks2.contains(x));
                assert(T::le(ks2[0], ks2[i + 1]));
                assert(ks2[0] != ks2[i + 1]);
                assert(x != ks2[0]);
                let j = choose|j: int| 0 <= j < ks1.len() && ks1[j] == x;
                assert(j > 0);
                assert(t1[j - 1] == x);
                assert(t1.contains(x));
            }
        }
        lemma_strictly_ascending_unique::<T>(t1, t2);
        assert(ks1.len() == ks2.len());
        assert forall|idx: int| 0 <= idx < ks1.len() implies ks1[idx] == ks2[idx] by {
            if idx > 0 {
                assert(ks1[idx] == t1[idx - 1]);
                assert(ks2[idx] == t2[idx - 1]);
            }
        }
        assert(ks1 =~= ks2);
    }
}

/// The rendering contract determines its result: any two key listings
/// that are strictly ascending and list exactly the keys of `m` are
/// the same listing, so they yield the same text.
pub proof fn lemma_rendering_unique<T: OrderedKey>(
    m: Multiset<T::V>,
    ks1: Seq<T::V>,
    ks2: Seq<T::V>,
)
    requires
        ascending_keys_of::<T>(m, ks1),
        ascending_keys_of::<T>(m, ks2),
    ensures
        ks1 == ks2,
        entries_text::<T>(m, ks1) == entries_text::<T>(m, ks2),
{
    assert forall|x: T::V| ks1.contains(x) <==> ks2.contains(x) by {
        if ks1.contains(x) {
            assert(m.count(x) > 0);
        }
        if ks2.contains(x) {
            assert(m.count(x) > 0);
        }
    }
    lemma_strictly_ascending_unique::<T>(ks1, ks2);
}

impl<T: OrderedKey> Histogram<T> {
    /// Renders the histogram: all distinct items in strictly ascending
    /// key order, each printed as `key:count; ` with its current
    /// count, concatenated; the empty string for an empty histogram.
    #[verifier::loop_isolation(false)]
    pub fn render(&self) -> (s: String)
        ensures
            exists|ks: Seq<T::V>|
                ascending_keys_of::<T>(self@, ks) && s@ == entries_text::<T>(self@, ks),
    {
        let mut rem: Vec<(T, usize)> = self.iter();
        let mut sorted: Vec<(T, usize)> = Vec::new();
        proof {
            assert forall|x: T::V| #[trigger] self@.count(x) > 0 implies has_key(rem@, x) by {}
        }
        while rem.len() > 0
            invariant
                forall|i: int, k: int| 0 <= i < k < rem@.len() ==> rem@[i].0@ != rem@[k].0@,
                forall|i: int| 0 <= i < rem@.len() ==> rem@[i].1 == self@.count(rem@[i].0@)
                    && rem@[i].1 >= 1,
                forall|i: int, k: int| 0 <= i < k < sorted@.len() ==> sorted@[i].0@
                    != sorted@[k].0@,
                forall|i: int| 0 <= i < sorted@.len() ==> sorted@[i].1 == self@.count(
                    sorted@[i].0@,
                ) && sorted@[i].1 >= 1,
                forall|i: int, k: int| 0 <= i < sorted@.len() && 0 <= k < rem@.len()
                    ==> sorted@[i].0@ != rem@[k].0@,
                forall|i: int, k: int| 0 <= i < k < sorted@.len() ==> T::le(
                    sorted@[i].0@,
                    sorted@[k].0@,
                ),
                forall|i: int, k: int| 0 <= i < sorted@.len() && 0 <= k < rem@.len() ==> T::le(
                    sorted@[i].0@,
                    rem@[k].0@,
                ),
                forall|x: T::V| #[trigger] self@.count(x) > 0 <==> (has_key(sorted@, x)
                    || has_key(rem@, x)),
            decreases rem@.len(),
        {
            let mut best: usize = 0;
            let mut t: usize = 1;
            proof {
                T::lemma_le_total(rem@[0].0@, rem@[0].0@);
            }
            while t < rem.len()
                invariant
                    rem@.len() > 0,
                    best < t <= rem@.len(),
                    forall|k: int| 0 <= k < t ==> T::le(rem@[best as int].0@, rem@[k].0@),
                decreases rem@.len() - t,
            {
                proof {
                    T::lemma_le_total(rem@[t as int].0@, rem@[best as int].0@);
                    T::lemma_le_total(rem@[t as int].0@, rem@[t as int].0@);
                }
                if rem[t].0.le_exec(&rem[best].0) {
                    proof {
                        assert forall|k: int| 0 <= k < t + 1 implies T::le(
                            rem@[t as int].0@,
                            rem@[k].0@,
                        ) by {
                            if k < t {
                                T::lemma_le_transitive(
                                    rem@[t as int].0@,
                                    rem@[best as int].0@,
                                    rem@[k].0@,
                                );
                            }
                        }
                    }
                    best = t;
                }
                t += 1;
            }
            let ghost rem0 = rem@;
            let ghost sorted0 = sorted@;
            let p = rem[best];
            sorted.push(p);
            let _ = rem.remove(best);
            proof {
                assert(forall|idx: int| 0 <= idx < best ==> rem@[idx] == rem0[idx]);
                assert(forall|idx: int|
                    best <= idx < rem@.len() ==> rem@[idx] == rem0[idx + 1]);
                assert forall|x: T::V| #[trigger] self@.count(x) > 0 implies (has_key(
                    sorted@,
                    x,
                ) || has_key(rem@, x)) by {
                    if has_key(sorted0, x) {
                        let i = choose|i: int| 0 <= i < sorted0.len() && sorted0[i].0@ == x;
                        assert(sorted@[i].0@ == x);
                    } else {
                        let k = choose|k: int| 0 <= k < rem0.len() && rem0[k].0@ == x;
                        if k == best {
                            assert(sorted@[sorted@.len() - 1].0@ == x);
                        } else if k < best {
                            assert(rem@[k].0@ == x);
                        } else {
                            assert(rem@[k - 1].0@ == x);
                        }
                    }
                }
                assert forall|x: T::V| (has_key(sorted@, x) || has_key(rem@, x))
                    implies #[trigger] self@.count(x) > 0 by {
                    if has_key(sorted@, x) {
                        let i = choose|i: int| 0 <= i < sorted@.len() && sorted@[i].0@ == x;
                        if i < sorted0.len() {
                            assert(sorted0[i].0@ == x);
                        } else {
                            assert(rem0[best as int].0@ == x);
                        }
                    } else {
                        let k = choose|k: int| 0 <= k < rem@.len() && rem@[k].0@ == x;
                        if k < best {
                            assert(rem0[k].0@ == x);
                        } else {
                            assert(rem0[k + 1].0@ == x);
                        }
                    }
                }
            }
        }
        let ghost ks = sorted@.map_values(|p: (T, usize)| p.0@);
        let mut s = String::new();
        let n = sorted.len();
        let mut j: usize = 0;
        proof {
            assert(ks.take(0) =~= Seq::<T::V>::empty());
        }
        while j < n
            invariant
                j <= n,
                n == sorted@.len(),
                s@ == entries_text::<T>(self@, ks.take(j as int)),
            decreases n - j,
        {
            let key_text = sorted[j].0.text();
            s.append(key_text.as_str());
            s.append(":");
            let count_text = dec_string(sorted[j].1 as u64);
            s.append(count_text.as_str());
            s.append("; ");
            proof {
                reveal_strlit(":");
                reveal_strlit("; ");
                assert(ks.take(j + 1).drop_last() =~= ks.take(j as int));
                assert(ks.take(j + 1).last() == ks[j as int]);
                assert(s@ =~= entries_text::<T>(self@, ks.take(j + 1)));
            }
            j += 1;
        }
        proof {
            assert(ks.take(n as int) =~= ks);
            assert forall|x: T::V| #[trigger] self@.count(x) > 0 implies ks.contains(x) by {
                let i = choose|i: int| 0 <= i < sorted@.len() && sorted@[i].0@ == x;
                assert(ks[i] == x);
            }
            assert forall|x: T::V| ks.contains(x) implies #[trigger] self@.count(x) > 0 by {
                let i = choose|i: int| 0 <= i < ks.len() && ks[i] == x;
                assert(sorted@[i].0@ == x);
            }
            assert(ascending_keys_of::<T>(self@, ks) && s@ == entries_text::<T>(self@, ks));
        }
        s
    }
}

} // verus!

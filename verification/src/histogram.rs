//! The frequency-counting container itself.
//!
//! A [`Histogram`] maps keys to occurrence counts. Its mathematical view
//! is a [`Multiset`] of key views: bumping a key inserts one occurrence,
//! and every query is specified against that multiset. Internally it
//! stores one `(key, count)` entry per distinct key view, with every
//! stored count at least one and the sum of all counts bounded by
//! `usize::MAX`.

use vstd::prelude::*;
use vstd::multiset::Multiset;
use crate::keys::Key;

verus! {

broadcast use vstd::multiset::group_multiset_axioms;

/// The multiset holding `n` occurrences of `x` and nothing else.
spec fn copies<V>(x: V, n: nat) -> Multiset<V>
    decreases n,
{
    if n == 0 {
        Multiset::empty()
    } else {
        copies(x, (n - 1) as nat).insert(x)
    }
}

/// The multiset described by a sequence of `(key, count)` entries.
spec fn entries_multiset<T: Key>(s: Seq<(T, usize)>) -> Multiset<T::V>
    decreases s.len(),
{
    if s.len() == 0 {
        Multiset::empty()
    } else {
        entries_multiset(s.drop_last()).add(copies(s.last().0@, s.last().1 as nat))
    }
}

/// The sum of the counts of a sequence of entries.
spec fn total_of<T>(s: Seq<(T, usize)>) -> nat
    decreases s.len(),
{
    if s.len() == 0 {
        0
    } else {
        (total_of(s.drop_last()) + s.last().1) as nat
    }
}

/// No two entries share a key view.
spec fn distinct_keys<T: Key>(s: Seq<(T, usize)>) -> bool {
    forall|i: int, j: int| 0 <= i < j < s.len() ==> s[i].0@ != s[j].0@
}

proof fn lemma_copies<V>(x: V, n: nat, y: V)
    ensures
        copies(x, n).count(y) == if y == x {
            n
        } else {
            0nat
        },
        copies(x, n).len() == n,
    decreases n,
{
    if n > 0 {
        lemma_copies(x, (n - 1) as nat, y);
    }
}

proof fn lemma_count_absent<T: Key>(s: Seq<(T, usize)>, x: T::V)
    requires
        forall|i: int| 0 <= i < s.len() ==> s[i].0@ != x,
    ensures
        entries_multiset(s).count(x) == 0,
    decreases s.len(),
{
    if s.len() > 0 {
        lemma_count_absent(s.drop_last(), x);
        lemma_copies(s.last().0@, s.last().1 as nat, x);
    }
}

proof fn lemma_count_at<T: Key>(s: Seq<(T, usize)>, i: int)
    requires
        0 <= i < s.len(),
        distinct_keys(s),
    ensures
        entries_multiset(s).count(s[i].0@) == s[i].1,
    decreases s.len(),
{
    if i == s.len() - 1 {
        lemma_count_absent(s.drop_last(), s[i].0@);
        lemma_copies(s.last().0@, s.last().1 as nat, s[i].0@);
    } else {
        lemma_count_at(s.drop_last(), i);
        lemma_copies(s.last().0@, s.last().1 as nat, s[i].0@);
    }
}

proof fn lemma_total<T: Key>(s: Seq<(T, usize)>)
    ensures
        entries_multiset(s).len() == total_of(s),
    decreases s.len(),
{
    if s.len() > 0 {
        lemma_total(s.drop_last());
        lemma_copies(s.last().0@, s.last().1 as nat, s.last().0@);
    }
}

proof fn lemma_support<T: Key>(s: Seq<(T, usize)>, x: T::V)
    requires
        distinct_keys(s),
        forall|i: int| 0 <= i < s.len() ==> s[i].1 >= 1,
    ensures
        entries_multiset(s).count(x) > 0 <==> exists|i: int| 0 <= i < s.len() && s[i].0@ == x,
{
    if exists|i: int| 0 <= i < s.len() && s[i].0@ == x {
        let i = choose|i: int| 0 <= i < s.len() && s[i].0@ == x;
        lemma_count_at(s, i);
    } else {
        lemma_count_absent(s, x);
    }
}

proof fn lemma_bump_update<T: Key>(s: Seq<(T, usize)>, i: int, p: (T, usize))
    requires
        0 <= i < s.len(),
        p.0@ == s[i].0@,
        p.1 == s[i].1 + 1,
    ensures
        entries_multiset(s.update(i, p)) =~= entries_multiset(s).insert(p.0@),
    decreases s.len(),
{
    let s2 = s.update(i, p);
    if i == s.len() - 1 {
        assert(s2.drop_last() =~= s.drop_last());
        assert(s2.last() == p);
        assert forall|y: T::V|
            entries_multiset(s2).count(y) == entries_multiset(s).insert(p.0@).count(y) by {
            lemma_copies(p.0@, p.1 as nat, y);
            lemma_copies(s.last().0@, s.last().1 as nat, y);
        }
    } else {
        assert(s2.drop_last() =~= s.drop_last().update(i, p));
        assert(s2.last() == s.last());
        lemma_bump_update(s.drop_last(), i, p);
    }
}

proof fn lemma_bump_new<T: Key>(s: Seq<(T, usize)>, p: (T, usize))
    requires
        p.1 == 1,
    ensures
        entries_multiset(s.push(p)) =~= entries_multiset(s).insert(p.0@),
{
    assert(s.push(p).drop_last() =~= s);
    assert(s.push(p).last() == p);
    assert forall|y: T::V|
        entries_multiset(s.push(p)).count(y) == entries_multiset(s).insert(p.0@).count(y) by {
        lemma_copies(p.0@, 1nat, y);
    }
}

/// A frequency counter: a mapping from keys to occurrence counts,
/// mutated only by [`Histogram::bump`] and queried without mutation.
pub struct Histogram<T: Key> {
    entries: Vec<(T, usize)>,
}

impl<T: Key> View for Histogram<T> {
    type V = Multiset<T::V>;

    closed spec fn view(&self) -> Multiset<T::V> {
        entries_multiset(self.entries@)
    }
}

impl<T: Key> Histogram<T> {
    #[verifier::type_invariant]
    spec fn inv(self) -> bool {
        &&& distinct_keys(self.entries@)
        &&& forall|i: int| 0 <= i < self.entries@.len() ==> self.entries@[i].1 >= 1
        &&& total_of(self.entries@) <= usize::MAX
    }

    /// Creates an empty histogram: no key has been bumped, every count
    /// is zero.
    pub fn new() -> (h: Self)
        ensures
            h@ == Multiset::<T::V>::empty(),
    {
        let h = Histogram { entries: Vec::new() };
        proof {
            assert(h@ =~= Multiset::<T::V>::empty());
        }
        h
    }

    /// Increments the count of `item` by one, inserting it with count
    /// one if it has never been bumped. The view gains exactly one
    /// occurrence of `item`'s view.
    #[verifier::loop_isolation(false)]
    pub fn bump(&mut self, item: &T)
        requires
            old(self)@.len() < usize::MAX,
        ensures
            final(self)@ == old(self)@.insert(item@),
    {
        proof {
            use_type_invariant(&*self);
            lemma_total(self.entries@);
        }
        let mut entries: Vec<(T, usize)> = Vec::new();
        core::mem::swap(&mut entries, &mut self.entries);
        let ghost s0 = entries@;
        let n = entries.len();
        let mut j: usize = 0;
        while j < n
            invariant
                j <= n,
                n == entries@.len(),
                entries@ == s0,
                forall|k: int| 0 <= k < j ==> entries@[k].0@ != item@,
            decreases n - j,
        {
            if entries[j].0.key_eq(item) {
                let c = entries[j].1;
                proof {
                    lemma_count_at(s0, j as int);
                    assert(entries_multiset(s0).count(s0[j as int].0@)
                        <= entries_multiset(s0).len());
                }
                let k = entries[j].0;
                entries[j] = (k, c + 1);
                proof {
                    lemma_bump_update(s0, j as int, (k, (c + 1) as usize));
                    lemma_total(entries@);
                }
                self.entries = entries;
                return;
            }
            j += 1;
        }
        proof {
            lemma_count_absent(s0, item@);
        }
        entries.push((*item, 1));
        proof {
            lemma_bump_new(s0, (*item, 1usize));
            lemma_total(entries@);
        }
        self.entries = entries;
    }

    /// Returns the current count of `item`: the number of occurrences
    /// of its view in the histogram, zero if it has never been bumped.
    #[verifier::loop_isolation(false)]
    pub fn count(&self, item: &T) -> (n: usize)
        ensures
            n == self@.count(item@),
    {
        proof {
            use_type_invariant(&*self);
        }
        let n = self.entries.len();
        let mut j: usize = 0;
        while j < n
            invariant
                j <= n,
                n == self.entries@.len(),
                forall|k: int| 0 <= k < j ==> self.entries@[k].0@ != item@,
            decreases n - j,
        {
            if self.entries[j].0.key_eq(item) {
                proof {
                    lemma_count_at(self.entries@, j as int);
                }
                return self.entries[j].1;
            }
            j += 1;
        }
        proof {
            lemma_count_absent(self.entries@, item@);
        }
        0
    }

    /// Returns the sum of all stored counts: the number of bump calls
    /// made since creation, zero for an empty histogram.
    #[verifier::loop_isolation(false)]
    pub fn total_count(&self) -> (n: usize)
        ensures
            n == self@.len(),
    {
        proof {
            use_type_invariant(&*self);
            lemma_total(self.entries@);
            assert(self.entries@.take(self.entries@.len() as int) =~= self.entries@);
        }
        let n = self.entries.len();
        let mut sum: usize = 0;
        let mut j: usize = 0;
        while j < n
            invariant
                j <= n,
                sum == total_of(self.entries@.take(j as int)),
            decreases n - j,
        {
            proof {
                lemma_total_take_step(self.entries@, j as int);
                lemma_total_prefix_le(self.entries@, j + 1);
            }
            sum = sum + self.entries[j].1;
            j += 1;
        }
        sum
    }

    /// Returns an item with the strictly maximum count, or no value at
    /// all when the histogram is empty. Among items tying for the
    /// maximum count, which one is returned is unspecified.
    #[verifier::loop_isolation(false)]
    pub fn mode(&self) -> (m: Option<T>)
        ensures
            (m is None) <==> self@.len() == 0,
            m matches Some(t) ==> self@.count(t@) > 0 && forall|x: T::V|
                #[trigger] self@.count(x) <= self@.count(t@),
    {
        proof {
            use_type_invariant(&*self);
            lemma_total(self.entries@);
        }
        let n = self.entries.len();
        if n == 0 {
            return None;
        }
        let mut best: usize = 0;
        let mut j: usize = 1;
        while j < n
            invariant
                1 <= j <= n,
                best < j,
                forall|k: int| 0 <= k < j ==> self.entries@[k].1 <= self.entries@[best as int].1,
            decreases n - j,
        {
            if self.entries[j].1 > self.entries[best].1 {
                best = j;
            }
            j += 1;
        }
        proof {
            lemma_count_at(self.entries@, best as int);
            assert forall|x: T::V|
                #[trigger] self@.count(x) <= self@.count(self.entries@[best as int].0@) by {
                lemma_support(self.entries@, x);
                if self@.count(x) > 0 {
                    let i = choose|i: int|
                        0 <= i < self.entries@.len() && self.entries@[i].0@ == x;
                    lemma_count_at(self.entries@, i);
                }
            }
        }
        Some(self.entries[best].0)
    }

    /// Returns the distinct bumped items with their counts, one entry
    /// per distinct key view, each count at least one and equal to the
    /// item's count in the histogram. The order of the entries is
    /// unspecified.
    #[verifier::loop_isolation(false)]
    pub fn iter(&self) -> (entries: Vec<(T, usize)>)
        ensures
            forall|i: int, j: int| 0 <= i < j < entries@.len() ==> entries@[i].0@ != entries@[j].0@,
            forall|i: int| 0 <= i < entries@.len() ==> entries@[i].1 == self@.count(
                entries@[i].0@,
            ) && entries@[i].1 >= 1,
            forall|x: T::V| self@.count(x) > 0 ==> exists|i: int|
                0 <= i < entries@.len() && entries@[i].0@ == x,
    {
        proof {
            use_type_invariant(&*self);
        }
        let n = self.entries.len();
        let mut out: Vec<(T, usize)> = Vec::new();
        let mut j: usize = 0;
        while j < n
            invariant
                j <= n,
                out@ == self.entries@.take(j as int),
            decreases n - j,
        {
            out.push(self.entries[j]);
            proof {
                assert(out@ =~= self.entries@.take(j + 1));
            }
            j += 1;
        }
        proof {
            assert(out@ =~= self.entries@);
            assert forall|i: int| 0 <= i < out@.len() implies out@[i].1 == self@.count(
                out@[i].0@,
            ) && out@[i].1 >= 1 by {
                lemma_count_at(self.entries@, i);
            }
            assert forall|x: T::V| self@.count(x) > 0 implies exists|i: int|
                0 <= i < out@.len() && out@[i].0@ == x by {
                lemma_support(self.entries@, x);
            }
        }
        out
    }
}

/// Some element of `s` has view `x`.
pub open spec fn some_item_has<T: Key>(s: Seq<T>, x: T::V) -> bool {
    exists|i: int| 0 <= i < s.len() && s[i]@ == x
}

/// Some entry of `s` has key view `x`.
spec fn some_entry_has<T: Key>(s: Seq<(T, usize)>, x: T::V) -> bool {
    exists|i: int| 0 <= i < s.len() && s[i].0@ == x
}

impl<T: Key> Histogram<T> {
    /// Returns the distinct bumped items ordered by descending count:
    /// a permutation of the distinct items in which every item precedes
    /// all items of smaller count. The relative order of items with
    /// equal counts is unspecified.
    #[verifier::loop_isolation(false)]
    pub fn ranking(&self) -> (r: Vec<T>)
        ensures
            forall|i: int, j: int| 0 <= i < j < r@.len() ==> r@[i]@ != r@[j]@,
            forall|i: int, j: int| 0 <= i < j < r@.len() ==> self@.count(r@[i]@) >= self@.count(
                r@[j]@,
            ),
            forall|x: T::V| #[trigger] self@.count(x) > 0 <==> some_item_has(r@, x),
    {
        let mut rem: Vec<(T, usize)> = self.iter();
        let mut out: Vec<T> = Vec::new();
        proof {
            assert forall|x: T::V| #[trigger] self@.count(x) > 0 implies some_entry_has(
                rem@,
                x,
            ) by {}
        }
        while rem.len() > 0
            invariant
                forall|i: int, k: int| 0 <= i < k < rem@.len() ==> rem@[i].0@ != rem@[k].0@,
                forall|i: int| 0 <= i < rem@.len() ==> rem@[i].1 == self@.count(rem@[i].0@)
                    && rem@[i].1 >= 1,
                forall|i: int, k: int| 0 <= i < k < out@.len() ==> out@[i]@ != out@[k]@,
                forall|i: int, k: int| 0 <= i < out@.len() && 0 <= k < rem@.len() ==> out@[i]@
                    != rem@[k].0@,
                forall|i: int, k: int| 0 <= i < k < out@.len() ==> self@.count(out@[i]@)
                    >= self@.count(out@[k]@),
                forall|i: int, k: int| 0 <= i < out@.len() && 0 <= k < rem@.len() ==> self@.count(
                    out@[i]@,
                ) >= rem@[k].1,
                forall|x: T::V| #[trigger] self@.count(x) > 0 <==> (some_item_has(out@, x)
                    || some_entry_has(rem@, x)),
            decreases rem@.len(),
        {
            let mut best: usize = 0;
            let mut t: usize = 1;
            while t < rem.len()
                invariant
                    rem@.len() > 0,
                    best < t <= rem@.len(),
                    forall|k: int| 0 <= k < t ==> rem@[k].1 <= rem@[best as int].1,
                decreases rem@.len() - t,
            {
                if rem[t].1 > rem[best].1 {
                    best = t;
                }
                t += 1;
            }
            let ghost rem0 = rem@;
            let ghost out0 = out@;
            let p = rem[best];
            out.push(p.0);
            let _ = rem.remove(best);
            proof {
                assert(forall|idx: int| 0 <= idx < best ==> rem@[idx] == rem0[idx]);
                assert(forall|idx: int|
                    best <= idx < rem@.len() ==> rem@[idx] == rem0[idx + 1]);
                assert forall|x: T::V| #[trigger] self@.count(x) > 0 implies (some_item_has(
                    out@,
                    x,
                ) || some_entry_has(rem@, x)) by {
                    if some_item_has(out0, x) {
                        let i = choose|i: int| 0 <= i < out0.len() && out0[i]@ == x;
                        assert(out@[i]@ == x);
                    } else {
                        let k = choose|k: int| 0 <= k < rem0.len() && rem0[k].0@ == x;
                        if k == best {
                            assert(out@[out@.len() - 1]@ == x);
                        } else if k < best {
                            assert(rem@[k].0@ == x);
                        } else {
                            assert(rem@[k - 1].0@ == x);
                        }
                    }
                }
                assert forall|x: T::V| (some_item_has(out@, x) || some_entry_has(rem@, x))
                    implies #[trigger] self@.count(x) > 0 by {
                    if some_item_has(out@, x) {
                        let i = choose|i: int| 0 <= i < out@.len() && out@[i]@ == x;
                        if i < out0.len() {
                            assert(out0[i]@ == x);
                        } else {
                            assert(rem0[best as int].0@ == x);
                        }
                    } else {
                        let k = choose|k: int| 0 <= k < rem@.len() && rem@[k].0@ == x;
                        if k < best {
                            assert(rem0[k].0@ == x);
                        } else {
                            assert(rem0[k + 1].0@ == x);
                        }
                    }
                }
            }
        }
        out
    }
}

proof fn lemma_total_take_step<T>(s: Seq<(T, usize)>, j: int)
    requires
        0 <= j < s.len(),
    ensures
        total_of(s.take(j + 1)) == total_of(s.take(j)) + s[j].1,
{
    assert(s.take(j + 1).drop_last() =~= s.take(j));
    assert(s.take(j + 1).last() == s[j]);
}

proof fn lemma_total_prefix_le<T>(s: Seq<(T, usize)>, j: int)
    requires
        0 <= j <= s.len(),
    ensures
        total_of(s.take(j)) <= total_of(s),
    decreases s.len() - j,
{
    if j == s.len() {
        assert(s.take(j) =~= s);
    } else {
        lemma_total_take_step(s, j);
        lemma_total_prefix_le(s, j + 1);
    }
}

} // verus!

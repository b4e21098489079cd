//! A counter keyed by strings: for each key it remembers how many times the
//! key was inserted. The heading registry uses it to give repeated heading
//! texts distinct numeric suffixes.

use vstd::prelude::*;
use vstd::pervasive::VecAdditionalExecFns;

use crate::text::clone_string;

verus! {

/// How many times key `k` occurs in the association sequence `s`.
/// Keys are unique (see [`uniq_keys`]), so the count is the stored counter of
/// the one entry with key `k`, or zero when no entry has that key.
pub open spec fn mcount(s: Seq<(String, usize)>, k: Seq<char>) -> nat {
    if exists|i: int| 0 <= i < s.len() && s[i].0@ == k {
        let i = choose|i: int| 0 <= i < s.len() && s[i].0@ == k;
        s[i].1 as nat
    } else {
        0
    }
}

/// No two entries of `s` carry the same key.
pub open spec fn uniq_keys(s: Seq<(String, usize)>) -> bool {
    forall|i: int, j: int| 0 <= i < j < s.len() ==> s[i].0@ != s[j].0@
}

/// With unique keys, the count of `k` is the counter stored at any index
/// whose key is `k`.
pub proof fn lemma_mcount_at(s: Seq<(String, usize)>, k: Seq<char>, i: int)
    requires
        uniq_keys(s),
        0 <= i < s.len(),
        s[i].0@ == k,
    ensures
        mcount(s, k) == s[i].1 as nat,
{
    let j = choose|j: int| 0 <= j < s.len() && s[j].0@ == k;
    if j != i {
        if i < j {
            assert(s[i].0@ != s[j].0@);
        } else {
            assert(s[j].0@ != s[i].0@);
        }
        assert(false);
    }
}

/// A multiset of strings, stored as an association vector from each distinct
/// string to its multiplicity.
pub struct MultiSet {
    entries: Vec<(String, usize)>,
}

impl MultiSet {
    /// The entries are well formed: no key occurs twice.
    pub closed spec fn wf(&self) -> bool {
        uniq_keys(self.entries@)
    }

    /// How many times `k` has been inserted.
    pub closed spec fn count(&self, k: Seq<char>) -> nat {
        mcount(self.entries@, k)
    }

    /// An empty multiset: every count is zero.
    pub fn new() -> (r: MultiSet)
        ensures
            r.wf(),
            forall|k: Seq<char>| r.count(k) == 0,
    {
        MultiSet { entries: Vec::new() }
    }

    /// Inserts one occurrence of `item` and returns how many occurrences were
    /// present before. The stored counter saturates at `usize::MAX`.
    pub fn insert(&mut self, item: String) -> (count: usize)
        requires
            old(self).wf(),
        ensures
            final(self).wf(),
            count == old(self).count(item@),
            count < usize::MAX ==> final(self).count(item@) == count + 1,
            count == usize::MAX ==> final(self).count(item@) == count,
            forall|k: Seq<char>| k != item@ ==> final(self).count(k) == old(self).count(k),
    {
        let ghost s0 = self.entries@;
        let n = self.entries.len();
        let mut i: usize = 0;
        while i < n
            invariant
                n == self.entries@.len(),
                0 <= i <= n,
                self.entries@ == s0,
                s0 == old(self).entries@,
                uniq_keys(s0),
                forall|j: int| 0 <= j < i ==> s0[j].0@ != item@,
            decreases n - i,
        {
            if self.entries[i].0 == item {
                let c = self.entries[i].1;
                proof {
                    lemma_mcount_at(s0, item@, i as int);
                }
                if c < usize::MAX {
                    let s = clone_string(&self.entries[i].0);
                    self.entries.set(i, (s, c + 1));
                    proof {
                        assert(uniq_keys(self.entries@)) by {
                            assert(forall|p: int, q: int|
                                0 <= p < q < self.entries@.len() ==> self.entries@[p].0@
                                    != self.entries@[q].0@) by {
                                assert(forall|p: int|
                                    0 <= p < self.entries@.len() ==> self.entries@[p].0@ == s0[p].0@);
                            }
                        }
                        lemma_mcount_at(self.entries@, item@, i as int);
                        assert forall|k: Seq<char>| k != item@ implies mcount(self.entries@, k)
                            == mcount(s0, k) by {
                            lemma_mcount_other(s0, self.entries@, k);
                        }
                    }
                }
                return c;
            }
            i += 1;
        }
        self.entries.push((item, 1));
        proof {
            assert(mcount(s0, item@) == 0);
            assert(self.entries@ == s0.push((item, 1)));
            assert(self.entries@[n as int].0@ == item@);
            lemma_mcount_at(self.entries@, item@, n as int);
            assert forall|k: Seq<char>| k != item@ implies mcount(self.entries@, k) == mcount(
                s0,
                k,
            ) by {
                lemma_mcount_other(s0, self.entries@, k);
            }
        }
        0
    }
}

/// Two well-formed association sequences that agree on which indices hold a
/// given key, entry for entry, give that key the same count.
proof fn lemma_mcount_other(s0: Seq<(String, usize)>, s1: Seq<(String, usize)>, k: Seq<char>)
    requires
        uniq_keys(s0),
        uniq_keys(s1),
        forall|i: int| 0 <= i < s0.len() && s0[i].0@ == k ==> 0 <= i < s1.len() && s1[i] == s0[i],
        forall|i: int| 0 <= i < s1.len() && s1[i].0@ == k ==> 0 <= i < s0.len() && s0[i] == s1[i],
    ensures
        mcount(s0, k) == mcount(s1, k),
{
    if exists|i: int| 0 <= i < s0.len() && s0[i].0@ == k {
        let i = choose|i: int| 0 <= i < s0.len() && s0[i].0@ == k;
        assert(s1[i].0@ == k);
        lemma_mcount_at(s0, k, i);
        lemma_mcount_at(s1, k, i);
    } else {
        if exists|i: int| 0 <= i < s1.len() && s1[i].0@ == k {
            let i = choose|i: int| 0 <= i < s1.len() && s1[i].0@ == k;
            assert(s0[i].0@ == k);
            assert(false);
        }
    }
}

} // verus!

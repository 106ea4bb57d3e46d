//! A set of numbers that were seen, in the order in which they were.

use std::collections::HashSet;

use vstd::prelude::*;

verus! {

broadcast use vstd::std_specs::hash::group_hash_axioms;

/// The numbers seen so far.
pub struct Visited {
    set: HashSet<u32>,
    order: Ghost<Seq<u32>>,
}

impl View for Visited {
    type V = Seq<u32>;

    closed spec fn view(&self) -> Seq<u32> {
        self.order@
    }
}

impl Visited {
    #[verifier::type_invariant]
    spec fn inv(self) -> bool {
        forall|n: u32| #[trigger] self.set@.contains(n) <==> self.order@.contains(n)
    }

    /// Nothing seen.
    pub fn new() -> (r: Visited)
        ensures
            r@ == Seq::<u32>::empty(),
    {
        Visited { set: HashSet::new(), order: Ghost(Seq::empty()) }
    }

    /// Was the number seen?
    pub fn contains(&self, n: u32) -> (r: bool)
        ensures
            r == self@.contains(n),
    {
        proof {
            use_type_invariant(self);
        }
        self.set.contains(&n)
    }

    /// See a number. Gives back whether it is a new one.
    pub fn insert(self, n: u32) -> (r: (Visited, bool))
        ensures
            r.1 == !self@.contains(n),
            r.0@ == if r.1 {
                self@.push(n)
            } else {
                self@
            },
    {
        proof {
            use_type_invariant(&self);
        }
        let mut set = self.set;
        let ghost before = self.order@;
        let fresh = set.insert(n);
        if fresh {
            proof {
                assert forall|m: u32| #[trigger]
                    set@.contains(m) <==> before.push(n).contains(m) by {
                    if before.contains(m) {
                        let k = before.index_of(m);
                        assert(before.push(n)[k] == m);
                    }
                    if m == n {
                        assert(before.push(n)[before.len() as int] == n);
                    }
                    if before.push(n).contains(m) && m != n {
                        let k = before.push(n).index_of(m);
                        assert(before[k] == m);
                    }
                }
            }
            (Visited { set, order: Ghost(before.push(n)) }, true)
        } else {
            assert(set@ =~= self.set@);
            (Visited { set, order: Ghost(before) }, false)
        }
    }
}

/// Numbers that are all different and lie in `lo..=hi` are at most as many as the
/// range holds.
pub proof fn lemma_distinct_in_range(s: Seq<u32>, lo: int, hi: int)
    requires
        s.no_duplicates(),
        forall|i: int| 0 <= i < s.len() ==> lo <= #[trigger] s[i] <= hi,
        lo <= hi + 1,
    ensures
        s.len() <= hi + 1 - lo,
    decreases hi + 1 - lo,
{
    if lo == hi + 1 {
        if s.len() > 0 {
            assert(lo <= s[0] <= hi);
        }
    } else {
        if s.contains(hi as u32) && 0 <= hi <= u32::MAX {
            let k = s.index_of(hi as u32);
            let t = s.remove(k);
            assert forall|i: int| 0 <= i < t.len() implies lo <= #[trigger] t[i] <= hi - 1 by {
                let j = if i < k {
                    i
                } else {
                    i + 1
                };
                assert(t[i] == s[j]);
                assert(s[j] != s[k]);
            }
            assert(t.no_duplicates()) by {
                assert forall|i: int, j: int| 0 <= i < t.len() && 0 <= j < t.len() && i
                    != j implies t[i] != t[j] by {
                    let a = if i < k {
                        i
                    } else {
                        i + 1
                    };
                    let b = if j < k {
                        j
                    } else {
                        j + 1
                    };
                    assert(t[i] == s[a] && t[j] == s[b]);
                }
            }
            lemma_distinct_in_range(t, lo, hi - 1);
        } else {
            assert forall|i: int| 0 <= i < s.len() implies lo <= #[trigger] s[i] <= hi - 1 by {
                assert(s.contains(s[i]));
            }
            lemma_distinct_in_range(s, lo, hi - 1);
        }
    }
}

/// A new number keeps the list free of duplicates.
pub proof fn lemma_push_distinct(s: Seq<u32>, n: u32)
    requires
        s.no_duplicates(),
        !s.contains(n),
    ensures
        s.push(n).no_duplicates(),
{
    assert forall|i: int, j: int| 0 <= i < s.push(n).len() && 0 <= j < s.push(n).len() && i
        != j implies s.push(n)[i] != s.push(n)[j] by {
        if i < s.len() {
            assert(s.contains(s[i]));
        }
        if j < s.len() {
            assert(s.contains(s[j]));
        }
    }
}

} // verus!

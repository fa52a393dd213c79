//! The to-copy set: a deduplicated collection of library paths kept in
//! lexicographic order, so that enumeration is deterministic.

use vstd::prelude::*;
use crate::order::lex_le;
use crate::order::lex_lt;
use crate::order::lemma_lex_le_reflexive;
use crate::order::lemma_lex_le_total;
use crate::order::lemma_lex_lt_transitive;
use crate::order::str_le;

verus! {

/// The views of the held strings, in order.
pub open spec fn views_of(v: Seq<String>) -> Seq<Seq<char>> {
    v.map_values(|s: String| s@)
}

/// Strictly increasing in lexicographic order: sorted, with no room for a
/// path to appear twice.
pub open spec fn sorted_strict(v: Seq<Seq<char>>) -> bool {
    forall|i: int, j: int| 0 <= i < j < v.len() ==> lex_lt(v[i], v[j])
}

/// A strictly sorted sequence holds each path at most once.
pub proof fn lemma_sorted_strict_no_duplicates(v: Seq<Seq<char>>)
    requires
        sorted_strict(v),
    ensures
        forall|i: int, j: int| 0 <= i < v.len() && 0 <= j < v.len() && i != j ==> v[i] != v[j],
{
    assert forall|i: int, j: int|
        0 <= i < v.len() && 0 <= j < v.len() && i != j implies v[i] != v[j] by {
        if i < j {
            assert(lex_lt(v[i], v[j]));
        } else {
            assert(lex_lt(v[j], v[i]));
        }
    }
}

/// The deduplicated, lexicographically ordered set of library paths that
/// survived exclusion filtering and are scheduled for copying.
pub struct ToCopySet {
    items: Vec<String>,
}

impl View for ToCopySet {
    type V = Seq<Seq<char>>;

    closed spec fn view(&self) -> Seq<Seq<char>> {
        views_of(self.items@)
    }
}

impl ToCopySet {
    /// The set's single well-formedness condition: its paths are strictly
    /// sorted.
    pub open spec fn wf(&self) -> bool {
        sorted_strict(self@)
    }

    /// An empty set.
    pub fn new() -> (r: ToCopySet)
        ensures
            r@ =~= Seq::<Seq<char>>::empty(),
            r.wf(),
    {
        ToCopySet { items: Vec::new() }
    }

    /// How many paths the set holds.
    pub fn len(&self) -> (n: usize)
        ensures
            n == self@.len(),
    {
        self.items.len()
    }

    /// The path at position `i` in lexicographic order.
    pub fn get(&self, i: usize) -> (r: &String)
        requires
            i < self@.len(),
        ensures
            r@ == self@[i as int],
    {
        &self.items[i]
    }

    /// Inserts a path, keeping the set sorted; a path already present is not
    /// added again.
    pub fn insert(&mut self, path: String)
        requires
            old(self).wf(),
        ensures
            final(self).wf(),
            forall|s: Seq<char>|
                final(self)@.contains(s) <==> old(self)@.contains(s) || s == path@,
    {
        let ghost v0 = self@;
        let mut i: usize = 0;
        while i < self.items.len() && !str_le(path.as_str(), self.items[i].as_str())
            invariant
                i <= self.items.len(),
                *self == *old(self),
                forall|j: int| 0 <= j < i ==> lex_lt(self@[j], path@),
            decreases self.items.len() - i,
        {
            proof {
                lemma_lex_le_total(path@, self@[i as int]);
                lemma_lex_le_reflexive(path@);
            }
            i = i + 1;
        }
        if i < self.items.len() && self.items[i].eq(&path) {
            proof {
                assert(v0.contains(path@)) by {
                    assert(v0[i as int] == path@);
                }
            }
            return ;
        }
        proof {
            if i < self.items.len() {
                assert(lex_le(path@, v0[i as int]) && path@ != v0[i as int]);
            }
        }
        self.items.insert(i, path);
        proof {
            let v1 = self@;
            assert(v1 =~= v0.insert(i as int, path@));
            assert forall|k1: int, k2: int| 0 <= k1 < k2 < v1.len() implies lex_lt(
                v1[k1],
                v1[k2],
            ) by {
                let i = i as int;
                if k2 < i {
                    assert(v1[k1] == v0[k1] && v1[k2] == v0[k2]);
                } else if k1 < i && k2 == i {
                    assert(v1[k1] == v0[k1] && v1[k2] == path@);
                } else if k1 < i && k2 > i {
                    assert(v1[k1] == v0[k1] && v1[k2] == v0[k2 - 1]);
                    if k2 - 1 == k1 {
                        assert(false);
                    }
                } else if k1 == i {
                    assert(v1[k1] == path@ && v1[k2] == v0[k2 - 1]);
                    if k2 - 1 > i {
                        lemma_lex_lt_transitive(path@, v0[i], v0[k2 - 1]);
                    }
                } else {
                    assert(v1[k1] == v0[k1 - 1] && v1[k2] == v0[k2 - 1]);
                }
            }
            assert forall|s: Seq<char>| v1.contains(s) <==> v0.contains(s) || s == path@ by {
                if v1.contains(s) {
                    let k = choose|k: int| 0 <= k < v1.len() && v1[k] == s;
                    if k < i {
                        assert(v0[k] == s);
                    } else if k == i {
                        assert(s == path@);
                    } else {
                        assert(v0[k - 1] == s);
                    }
                }
                if v0.contains(s) {
                    let k = choose|k: int| 0 <= k < v0.len() && v0[k] == s;
                    if k < i {
                        assert(v1[k] == s);
                    } else {
                        assert(v1[k + 1] == s);
                    }
                }
                if s == path@ {
                    assert(v1[i as int] == s);
                }
            }
        }
    }
}

} // verus!

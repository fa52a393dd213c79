//! The pipeline's decisions: validating exclude patterns, filtering resolved
//! library paths into the to-copy set, and planning the copies and the
//! printed report.

use vstd::prelude::*;
use crate::copyset::views_of;
use crate::copyset::ToCopySet;
use crate::globpat::glob_match;
use crate::globpat::glob_matches;
use crate::globpat::glob_pattern_is_ok;
use crate::globpat::glob_pattern_ok;

verus! {

/// Whether `path` matches none of the exclude patterns.
pub open spec fn passes(excludes: Seq<Seq<char>>, path: Seq<char>) -> bool {
    forall|i: int| 0 <= i < excludes.len() ==> !glob_matches(excludes[i], path)
}

/// Exclude patterns whose strings have all been checked to compile.
pub struct Excludes {
    patterns: Vec<String>,
}

impl View for Excludes {
    type V = Seq<Seq<char>>;

    closed spec fn view(&self) -> Seq<Seq<char>> {
        views_of(self.patterns@)
    }
}

impl Excludes {
    /// Every held pattern string compiles.
    #[verifier::type_invariant]
    spec fn wf(&self) -> bool {
        forall|i: int| 0 <= i < self.patterns@.len() ==> glob_pattern_ok(self.patterns@[i]@)
    }

    /// Checks every exclude pattern string up front, failing fast on the
    /// first malformed one with its index.
    pub fn compile(patterns: &Vec<String>) -> (r: Result<Excludes, usize>)
        ensures
            r is Ok <==> (forall|i: int|
                0 <= i < patterns@.len() ==> glob_pattern_ok(patterns@[i]@)),
            r matches Ok(e) ==> e@ == views_of(patterns@),
            r matches Err(i) ==> {
                &&& i < patterns@.len()
                &&& !glob_pattern_ok(patterns@[i as int]@)
                &&& forall|j: int| 0 <= j < i ==> glob_pattern_ok(patterns@[j]@)
            },
    {
        let n = patterns.len();
        let mut i: usize = 0;
        while i < n
            invariant
                i <= n,
                n == patterns@.len(),
                forall|j: int| 0 <= j < i ==> glob_pattern_ok(patterns@[j]@),
            decreases n - i,
        {
            if !glob_pattern_is_ok(patterns[i].as_str()) {
                return Err(i);
            }
            i = i + 1;
        }
        let mut held: Vec<String> = Vec::new();
        let mut k: usize = 0;
        while k < n
            invariant
                k <= n,
                n == patterns@.len(),
                forall|j: int| 0 <= j < patterns@.len() ==> glob_pattern_ok(patterns@[j]@),
                held@ == patterns@.take(k as int),
            decreases n - k,
        {
            held.push(patterns[k].clone());
            proof {
                assert(held@ =~= patterns@.take(k as int + 1));
            }
            k = k + 1;
        }
        proof {
            assert(patterns@.take(n as int) =~= patterns@);
        }
        Ok(Excludes { patterns: held })
    }
}

/// Decides whether a resolved library path is kept: it is, exactly when it
/// matches none of the exclude patterns.
pub fn check(excludes: &Excludes, path: &str) -> (r: bool)
    ensures
        r == passes(excludes@, path@),
{
    proof {
        use_type_invariant(excludes);
    }
    let n = excludes.patterns.len();
    let mut i: usize = 0;
    while i < n
        invariant
            i <= n,
            n == excludes.patterns@.len(),
            excludes.wf(),
            forall|j: int| 0 <= j < i ==> !glob_matches(excludes@[j], path@),
        decreases n - i,
    {
        if glob_match(excludes.patterns[i].as_str(), path) {
            proof {
                assert(glob_matches(excludes@[i as int], path@));
            }
            return false;
        }
        i = i + 1;
    }
    true
}

/// Whether `s` is the view of one of the first `k` strings of `libs`.
spec fn among_first(libs: Seq<String>, k: int, s: Seq<char>) -> bool {
    exists|j: int| 0 <= j < k && #[trigger] libs[j]@ == s
}

/// What the set holds after filtering the first `k` resolved libraries into
/// a set that held `base`.
spec fn holds_after(
    base: Seq<Seq<char>>,
    libs: Seq<String>,
    excludes: Seq<Seq<char>>,
    k: int,
    s: Seq<char>,
) -> bool {
    base.contains(s) || (among_first(libs, k, s) && passes(excludes, s))
}

/// One more library either adds its own path (when it passes) or nothing.
proof fn lemma_among_first_step(libs: Seq<String>, k: int, s: Seq<char>)
    requires
        0 <= k < libs.len(),
    ensures
        among_first(libs, k + 1, s) == (among_first(libs, k, s) || libs[k]@ == s),
{
    if among_first(libs, k + 1, s) {
        let j = choose|j: int| 0 <= j < k + 1 && #[trigger] libs[j]@ == s;
        if j < k {
            assert(among_first(libs, k, s));
        } else {
            assert(libs[k]@ == s);
        }
    }
    if among_first(libs, k, s) {
        let j = choose|j: int| 0 <= j < k && #[trigger] libs[j]@ == s;
        assert(0 <= j < k + 1 && libs[j]@ == s);
    }
    if libs[k]@ == s {
        assert(0 <= k < k + 1 && libs[k]@ == s);
    }
}

/// Runs every resolved library path through exclusion filtering and inserts
/// the survivors: afterwards the set holds exactly the paths it already held
/// and the new ones that pass.
pub fn add_libraries(set: &mut ToCopySet, excludes: &Excludes, libs: &Vec<String>)
    requires
        old(set).wf(),
    ensures
        final(set).wf(),
        forall|s: Seq<char>|
            #[trigger] final(set)@.contains(s) <==> old(set)@.contains(s) || (views_of(
                libs@,
            ).contains(s) && passes(excludes@, s)),
{
    let n = libs.len();
    let mut k: usize = 0;
    while k < n
        invariant
            k <= n,
            n == libs@.len(),
            set.wf(),
            forall|s: Seq<char>| #[trigger] set@.contains(s) == holds_after(
                old(set)@,
                libs@,
                excludes@,
                k as int,
                s,
            ),
        decreases n - k,
    {
        let ghost vk = set@;
        let kept = check(excludes, libs[k].as_str());
        if kept {
            set.insert(libs[k].clone());
        }
        proof {
            let ghost lk = libs@[k as int]@;
            assert forall|s: Seq<char>| #[trigger] set@.contains(s) == holds_after(
                old(set)@,
                libs@,
                excludes@,
                k as int + 1,
                s,
            ) by {
                assert(vk.contains(s) == holds_after(old(set)@, libs@, excludes@, k as int, s));
                lemma_among_first_step(libs@, k as int, s);
                if !kept {
                    assert(set@ == vk);
                    assert(!passes(excludes@, lk));
                } else {
                    assert(set@.contains(s) <==> vk.contains(s) || s == lk);
                }
            }
        }
        k = k + 1;
    }
    proof {
        assert forall|s: Seq<char>|
            #[trigger] set@.contains(s) <==> old(set)@.contains(s) || (views_of(libs@).contains(
                s,
            ) && passes(excludes@, s)) by {
            assert(set@.contains(s) == holds_after(old(set)@, libs@, excludes@, n as int, s));
            if views_of(libs@).contains(s) {
                let j = choose|j: int| 0 <= j < views_of(libs@).len() && views_of(libs@)[j] == s;
                assert(0 <= j < n && libs@[j]@ == s);
                assert(among_first(libs@, n as int, s));
            }
            if among_first(libs@, n as int, s) {
                let j = choose|j: int| 0 <= j < n && #[trigger] libs@[j]@ == s;
                assert(views_of(libs@)[j] == s);
                assert(views_of(libs@).contains(s));
            }
        }
    }
}

} // verus!

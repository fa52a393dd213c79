//! Properties of the pipeline, stated once and proved for all inputs.

use vstd::prelude::*;
use crate::copyset::sorted_strict;
use crate::globpat::glob_matches;
use crate::order::lex_lt;
use crate::pathname::has_base_name;
use crate::pipeline::passes;
use crate::report::copies_of;
use crate::report::header_of;
use crate::report::plan_of;
use crate::report::stdout_of;

verus! {

/// With nothing collected, the report is the header line alone, and no copy
/// is planned in either mode.
pub proof fn lemma_empty_set_header_only(out: Seq<char>, dry_run: bool)
    ensures
        stdout_of(Seq::empty(), out) =~= seq![header_of()],
        copies_of(Seq::empty(), out, dry_run) =~= Seq::<(Seq<char>, Seq<char>)>::empty(),
{
    assert(plan_of(Seq::empty(), out) =~= Seq::<(Seq<char>, Seq<char>)>::empty());
}

/// Exclusion invariant: in a set that was filled only by exclusion
/// filtering, a path that matches any one of the exclude patterns is
/// absent, whatever the resolved libraries were.
pub proof fn lemma_excluded_path_absent(
    collected: Seq<Seq<char>>,
    resolved: Seq<Seq<char>>,
    excludes: Seq<Seq<char>>,
    path: Seq<char>,
    i: int,
)
    requires
        forall|s: Seq<char>| #[trigger] collected.contains(s) ==> resolved.contains(s) && passes(
            excludes,
            s,
        ),
        0 <= i < excludes.len(),
        glob_matches(excludes[i], path),
    ensures
        !collected.contains(path),
{
    if collected.contains(path) {
        assert(passes(excludes, path));
        assert(!glob_matches(excludes[i], path));
    }
}

/// A dry run differs from a real run only in the copies it performs: the
/// planned copy list is empty exactly in the dry run, while the report —
/// `stdout_of` — is a function of the collected set and the output
/// directory alone, with no mode in sight.
pub proof fn lemma_dry_run_same_report(v: Seq<Seq<char>>, out: Seq<char>)
    ensures
        copies_of(v, out, true) =~= Seq::<(Seq<char>, Seq<char>)>::empty(),
        copies_of(v, out, false) == plan_of(v, out),
{
}

/// Every planned source is one of the collected paths.
proof fn lemma_plan_source_collected(v: Seq<Seq<char>>, out: Seq<char>, k: int)
    requires
        0 <= k < plan_of(v, out).len(),
    ensures
        exists|j: int| 0 <= j < v.len() && #[trigger] v[j] == plan_of(v, out)[k].0,
    decreases v.len(),
{
    let p = plan_of(v, out);
    let t = v.drop_last();
    let pt = plan_of(t, out);
    if k < pt.len() {
        lemma_plan_source_collected(t, out, k);
        let j = choose|j: int| 0 <= j < t.len() && #[trigger] t[j] == pt[k].0;
        assert(v[j] == pt[k].0);
        assert(p[k] == pt[k]);
    } else {
        assert(has_base_name(v.last()));
        assert(p[k].0 == v.last());
        assert(v[v.len() - 1] == p[k].0);
    }
}

/// The planned sources keep the collected set's strict order.
proof fn lemma_plan_sources_sorted(v: Seq<Seq<char>>, out: Seq<char>)
    requires
        sorted_strict(v),
    ensures
        forall|k1: int, k2: int|
            0 <= k1 < k2 < plan_of(v, out).len() ==> lex_lt(
                #[trigger] plan_of(v, out)[k1].0,
                #[trigger] plan_of(v, out)[k2].0,
            ),
    decreases v.len(),
{
    let p = plan_of(v, out);
    if v.len() > 0 {
        let t = v.drop_last();
        let pt = plan_of(t, out);
        assert(sorted_strict(t)) by {
            assert forall|i: int, j: int| 0 <= i < j < t.len() implies lex_lt(t[i], t[j]) by {
                assert(t[i] == v[i] && t[j] == v[j]);
            }
        }
        lemma_plan_sources_sorted(t, out);
        assert forall|k1: int, k2: int| 0 <= k1 < k2 < p.len() implies lex_lt(
            p[k1].0,
            p[k2].0,
        ) by {
            if k2 < pt.len() {
                assert(p[k1] == pt[k1] && p[k2] == pt[k2]);
            } else {
                assert(p[k2].0 == v.last());
                assert(p[k1] == pt[k1]);
                lemma_plan_source_collected(t, out, k1);
                let j = choose|j: int| 0 <= j < t.len() && #[trigger] t[j] == pt[k1].0;
                assert(lex_lt(v[j], v[v.len() - 1]));
            }
        }
    }
}

/// Last writer wins deterministically: when two planned copies share a
/// destination, the later one in the plan has the lexicographically larger
/// source, so performing the copies in plan order leaves the
/// lexicographically last source's contents at the shared destination.
pub proof fn lemma_shared_destination_order(v: Seq<Seq<char>>, out: Seq<char>, i: int, j: int)
    requires
        sorted_strict(v),
        0 <= i < j < plan_of(v, out).len(),
        plan_of(v, out)[i].1 == plan_of(v, out)[j].1,
    ensures
        lex_lt(plan_of(v, out)[i].0, plan_of(v, out)[j].0),
{
    lemma_plan_sources_sorted(v, out);
}

} // verus!

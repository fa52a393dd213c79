//! The copy plan and the printed report.
//!
//! Each surviving path is paired with its destination: the output directory
//! joined with the path's base name. The report holds one header line and
//! one line per planned copy, and is the same whether or not the copies are
//! then performed.

use vstd::prelude::*;
use crate::copyset::views_of;
use crate::copyset::ToCopySet;
use crate::pathname::base_name;
use crate::pathname::base_name_of;
use crate::pathname::has_base_name;
use crate::pathname::join_of;
use crate::pathname::join_path;

verus! {

/// The views of a list of (source, destination) pairs.
pub open spec fn pair_views_of(v: Seq<(String, String)>) -> Seq<(Seq<char>, Seq<char>)> {
    v.map_values(|p: (String, String)| (p.0@, p.1@))
}

/// The planned copies for the paths of `v`, in order: each path that has a
/// base name, paired with its destination under `out`.
pub open spec fn plan_of(v: Seq<Seq<char>>, out: Seq<char>) -> Seq<(Seq<char>, Seq<char>)>
    decreases v.len(),
{
    if v.len() == 0 {
        Seq::empty()
    } else {
        let rest = plan_of(v.drop_last(), out);
        if has_base_name(v.last()) {
            rest.push((v.last(), join_of(out, base_name_of(v.last()))))
        } else {
            rest
        }
    }
}

/// Derives the copy plan from the collected set, in its lexicographic
/// order; a path without a base name is skipped.
pub fn plan_copies(set: &ToCopySet, output_dir: &str) -> (r: Vec<(String, String)>)
    ensures
        pair_views_of(r@) == plan_of(set@, output_dir@),
{
    let n = set.len();
    let mut r: Vec<(String, String)> = Vec::new();
    proof {
        assert(set@.take(0) =~= Seq::<Seq<char>>::empty());
        assert(pair_views_of(r@) =~= plan_of(set@.take(0), output_dir@));
    }
    let mut k: usize = 0;
    while k < n
        invariant
            k <= n,
            n == set@.len(),
            pair_views_of(r@) == plan_of(set@.take(k as int), output_dir@),
        decreases n - k,
    {
        let ghost r0 = r@;
        let src = set.get(k);
        match base_name(src.as_str()) {
            Some(name) => {
                let dst = join_path(output_dir, name.as_str());
                r.push((src.clone(), dst));
            },
            None => {},
        }
        proof {
            assert(set@.take(k as int + 1).drop_last() =~= set@.take(k as int));
            assert(set@.take(k as int + 1).last() == set@[k as int]);
            if has_base_name(set@[k as int]) {
                assert(pair_views_of(r@) =~= pair_views_of(r0).push(
                    (set@[k as int], join_of(output_dir@, base_name_of(set@[k as int]))),
                ));
            }
            assert(pair_views_of(r@) =~= plan_of(set@.take(k as int + 1), output_dir@));
        }
        k = k + 1;
    }
    proof {
        assert(set@.take(n as int) =~= set@);
    }
    r
}

/// The header that opens the report.
pub open spec fn header_of() -> Seq<char> {
    "Copying files:"@
}

/// The printed line for one planned copy: the quoted source path, then the
/// quoted destination path.
pub open spec fn line_of(src: Seq<char>, dst: Seq<char>) -> Seq<char> {
    "  \""@ + src + "\" to \""@ + dst + "\""@
}

/// Every line of the report for the collected paths `v`: the header, then
/// one line per planned copy, in plan order.
pub open spec fn stdout_of(v: Seq<Seq<char>>, out: Seq<char>) -> Seq<Seq<char>> {
    seq![header_of()] + plan_of(v, out).map_values(
        |p: (Seq<char>, Seq<char>)| line_of(p.0, p.1),
    )
}

/// The copies a run performs: none in a dry run, the whole plan otherwise.
pub open spec fn copies_of(v: Seq<Seq<char>>, out: Seq<char>, dry_run: bool) -> Seq<
    (Seq<char>, Seq<char>),
> {
    if dry_run {
        Seq::empty()
    } else {
        plan_of(v, out)
    }
}

/// Renders the header line.
pub fn header_line() -> (r: String)
    ensures
        r@ == header_of(),
{
    "Copying files:".to_owned()
}

/// Renders the report line for one planned copy.
pub fn render_line(src: &str, dst: &str) -> (r: String)
    ensures
        r@ == line_of(src@, dst@),
{
    let mut r = "  \"".to_owned();
    r.append(src);
    r.append("\" to \"");
    r.append(dst);
    r.append("\"");
    proof {
        assert(r@ =~= line_of(src@, dst@));
    }
    r
}

/// What one run prints and copies.
pub struct RunPlan {
    /// The report, line by line: the header, then one line per planned copy.
    pub lines: Vec<String>,
    /// The copies to perform, parallel to the report lines: empty in a dry
    /// run.
    pub copies: Vec<(String, String)>,
}

/// Plans one run over the collected set: the report is the same in both
/// modes, and the copy list is empty exactly in a dry run.
pub fn plan_run(set: &ToCopySet, output_dir: &str, dry_run: bool) -> (r: RunPlan)
    ensures
        views_of(r.lines@) == stdout_of(set@, output_dir@),
        pair_views_of(r.copies@) == copies_of(set@, output_dir@, dry_run),
{
    let plan = plan_copies(set, output_dir);
    let ghost pv = pair_views_of(plan@);
    let mut lines: Vec<String> = Vec::new();
    lines.push(header_line());
    proof {
        assert(views_of(lines@) =~= seq![header_of()] + pv.take(0).map_values(
            |p: (Seq<char>, Seq<char>)| line_of(p.0, p.1),
        ));
    }
    let mut k: usize = 0;
    while k < plan.len()
        invariant
            k <= plan@.len(),
            pair_views_of(plan@) == pv,
            views_of(lines@) == seq![header_of()] + pv.take(k as int).map_values(
                |p: (Seq<char>, Seq<char>)| line_of(p.0, p.1),
            ),
        decreases plan@.len() - k,
    {
        let ghost l0 = lines@;
        lines.push(render_line(plan[k].0.as_str(), plan[k].1.as_str()));
        proof {
            assert(pv.take(k as int + 1) =~= pv.take(k as int).push(pv[k as int]));
            assert(pv.take(k as int + 1).map_values(|p: (Seq<char>, Seq<char>)| line_of(p.0, p.1))
                =~= pv.take(k as int).map_values(|p: (Seq<char>, Seq<char>)| line_of(p.0, p.1)).push(
                line_of(pv[k as int].0, pv[k as int].1),
            ));
            let ln = line_of(pv[k as int].0, pv[k as int].1);
            assert(views_of(lines@) =~= views_of(l0).push(ln));
            assert(views_of(l0).push(ln) =~= seq![header_of()] + pv.take(k as int).map_values(
                |p: (Seq<char>, Seq<char>)| line_of(p.0, p.1),
            ).push(ln));
            assert(views_of(lines@) =~= seq![header_of()] + pv.take(k as int + 1).map_values(
                |p: (Seq<char>, Seq<char>)| line_of(p.0, p.1),
            ));
        }
        k = k + 1;
    }
    proof {
        assert(pv.take(plan@.len() as int) =~= pv);
    }
    if dry_run {
        let copies: Vec<(String, String)> = Vec::new();
        proof {
            assert(pair_views_of(copies@) =~= copies_of(set@, output_dir@, true));
        }
        RunPlan { lines, copies }
    } else {
        RunPlan { lines, copies: plan }
    }
}

} // verus!

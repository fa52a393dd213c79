//! Base names and destination paths.
//!
//! A copied library keeps only its base name: the destination is the output
//! directory joined with the suffix of the source path after its last `/`.

use vstd::prelude::*;

verus! {

/// The suffix of `s` after its last `/`; the whole of `s` when it holds none.
pub open spec fn base_name_of(s: Seq<char>) -> Seq<char>
    decreases s.len(),
{
    if s.len() == 0 {
        s
    } else if s.last() == '/' {
        Seq::empty()
    } else {
        base_name_of(s.drop_last()).push(s.last())
    }
}

/// Whether `s` ends in a usable base name: one that is not empty and names a
/// file rather than the current or the parent directory.
pub open spec fn has_base_name(s: Seq<char>) -> bool {
    base_name_of(s).len() > 0 && base_name_of(s) != seq!['.'] && base_name_of(s) != seq![
        '.',
        '.',
    ]
}

/// `dir` and `name` joined with a single `/` between them.
pub open spec fn join_of(dir: Seq<char>, name: Seq<char>) -> Seq<char> {
    if dir.len() == 0 {
        name
    } else if dir.last() == '/' {
        dir + name
    } else {
        dir + seq!['/'] + name
    }
}

/// A suffix holding no `/` and preceded by one (or by nothing) is the base name.
proof fn lemma_base_name_suffix(s: Seq<char>, i: int)
    requires
        0 <= i <= s.len(),
        forall|j: int| i <= j < s.len() ==> s[j] != '/',
        i > 0 ==> s[i - 1] == '/',
    ensures
        base_name_of(s) == s.subrange(i, s.len() as int),
    decreases s.len(),
{
    if i == s.len() {
        assert(base_name_of(s) =~= s.subrange(i, s.len() as int));
    } else {
        let t = s.drop_last();
        assert(s.last() != '/');
        lemma_base_name_suffix(t, i);
        assert(t.subrange(i, t.len() as int).push(s.last()) =~= s.subrange(i, s.len() as int));
    }
}

/// The base name of `path`, or `None` when it has none.
pub fn base_name(path: &str) -> (r: Option<String>)
    ensures
        r is Some <==> has_base_name(path@),
        r is Some ==> r->Some_0@ == base_name_of(path@),
{
    let n: usize = path.unicode_len();
    let mut i: usize = n;
    while i > 0 && path.get_char(i - 1) != '/'
        invariant
            i <= n,
            n == path@.len(),
            forall|j: int| i <= j < n ==> path@[j] != '/',
        decreases i,
    {
        i = i - 1;
    }
    proof {
        lemma_base_name_suffix(path@, i as int);
    }
    let base = path.substring_char(i, n);
    let bl = base.unicode_len();
    if bl == 0 {
        return None;
    }
    if bl == 1 && base.get_char(0) == '.' {
        proof {
            assert(base@ =~= seq!['.']);
        }
        return None;
    }
    if bl == 2 && base.get_char(0) == '.' && base.get_char(1) == '.' {
        proof {
            assert(base@ =~= seq!['.', '.']);
        }
        return None;
    }
    proof {
        assert(base@ != seq!['.'] && base@ != seq!['.', '.']) by {
            if base@ == seq!['.'] {
                assert(base@.len() == 1 && base@[0] == '.');
            }
            if base@ == seq!['.', '.'] {
                assert(base@.len() == 2 && base@[0] == '.' && base@[1] == '.');
            }
        }
    }
    Some(base.to_owned())
}

/// Joins the output directory and a base name into a destination path.
pub fn join_path(dir: &str, name: &str) -> (r: String)
    ensures
        r@ == join_of(dir@, name@),
{
    let n: usize = dir.unicode_len();
    if n == 0 {
        return name.to_owned();
    }
    let mut r = dir.to_owned();
    if dir.get_char(n - 1) != '/' {
        r.append("/");
        proof {
            reveal_strlit("/");
            assert(r@ =~= dir@ + seq!['/']);
        }
    }
    r.append(name);
    proof {
        assert(r@ =~= join_of(dir@, name@));
    }
    r
}

} // verus!

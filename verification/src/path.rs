//! Paths as texts with `/` between their parts.

use vstd::prelude::*;

use crate::text::chars_of;

verus! {

/// The path of `rel` in `base`: an absolute `rel` stands for itself, else one
/// separator stands between the two.
pub open spec fn joined_path(base: Seq<char>, rel: Seq<char>) -> Seq<char> {
    if rel.len() > 0 && rel[0] == '/' {
        rel
    } else if base.len() == 0 {
        rel
    } else if base.last() == '/' {
        base + rel
    } else {
        base + seq!['/'] + rel
    }
}

/// The path of `rel` in `base`.
pub fn join_path(base: &str, rel: &str) -> (r: String)
    ensures
        r@ == joined_path(base@, rel@),
{
    let b = chars_of(base);
    let c = chars_of(rel);
    if c.len() > 0 && c[0] == '/' {
        return rel.to_owned();
    }
    if b.len() == 0 {
        return rel.to_owned();
    }
    let mut out = base.to_owned();
    if b[b.len() - 1] != '/' {
        out.push('/');
    }
    out.push_str(rel);
    assert(out@ =~= joined_path(base@, rel@));
    out
}

/// A path in a directory is the directory and the path with one separator between them;
/// a path that begins with a separator stands for itself.
pub proof fn joined_path_is_inside(base: Seq<char>, rel: Seq<char>)
    ensures
        rel.len() > 0 && rel[0] == '/' ==> joined_path(base, rel) == rel,
        base.len() == 0 ==> joined_path(base, rel) == rel,
        base.len() > 0 && (rel.len() == 0 || rel[0] != '/') ==> {
            &&& joined_path(base, rel).take(base.len() as int) == base
            &&& joined_path(base, rel).skip(joined_path(base, rel).len() - rel.len()) == rel
            &&& joined_path(base, rel)[joined_path(base, rel).len() - rel.len() - 1] == '/'
            &&& joined_path(base, rel).len() == base.len() + rel.len() + (if base.last() == '/' {
                0int
            } else {
                1int
            })
        },
{
    let p = joined_path(base, rel);
    if base.len() > 0 && (rel.len() == 0 || rel[0] != '/') {
        assert(p.take(base.len() as int) =~= base);
        assert(p.skip(p.len() - rel.len()) =~= rel);
    }
}


} // verus!

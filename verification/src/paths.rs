//! Slash-separated paths held as text, joined the way `Path::join` joins them
//! on Unix.
use vstd::prelude::*;

use crate::text::{append_all, chars_of, string_of};

verus! {

/// `Path::join(base, rel)` on Unix: an absolute `rel` replaces `base`;
/// otherwise a `/` separates them unless `base` is empty or already ends in one.
pub open spec fn join_path_spec(base: Seq<char>, rel: Seq<char>) -> Seq<char> {
    if rel.len() > 0 && rel[0] == '/' {
        rel
    } else if base.len() == 0 {
        rel
    } else if base.last() == '/' {
        base + rel
    } else {
        base + seq!['/'] + rel
    }
}

pub fn join_path(base: &str, rel: &str) -> (r: String)
    ensures
        r@ == join_path_spec(base@, rel@),
{
    let b = chars_of(base);
    let r = chars_of(rel);
    if r.len() > 0 && r[0] == '/' {
        return string_of(&r);
    }
    if b.len() == 0 {
        return string_of(&r);
    }
    let mut out = chars_of(base);
    if b[b.len() - 1] != '/' {
        out.push('/');
    }
    append_all(&mut out, &r);
    string_of(&out)
}

/// The last component of a slash-separated path (`Path::file_name` for a
/// path that does not end in `/`, `.` or `..`).
pub open spec fn last_component(p: Seq<char>) -> Seq<char>
    decreases p.len(),
{
    if p.len() == 0 {
        p
    } else if p.last() == '/' {
        Seq::empty()
    } else {
        last_component(p.drop_last()).push(p.last())
    }
}

} // verus!

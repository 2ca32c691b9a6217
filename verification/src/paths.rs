//! Unix path strings: joining, parents and component-wise comparison.

use vstd::prelude::*;
use std::path::Path;
use crate::chars::{from_chars, push_all, to_chars};

verus! {

/// `rel` joined onto `base` (as `Path::join` on Unix): an absolute `rel`
/// replaces `base`; otherwise a `/` separates them unless `base` is empty
/// or already ends in one.
pub open spec fn joined(base: Seq<char>, rel: Seq<char>) -> Seq<char> {
    if rel.len() > 0 && rel[0] == '/' {
        rel
    } else if base.len() == 0 || base.last() == '/' {
        base + rel
    } else {
        base + seq!['/'] + rel
    }
}

/// `rel` joined onto `base`.
pub fn path_join(base: &str, rel: &str) -> (r: String)
    ensures
        r@ == joined(base@, rel@),
{
    let b = to_chars(base);
    let rc = to_chars(rel);
    if rc.len() > 0 && rc[0] == '/' {
        return from_chars(rc.as_slice());
    }
    let mut out: Vec<char> = Vec::new();
    push_all(&mut out, b.as_slice());
    if !(b.len() == 0 || b[b.len() - 1] == '/') {
        out.push('/');
    }
    push_all(&mut out, rc.as_slice());
    assert(out@ =~= joined(base@, rel@));
    from_chars(out.as_slice())
}

/// `Path::parent` of `p`: `p` without its final component, or `None` when
/// `p` ends in a root or is empty.
pub uninterp spec fn std_parent(p: Seq<char>) -> Option<Seq<char>>;

/// Whether `p` starts with the components of `base` (`Path::starts_with`).
pub uninterp spec fn std_starts_with(p: Seq<char>, base: Seq<char>) -> bool;

/// Whether `a` and `b` have the same components (`Path`'s `==`).
pub uninterp spec fn std_same_path(a: Seq<char>, b: Seq<char>) -> bool;

/// The parent of `p`.
///
/// Trusted: calls `Path::parent`, which the standard library documents as
/// the path without its final component (so strictly shorter), `None` for a
/// root or the empty path; the parent of a `&str` path is itself valid
/// UTF-8, so the conversion back to a string is exact.
#[verifier::external_body]
pub fn path_parent(p: &str) -> (r: Option<String>)
    ensures
        r matches Some(q) ==> std_parent(p@) == Some(q@) && q@.len() < p@.len(),
        r is None ==> std_parent(p@) is None,
{
    Path::new(p).parent().map(|q| q.to_string_lossy().into_owned())
}

/// Whether `p` starts with the components of `base`.
///
/// Trusted: calls `Path::starts_with`, which compares whole components.
#[verifier::external_body]
pub fn path_starts_with(p: &str, base: &str) -> (r: bool)
    ensures
        r == std_starts_with(p@, base@),
{
    Path::new(p).starts_with(base)
}

/// Whether `a` and `b` name the same path component by component.
///
/// Trusted: compares with `PartialEq for Path`, which compares components.
#[verifier::external_body]
pub fn path_eq(a: &str, b: &str) -> (r: bool)
    ensures
        r == std_same_path(a@, b@),
{
    Path::new(a) == Path::new(b)
}

} // verus!

use vstd::prelude::*;

use crate::text::{append_chars, chars_of, string_of};

verus! {

/// `a.join(b)` for Unix paths: an absolute `b` replaces `a`; otherwise `b` is appended,
/// with a `/` in between unless `a` is empty or already ends with one.
pub open spec fn path_join(a: Seq<char>, b: Seq<char>) -> Seq<char> {
    if b.len() > 0 && b[0] == '/' {
        b
    } else if a.len() == 0 || a.last() == '/' {
        a + b
    } else {
        a + seq!['/'] + b
    }
}

/// `a.join(b)`.
pub fn join(a: &str, b: &str) -> (r: String)
    ensures
        r@ == path_join(a@, b@),
{
    let av = chars_of(a);
    let bv = chars_of(b);
    if bv.len() > 0 && bv[0] == '/' {
        return string_of(&bv);
    }
    let mut v = av;
    if v.len() > 0 && v[v.len() - 1] != '/' {
        v.push('/');
    }
    append_chars(&mut v, &bv);
    string_of(&v)
}

/// The final component of the path `p`, as `Path::file_name` gives it (after the
/// component normalisation that its documentation describes).
pub uninterp spec fn file_name_of(p: Seq<char>) -> Option<Seq<char>>;

/// The path `p` without its final component, as `Path::parent` gives it.
pub uninterp spec fn parent_of(p: Seq<char>) -> Option<Seq<char>>;

/// The final component of `p` without its extension, as `Path::file_stem` gives it.
pub uninterp spec fn file_stem_of(p: Seq<char>) -> Option<Seq<char>>;

/// Calls `Path::file_stem` on `p`. The result is named, not stated: it depends only on the
/// text of `p` (the final component, as `file_name` gives it, up to its last `.` unless
/// that dot starts the name); `None` exactly where `file_name` gives `None`.
#[verifier::external_body]
pub(crate) fn file_stem(p: &str) -> (r: Option<String>)
    ensures
        match r {
            Some(s) => file_stem_of(p@) == Some(s@),
            None => file_stem_of(p@) is None,
        },
        r is None <==> file_name_of(p@) is None,
{
    std::path::Path::new(p).file_stem().map(|s| s.to_string_lossy().into_owned())
}

/// Calls `Path::file_name` on `p`. The result is named, not stated: it depends only on the
/// text of `p` (components are separated by `/`, repeated separators and `.` components
/// other than a leading one are ignored, and a path ending in `..` has none).
#[verifier::external_body]
pub(crate) fn file_name(p: &str) -> (r: Option<String>)
    ensures
        match r {
            Some(s) => file_name_of(p@) == Some(s@),
            None => file_name_of(p@) is None,
        },
{
    std::path::Path::new(p).file_name().map(|s| s.to_string_lossy().into_owned())
}

/// Calls `Path::parent` on `p`. The result is named, not stated; it depends only on the
/// text of `p` (it is `None` for a root or an empty path).
#[verifier::external_body]
pub(crate) fn parent(p: &str) -> (r: Option<String>)
    ensures
        match r {
            Some(s) => parent_of(p@) == Some(s@),
            None => parent_of(p@) is None,
        },
{
    std::path::Path::new(p).parent().map(|s| s.to_string_lossy().into_owned())
}

} // verus!

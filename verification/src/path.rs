//! What the library needs to know of paths, which it holds as strings.

use vstd::prelude::*;
use crate::text::{chars_of, slice_chars, string_of};

verus! {

/// std's `Path::file_name`: the final component of a path, unless the path
/// ends in `..` or has no components. A function of the path's text alone.
pub uninterp spec fn path_file_name(path: Seq<char>) -> Option<Seq<char>>;

/// Calls std's `Path::file_name` on `path`; the contract names its result.
/// The name of a path held as a string is valid UTF-8, so the conversion
/// back to a string loses nothing.
#[verifier::external_body]
pub(crate) fn file_name_of(path: &str) -> (r: Option<String>)
    ensures
        r is Some <==> path_file_name(path@) is Some,
        r matches Some(n) ==> path_file_name(path@) == Some(n@),
{
    std::path::Path::new(path).file_name().map(|n| n.to_string_lossy().into_owned())
}

/// The index of the last dot in `s` before index `i`, or -1.
pub open spec fn last_dot(s: Seq<char>, i: int) -> int
    decreases i,
{
    if i <= 0 {
        -1
    } else if s[i - 1] == '.' {
        i - 1
    } else {
        last_dot(s, i - 1)
    }
}

/// std's `Path::extension`: the part of the file name after its last dot;
/// none where the name has no dot, or its only dot leads it, or there is no
/// file name.
pub open spec fn path_extension(path: Seq<char>) -> Option<Seq<char>> {
    match path_file_name(path) {
        None => None,
        Some(f) => {
            let k = last_dot(f, f.len() as int);
            if k <= 0 {
                None
            } else {
                Some(f.skip(k + 1))
            }
        },
    }
}

/// The extension of a path, as `path_extension` states.
pub fn extension_of(path: &str) -> (r: Option<String>)
    ensures
        r is Some <==> path_extension(path@) is Some,
        r matches Some(e) ==> path_extension(path@) == Some(e@),
{
    let name = match file_name_of(path) {
        Some(n) => n,
        None => return None,
    };
    let cs = chars_of(name.as_str());
    let n = cs.len();
    let mut i = n;
    while i > 0 && cs[i - 1] != '.'
        invariant
            i <= n,
            n == cs@.len(),
            last_dot(cs@, i as int) == last_dot(cs@, n as int),
        decreases i,
    {
        i -= 1;
    }
    if i <= 1 {
        None
    } else {
        let rest = slice_chars(&cs, i, n);
        proof {
            assert(rest@ =~= cs@.skip(i as int));
        }
        Some(string_of(&rest))
    }
}

/// std's `Path` equality: two paths are the same when their components are
/// (so `a/b`, `a//b` and `a/b/` are one path). A function of the two texts
/// alone.
pub uninterp spec fn same_path(a: Seq<char>, b: Seq<char>) -> bool;

/// Calls std's `==` on the two paths; the contract names its result, and
/// states what holds of any equality: a path is the same as itself.
#[verifier::external_body]
pub(crate) fn paths_equal(a: &str, b: &str) -> (r: bool)
    ensures
        r == same_path(a@, b@),
        a@ == b@ ==> r,
{
    std::path::Path::new(a) == std::path::Path::new(b)
}

} // verus!

//! Paths as text, and the path operations of the standard library that the
//! scaffolding relies on.
//!
//! A path is held as a string. What the standard library makes of such
//! strings is not restated here: each operation has a name for its result,
//! and the functions of this module promise that result and nothing else.
//! The operations read no disk and no environment; what they return is fixed
//! by their arguments and by the path syntax of the platform that the library
//! is built for.

use std::path::Path;
use vstd::prelude::*;

verus! {

/// The path that `std::path::Path::join` gives for `name` adjoined to `base`.
pub uninterp spec fn joined_path(base: Seq<char>, name: Seq<char>) -> Seq<char>;

/// The path that `std::path::Path::parent` gives for `path`: `path` without
/// its final component, or `None` where `path` has none to take away.
pub uninterp spec fn parent_path(path: Seq<char>) -> Option<Seq<char>>;

/// The path that `std::path::Path::strip_prefix` gives for `path` and `base`:
/// what is left of `path` behind `base`, or `None` where `base` does not lead
/// `path`.
pub uninterp spec fn path_behind(path: Seq<char>, base: Seq<char>) -> Option<Seq<char>>;

/// The final component that `std::path::Path::file_name` gives for `path`, or
/// `None` where it gives none.
pub uninterp spec fn file_name_of(path: Seq<char>) -> Option<Seq<char>>;

/// What `std::path::Path::ends_with` gives for `path` and `child`: whether
/// `child` is a suffix of `path`, taken by whole components.
pub uninterp spec fn path_ends_with(path: Seq<char>, child: Seq<char>) -> bool;

/// Calls `std::path::Path::join` on `base` with `name`.
///
/// Trusted: the result is the text of the path that `join` returns, which
/// depends on the two arguments alone.
#[verifier::external_body]
pub(crate) fn join(base: &str, name: &str) -> (full: String)
    ensures
        full@ == joined_path(base@, name@),
{
    Path::new(base).join(name).to_string_lossy().into_owned()
}

/// Calls `std::path::Path::parent` on `path`.
///
/// Trusted: the result is the text of the path that `parent` returns, and
/// `None` where it returns `None`; it depends on the argument alone.
#[verifier::external_body]
pub(crate) fn parent(path: &str) -> (above: Option<String>)
    ensures
        above is Some <==> parent_path(path@) is Some,
        above matches Some(text) ==> parent_path(path@) == Some(text@),
{
    match Path::new(path).parent() {
        Some(above) => Some(above.to_string_lossy().into_owned()),
        None => None,
    }
}

/// Calls `std::path::Path::strip_prefix` on `path` with `base`.
///
/// Trusted: the result is the text of the path that `strip_prefix` returns,
/// and `None` where it returns an error; it depends on the two arguments
/// alone.
#[verifier::external_body]
pub(crate) fn strip_prefix(path: &str, base: &str) -> (rest: Option<String>)
    ensures
        rest is Some <==> path_behind(path@, base@) is Some,
        rest matches Some(text) ==> path_behind(path@, base@) == Some(text@),
{
    match Path::new(path).strip_prefix(base) {
        Ok(rest) => Some(rest.to_string_lossy().into_owned()),
        Err(_) => None,
    }
}

/// Calls `std::path::Path::file_name` on `path`.
///
/// Trusted: the result is the text of the component that `file_name` returns,
/// and `None` where it returns `None`; it depends on the argument alone.
#[verifier::external_body]
pub(crate) fn file_name(path: &str) -> (name: Option<String>)
    ensures
        name is Some <==> file_name_of(path@) is Some,
        name matches Some(text) ==> file_name_of(path@) == Some(text@),
{
    match Path::new(path).file_name() {
        Some(name) => Some(name.to_string_lossy().into_owned()),
        None => None,
    }
}

/// Calls `std::path::Path::ends_with` on `path` with `child`.
///
/// Trusted: the result is what `ends_with` returns, which depends on the two
/// arguments alone.
#[verifier::external_body]
pub(crate) fn ends_with(path: &str, child: &str) -> (ends: bool)
    ensures
        ends == path_ends_with(path@, child@),
{
    Path::new(path).ends_with(child)
}

/// How a test path divides: into the directory under which the test tree is
/// built and the name of the tree's root directory.
pub open spec fn split_of(path: Seq<char>) -> Option<(Seq<char>, Seq<char>)> {
    match parent_path(path) {
        Some(above) => match path_behind(path, above) {
            Some(name) => Some((above, name)),
            None => None,
        },
        None => None,
    }
}

/// Divides the test path into the directory under which the test tree is
/// built, which is the path's parent, and the name of the tree's root, which
/// is what the path holds behind its parent.
///
/// A path that does not divide, as a bare root or an empty path, which have
/// no parent, is not to be passed: `try_split_test_path` finds that out.
pub fn split_test_path(path: &str) -> (parts: (String, String))
    requires
        split_of(path@) is Some,
    ensures
        split_of(path@) == Some((parts.0@, parts.1@)),
{
    let above = parent(path).unwrap();
    let name = strip_prefix(path, above.as_str()).unwrap();
    (above, name)
}

/// Divides the test path as `split_test_path` does, where it divides, and
/// returns `None` where it does not: where the path has no parent, or holds
/// nothing behind it.
pub fn try_split_test_path(path: &str) -> (parts: Option<(String, String)>)
    ensures
        parts is Some <==> split_of(path@) is Some,
        parts matches Some(pair) ==> split_of(path@) == Some((pair.0@, pair.1@)),
{
    match parent(path) {
        Some(above) => match strip_prefix(path, above.as_str()) {
            Some(_) => Some(split_test_path(path)),
            None => None,
        },
        None => None,
    }
}

} // verus!

//! The naming rule: how the name of a source entry becomes the name of the
//! test entry that stands for it.
//!
//! The rule is stated on names: `transformed` says what becomes of an
//! entry's own name within its directory. `is_init_file` and
//! `path_to_test_path` apply the two halves of the rule to the path of an
//! entry, of which they take the final component.

use vstd::prelude::*;
use vstd::string::StringExecFns;
use crate::paths::{ends_with, file_name, file_name_of, path_ends_with};
use crate::plan::is_segment;

verus! {

/// The name of a package-init file, which keeps its name in the test tree.
pub open spec fn init_file_name() -> Seq<char> {
    "__init__.py"@
}

/// What is put in front of every other name.
pub open spec fn test_prefix() -> Seq<char> {
    "test_"@
}

/// `name` with the test prefix in front of it.
pub open spec fn prefixed(name: Seq<char>) -> Seq<char> {
    test_prefix() + name
}

/// The name of the test entry for the source entry `name`: a package-init file
/// keeps its name, any other name gets the test prefix.
pub open spec fn transformed(name: Seq<char>) -> Seq<char> {
    if name == init_file_name() {
        name
    } else {
        prefixed(name)
    }
}

/// Whether `path` is that of a package-init file: whether it ends, by whole
/// components, with the name of such a file.
pub fn is_init_file(path: &str) -> (init: bool)
    ensures
        init == path_ends_with(path@, init_file_name()),
{
    ends_with(path, "__init__.py")
}

/// `name` with the test prefix in front of it.
pub fn prefixed_name(name: &str) -> (test_name: String)
    ensures
        test_name@ == prefixed(name@),
{
    String::from_str("test_").concat(name)
}

/// The final component of `path` with the test prefix in front of it.
///
/// A path without a final component, as an empty path, a bare root or one
/// that ends in `..`, is not to be passed: `try_path_to_test_path` finds that
/// out.
pub fn path_to_test_path(path: &str) -> (test_name: String)
    requires
        file_name_of(path@) is Some,
    ensures
        test_name@ == prefixed(file_name_of(path@)->Some_0),
{
    let name = file_name(path).unwrap();
    prefixed_name(name.as_str())
}

/// The final component of `path` with the test prefix in front of it, or
/// `None` where `path` has no final component.
pub fn try_path_to_test_path(path: &str) -> (test_name: Option<String>)
    ensures
        test_name is Some <==> file_name_of(path@) is Some,
        test_name matches Some(text) ==> text@ == prefixed(file_name_of(path@)->Some_0),
{
    match file_name(path) {
        Some(_) => Some(path_to_test_path(path)),
        None => None,
    }
}

/// The name of the test entry for the source entry named `name`.
pub fn transformed_name(name: &str) -> (test_name: String)
    ensures
        test_name@ == transformed(name@),
{
    let given = String::from_str(name);
    let init_name = String::from_str("__init__.py");
    if given == init_name {
        given
    } else {
        prefixed_name(name)
    }
}

/// A package-init file keeps its name.
pub proof fn lemma_init_file_keeps_name(name: Seq<char>)
    requires
        name == init_file_name(),
    ensures
        transformed(name) == init_file_name(),
{
}

/// Every name but that of a package-init file becomes the test prefix
/// followed by the name itself.
pub proof fn lemma_other_names_get_prefix(name: Seq<char>)
    requires
        name != init_file_name(),
    ensures
        transformed(name) == test_prefix() + name,
        transformed(name).len() == test_prefix().len() + name.len(),
        transformed(name).subrange(0, test_prefix().len() as int) == test_prefix(),
        transformed(name).subrange(test_prefix().len() as int, transformed(name).len() as int)
            == name,
{
    assert(transformed(name).subrange(0, test_prefix().len() as int) =~= test_prefix());
    assert(transformed(name).subrange(
        test_prefix().len() as int,
        transformed(name).len() as int,
    ) =~= name);
}

/// The transformed name of a single path segment is a single path segment.
pub proof fn lemma_transformed_is_segment(name: Seq<char>)
    requires
        is_segment(name),
    ensures
        is_segment(transformed(name)),
{
    if name != init_file_name() {
        reveal_strlit("test_");
        let full = transformed(name);
        if full.contains('/') {
            let i = choose|i: int| 0 <= i < full.len() && full[i] == '/';
            if i >= test_prefix().len() {
                assert(name[i - test_prefix().len()] == '/');
            }
        }
    }
}

} // verus!

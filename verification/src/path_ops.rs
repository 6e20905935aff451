//! The parts of [`std::path::Path`] that the library uses, on paths written
//! as UTF-8 strings.
use std::path::Path;
use vstd::prelude::*;

verus! {

/// What [`Path::starts_with`] says of two paths: whether `base` is a prefix
/// of `path`, compared component by component.
pub uninterp spec fn path_starts_with(path: Seq<char>, base: Seq<char>) -> bool;

/// What `==` on [`Path`] says of two paths: whether they have the same
/// components.
pub uninterp spec fn path_equals(a: Seq<char>, b: Seq<char>) -> bool;

/// What [`Path::join`] gives for `base` and `name`.
pub uninterp spec fn joined_path(base: Seq<char>, name: Seq<char>) -> Seq<char>;

/// What [`Path::file_name`] gives for `path`, when it is valid UTF-8.
pub uninterp spec fn path_file_name(path: Seq<char>) -> Option<Seq<char>>;

/// Whether `base` is a prefix of `path`, by [`Path::starts_with`].
///
/// The result is named by `path_starts_with`; its documentation also shows
/// that a path starts with itself.
#[verifier::external_body]
pub(crate) fn starts_with(path: &str, base: &str) -> (r: bool)
    ensures
        r == path_starts_with(path@, base@),
        path@ == base@ ==> r,
{
    Path::new(path).starts_with(base)
}

/// Whether two paths are equal, by `==` on [`Path`].
///
/// The result is named by `path_equals`; equal strings are equal paths,
/// since `Path` is `Eq`.
#[verifier::external_body]
pub(crate) fn path_eq(a: &str, b: &str) -> (r: bool)
    ensures
        r == path_equals(a@, b@),
        a@ == b@ ==> r,
{
    Path::new(a) == Path::new(b)
}

/// `name` appended to `base`, by [`Path::join`].
#[verifier::external_body]
pub(crate) fn join(base: &str, name: &str) -> (joined: String)
    ensures
        joined@ == joined_path(base@, name@),
{
    Path::new(base).join(name).to_string_lossy().into_owned()
}

/// The last component of `path`, by [`Path::file_name`], kept only when it
/// is valid UTF-8.
#[verifier::external_body]
pub(crate) fn file_name(path: &str) -> (name: Option<String>)
    ensures
        name matches Some(n) ==> path_file_name(path@) == Some(n@),
        name is None ==> path_file_name(path@) is None,
{
    Path::new(path).file_name().and_then(|name| name.to_str()).map(|name| name.to_string())
}

/// What [`Path::strip_prefix`] gives for `path` and `base`: the rest of
/// `path` after `base`, where `base` is a prefix of it.
pub uninterp spec fn path_strip_prefix(path: Seq<char>, base: Seq<char>) -> Option<Seq<char>>;

/// The rest of `path` after `base`, by [`Path::strip_prefix`].
///
/// The result is named by `path_strip_prefix`; its documentation also says
/// that it fails exactly where `path` does not start with `base`.
#[verifier::external_body]
pub(crate) fn strip_prefix(path: &str, base: &str) -> (suffix: Option<String>)
    ensures
        suffix matches Some(s) ==> path_strip_prefix(path@, base@) == Some(s@),
        suffix is None ==> path_strip_prefix(path@, base@) is None,
        suffix is Some <==> path_starts_with(path@, base@),
{
    match Path::new(path).strip_prefix(base) {
        Ok(rest) => Some(rest.to_string_lossy().into_owned()),
        Err(_) => None,
    }
}

/// What `{:?}` writes for the [`Path`] `path`: the path quoted, with its
/// special characters escaped.
pub uninterp spec fn path_debug(path: Seq<char>) -> Seq<char>;

/// The debug text of the [`Path`] `path`, by `format!("{:?}", ..)`.
#[verifier::external_body]
pub(crate) fn debug_path(path: &str) -> (text: String)
    ensures
        text@ == path_debug(path@),
{
    format!("{:?}", Path::new(path))
}

} // verus!

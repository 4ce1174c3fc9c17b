//! Paths are kept as strings and taken apart and put together by the
//! `camino` crate, by the rules of the platform that the library is built
//! for. Nothing in this file is proved. What `camino` computes is given a
//! name each, so that the contracts of the planning functions can say
//! exactly which of its results they use and how.

use camino::Utf8Path;
use vstd::prelude::*;

verus! {

/// The final component of a path, as `Utf8Path::file_name` gives it.
pub uninterp spec fn file_name_of(path: Seq<char>) -> Option<Seq<char>>;

/// The extension of a path's final component, as `Utf8Path::extension` gives
/// it.
pub uninterp spec fn extension_of(path: Seq<char>) -> Option<Seq<char>>;

/// A path extended by another, as `Utf8Path::join` gives it.
pub uninterp spec fn joined(base: Seq<char>, tail: Seq<char>) -> Seq<char>;

/// A path with its extension replaced, as `Utf8Path::with_extension` gives
/// it.
pub uninterp spec fn with_extension_of(path: Seq<char>, extension: Seq<char>) -> Seq<char>;

/// Neither `/` nor `\` occurs in the text.
pub open spec fn free_of_separators(text: Seq<char>) -> bool {
    forall|i: int| 0 <= i < text.len() ==> text[i] != '/' && text[i] != '\\'
}

/// `Utf8Path::file_name` on the path that the string spells.
#[verifier::external_body]
pub(crate) fn file_name(path: &str) -> (name: Option<&str>)
    ensures
        crate::text::shown(name) == file_name_of(path@),
{
    Utf8Path::new(path).file_name()
}

/// `Utf8Path::extension` on the path that the string spells.
#[verifier::external_body]
pub(crate) fn extension(path: &str) -> (ext: Option<&str>)
    ensures
        crate::text::shown(ext) == extension_of(path@),
{
    Utf8Path::new(path).extension()
}

/// `Utf8Path::join`, with both paths and the result as strings.
#[verifier::external_body]
pub(crate) fn join(base: &str, tail: &str) -> (path: String)
    ensures
        path@ == joined(base@, tail@),
{
    Utf8Path::new(base).join(tail).into_string()
}

/// `Utf8Path::with_extension`, with the path and the result as strings. The
/// call panics on an extension that holds a path separator, so none is let
/// in.
#[verifier::external_body]
pub(crate) fn with_extension(path: &str, extension: &str) -> (changed: String)
    requires
        free_of_separators(extension@),
    ensures
        changed@ == with_extension_of(path@, extension@),
{
    Utf8Path::new(path).with_extension(extension).into_string()
}

} // verus!

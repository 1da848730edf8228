//! File system paths: an opaque type, built and joined by the standard
//! library.

use vstd::prelude::*;
use std::path::PathBuf;

verus! {

#[verifier::external_type_specification]
#[verifier::external_body]
pub struct ExPathBuf(PathBuf);

/// What `PathBuf::from(text)` gives for a text.
pub uninterp spec fn path_of_text(text: Seq<char>) -> PathBuf;

/// What `dir.join(name)` gives for a path and a name.
pub uninterp spec fn joined_path(dir: PathBuf, name: Seq<char>) -> PathBuf;

/// What `path.to_string_lossy()` gives for a path, as text.
pub uninterp spec fn path_text(path: PathBuf) -> Seq<char>;

/// `PathBuf::join(name)`. Claimed: the result is a fixed function of the
/// path and the name (how they are joined, with the platform's separator or
/// by an absolute name replacing the path, is not described).
#[verifier::external_body]
pub(crate) fn join_path_buf(dir: &PathBuf, name: &str) -> (r: PathBuf)
    ensures
        r == joined_path(*dir, name@),
{
    dir.join(name)
}

/// `Path::to_string_lossy`, owned: the path as text, with any part that is
/// not valid Unicode replaced. Claimed: a fixed function of the path.
#[verifier::external_body]
pub(crate) fn path_to_text(p: &PathBuf) -> (r: String)
    ensures
        r@ == path_text(*p),
{
    p.to_string_lossy().to_string()
}

/// `PathBuf::from(text)`. Claimed: a fixed function of the text.
#[verifier::external_body]
pub(crate) fn path_from_text(text: &str) -> (r: PathBuf)
    ensures
        r == path_of_text(text@),
{
    PathBuf::from(text)
}

} // verus!

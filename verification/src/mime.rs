//! MIME types guessed from file extensions, by the `mime_guess` crate.

use vstd::prelude::*;
use crate::paths::extension_of;
use crate::text::opt_text;

verus! {

/// The first MIME type that `mime_guess` lists for a file extension (its
/// lookup is case-insensitive), or `None` for an extension it does not know.
/// The table behind it is `mime_guess`'s own and is not written out here.
pub uninterp spec fn mime_of_extension(ext: Seq<char>) -> Option<Seq<char>>;

/// `mime_guess::from_ext(ext).first_raw()`, as an owned string.
/// Claimed: the result is `mime_of_extension(ext)`, and is `None` for the
/// empty extension (`from_ext` returns an empty guess for it).
#[verifier::external_body]
pub(crate) fn guess_from_ext(ext: &str) -> (r: Option<String>)
    ensures
        opt_text(r) == mime_of_extension(ext@),
        ext@.len() == 0 ==> r is None,
{
    mime_guess::from_ext(ext).first_raw().map(|m| m.to_string())
}

/// `mime_guess::from_path(path).first_raw()`, as an owned string.
/// Claimed: `from_path` guesses from the path's extension as
/// `Path::extension` gives it, so the result is `mime_of_extension` of that
/// extension, and `None` for a path without one.
#[verifier::external_body]
pub(crate) fn guess_from_path(path: &str) -> (r: Option<String>)
    ensures
        opt_text(r) == match extension_of(path@) {
            Some(ext) => mime_of_extension(ext),
            None => None,
        },
{
    mime_guess::from_path(path).first_raw().map(|m| m.to_string())
}

} // verus!

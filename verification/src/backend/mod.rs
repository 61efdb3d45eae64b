//! The decisions of the form handlers that edit records and keep the
//! catalogue in step with the files on disk.

pub mod directory;
pub mod image;

use vstd::prelude::*;
use crate::mime::guess_from_path;
use crate::routes::mime_of_path;
use crate::text::{contains_str, contains_text, occurs_at};

verus! {

/// What a file found in a registered directory is catalogued as.
#[derive(Debug, PartialEq, Eq)]
pub enum EntryKind {
    /// A directory, catalogued (and scanned) in turn.
    Directory,
    /// An image file, catalogued as an image.
    Image,
    /// Anything else, left out.
    Other,
}

/// Whether a MIME type names an image: its text contains `image`.
pub open spec fn is_image_mime(mime: Option<Seq<char>>) -> bool {
    match mime {
        Some(m) => contains_text(m, "image"@),
        None => false,
    }
}

/// What a file found while scanning a directory is catalogued as, once
/// symbolic links are followed: a directory as a directory; a regular file
/// as an image when the MIME type guessed from its path contains `image`;
/// anything else not at all.
pub fn classify_entry(is_dir: bool, is_file: bool, path: &str) -> (k: EntryKind)
    ensures
        k == (if is_dir {
            EntryKind::Directory
        } else if is_file && is_image_mime(mime_of_path(path@)) {
            EntryKind::Image
        } else {
            EntryKind::Other
        }),
{
    if is_dir {
        return EntryKind::Directory;
    }
    if is_file {
        if let Some(m) = guess_from_path(path) {
            if contains_str(m.as_str(), "image") {
                return EntryKind::Image;
            }
        }
    }
    EntryKind::Other
}

/// What a file found while scanning a directory is catalogued as, over all
/// inputs: a directory always as a directory; a regular file as an image
/// exactly when the MIME type guessed from its path has `image` somewhere in
/// it (as `image/png`, `image/gif` or `image/jpeg` do); anything else not at
/// all.
pub proof fn law_classify_entry(is_dir: bool, is_file: bool, path: &str, k: EntryKind)
    requires
        call_ensures(classify_entry, (is_dir, is_file, path), k),
    ensures
        is_dir ==> k == EntryKind::Directory,
        !is_dir && is_file && (exists|m: Seq<char>, i: int|
            mime_of_path(path@) == Some(m) && 0 <= i && i + "image"@.len() <= m.len()
                && #[trigger] m.subrange(i, i + "image"@.len()) == "image"@) ==> k
            == EntryKind::Image,
        !is_dir && !(is_file && (exists|m: Seq<char>, i: int|
            mime_of_path(path@) == Some(m) && 0 <= i && i + "image"@.len() <= m.len()
                && #[trigger] m.subrange(i, i + "image"@.len()) == "image"@)) ==> k
            == EntryKind::Other,
{
    let found = exists|m: Seq<char>, i: int|
        mime_of_path(path@) == Some(m) && 0 <= i && i + "image"@.len() <= m.len()
            && #[trigger] m.subrange(i, i + "image"@.len()) == "image"@;
    assert(found == is_image_mime(mime_of_path(path@))) by {
        if found {
            let (m, i) = choose|m: Seq<char>, i: int|
                mime_of_path(path@) == Some(m) && 0 <= i && i + "image"@.len() <= m.len()
                    && #[trigger] m.subrange(i, i + "image"@.len()) == "image"@;
            assert(occurs_at(m, "image"@, i));
        }
        if is_image_mime(mime_of_path(path@)) {
            let m = mime_of_path(path@)->0;
            let i = choose|i: int| occurs_at(m, "image"@, i);
            assert(m.subrange(i, i + "image"@.len()) == "image"@);
        }
    }
}

} // verus!

//! Editing an image from a form.

use vstd::prelude::*;
use crate::db::image::Image;
use crate::error::{NOT_MODIFIED, NO_CONTENT};
use crate::text::same_text;

verus! {

/// The form that edits an image: a new directory, name or notes, each
/// optional.
pub struct OptionImage {
    pub directory_id: Option<i64>,
    pub name: Option<String>,
    pub notes: Option<String>,
}

impl OptionImage {
    /// Applies the edit to `image`: each value given that differs from the
    /// image's replaces it. Also gives whether the file has to move (its
    /// directory or name changed) and the answer: `204 No Content` when
    /// anything changed, `304 Not Modified` otherwise.
    pub fn apply(self, image: Image) -> (r: (Image, bool, u16))
        ensures
            r.0.id_of() == image.id_of(),
            r.0@.directory_id == (match self.directory_id {
                Some(d) => d,
                None => image@.directory_id,
            }),
            r.0@.name == (match self.name {
                Some(n) => n@,
                None => image@.name,
            }),
            r.0@.notes == (match self.notes {
                Some(n) => n@,
                None => image@.notes,
            }),
            r.1 == (r.0@.directory_id != image@.directory_id || r.0@.name != image@.name),
            r.2 == (if r.1 || r.0@.notes != image@.notes {
                NO_CONTENT
            } else {
                NOT_MODIFIED
            }),
    {
        let mut image = image;
        let mut modified = false;
        if let Some(d) = self.directory_id {
            if d != *image.directory_id() {
                image.set_directory_id(d);
                modified = true;
            }
        }
        if let Some(n) = self.name {
            if !same_text(n.as_str(), image.name()) {
                image.set_name(n);
                modified = true;
            }
        }
        let moved = modified;
        if let Some(n) = self.notes {
            if !same_text(n.as_str(), image.notes()) {
                image.set_notes(n);
                modified = true;
            }
        }
        (image, moved, if modified {
            NO_CONTENT
        } else {
            NOT_MODIFIED
        })
    }
}

} // verus!

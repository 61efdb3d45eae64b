//! The image page's form that adds a label to an image.

use vstd::prelude::*;

verus! {

/// The form that adds a label, by name, to the current image.
pub struct AddLabel {
    pub name: String,
}

} // verus!

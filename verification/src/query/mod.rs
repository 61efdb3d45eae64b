//! The records the application stores (directories, images, labels) as the
//! query layer sees them, and what follows from a record without asking the
//! database again.

pub mod directory;
pub mod image;
pub mod label;

use vstd::prelude::*;
use crate::paths::{join_path, joined};
use directory::Directory;
use image::Image;

verus! {

/// Where an image's file lies: its name joined to the path of its directory
/// (the directory whose id is the image's `directory_id`).
pub fn get_image_path(image: &Image, directory: &Directory) -> (p: String)
    ensures
        p@ == joined(directory.path@, image.name@),
{
    join_path(directory.path.as_str(), image.name.as_str())
}

} // verus!

//! A registered directory of image files.

use vstd::prelude::*;

verus! {

/// A directory as stored: its id, the id of the directory it lies in (none
/// for a registered root), its name, and its path on disk.
#[derive(Debug, Clone, PartialEq, Eq)]
pub struct Directory {
    pub id: i64,
    pub parent_id: Option<i64>,
    pub name: String,
    pub path: String,
}

impl Directory {
    /// A directory not stored yet: id `0`, the given parent, name and path.
    pub fn new(parent_id: Option<i64>, name: String, path: String) -> (d: Self)
        ensures
            d.id == 0,
            d.parent_id == parent_id,
            d.name == name,
            d.path == path,
    {
        Self { id: 0, parent_id, name, path }
    }

    /// A field-by-field copy.
    pub fn duplicate(&self) -> (d: Self)
        ensures
            d == *self,
    {
        Directory {
            id: self.id,
            parent_id: self.parent_id,
            name: self.name.clone(),
            path: self.path.clone(),
        }
    }
}

} // verus!

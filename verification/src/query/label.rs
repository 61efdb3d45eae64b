//! A label that images can carry.

use vstd::prelude::*;

verus! {

/// A label as stored: its id and its name.
#[derive(Debug, PartialEq, Eq)]
pub struct Label {
    pub id: i64,
    pub name: String,
}

impl Label {
    /// A label not stored yet: id `0` and the given name.
    pub fn new(name: String) -> (l: Self)
        ensures
            l.id == 0,
            l.name == name,
    {
        Self { id: 0, name }
    }
}

} // verus!

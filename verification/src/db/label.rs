//! A label that images can carry.

use vstd::prelude::*;

verus! {

/// A label as stored: its id (set by the database) and its name.
#[derive(Debug, PartialEq, Eq)]
pub struct Label {
    id: i64,
    name: String,
}

impl Label {
    /// The id the database gave this label (`0` before it is stored).
    pub closed spec fn id_of(&self) -> i64 {
        self.id
    }

    /// The name of this label.
    pub closed spec fn name_of(&self) -> Seq<char> {
        self.name@
    }

    /// A label not stored yet: id `0` and the given name.
    pub fn new(name: String) -> (l: Self)
        ensures
            l.id_of() == 0,
            l.name_of() == name@,
    {
        Self { id: 0, name }
    }

    /// A label as read back from a row of the database.
    pub fn from_row(id: i64, name: String) -> (l: Self)
        ensures
            l.id_of() == id,
            l.name_of() == name@,
    {
        Self { id, name }
    }

    /// The id of this label.
    pub fn id(&self) -> (r: &i64)
        ensures
            *r == self.id_of(),
    {
        &self.id
    }

    /// The name of this label.
    pub fn name(&self) -> (r: &String)
        ensures
            r@ == self.name_of(),
    {
        &self.name
    }
}

} // verus!

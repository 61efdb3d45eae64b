//! An image file registered in a directory.

use vstd::prelude::*;

verus! {

/// An image as stored: its id, the id of its directory, its file name, free
/// notes, and when it was registered (seconds since the Unix epoch).
#[derive(Debug, PartialEq, Eq)]
pub struct Image {
    pub id: i64,
    pub directory_id: i64,
    pub name: String,
    pub notes: String,
    pub created: i64,
}

/// Whole seconds since the Unix epoch by the system clock
/// (`SystemTime::now().duration_since(UNIX_EPOCH)`, then `as_secs`); `None`
/// when the clock reads a time before the epoch. Nothing is said of the
/// value, which is the time.
#[verifier::external_body]
fn unix_now_secs() -> Option<u64> {
    std::time::SystemTime::now().duration_since(std::time::UNIX_EPOCH).ok().map(|d| d.as_secs())
}

impl Image {
    /// An image not stored yet, registered at the given time: id `0` and the
    /// given fields.
    pub fn with_created(directory_id: i64, name: String, notes: String, created: i64) -> (i: Self)
        ensures
            i.id == 0,
            i.directory_id == directory_id,
            i.name == name,
            i.notes == notes,
            i.created == created,
    {
        Self { id: 0, directory_id, name, notes, created }
    }

    /// An image not stored yet, registered now: id `0`, the given directory,
    /// name and notes; `created` is the clock's reading in whole seconds since
    /// the Unix epoch, or `0` when the clock reads before the epoch.
    pub fn new(directory_id: i64, name: String, notes: String) -> (i: Self)
        ensures
            i.id == 0,
            i.directory_id == directory_id,
            i.name == name,
            i.notes == notes,
    {
        let created: i64 = match unix_now_secs() {
            Some(secs) => secs as i64,
            None => 0,
        };
        Self::with_created(directory_id, name, notes, created)
    }
}

} // verus!

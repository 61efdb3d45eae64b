//! An image file registered in a directory, and the batches in which many
//! images are inserted at once.

use vstd::prelude::*;
use crate::paths::{join_path, joined};
use super::directory::Directory;

verus! {

/// The most values one statement may bind.
pub const BIND_LIMIT: usize = 32766;

/// The most images one insert statement carries: each binds four values.
pub const INSERT_BATCH: usize = 8191;

/// An image as stored: its id (set by the database), the id of its
/// directory, its file name and free notes.
#[derive(Debug, PartialEq, Eq)]
pub struct Image {
    id: i64,
    pub directory_id: i64,
    pub name: String,
    pub notes: String,
}

/// An image's fields, as mathematical values.
pub struct ImageView {
    pub id: i64,
    pub directory_id: i64,
    pub name: Seq<char>,
    pub notes: Seq<char>,
}

impl View for Image {
    type V = ImageView;

    closed spec fn view(&self) -> ImageView {
        ImageView {
            id: self.id,
            directory_id: self.directory_id,
            name: self.name@,
            notes: self.notes@,
        }
    }
}

impl Image {
    /// The id the database gave this image (`0` before it is stored).
    pub open spec fn id_of(&self) -> i64 {
        self@.id
    }

    /// An image not stored yet: id `0` and the given fields.
    pub fn new(directory_id: i64, name: String, notes: String) -> (i: Self)
        ensures
            i.id_of() == 0,
            i@.directory_id == directory_id,
            i@.name == name@,
            i@.notes == notes@,
    {
        Self { id: 0, directory_id, name, notes }
    }

    /// An image as read back from a row of the database.
    pub fn from_row(id: i64, directory_id: i64, name: String, notes: String) -> (i: Self)
        ensures
            i.id_of() == id,
            i@.directory_id == directory_id,
            i@.name == name@,
            i@.notes == notes@,
    {
        Self { id, directory_id, name, notes }
    }

    /// Takes the id the database gave the row just inserted for this image;
    /// nothing else changes.
    pub fn record_insert(&mut self, last_insert_rowid: i64)
        ensures
            final(self).id_of() == last_insert_rowid,
            final(self)@.directory_id == old(self)@.directory_id,
            final(self)@.name == old(self)@.name,
            final(self)@.notes == old(self)@.notes,
    {
        self.id = last_insert_rowid;
    }

    /// Moves this image to another directory; nothing else changes.
    pub fn set_directory_id(&mut self, directory_id: i64)
        ensures
            final(self)@ == (ImageView { directory_id, ..old(self)@ }),
    {
        self.directory_id = directory_id;
    }

    /// Renames this image; nothing else changes.
    pub fn set_name(&mut self, name: String)
        ensures
            final(self)@ == (ImageView { name: name@, ..old(self)@ }),
    {
        self.name = name;
    }

    /// Replaces the notes on this image; nothing else changes.
    pub fn set_notes(&mut self, notes: String)
        ensures
            final(self)@ == (ImageView { notes: notes@, ..old(self)@ }),
    {
        self.notes = notes;
    }

    /// The id of this image.
    pub fn id(&self) -> (r: &i64)
        ensures
            *r == self.id_of(),
    {
        &self.id
    }

    /// The id of this image's directory.
    pub fn directory_id(&self) -> (r: &i64)
        ensures
            *r == self@.directory_id,
    {
        &self.directory_id
    }

    /// The file name of this image.
    pub fn name(&self) -> (r: &str)
        ensures
            r@ == self@.name,
    {
        self.name.as_str()
    }

    /// The notes on this image.
    pub fn notes(&self) -> (r: &str)
        ensures
            r@ == self@.notes,
    {
        self.notes.as_str()
    }

    /// Where this image's file lies: its name joined to the path of its
    /// directory (the directory whose id is its `directory_id`).
    pub fn path(&self, directory: &Directory) -> (p: String)
        ensures
            p@ == joined(directory@.path, self@.name),
    {
        join_path(directory.path(), self.name())
    }
}

/// Whether `ranges` cut `0..n` into consecutive, non-empty batches of at
/// most `INSERT_BATCH` items, every one full but the last: the `k`-th covers
/// `k * INSERT_BATCH .. min((k + 1) * INSERT_BATCH, n)`, and the last ends at
/// `n`.
pub open spec fn is_batching(ranges: Seq<(usize, usize)>, n: nat) -> bool {
    &&& forall|k: int|
        0 <= k < ranges.len() ==> {
            &&& #[trigger] ranges[k].0 == k * INSERT_BATCH
            &&& ranges[k].1 == if (k + 1) * INSERT_BATCH <= n {
                (k + 1) * INSERT_BATCH
            } else {
                n as int
            }
            &&& ranges[k].0 < ranges[k].1
        }
    &&& n == if ranges.len() == 0 {
        0
    } else {
        ranges.last().1 as nat
    }
}

/// The index ranges of the batches in which `n` images are inserted at once
/// (`chunks(BIND_LIMIT / 4)` of the list): consecutive, each at most
/// `INSERT_BATCH` long, together covering `0..n`; none for no images.
pub fn insert_batches(n: usize) -> (ranges: Vec<(usize, usize)>)
    ensures
        is_batching(ranges@, n as nat),
{
    assert(BIND_LIMIT / 4 == INSERT_BATCH);
    let mut ranges: Vec<(usize, usize)> = Vec::new();
    let mut start: usize = 0;
    while start < n
        invariant
            start <= n,
            start == ranges.len() * INSERT_BATCH,
            ranges.len() > 0 ==> ranges@.last().1 == start,
            forall|k: int|
                0 <= k < ranges.len() ==> {
                    &&& #[trigger] ranges@[k].0 == k * INSERT_BATCH
                    &&& ranges@[k].1 == (k + 1) * INSERT_BATCH
                    &&& ranges@[k].1 <= start
                },
        decreases n - start,
    {
        if n - start > INSERT_BATCH {
            ranges.push((start, start + INSERT_BATCH));
            start = start + INSERT_BATCH;
        } else {
            ranges.push((start, n));
            return ranges;
        }
    }
    ranges
}

} // verus!

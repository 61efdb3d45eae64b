//! A registered directory, with the walk up its chain of parents.

use vstd::prelude::*;

verus! {

/// A directory as stored: its id (set by the database), the id of its
/// parent (none for a registered root), its name and its path on disk.
#[derive(Debug, Clone, PartialEq, Eq)]
pub struct Directory {
    id: i64,
    pub parent_id: Option<i64>,
    pub name: String,
    pub path: String,
}

/// A directory's fields, as mathematical values.
pub struct DirectoryView {
    pub id: i64,
    pub parent_id: Option<i64>,
    pub name: Seq<char>,
    pub path: Seq<char>,
}

impl View for Directory {
    type V = DirectoryView;

    closed spec fn view(&self) -> DirectoryView {
        DirectoryView { id: self.id, parent_id: self.parent_id, name: self.name@, path: self.path@ }
    }
}

impl Directory {
    /// The id the database gave this directory (`0` before it is stored).
    pub open spec fn id_of(&self) -> i64 {
        self@.id
    }

    /// A directory not stored yet: id `0`, the given parent, name and path.
    pub fn new(parent_id: Option<i64>, name: String, path: String) -> (d: Self)
        ensures
            d.id_of() == 0,
            d@.parent_id == parent_id,
            d@.name == name@,
            d@.path == path@,
    {
        Self { id: 0, parent_id, name, path }
    }

    /// A directory as read back from a row of the database.
    pub fn from_row(id: i64, parent_id: Option<i64>, name: String, path: String) -> (d: Self)
        ensures
            d.id_of() == id,
            d@.parent_id == parent_id,
            d@.name == name@,
            d@.path == path@,
    {
        Self { id, parent_id, name, path }
    }

    /// Takes the id the database gave the row just inserted for this
    /// directory; nothing else changes.
    pub fn record_insert(&mut self, last_insert_rowid: i64)
        ensures
            final(self).id_of() == last_insert_rowid,
            final(self)@.parent_id == old(self)@.parent_id,
            final(self)@.name == old(self)@.name,
            final(self)@.path == old(self)@.path,
    {
        self.id = last_insert_rowid;
    }

    /// Renames this directory; nothing else changes.
    pub fn set_name(&mut self, name: String)
        ensures
            final(self)@ == (DirectoryView { name: name@, ..old(self)@ }),
    {
        self.name = name;
    }

    /// Moves this directory to another path; nothing else changes.
    pub fn set_path(&mut self, path: String)
        ensures
            final(self)@ == (DirectoryView { path: path@, ..old(self)@ }),
    {
        self.path = path;
    }

    /// The id of this directory.
    pub fn id(&self) -> (r: i64)
        ensures
            r == self.id_of(),
    {
        self.id
    }

    /// The id of this directory's parent, if it has one.
    pub fn parent_id(&self) -> (r: Option<i64>)
        ensures
            r == self@.parent_id,
    {
        self.parent_id
    }

    /// The path of this directory on disk.
    pub fn path(&self) -> (r: &str)
        ensures
            r@ == self@.path,
    {
        self.path.as_str()
    }

    /// The name of this directory.
    pub fn name(&self) -> (r: &str)
        ensures
            r@ == self@.name,
    {
        self.name.as_str()
    }
}

/// Whether `chain` runs from a root down to `target`, each directory the
/// parent of the next: the first has no parent, every later one's parent is
/// the one before it, and the last is `target`.
pub open spec fn is_parent_chain(chain: Seq<Directory>, target: Directory) -> bool {
    &&& chain.len() >= 1
    &&& chain[0]@.parent_id is None
    &&& chain.last() == target
    &&& forall|i: int| 0 <= i < chain.len() - 1 ==> #[trigger] chain[i + 1]@.parent_id == Some(
        chain[i].id_of(),
    )
}

/// The walk up from a directory to its root, one parent at a time (the
/// loop of `parent_directories`). The caller fetches the directory whose id
/// `next_lookup` names and hands it to `record`, until `next_lookup` is
/// `None`; `finish` then gives the chain from the root down to the starting
/// directory.
pub struct ParentWalk {
    target: Directory,
    found: Vec<Directory>,
    next: Option<i64>,
}

impl ParentWalk {
    /// The directory the walk started from.
    pub closed spec fn target_of(&self) -> Directory {
        self.target
    }

    /// The parents fetched so far, nearest first.
    pub closed spec fn found_of(&self) -> Seq<Directory> {
        self.found@
    }

    /// The id of the parent still to fetch, if any.
    pub closed spec fn next_of(&self) -> Option<i64> {
        self.next
    }

    /// The walk's invariant: each fetched directory is the parent of the one
    /// before it (the first is the target's parent), and the id still to
    /// fetch is the parent of the last one fetched.
    pub closed spec fn wf(&self) -> bool {
        &&& self.found@.len() == 0 ==> self.next == self.target@.parent_id
        &&& self.found@.len() > 0 ==> {
            &&& self.target@.parent_id == Some(self.found@[0].id_of())
            &&& self.next == self.found@.last()@.parent_id
        }
        &&& forall|i: int|
            0 <= i < self.found@.len() - 1 ==> #[trigger] self.found@[i]@.parent_id == Some(
                self.found@[i + 1].id_of(),
            )
    }

    /// Starts the walk at `target`: nothing found yet, and the next id to
    /// fetch is the target's parent.
    pub fn start(target: Directory) -> (w: Self)
        ensures
            w.wf(),
            w.target_of() == target,
            w.found_of() == Seq::<Directory>::empty(),
            w.next_of() == target@.parent_id,
    {
        let next = target.parent_id;
        ParentWalk { target, found: Vec::new(), next }
    }

    /// The id of the directory to fetch next, or `None` once a root has been
    /// reached.
    pub fn next_lookup(&self) -> (r: Option<i64>)
        ensures
            r == self.next_of(),
    {
        self.next
    }

    /// Records the directory fetched for the id `next_lookup` named; the
    /// next id to fetch becomes its parent.
    pub fn record(&mut self, fetched: Directory)
        requires
            old(self).wf(),
            old(self).next_of() == Some(fetched.id_of()),
        ensures
            final(self).wf(),
            final(self).target_of() == old(self).target_of(),
            final(self).found_of() == old(self).found_of().push(fetched),
            final(self).next_of() == fetched@.parent_id,
    {
        self.next = fetched.parent_id;
        self.found.push(fetched);
        assert forall|i: int| 0 <= i < self.found@.len() - 1 implies #[trigger] self.found@[
            i
        ]@.parent_id == Some(self.found@[i + 1].id_of()) by {
            if i == self.found@.len() - 2 {
            } else {
                assert(self.found@[i] == old(self).found@[i]);
                assert(self.found@[i + 1] == old(self).found@[i + 1]);
            }
        }
    }

    /// The chain from the root down to the starting directory: the fetched
    /// parents, farthest first, then the starting directory.
    pub fn finish(self) -> (chain: Vec<Directory>)
        requires
            self.wf(),
            self.next_of() is None,
        ensures
            chain@ == self.found_of().reverse().push(self.target_of()),
            is_parent_chain(chain@, self.target_of()),
    {
        let ParentWalk { target, found, next: _ } = self;
        let ghost f = found@;
        let mut chain: Vec<Directory> = Vec::new();
        let mut i: usize = found.len();
        let mut found = found;
        while i > 0
            invariant
                i <= f.len(),
                found@ == f.take(i as int),
                chain@ == f.skip(i as int).reverse(),
            decreases i,
        {
            let d = found.pop().unwrap();
            chain.push(d);
            i = i - 1;
            assert(found@ =~= f.take(i as int));
            assert(chain@ =~= f.skip(i as int).reverse());
        }
        assert(f.skip(0) =~= f);
        chain.push(target);
        let ghost c = chain@;
        let ghost n = f.len() as int;
        assert forall|k: int| 0 <= k < c.len() - 1 implies #[trigger] c[k + 1]@.parent_id == Some(
            c[k].id_of(),
        ) by {
            if k + 1 < n {
                assert(c[k] == f[n - 1 - k]);
                assert(c[k + 1] == f[n - 2 - k]);
                assert(f[n - 2 - k]@.parent_id == Some(f[n - 2 - k + 1].id_of()));
            } else {
                assert(c[k] == f[0]);
            }
        }
        proof {
            if n > 0 {
                assert(c[0] == f[n - 1]);
            }
        }
        chain
    }
}

} // verus!

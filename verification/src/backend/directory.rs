//! Creating a directory from a form, and editing one.

use vstd::prelude::*;
use crate::db::directory::Directory;
use crate::paths::{file_name, file_name_of, join_path, joined};
use crate::text::{owned, same_text};

verus! {

/// The form that creates a directory: a path, relative to the parent
/// directory when there is one.
pub struct InsertDirectory {
    pub path: String,
}

/// The form that edits a directory: a new parent, name or path, each
/// optional.
pub struct OptionDirectory {
    pub parent_id: Option<i64>,
    pub name: Option<String>,
    pub path: Option<String>,
}

impl InsertDirectory {
    /// The directory the form creates. Inside a parent, it is named after
    /// the form's path and lies at that path joined to the parent's. At the
    /// top, it lies at the form's path and is named after its last component;
    /// `None` where the path has none.
    pub fn new_directory(&self, parent: Option<&Directory>) -> (r: Option<Directory>)
        ensures
            match parent {
                Some(p) => r matches Some(d) && d.id_of() == 0 && d@.parent_id == Some(p.id_of())
                    && d@.name == self.path@ && d@.path == joined(p@.path, self.path@),
                None => match file_name_of(self.path@) {
                    Some(n) => r matches Some(d) && d.id_of() == 0 && d@.parent_id is None
                        && d@.name == n && d@.path == self.path@,
                    None => r is None,
                },
            },
    {
        match parent {
            Some(p) => {
                let path = join_path(p.path(), self.path.as_str());
                Some(Directory::new(Some(p.id()), owned(self.path.as_str()), path))
            },
            None => match file_name(self.path.as_str()) {
                Some(n) => Some(Directory::new(None, n, owned(self.path.as_str()))),
                None => None,
            },
        }
    }
}

impl OptionDirectory {
    /// Applies the edit to `dir`; `new_parent` is the directory named by
    /// `parent_id`, when one is given. A new name replaces the old. With a new
    /// parent, the directory moves to its name joined to the parent's path.
    /// Otherwise a new path is taken only by a directory without a parent, and
    /// only when it differs from the old one. Also gives the move of the
    /// directory on disk, from the old path to the new, when the path changes.
    /// The directory's own parent id is left as it was.
    pub fn apply(self, dir: Directory, new_parent: Option<&Directory>) -> (r: (
        Directory,
        Option<(String, String)>,
    ))
        requires
            self.parent_id is Some <==> new_parent is Some,
        ensures
            r.0.id_of() == dir.id_of(),
            r.0@.parent_id == dir@.parent_id,
            r.0@.name == (match self.name {
                Some(n) => n@,
                None => dir@.name,
            }),
            match new_parent {
                Some(p) => r.0@.path == joined(p@.path, r.0@.name) && (r.1 matches Some(
                    (from, to),
                ) && from@ == dir@.path && to@ == r.0@.path),
                None => match self.path {
                    Some(np) => if dir@.parent_id is None && np@ != dir@.path {
                        r.0@.path == np@ && (r.1 matches Some((from, to)) && from@ == dir@.path
                            && to@ == np@)
                    } else {
                        r.0@.path == dir@.path && r.1 is None
                    },
                    None => r.0@.path == dir@.path && r.1 is None,
                },
            },
    {
        let mut dir = dir;
        if let Some(n) = self.name {
            dir.set_name(n);
        }
        match new_parent {
            Some(p) => {
                let new_path = join_path(p.path(), dir.name());
                let from = owned(dir.path());
                dir.set_path(owned(new_path.as_str()));
                (dir, Some((from, new_path)))
            },
            None => match self.path {
                Some(np) => {
                    if dir.parent_id().is_none() && !same_text(np.as_str(), dir.path()) {
                        let from = owned(dir.path());
                        dir.set_path(owned(np.as_str()));
                        (dir, Some((from, np)))
                    } else {
                        (dir, None)
                    }
                },
                None => (dir, None),
            },
        }
    }
}

} // verus!

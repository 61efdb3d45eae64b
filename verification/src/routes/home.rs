//! The home page's forms: filtering the image list by labels, and
//! registering a folder.

use vstd::prelude::*;
use crate::text::{chars_of, split_at_char, split_on, texts};

verus! {

/// The filter of the image list: labels separated by `,`, if any.
pub struct ImageFilter {
    pub labels: Option<String>,
}

impl ImageFilter {
    /// The label names the filter asks for: the pieces of `labels` between
    /// commas (empty pieces kept), or `None` when no labels were given.
    pub fn label_names(&self) -> (r: Option<Vec<String>>)
        ensures
            match self.labels {
                Some(l) => r matches Some(v) && texts(v@) == split_on(l@, ','),
                None => r is None,
            },
    {
        match &self.labels {
            Some(l) => Some(split_at_char(l.as_str(), ',')),
            None => None,
        }
    }
}

/// The form that registers a folder: its path, and a name that may be left
/// empty.
pub struct NewFolder {
    pub path: String,
    pub name: String,
}

impl NewFolder {
    /// The name to register the folder under: the one given, or `None` when
    /// it was left empty.
    pub fn chosen_name(self) -> (r: Option<String>)
        ensures
            self.name@.len() == 0 ==> r is None,
            self.name@.len() > 0 ==> r == Some(self.name),
    {
        let n = chars_of(self.name.as_str());
        if n.len() == 0 {
            None
        } else {
            Some(self.name)
        }
    }
}

} // verus!

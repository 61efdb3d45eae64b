//! The decisions of the application's operations on its catalogue: which
//! database a URL names, how uploaded images are named, how an image update
//! is applied, where new directories go, and the tree of directories.

pub mod directory;
pub mod image;

use vstd::prelude::*;
use crate::text::{chars_of, same_text, string_of};

verus! {

/// The scheme of a database URL: the text before its first `:`, or the
/// whole URL when it has none.
pub open spec fn scheme_of(url: Seq<char>) -> Seq<char>
    decreases url.len(),
{
    if url.len() == 0 || url[0] == ':' {
        Seq::<char>::empty()
    } else {
        seq![url[0]] + scheme_of(url.drop_first())
    }
}

/// The scheme of a database URL (see `scheme_of`), which names the kind of
/// database.
pub fn database_scheme(url: &str) -> (s: String)
    ensures
        s@ == scheme_of(url@),
{
    let cs = chars_of(url);
    let mut out: Vec<char> = Vec::new();
    let mut i: usize = 0;
    assert(cs@.skip(0) =~= url@);
    assert(out@ + scheme_of(url@) =~= scheme_of(url@));
    while i < cs.len() && cs[i] != ':'
        invariant
            cs@ == url@,
            i <= cs.len(),
            out@ + scheme_of(cs@.skip(i as int)) == scheme_of(url@),
        decreases cs.len() - i,
    {
        assert(cs@.skip(i as int).drop_first() =~= cs@.skip(i + 1));
        out.push(cs[i]);
        assert(out@ + scheme_of(cs@.skip(i + 1)) =~= scheme_of(url@)) by {
            assert(scheme_of(cs@.skip(i as int)) == seq![cs@[i as int]] + scheme_of(cs@.skip(i + 1)));
        }
        i = i + 1;
    }
    assert(scheme_of(cs@.skip(i as int)) =~= Seq::<char>::empty());
    assert(out@ =~= scheme_of(url@));
    string_of(&out)
}

/// Whether a database URL names an SQLite database (its scheme is
/// `sqlite`), the only kind the application runs on.
pub fn uses_sqlite(url: &str) -> (r: bool)
    ensures
        r == (scheme_of(url@) == "sqlite"@),
{
    let s = database_scheme(url);
    same_text(s.as_str(), "sqlite")
}

} // verus!

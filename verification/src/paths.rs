//! Paths as text, with the meaning `std::path` gives them on Unix: `/` is
//! the only separator, and a path starting with `/` is absolute.

use vstd::prelude::*;
use vstd::string::*;
use crate::text::{
    chars_of, last_index_of, lemma_split_nonempty, owned, push_char, split_at_char, split_on,
};

verus! {

/// `Path::join` on Unix: an absolute `rel` replaces `base`; otherwise `rel` is
/// appended, with a `/` in between unless `base` is empty or already ends in
/// one.
pub open spec fn joined(base: Seq<char>, rel: Seq<char>) -> Seq<char> {
    if rel.len() > 0 && rel[0] == '/' {
        rel
    } else if base.len() > 0 && base.last() != '/' {
        base.push('/') + rel
    } else {
        base + rel
    }
}

/// The last piece that is a normal path component: neither empty (from a
/// repeated or trailing `/`) nor `.`.
pub open spec fn last_normal(pieces: Seq<Seq<char>>) -> Option<Seq<char>>
    decreases pieces.len(),
{
    if pieces.len() == 0 {
        None
    } else if pieces.last().len() > 0 && pieces.last() != seq!['.'] {
        Some(pieces.last())
    } else {
        last_normal(pieces.drop_last())
    }
}

/// `Path::file_name` on Unix: the last component, unless the path has none
/// (such as `/` or `.`) or its last component is `..`.
pub open spec fn file_name_of(path: Seq<char>) -> Option<Seq<char>> {
    match last_normal(split_on(path, '/')) {
        Some(n) => if n == seq!['.', '.'] {
            None
        } else {
            Some(n)
        },
        None => None,
    }
}

/// `Path::extension`: the text after the last `.` of the file name, where the
/// file name has a `.` that is not its first character.
pub open spec fn extension_of(path: Seq<char>) -> Option<Seq<char>> {
    match file_name_of(path) {
        Some(name) => {
            let i = last_index_of(name, '.');
            if i <= 0 {
                None
            } else {
                Some(name.skip(i + 1))
            }
        },
        None => None,
    }
}

/// Whether `name` can stand as one normal component of a path: not empty,
/// without `/`, and neither `.` nor `..`.
pub open spec fn is_component(name: Seq<char>) -> bool {
    &&& name.len() > 0
    &&& !name.contains('/')
    &&& name != seq!['.']
    &&& name != seq!['.', '.']
}

/// Appending text without the separator extends the last piece of a split.
proof fn lemma_split_append(p: Seq<char>, t: Seq<char>, sep: char)
    requires
        !t.contains(sep),
    ensures
        split_on(p + t, sep) == split_on(p, sep).update(
            split_on(p, sep).len() - 1,
            split_on(p, sep).last() + t,
        ),
    decreases t.len(),
{
    lemma_split_nonempty(p, sep);
    if t.len() == 0 {
        assert(p + t =~= p);
        assert(split_on(p, sep).last() + t =~= split_on(p, sep).last());
        assert(split_on(p, sep).update(split_on(p, sep).len() - 1, split_on(p, sep).last())
            =~= split_on(p, sep));
    } else {
        let u = t.drop_last();
        assert(!u.contains(sep)) by {
            if u.contains(sep) {
                let j = choose|j: int| 0 <= j < u.len() && u[j] == sep;
                assert(t[j] == sep);
            }
        }
        assert(t.last() != sep) by {
            assert(t[t.len() - 1] == t.last());
        }
        lemma_split_append(p, u, sep);
        lemma_split_nonempty(p + u, sep);
        assert((p + t).drop_last() =~= p + u);
        assert((p + t).last() == t.last());
        let s = split_on(p, sep);
        assert(s.last() + t =~= (s.last() + u).push(t.last()));
        assert(split_on(p + t, sep) =~= s.update(s.len() - 1, s.last() + t));
    }
}

/// The file name of a path made by joining a normal component to a base is
/// that component: `file_name(join(base, name)) == name`.
pub proof fn lemma_file_name_of_joined(base: Seq<char>, name: Seq<char>)
    requires
        is_component(name),
    ensures
        file_name_of(joined(base, name)) == Some(name),
{
    let j = joined(base, name);
    assert(name[0] != '/') by {
        if name[0] == '/' {
            assert(name.contains('/'));
        }
    }
    if base.len() > 0 && base.last() != '/' {
        let y = base.push('/');
        lemma_split_nonempty(base, '/');
        assert(y.drop_last() =~= base);
        assert(split_on(y, '/') == split_on(base, '/').push(Seq::<char>::empty()));
        lemma_split_append(y, name, '/');
        assert(Seq::<char>::empty() + name =~= name);
        assert(split_on(j, '/') =~= split_on(base, '/').push(name));
    } else if base.len() > 0 {
        let y = base.drop_last();
        assert(y.push('/') =~= base);
        lemma_split_nonempty(y, '/');
        assert(split_on(base, '/') == split_on(y, '/').push(Seq::<char>::empty()));
        lemma_split_append(base, name, '/');
        assert(Seq::<char>::empty() + name =~= name);
        assert(split_on(j, '/') =~= split_on(y, '/').push(name));
    } else {
        assert(j =~= Seq::<char>::empty() + name);
        lemma_split_append(Seq::<char>::empty(), name, '/');
        assert(split_on(j, '/') =~= seq![name]);
    }
    assert(split_on(j, '/').last() == name);
}

/// `Path::join` on Unix, as text (`base.join(rel)`).
pub fn join_path(base: &str, rel: &str) -> (r: String)
    ensures
        r@ == joined(base@, rel@),
{
    let b = chars_of(base);
    let p = chars_of(rel);
    if p.len() > 0 && p[0] == '/' {
        return owned(rel);
    }
    let mut r = owned(base);
    if b.len() > 0 && b[b.len() - 1] != '/' {
        push_char(&mut r, '/');
    }
    r.append(rel);
    r
}

/// Whether a piece of a split path is a normal component: neither empty
/// nor `.`.
fn is_normal_piece(piece: &str) -> (r: bool)
    ensures
        r == (piece@.len() > 0 && piece@ != seq!['.']),
{
    let cs = chars_of(piece);
    if cs.len() == 0 {
        return false;
    }
    if cs.len() == 1 && cs[0] == '.' {
        assert(cs@ =~= seq!['.']);
        return false;
    }
    if cs.len() == 1 {
        assert(cs@ != seq!['.']) by {
            assert(cs@[0] != '.');
        }
    }
    true
}

/// `Path::file_name` on Unix, as text.
pub fn file_name(path: &str) -> (r: Option<String>)
    ensures
        match r {
            Some(n) => file_name_of(path@) == Some(n@),
            None => file_name_of(path@) is None,
        },
{
    let pieces = split_at_char(path, '/');
    let ghost all = pieces@.map_values(|p: String| p@);
    let mut i: usize = pieces.len();
    assert(all.take(i as int) =~= all);
    while i > 0
        invariant
            all == pieces@.map_values(|p: String| p@),
            all == split_on(path@, '/'),
            i <= pieces.len(),
            last_normal(all) == last_normal(all.take(i as int)),
        decreases i,
    {
        let ghost pre = all.take(i as int);
        assert(pre.drop_last() =~= all.take(i - 1));
        assert(pre.last() == pieces[i - 1]@);
        if is_normal_piece(pieces[i - 1].as_str()) {
            let cs = chars_of(pieces[i - 1].as_str());
            if cs.len() == 2 && cs[0] == '.' && cs[1] == '.' {
                assert(cs@ =~= seq!['.', '.']);
                return None;
            }
            assert(cs@ != seq!['.', '.']) by {
                if cs.len() == 2 {
                    assert(cs@[0] != '.' || cs@[1] != '.');
                }
            }
            return Some(pieces[i - 1].clone());
        }
        i = i - 1;
    }
    None
}

} // verus!

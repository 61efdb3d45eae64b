//! Naming an uploaded image so that it does not collide with the images
//! already in its directory, and applying an update to an image.

use vstd::prelude::*;
use vstd::string::*;
use crate::error::{Error, BAD_REQUEST};
use crate::mime::{guess_from_ext, mime_of_extension};
use crate::query::image::Image;
use crate::paths::{is_component, joined, lemma_file_name_of_joined};
use crate::routes::mime_of_path;
use crate::text::{
    contains_string, decimal, lemma_decimal_injective, lemma_decimal, lemma_last_index_after,
    owned, push_char, push_decimal, rsplit_once_at, rsplit_once_char, texts, lemma_rsplit_once,
};

verus! {

/// The name tried for an image at attempt `tries`: the original name at the
/// first attempt, then `{left}_{tries}.{ext}`, where `left` and `ext` are the
/// original name's parts before and after its last `.`.
pub open spec fn candidate_name(original: Seq<char>, left: Seq<char>, ext: Seq<char>, tries: nat) -> Seq<char> {
    if tries <= 1 {
        original
    } else {
        left + seq!['_'] + decimal(tries) + seq!['.'] + ext
    }
}

/// Whether `name` is the first candidate that is not taken: candidate
/// number `tries` for some `tries >= 1`, not taken, while every earlier
/// candidate is.
pub open spec fn is_first_free(
    original: Seq<char>,
    left: Seq<char>,
    ext: Seq<char>,
    taken: Seq<Seq<char>>,
    name: Seq<char>,
) -> bool {
    exists|tries: nat|
        #![trigger candidate_name(original, left, ext, tries)]
        tries >= 1 && name == candidate_name(original, left, ext, tries) && !taken.contains(name)
            && forall|j: nat| 1 <= j < tries ==> taken.contains(#[trigger] candidate_name(original, left, ext, j))
}

/// The message for a name without an extension.
pub open spec fn no_extension_message(name: Seq<char>) -> Seq<char> {
    "Image "@ + name + " has no file extension"@
}

/// The message for an extension without a known MIME type.
pub open spec fn unknown_mime_message(name: Seq<char>) -> Seq<char> {
    "MIME Type couldn't be determined for "@ + name
}

/// Different attempts give different names.
pub proof fn lemma_candidates_distinct(
    original: Seq<char>,
    left: Seq<char>,
    ext: Seq<char>,
    a: nat,
    b: nat,
)
    requires
        original == left + seq!['.'] + ext,
        1 <= a < b,
    ensures
        candidate_name(original, left, ext, a) != candidate_name(original, left, ext, b),
{
    lemma_decimal(b);
    if a == 1 {
        assert(candidate_name(original, left, ext, b).len() > original.len());
    } else {
        lemma_decimal(a);
        let ca = candidate_name(original, left, ext, a);
        let cb = candidate_name(original, left, ext, b);
        if ca == cb {
            let da = decimal(a);
            let db = decimal(b);
            assert(ca == left + seq!['_'] + da + seq!['.'] + ext);
            assert(cb == left + seq!['_'] + db + seq!['.'] + ext);
            assert(ca.len() == left.len() + da.len() + ext.len() + 2);
            assert(cb.len() == left.len() + db.len() + ext.len() + 2);
            assert(da.len() == db.len());
            let lo = left.len() as int + 1;
            assert(ca.subrange(lo, lo + da.len()) =~= da);
            assert(cb.subrange(lo, lo + db.len()) =~= db);
            lemma_decimal_injective(a, b);
        }
    }
}

/// At most as many attempts can fail as there are names taken: candidates
/// `1..=t` are all different, so they cannot all be taken once `t` exceeds
/// the number of taken names.
pub proof fn lemma_attempts_bounded(
    original: Seq<char>,
    left: Seq<char>,
    ext: Seq<char>,
    taken: Seq<Seq<char>>,
    t: nat,
)
    requires
        original == left + seq!['.'] + ext,
        forall|j: nat| 1 <= j <= t ==> taken.contains(#[trigger] candidate_name(original, left, ext, j)),
    ensures
        t <= taken.len(),
{
    let cs = Seq::new(t, |i: int| candidate_name(original, left, ext, (i + 1) as nat));
    assert(cs.no_duplicates()) by {
        assert forall|i: int, k: int| 0 <= i < cs.len() && 0 <= k < cs.len() && i != k implies cs[i]
            != cs[k] by {
            if i < k {
                lemma_candidates_distinct(original, left, ext, (i + 1) as nat, (k + 1) as nat);
            } else {
                lemma_candidates_distinct(original, left, ext, (k + 1) as nat, (i + 1) as nat);
            }
        }
    }
    cs.unique_seq_to_set();
    assert(cs.to_set().subset_of(taken.to_set())) by {
        assert forall|x: Seq<char>| cs.to_set().contains(x) implies taken.to_set().contains(x) by {
            let i = choose|i: int| 0 <= i < cs.len() && cs[i] == x;
            assert(taken.contains(candidate_name(original, left, ext, (i + 1) as nat)));
        }
    }
    vstd::seq_lib::seq_to_set_is_finite(taken);
    vstd::set_lib::lemma_len_subset(cs.to_set(), taken.to_set());
    taken.lemma_cardinality_of_set();
}

/// The part of candidate `tries` before its extension: `left` at the first
/// attempt, then `{left}_{tries}`.
pub open spec fn candidate_stem(left: Seq<char>, tries: nat) -> Seq<char> {
    if tries <= 1 {
        left
    } else {
        left + seq!['_'] + decimal(tries)
    }
}

/// Every candidate keeps the extension of the original name: split at its
/// last `.`, candidate `tries` gives its stem and the original extension.
pub proof fn lemma_candidate_keeps_extension(
    original: Seq<char>,
    left: Seq<char>,
    ext: Seq<char>,
    tries: nat,
)
    requires
        original == left + seq!['.'] + ext,
        !ext.contains('.'),
    ensures
        candidate_name(original, left, ext, tries) == candidate_stem(left, tries).push('.') + ext,
        rsplit_once_at(candidate_name(original, left, ext, tries), '.') == Some(
            (candidate_stem(left, tries), ext),
        ),
{
    let stem = candidate_stem(left, tries);
    let name = candidate_name(original, left, ext, tries);
    assert(name =~= stem.push('.') + ext);
    lemma_last_index_after(stem, '.', ext);
    assert(name.take(stem.len() as int) =~= stem);
    assert(name.skip(stem.len() as int + 1) =~= ext);
}

/// An image accepted at upload is served with the MIME type that admitted
/// it: once stored in a directory, the MIME type guessed from its path is
/// the one guessed from the extension of the name it was uploaded under.
/// (It holds where the stored name is a plain path component with something
/// before its last `.`; an upload named `.png` is stored, but its path has no
/// extension.)
pub proof fn lemma_stored_upload_keeps_mime(
    directory_path: Seq<char>,
    original: Seq<char>,
    left: Seq<char>,
    ext: Seq<char>,
    tries: nat,
)
    requires
        rsplit_once_at(original, '.') == Some((left, ext)),
        is_component(candidate_name(original, left, ext, tries)),
        candidate_stem(left, tries).len() > 0,
    ensures
        mime_of_path(joined(directory_path, candidate_name(original, left, ext, tries)))
            == mime_of_extension(ext),
{
    lemma_rsplit_once(original, '.');
    assert(left.push('.') + ext =~= left + seq!['.'] + ext);
    lemma_candidate_keeps_extension(original, left, ext, tries);
    let name = candidate_name(original, left, ext, tries);
    lemma_file_name_of_joined(directory_path, name);
}

/// The name tried at attempt `tries` (`tries >= 2`): `{left}_{tries}.{ext}`.
pub fn candidate_image_name(left: &str, ext: &str, tries: u128) -> (name: String)
    ensures
        name@ == left@ + seq!['_'] + decimal(tries as nat) + seq!['.'] + ext@,
{
    let mut name = owned(left);
    push_char(&mut name, '_');
    push_decimal(&mut name, tries);
    push_char(&mut name, '.');
    name.append(ext);
    name
}

/// The name an uploaded image is stored under, given the names of the images
/// already in its directory: the first of the original name, `{left}_2.{ext}`,
/// `{left}_3.{ext}`, ... that is not taken. A name without a `.` is refused
/// with `400` ("Image {name} has no file extension"), and so is one whose
/// extension has no known MIME type ("MIME Type couldn't be determined for
/// {name}").
pub fn plan_image_name(original: &str, taken: &Vec<String>) -> (r: Result<String, Error>)
    ensures
        match rsplit_once_at(original@, '.') {
            None => r matches Err(Error::StatusCode(code, m)) && code == BAD_REQUEST && m@
                == no_extension_message(original@),
            Some((left, ext)) => if mime_of_extension(ext) is None {
                r matches Err(Error::StatusCode(code, m)) && code == BAD_REQUEST && m@
                    == unknown_mime_message(original@)
            } else {
                r matches Ok(name) && is_first_free(original@, left, ext, texts(taken@), name@)
            },
        },
{
    let (left, ext) = match rsplit_once_char(original, '.') {
        Some(parts) => parts,
        None => {
            let mut m = owned("Image ");
            m.append(original);
            m.append(" has no file extension");
            return Err(Error::StatusCode(BAD_REQUEST, m));
        },
    };
    if guess_from_ext(ext.as_str()).is_none() {
        let mut m = owned("MIME Type couldn't be determined for ");
        m.append(original);
        return Err(Error::StatusCode(BAD_REQUEST, m));
    }
    proof {
        lemma_rsplit_once(original@, '.');
    }
    let ghost taken_v = texts(taken@);
    let ghost l = left@;
    let ghost e = ext@;
    let mut tries: u128 = 1;
    let mut name = owned(original);
    while contains_string(taken, &name)
        invariant
            original@ == l + seq!['.'] + e,
            taken_v == texts(taken@),
            1 <= tries <= taken.len() + 1,
            name@ == candidate_name(original@, l, e, tries as nat),
            forall|j: nat|
                1 <= j < tries ==> taken_v.contains(#[trigger] candidate_name(original@, l, e, j)),
            left@ == l,
            ext@ == e,
        decreases taken.len() + 1 - tries,
    {
        proof {
            assert(forall|j: nat|
                1 <= j <= tries ==> taken_v.contains(#[trigger] candidate_name(original@, l, e, j)));
            lemma_attempts_bounded(original@, l, e, taken_v, tries as nat);
        }
        tries = tries + 1;
        name = candidate_image_name(left.as_str(), ext.as_str(), tries);
    }
    assert(is_first_free(original@, l, e, taken_v, name@)) by {
        assert(name@ == candidate_name(original@, l, e, tries as nat));
    }
    Ok(name)
}

/// What an update of an image may change: its directory, its name and its
/// notes; a field left `None` keeps its value.
pub struct UpdateImage {
    pub directory_id: Option<i64>,
    pub name: Option<String>,
    pub notes: Option<String>,
}

impl UpdateImage {
    /// Applies the update: each field given replaces the image's, the others
    /// stay. Also answers whether the image's file has to move, which is when
    /// the directory or the name actually changes.
    pub fn apply(self, image: Image) -> (r: (Image, bool))
        ensures
            r.0.id == image.id,
            r.0.created == image.created,
            r.0.directory_id == (match self.directory_id {
                Some(d) => d,
                None => image.directory_id,
            }),
            r.0.name@ == (match self.name {
                Some(n) => n@,
                None => image.name@,
            }),
            r.0.notes@ == (match self.notes {
                Some(n) => n@,
                None => image.notes@,
            }),
            r.1 == (r.0.directory_id != image.directory_id || r.0.name@ != image.name@),
    {
        let mut image = image;
        let moves = match self.directory_id {
            Some(d) => d != image.directory_id,
            None => false,
        } || match &self.name {
            Some(n) => *n != image.name,
            None => false,
        };
        if moves {
            if let Some(d) = self.directory_id {
                image.directory_id = d;
            }
            if let Some(n) = self.name {
                image.name = n;
            }
        }
        if let Some(n) = self.notes {
            image.notes = n;
        }
        (image, moves)
    }
}

} // verus!

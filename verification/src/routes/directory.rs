//! The directory page's forms: creating a directory inside another, and the
//! checkboxes that pick images to delete or move.

use vstd::prelude::*;
use crate::error::{Error, BAD_REQUEST};
use crate::text::{owned, parse_i64, parsed_i64, same_text};

verus! {

/// The form that creates a directory inside the current one.
pub struct CreateDirectory {
    pub name: String,
}

/// The ids picked by a form of checkboxes, given as its (field, value) pairs
/// in order: each field whose name reads as an `i64` and whose value is
/// `on`, in order.
pub open spec fn picked_ids(entries: Seq<(String, String)>) -> Seq<i64>
    decreases entries.len(),
{
    if entries.len() == 0 {
        Seq::<i64>::empty()
    } else {
        let rest = picked_ids(entries.drop_last());
        let (field, value) = entries.last();
        match parsed_i64(field@) {
            Some(id) => if value@ == "on"@ {
                rest.push(id)
            } else {
                rest
            },
            None => rest,
        }
    }
}

/// The value of the first field named `key`.
pub open spec fn field_value(entries: Seq<(String, String)>, key: Seq<char>) -> Option<Seq<char>>
    decreases entries.len(),
{
    if entries.len() == 0 {
        None
    } else if entries[0].0@ == key {
        Some(entries[0].1@)
    } else {
        field_value(entries.drop_first(), key)
    }
}

/// The ids of the images picked in a form of checkboxes (see `picked_ids`).
pub fn selected_ids(entries: &Vec<(String, String)>) -> (ids: Vec<i64>)
    ensures
        ids@ == picked_ids(entries@),
{
    let mut ids: Vec<i64> = Vec::new();
    let mut i: usize = 0;
    while i < entries.len()
        invariant
            i <= entries.len(),
            ids@ == picked_ids(entries@.take(i as int)),
        decreases entries.len() - i,
    {
        assert(entries@.take(i + 1).drop_last() =~= entries@.take(i as int));
        assert(entries@.take(i + 1).last() == entries@[i as int]);
        let (field, value) = &entries[i];
        if let Some(id) = parse_i64(field.as_str()) {
            if same_text(value.as_str(), "on") {
                ids.push(id);
            }
        }
        i = i + 1;
    }
    assert(entries@.take(entries.len() as int) =~= entries@);
    ids
}

/// The directory chosen in the move form: the value of its `new_dir_id`
/// field read as an `i64`. Refused with `400` ("Missing new_dir_id.") where
/// the field is missing or does not read as an `i64`.
pub fn new_dir_id(entries: &Vec<(String, String)>) -> (r: Result<i64, Error>)
    ensures
        match field_value(entries@, "new_dir_id"@) {
            Some(v) if parsed_i64(v) is Some => r == Ok::<i64, Error>(parsed_i64(v)->0),
            _ => r matches Err(Error::StatusCode(code, m)) && code == BAD_REQUEST && m@
                == "Missing new_dir_id."@,
        },
{
    let mut i: usize = 0;
    assert(entries@.skip(0) =~= entries@);
    while i < entries.len()
        invariant
            i <= entries.len(),
            field_value(entries@, "new_dir_id"@) == field_value(entries@.skip(i as int), "new_dir_id"@),
        decreases entries.len() - i,
    {
        assert(entries@.skip(i as int).drop_first() =~= entries@.skip(i + 1));
        assert(entries@.skip(i as int)[0] == entries@[i as int]);
        let (field, value) = &entries[i];
        if same_text(field.as_str(), "new_dir_id") {
            return match parse_i64(value.as_str()) {
                Some(id) => Ok(id),
                None => Err(Error::StatusCode(BAD_REQUEST, owned("Missing new_dir_id."))),
            };
        }
        i = i + 1;
    }
    Err(Error::StatusCode(BAD_REQUEST, owned("Missing new_dir_id.")))
}

/// The ids picked from a form are the ids named by its fields ticked `on`,
/// and none besides: an id is picked exactly when some field's name reads as
/// that id and its value is `on`. No more ids are picked than there are
/// fields.
proof fn lemma_picked_ids_members(entries: Seq<(String, String)>)
    ensures
        picked_ids(entries).len() <= entries.len(),
        forall|id: i64|
            #![trigger picked_ids(entries).contains(id)]
            picked_ids(entries).contains(id) <==> exists|j: int|
                0 <= j < entries.len() && parsed_i64(entries[j].0@) == Some(id)
                    && #[trigger] entries[j].1@ == "on"@,
    decreases entries.len(),
{
    if entries.len() > 0 {
        let rest = entries.drop_last();
        lemma_picked_ids_members(rest);
        let last = entries.last();
        let k = entries.len() - 1;
        assert(entries[k] == last);
        let p = picked_ids(entries);
        let q = picked_ids(rest);
        let cond = parsed_i64(last.0@) is Some && last.1@ == "on"@;
        assert(p == if cond { q.push(parsed_i64(last.0@)->0) } else { q });
        assert forall|id: i64|
            #![trigger picked_ids(entries).contains(id)]
            picked_ids(entries).contains(id) <==> exists|j: int|
                0 <= j < entries.len() && parsed_i64(entries[j].0@) == Some(id)
                    && #[trigger] entries[j].1@ == "on"@ by {
            let there = exists|j: int|
                0 <= j < entries.len() && parsed_i64(entries[j].0@) == Some(id)
                    && #[trigger] entries[j].1@ == "on"@;
            let there_before = exists|j: int|
                0 <= j < rest.len() && parsed_i64(rest[j].0@) == Some(id)
                    && #[trigger] rest[j].1@ == "on"@;
            let at_last = cond && parsed_i64(last.0@) == Some(id);
            assert(p.contains(id) == (q.contains(id) || at_last)) by {
                if cond {
                    assert(p[p.len() - 1] == parsed_i64(last.0@)->0);
                    if p.contains(id) {
                        let t = choose|t: int| 0 <= t < p.len() && p[t] == id;
                        if t < q.len() {
                            assert(q[t] == id);
                        }
                    }
                    if q.contains(id) {
                        let t = choose|t: int| 0 <= t < q.len() && q[t] == id;
                        assert(p[t] == id);
                    }
                }
            }
            if there_before {
                let j = choose|j: int|
                    0 <= j < rest.len() && parsed_i64(rest[j].0@) == Some(id)
                        && #[trigger] rest[j].1@ == "on"@;
                assert(entries[j] == rest[j]);
                assert(entries[j].1@ == "on"@);
            }
            if at_last {
                assert(entries[k].1@ == "on"@);
            }
            if there {
                let j = choose|j: int|
                    0 <= j < entries.len() && parsed_i64(entries[j].0@) == Some(id)
                        && #[trigger] entries[j].1@ == "on"@;
                if j < k {
                    assert(rest[j] == entries[j]);
                    assert(rest[j].1@ == "on"@);
                }
            }
        }
    }
}

/// An empty form picks no image.
pub proof fn law_selected_ids_empty(entries: &Vec<(String, String)>, ids: Vec<i64>)
    requires
        call_ensures(selected_ids, (entries,), ids),
        entries@.len() == 0,
    ensures
        ids@.len() == 0,
{
}

/// Every field of a form counts, the last one included: adding a field at
/// the end of a form adds its id at the end of the picked ids when its name
/// reads as an id and its value is `on`, and changes nothing otherwise.
pub proof fn law_selected_ids_push(
    form: &Vec<(String, String)>,
    ids: Vec<i64>,
    longer: &Vec<(String, String)>,
    longer_ids: Vec<i64>,
)
    requires
        call_ensures(selected_ids, (form,), ids),
        call_ensures(selected_ids, (longer,), longer_ids),
        longer@.len() == form@.len() + 1,
        forall|i: int| 0 <= i < form@.len() ==> longer@[i] == form@[i],
    ensures
        match parsed_i64(longer@.last().0@) {
            Some(id) if longer@.last().1@ == "on"@ => longer_ids@ == ids@.push(id),
            _ => longer_ids@ == ids@,
        },
{
    assert(longer@.drop_last() =~= form@);
}

/// The ids picked from a form are exactly the ids named by its fields ticked
/// `on`: an id is picked when, and only when, some field's name reads as
/// that id and its value is `on`.
pub proof fn law_selected_ids_members(entries: &Vec<(String, String)>, ids: Vec<i64>)
    requires
        call_ensures(selected_ids, (entries,), ids),
    ensures
        ids@.len() <= entries@.len(),
        forall|id: i64|
            #![trigger ids@.contains(id)]
            ids@.contains(id) <==> exists|j: int|
                0 <= j < entries@.len() && parsed_i64(entries@[j].0@) == Some(id)
                    && #[trigger] entries@[j].1@ == "on"@,
{
    lemma_picked_ids_members(entries@);
}

/// The first field named `key` gives the value found for `key`.
proof fn lemma_field_value_first(entries: Seq<(String, String)>, key: Seq<char>, j: int)
    requires
        0 <= j < entries.len(),
        entries[j].0@ == key,
        forall|k: int| 0 <= k < j ==> #[trigger] entries[k].0@ != key,
    ensures
        field_value(entries, key) == Some(entries[j].1@),
    decreases j,
{
    if j > 0 {
        assert(entries[0].0@ != key);
        let rest = entries.drop_first();
        assert forall|k: int| 0 <= k < j - 1 implies #[trigger] rest[k].0@ != key by {
            assert(rest[k] == entries[k + 1]);
        }
        assert(rest[j - 1] == entries[j]);
        lemma_field_value_first(rest, key, j - 1);
    }
}

/// Without a field named `key`, no value is found for it.
proof fn lemma_field_value_none(entries: Seq<(String, String)>, key: Seq<char>)
    requires
        forall|k: int| 0 <= k < entries.len() ==> #[trigger] entries[k].0@ != key,
    ensures
        field_value(entries, key) is None,
    decreases entries.len(),
{
    if entries.len() > 0 {
        let rest = entries.drop_first();
        assert forall|k: int| 0 <= k < rest.len() implies #[trigger] rest[k].0@ != key by {
            assert(rest[k] == entries[k + 1]);
        }
        lemma_field_value_none(rest, key);
    }
}

/// The target of a move is read from the first field named `new_dir_id`,
/// wherever it stands in the form: its value read as an `i64`. A form
/// without such a field, or whose first such field does not read as an
/// `i64`, is refused with `400` ("Missing new_dir_id.").
pub proof fn law_new_dir_id(entries: &Vec<(String, String)>, r: Result<i64, Error>)
    requires
        call_ensures(new_dir_id, (entries,), r),
    ensures
        forall|j: int|
            0 <= j < entries@.len() && #[trigger] entries@[j].0@ == "new_dir_id"@ && (forall|k: int|
                0 <= k < j ==> entries@[k].0@ != "new_dir_id"@) ==> match parsed_i64(
                entries@[j].1@,
            ) {
                Some(x) => r == Ok::<i64, Error>(x),
                None => r matches Err(Error::StatusCode(code, m)) && code == BAD_REQUEST && m@
                    == "Missing new_dir_id."@,
            },
        (forall|j: int| 0 <= j < entries@.len() ==> #[trigger] entries@[j].0@ != "new_dir_id"@)
            ==> (r matches Err(Error::StatusCode(code, m)) && code == BAD_REQUEST && m@
            == "Missing new_dir_id."@),
{
    assert forall|j: int|
        0 <= j < entries@.len() && #[trigger] entries@[j].0@ == "new_dir_id"@ && (forall|k: int|
            0 <= k < j ==> entries@[k].0@ != "new_dir_id"@) implies match parsed_i64(
        entries@[j].1@,
    ) {
        Some(x) => r == Ok::<i64, Error>(x),
        None => r matches Err(Error::StatusCode(code, m)) && code == BAD_REQUEST && m@
            == "Missing new_dir_id."@,
    } by {
        lemma_field_value_first(entries@, "new_dir_id"@, j);
    }
    if forall|j: int| 0 <= j < entries@.len() ==> #[trigger] entries@[j].0@ != "new_dir_id"@ {
        lemma_field_value_none(entries@, "new_dir_id"@);
    }
}

} // verus!

//! The JSON descriptions the store keeps: reading them with serde_json,
//! merging an incoming description into a stored one, and marking a stored
//! participant as disconnected.
use vstd::prelude::*;
use crate::table::{key_is, position, upsert};
use crate::ordering::lemma_first_index;
use crate::text::{concat, seq_starts_with, str_eq};

verus! {

/// A field of a JSON object: its key and the JSON text of its value.
pub open spec fn field_key() -> spec_fn((Seq<char>, Seq<char>)) -> Seq<char> {
    |f: (Seq<char>, Seq<char>)| f.0
}

pub open spec fn fields_view(fields: Seq<(String, String)>) -> Seq<(Seq<char>, Seq<char>)> {
    fields.map_values(|f: (String, String)| (f.0@, f.1@))
}

/// What serde_json reads of a text as a JSON value: `None` when the text is
/// not JSON; otherwise the value written back as compact JSON text, and, when
/// the value is an object, its fields in the order of its map, each value
/// written as compact JSON text.
pub uninterp spec fn json_read(text: Seq<char>) -> Option<(Seq<char>, Option<Seq<(Seq<char>, Seq<char>)>>)>;

/// The compact JSON text serde_json writes for the object with these fields
/// (a later field replacing an earlier one with the same key).
pub uninterp spec fn json_object_text(fields: Seq<(Seq<char>, Seq<char>)>) -> Seq<char>;

/// `serde_json::from_str::<serde_json::Value>`, the value written back with
/// `to_string`, and an object's fields (`Value::as_object`) with their
/// values written the same way; the error's message when the text is not
/// JSON. The results are named by `json_read`.
#[verifier::external_body]
fn read_json(text: &str) -> (r: Result<(String, Option<Vec<(String, String)>>), String>)
    ensures
        r is Ok <==> json_read(text@) is Some,
        r matches Ok((t, f)) ==> json_read(text@) == Some(
            (
                t@,
                match f {
                    Some(fs) => Some(fields_view(fs@)),
                    None => None,
                },
            ),
        ),
{
    serde_json::from_str::<serde_json::Value>(text)
        .map(|v| (v.to_string(), v.as_object().map(|o| o.iter().map(|(k, x)| (k.clone(), x.to_string())).collect())))
        .map_err(|e| e.to_string())
}

/// A `serde_json::Map` from the fields (each value text read with
/// `serde_json::from_str`, `null` when it is not JSON), written as an object
/// with `to_string`. The result is named by `json_object_text`.
#[verifier::external_body]
fn write_json_object(fields: &Vec<(String, String)>) -> (r: String)
    ensures
        r@ == json_object_text(fields_view(fields@)),
{
    let map: serde_json::Map<String, serde_json::Value> = fields
        .iter()
        .map(|(k, v)| (k.clone(), serde_json::from_str(v).unwrap_or(serde_json::Value::Null)))
        .collect();
    serde_json::Value::Object(map).to_string()
}

/// A value that counts as not given: zero (serde_json writes a zero number
/// as `0`, `0.0` or `-0.0`), the empty string, `false` or `null`.
pub open spec fn json_default(value: Seq<char>) -> bool {
    ||| value == "0"@
    ||| value == "0.0"@
    ||| value == "-0.0"@
    ||| value == "\"\""@
    ||| value == "false"@
    ||| value == "null"@
}

/// Whether a value's JSON text counts as not given (see `json_default`).
pub fn is_json_default(value: &str) -> (r: bool)
    ensures
        r == json_default(value@),
{
    str_eq(value, "0") || str_eq(value, "0.0") || str_eq(value, "-0.0") || str_eq(value, "\"\"")
        || str_eq(value, "false") || str_eq(value, "null")
}

/// The fields `base` with each incoming field that is given laid over them,
/// in order: a field replaces the one with its key, or is added after them.
pub open spec fn overlay(base: Seq<(Seq<char>, Seq<char>)>, incoming: Seq<(Seq<char>, Seq<char>)>) -> Seq<
    (Seq<char>, Seq<char>),
>
    decreases incoming.len(),
{
    if incoming.len() == 0 {
        base
    } else {
        let b = overlay(base, incoming.drop_last());
        if json_default(incoming.last().1) {
            b
        } else {
            upsert(b, field_key(), incoming.last())
        }
    }
}

/// An optional text as an optional character sequence.
pub open spec fn opt_seq(o: Option<&str>) -> Option<Seq<char>> {
    match o {
        Some(s) => Some(s@),
        None => None,
    }
}

/// The description to store when `incoming` arrives and `existing` is
/// stored: `None` when `incoming` is not JSON. Otherwise, when both are
/// objects, the stored fields with the given incoming ones laid over them;
/// when the stored text is JSON but either is not an object, the stored
/// value; when nothing readable is stored, the incoming value. Values come
/// back as serde_json writes them.
pub open spec fn spec_merge_json(existing: Option<Seq<char>>, incoming: Seq<char>) -> Option<Seq<char>> {
    match json_read(incoming) {
        None => None,
        Some((inc_text, inc_fields)) => Some(
            match existing {
                None => inc_text,
                Some(e) => match json_read(e) {
                    None => inc_text,
                    Some((e_text, e_fields)) => match (e_fields, inc_fields) {
                        (Some(b), Some(o)) => json_object_text(overlay(b, o)),
                        _ => e_text,
                    },
                },
            },
        ),
    }
}

/// Sets a field: replaces the one with its key, or adds it after the others.
fn set_field(fields: &mut Vec<(String, String)>, key: String, value: String)
    ensures
        fields_view(final(fields)@) == upsert(fields_view(old(fields)@), field_key(), (key@, value@)),
{
    let ghost s = fields_view(fields@);
    let ghost p = key_is(field_key(), key@);
    let ghost row = (key@, value@);
    assert(field_key()(row) == key@);
    let mut i: usize = 0;
    while i < fields.len()
        invariant
            i <= fields.len(),
            s == fields_view(fields@),
            p == key_is(field_key(), key@),
            row == (key@, value@),
            field_key()(row) == key@,
            s == fields_view(old(fields)@),
            forall|m: int| 0 <= m < i ==> !p(#[trigger] s[m]),
        decreases fields.len() - i,
    {
        if str_eq(fields[i].0.as_str(), key.as_str()) {
            proof {
                lemma_first_index(s, p, i as int);
            }
            assert(position(s, field_key(), key@) == i as int);
            assert(upsert(s, field_key(), row) == s.update(i as int, row));
            fields.set(i, (key, value));
            assert(fields_view(fields@) =~= s.update(i as int, row));
            return;
        }
        i = i + 1;
    }
    proof {
        lemma_first_index(s, p, i as int);
    }
    assert(position(s, field_key(), key@) == -1);
    assert(upsert(s, field_key(), row) == s.push(row));
    fields.push((key, value));
    assert(fields_view(fields@) =~= s.push(row));
}

/// The fields with the given incoming fields laid over them (see `overlay`).
fn overlay_fields(base: Vec<(String, String)>, incoming: &Vec<(String, String)>) -> (r: Vec<(String, String)>)
    ensures
        fields_view(r@) == overlay(fields_view(base@), fields_view(incoming@)),
{
    let ghost b0 = fields_view(base@);
    let ghost iv = fields_view(incoming@);
    let mut out = base;
    let mut i: usize = 0;
    assert(iv.take(0) =~= Seq::<(Seq<char>, Seq<char>)>::empty());
    while i < incoming.len()
        invariant
            i <= incoming.len(),
            iv == fields_view(incoming@),
            fields_view(out@) == overlay(b0, iv.take(i as int)),
        decreases incoming.len() - i,
    {
        assert(iv.take(i + 1).drop_last() =~= iv.take(i as int));
        assert(iv.take(i + 1).last() == iv[i as int]);
        let (k, v) = (incoming[i].0.clone(), incoming[i].1.clone());
        assert(iv[i as int] == (k@, v@));
        if !is_json_default(v.as_str()) {
            set_field(&mut out, k, v);
        }
        i = i + 1;
    }
    assert(iv.take(incoming.len() as int) =~= iv);
    out
}

/// Merges an incoming JSON description into the stored one (see
/// `spec_merge_json`); the error, when the incoming text is not JSON, says
/// so.
pub fn merge_room_json(existing: Option<&str>, incoming: &str) -> (r: Result<String, String>)
    ensures
        r is Ok <==> json_read(incoming@) is Some,
        r matches Ok(j) ==> spec_merge_json(opt_seq(existing), incoming@) == Some(j@),
        r matches Err(m) ==> seq_starts_with(m@, "failed to parse incoming room json: "@),
{
    let (inc_text, inc_fields) = match read_json(incoming) {
        Ok(x) => x,
        Err(e) => {
            let m = concat("failed to parse incoming room json: ", e.as_str());
            assert(m@.subrange(0, "failed to parse incoming room json: "@.len() as int)
                =~= "failed to parse incoming room json: "@);
            return Err(m);
        },
    };
    match existing {
        None => Ok(inc_text),
        Some(stored) => match read_json(stored) {
            Err(_) => Ok(inc_text),
            Ok((stored_text, stored_fields)) => match (stored_fields, inc_fields) {
                (Some(b), Some(o)) => {
                    let merged = overlay_fields(b, &o);
                    Ok(write_json_object(&merged))
                },
                _ => Ok(stored_text),
            },
        },
    }
}

/// A stored participant's description marked as disconnected: `None` when
/// it is not JSON; an object with its `state` field set to 3; any other
/// value as it is. Values come back as serde_json writes them.
pub open spec fn spec_mark_disconnected(text: Seq<char>) -> Option<Seq<char>> {
    match json_read(text) {
        None => None,
        Some((t, fields)) => Some(
            match fields {
                Some(fs) => json_object_text(upsert(fs, field_key(), ("state"@, "3"@))),
                None => t,
            },
        ),
    }
}

/// Marks a stored participant's description as disconnected (see
/// `spec_mark_disconnected`).
pub fn mark_disconnected(json: &str) -> (r: Option<String>)
    ensures
        match r {
            Some(t) => spec_mark_disconnected(json@) == Some(t@),
            None => spec_mark_disconnected(json@) is None,
        },
{
    match read_json(json) {
        Err(_) => None,
        Ok((text, fields)) => match fields {
            Some(fs) => {
                let mut fs = fs;
                set_field(&mut fs, "state".to_owned(), "3".to_owned());
                Some(write_json_object(&fs))
            },
            None => Some(text),
        },
    }
}

} // verus!

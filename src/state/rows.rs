//! Rows of a persistent store: an identifier written as UUID text beside the
//! value. Encoding an object for storage and decoding what was read back.
use vstd::prelude::*;
use crate::object::{Object, ObjectID};
use crate::state::StoreError;

verus! {

/// The hyphenated lower-case text of the UUID `id`.
pub uninterp spec fn id_text(id: u128) -> Seq<char>;

/// The UUID that `text` spells, or `None` where it spells none.
pub uninterp spec fn id_parsed(text: Seq<char>) -> Option<u128>;

/// Relies on `uuid::Uuid::from_u128` and the `Display` impl of `Uuid`
/// (hyphenated, lower case), a form that `Uuid::parse_str` reads back.
#[verifier::external_body]
fn uuid_text(id: u128) -> (r: String)
    ensures
        r@ == id_text(id),
        id_parsed(r@) == Some(id),
{
    uuid::Uuid::from_u128(id).to_string()
}

/// Relies on `uuid::Uuid::parse_str`, read out with `Uuid::as_u128`.
#[verifier::external_body]
fn uuid_parse(text: &str) -> (r: Option<u128>)
    ensures
        r == id_parsed(text@),
{
    uuid::Uuid::parse_str(text).ok().map(|u| u.as_u128())
}

/// The text under which a persistent store keeps the identifier `object_id`.
pub fn encode_id(object_id: &ObjectID) -> (r: String)
    ensures
        r@ == id_text(*object_id),
        id_parsed(r@) == Some(*object_id),
{
    uuid_text(*object_id)
}

/// The row under which a persistent store keeps `object`.
pub fn encode_object(object: &Object) -> (r: (String, u64))
    ensures
        r.0@ == id_text(object.id),
        id_parsed(r.0@) == Some(object.id),
        r.1 == object.value,
{
    (encode_id(&object.id), object.value)
}

/// Every row of `rows` names an identifier.
pub open spec fn all_ids_parse(rows: Seq<(String, u64)>) -> bool {
    forall|i: int| 0 <= i < rows.len() ==> (#[trigger] id_parsed(rows[i].0@)) is Some
}

/// The object that a row whose identifier parses stands for.
pub open spec fn row_object(row: (String, u64)) -> Object {
    Object { id: id_parsed(row.0@)->Some_0, value: row.1 }
}

/// Turns the rows read from a persistent store into objects, in order. The
/// whole call fails on the first row whose identifier is not a UUID.
pub fn decode_rows(rows: &Vec<(String, u64)>) -> (r: Result<Vec<Object>, StoreError>)
    ensures
        r is Ok <==> all_ids_parse(rows@),
        match r {
            Ok(v) => v@.len() == rows@.len() && forall|i: int|
                0 <= i < rows@.len() ==> v@[i] == row_object(#[trigger] rows@[i]),
            Err(e) => exists|i: int|
                0 <= i < rows@.len() && id_parsed(rows@[i].0@) is None && (forall|j: int|
                    0 <= j < i ==> (#[trigger] id_parsed(rows@[j].0@)) is Some) && (
                e matches StoreError::InvalidId(t) && t@ == rows@[i].0@),
        },
{
    let mut objects: Vec<Object> = Vec::new();
    let mut i: usize = 0;
    while i < rows.len()
        invariant
            i <= rows@.len(),
            objects@.len() == i,
            forall|j: int| 0 <= j < i ==> (#[trigger] id_parsed(rows@[j].0@)) is Some,
            forall|j: int| 0 <= j < i ==> objects@[j] == row_object(#[trigger] rows@[j]),
        decreases rows@.len() - i,
    {
        let text = &rows[i].0;
        match uuid_parse(text.as_str()) {
            Some(id) => {
                objects.push(Object { id, value: rows[i].1 });
            },
            None => {
                return Err(StoreError::InvalidId(text.clone()));
            },
        }
        i = i + 1;
    }
    Ok(objects)
}

} // verus!

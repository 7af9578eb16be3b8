use vstd::prelude::*;

verus! {

#[verifier::external_type_specification]
#[verifier::external_body]
pub struct ExJsonValue(serde_json::Value);

/// The integer that serde_json reads from a value, if it holds one that fits
/// in an `i64`.
pub uninterp spec fn json_int(v: serde_json::Value) -> Option<i64>;

/// The text of a value, if it is a JSON string.
pub uninterp spec fn json_text(v: serde_json::Value) -> Option<Seq<char>>;

/// The members of the JSON object in a payload, in the map's iteration order,
/// or `None` where the payload does not parse as a JSON object.
pub uninterp spec fn json_members(payload: Seq<u8>) -> Option<Seq<(Seq<char>, serde_json::Value)>>;

/// The members of a decoded object, seen as text and values.
pub open spec fn members_view(m: Seq<(String, serde_json::Value)>) -> Seq<
    (Seq<char>, serde_json::Value),
> {
    m.map_values(|p: (String, serde_json::Value)| (p.0@, p.1))
}

/// Relies on serde_json::Value::as_i64: the value's integer where it is a
/// number that fits in an `i64`.
#[verifier::external_body]
pub(crate) fn as_int(v: &serde_json::Value) -> (r: Option<i64>)
    ensures
        r == json_int(*v),
{
    v.as_i64()
}

/// Relies on serde_json::Value::as_str: the text where the value is a string.
#[verifier::external_body]
pub(crate) fn as_text(v: &serde_json::Value) -> (r: Option<String>)
    ensures
        match r {
            Some(t) => json_text(*v) == Some(t@),
            None => json_text(*v) is None,
        },
{
    v.as_str().map(|t| t.to_string())
}

/// Relies on serde_json::from_slice into a serde_json::Map and on the map's
/// owning iterator: the object's members, or `None` where the payload does not
/// parse as an object.
#[verifier::external_body]
pub(crate) fn object_members(payload: &[u8]) -> (r: Option<Vec<(String, serde_json::Value)>>)
    ensures
        match r {
            Some(m) => json_members(payload@) == Some(members_view(m@)),
            None => json_members(payload@) is None,
        },
{
    match serde_json::from_slice::<serde_json::Map<String, serde_json::Value>>(payload) {
        Ok(m) => Some(m.into_iter().collect()),
        Err(_) => None,
    }
}

/// Relies on the derived Clone of serde_json::Value: the copy is the same value.
#[verifier::external_body]
pub(crate) fn copy_value(v: &serde_json::Value) -> (r: serde_json::Value)
    ensures
        r == *v,
{
    v.clone()
}

/// Relies on serde_json::Value::Null: the JSON null.
#[verifier::external_body]
pub(crate) fn null_value() -> (r: serde_json::Value) {
    serde_json::Value::Null
}

} // verus!

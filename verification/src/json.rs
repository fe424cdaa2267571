//! The boundary to the JSON decoder. Decoding text into a document tree is
//! done by `serde_json`; this module declares its value type, gives the
//! decoded contents a mathematical model (`JVal`), and wraps the few
//! accessors the sidecar parser reads through.

use vstd::prelude::*;

verus! {

#[verifier::external_type_specification]
#[verifier::external_body]
pub struct ExValue(serde_json::Value);

/// Model of a decoded JSON value: an object is a map from key to value, an
/// array a sequence, a string a character sequence. Numeric payloads are
/// not modelled, because the sidecar schema never reads a number.
pub ghost enum JVal {
    Null,
    Bool(bool),
    Num,
    Str(Seq<char>),
    Arr(Seq<JVal>),
    Obj(Map<Seq<char>, JVal>),
}

/// The contents of a `serde_json::Value`, as a `JVal`.
pub uninterp spec fn jview(v: serde_json::Value) -> JVal;

/// What decoding a given text yields: `None` when the text is not
/// well-formed JSON, otherwise the one document it denotes. Decoding
/// depends on the text alone, so equal texts decode to equal documents.
pub uninterp spec fn json_of(s: Seq<char>) -> Option<JVal>;

/// Relies on `serde_json::from_str::<serde_json::Value>`: decoding is a
/// function of the text alone; ill-formed text is rejected, well-formed
/// text yields its document.
#[verifier::external_body]
pub fn json_from_str(s: &str) -> (r: Option<serde_json::Value>)
    ensures
        match r {
            Some(v) => json_of(s@) == Some(jview(v)),
            None => json_of(s@) is None,
        },
{
    match serde_json::from_str::<serde_json::Value>(s) {
        Ok(v) => Some(v),
        Err(_) => None,
    }
}

/// Relies on `serde_json::Value::get` with a string key: `Some` exactly
/// when the value is an object holding the key, and then the held value.
#[verifier::external_body]
pub fn json_get<'a>(v: &'a serde_json::Value, key: &str) -> (r: Option<&'a serde_json::Value>)
    ensures
        match r {
            Some(w) => jview(*v) matches JVal::Obj(m) && m.contains_key(key@) && m[key@]
                == jview(*w),
            None => !(jview(*v) matches JVal::Obj(m) && m.contains_key(key@)),
        },
{
    v.get(key)
}

/// Relies on `serde_json::Value::as_str`: `Some` exactly on a JSON string,
/// and then its characters.
#[verifier::external_body]
pub fn json_as_str<'a>(v: &'a serde_json::Value) -> (r: Option<&'a str>)
    ensures
        match r {
            Some(s) => jview(*v) == JVal::Str(s@),
            None => !(jview(*v) is Str),
        },
{
    v.as_str()
}

/// Relies on `serde_json::Value::as_array`: `Some` exactly on a JSON
/// array, and then its elements in order.
#[verifier::external_body]
pub fn json_as_array<'a>(v: &'a serde_json::Value) -> (r: Option<&'a Vec<serde_json::Value>>)
    ensures
        match r {
            Some(a) => jview(*v) == JVal::Arr(a@.map_values(|x: serde_json::Value| jview(x))),
            None => !(jview(*v) is Arr),
        },
{
    v.as_array()
}

} // verus!

//! A modeled JSON document.  The serde_json crate does the parsing and
//! printing; the document it hands over is plain data, so everything read
//! out of it is verified.

use vstd::prelude::*;

verus! {

/// A JSON number, as the parser saw it: its integer readings where they are
/// exact, its value's bits as a double where one exists, and the printed
/// token.
pub struct JsonNum {
    pub uval: Option<u64>,
    pub ival: Option<i64>,
    pub fbits: Option<u64>,
    pub repr: String,
}

/// One JSON value.  An object holds its fields in the order they were put
/// in; `json_parse` hands fields over in the parser's map order (sorted by
/// name, a later duplicate replacing an earlier one), and lookups take the
/// first field of a name.
pub enum JsonVal {
    Null,
    Bool(bool),
    Num(JsonNum),
    Str(String),
    Arr(Vec<JsonVal>),
    Obj(Vec<(String, JsonVal)>),
}

/// The first field named `key`, if any.
pub open spec fn obj_get(fields: Seq<(String, JsonVal)>, key: Seq<char>) -> Option<JsonVal>
    decreases fields.len(),
{
    if fields.len() == 0 {
        None
    } else if fields[0].0@ == key {
        Some(fields[0].1)
    } else {
        obj_get(fields.drop_first(), key)
    }
}

/// Look a field up by name.
pub fn lookup<'a>(fields: &'a Vec<(String, JsonVal)>, key: &str) -> (r: Option<&'a JsonVal>)
    ensures
        match r {
            Some(v) => obj_get(fields@, key@) == Some(*v),
            None => obj_get(fields@, key@) is None,
        },
{
    let n = fields.len();
    let mut i: usize = 0;
    proof {
        assert(fields@.skip(0) =~= fields@);
    }
    while i < n
        invariant
            n == fields@.len(),
            0 <= i <= n,
            obj_get(fields@, key@) == obj_get(fields@.skip(i as int), key@),
        decreases n - i,
    {
        proof {
            assert(fields@.skip(i as int)[0] == fields@[i as int]);
            assert(fields@.skip(i as int).drop_first() =~= fields@.skip(i as int + 1));
        }
        if crate::strutil::str_eq(fields[i].0.as_str(), key) {
            return Some(&fields[i].1);
        }
        i = i + 1;
    }
    None
}

// ---------------------------------------------------------------------------
// serde_json, behind trusted declarations
// ---------------------------------------------------------------------------

#[verifier::external_type_specification]
#[verifier::external_body]
pub struct ExValue(serde_json::Value);

/// The document that `json_parse` reads out of `s`, when `s` is well-formed
/// JSON; fixed by the characters of `s` alone.
pub uninterp spec fn json_doc_of(s: Seq<char>) -> Option<JsonVal>;

/// The text that `json_unparse` prints for `d`; fixed by `d` alone.
pub uninterp spec fn json_text_of(d: JsonVal) -> Seq<char>;

/// The recursive arm of `json_parse`.  Relies on the variants of
/// `serde_json::Value` and on `Number::as_u64` / `as_i64` / `as_f64` and the
/// `Number` display form: each maps one parsed value to one document value.
#[verifier::external_body]
fn value_to_doc(v: &serde_json::Value) -> JsonVal {
    match v {
        serde_json::Value::Null => JsonVal::Null,
        serde_json::Value::Bool(b) => JsonVal::Bool(*b),
        serde_json::Value::Number(n) => JsonVal::Num(JsonNum {
            uval: n.as_u64(),
            ival: n.as_i64(),
            fbits: n.as_f64().map(|x| x.to_bits()),
            repr: n.to_string(),
        }),
        serde_json::Value::String(s) => JsonVal::Str(s.clone()),
        serde_json::Value::Array(a) => JsonVal::Arr(a.iter().map(value_to_doc).collect()),
        serde_json::Value::Object(m) => JsonVal::Obj(m.iter().map(|(k, x)| (k.clone(), value_to_doc(x))).collect()),
    }
}

/// The recursive arm of `json_unparse`.  Relies on the `serde_json::Value`
/// constructors; a number is rebuilt from its printed token.
#[verifier::external_body]
fn doc_to_value(d: &JsonVal) -> serde_json::Value {
    match d {
        JsonVal::Null => serde_json::Value::Null,
        JsonVal::Bool(b) => serde_json::Value::Bool(*b),
        JsonVal::Num(n) => serde_json::from_str::<serde_json::Number>(n.repr.as_str()).map(
            serde_json::Value::Number,
        ).unwrap_or(serde_json::Value::Null),
        JsonVal::Str(s) => serde_json::Value::String(s.clone()),
        JsonVal::Arr(a) => serde_json::Value::Array(a.iter().map(doc_to_value).collect()),
        JsonVal::Obj(m) => serde_json::Value::Object(
            m.iter().map(|(k, x)| (k.clone(), doc_to_value(x))).collect(),
        ),
    }
}

/// Relies on `serde_json::from_str::<Value>`: a text either parses to one
/// value or is rejected with a message, by its characters alone.
#[verifier::external_body]
pub fn json_parse(s: &str) -> (r: Result<JsonVal, String>)
    ensures
        r is Ok <==> json_doc_of(s@) is Some,
        match r {
            Ok(d) => Some(d) == json_doc_of(s@),
            Err(_) => true,
        },
{
    match serde_json::from_str::<serde_json::Value>(s) {
        Ok(v) => Ok(value_to_doc(&v)),
        Err(e) => Err(e.to_string()),
    }
}

/// Relies on `serde_json::to_string`: printing a value is fixed by the value
/// alone.
#[verifier::external_body]
pub fn json_unparse(d: &JsonVal) -> (r: String)
    ensures
        r@ == json_text_of(*d),
{
    serde_json::to_string(&doc_to_value(d)).unwrap_or_default()
}

} // verus!

//! A JSON tree and the trusted bridge that produces it.
//!
//! The persisted `extra`/`tracks` columns and the vendor CSV `Value` cells
//! hold JSON text. The text is parsed by serde_json behind a trusted
//! wrapper into this crate's own tree, and every decoding decision made on
//! the tree is verified.
use vstd::prelude::*;

verus! {

/// Mathematical view of `JsonValue`.
pub ghost enum JsonV {
    Null,
    Bool(bool),
    Int(int),
    Num(Seq<char>),
    Str(Seq<char>),
    Arr(Seq<JsonV>),
    Obj(Seq<(Seq<char>, JsonV)>),
}

/// A parsed JSON document. Numbers that are integers fitting `i64` arrive
/// as `Int`; any other number arrives as `Num`, carrying its rendering.
/// Object members arrive with unique keys, in serde_json's map order
/// (sorted by key); the decoders here never depend on that order.
pub enum JsonValue {
    Null,
    Bool(bool),
    Int(i64),
    Num(String),
    Str(String),
    Arr(Vec<JsonValue>),
    Obj(Vec<(String, JsonValue)>),
}

impl View for JsonValue {
    type V = JsonV;

    open spec fn view(&self) -> JsonV
        decreases self,
    {
        match self {
            JsonValue::Null => JsonV::Null,
            JsonValue::Bool(b) => JsonV::Bool(*b),
            JsonValue::Int(i) => JsonV::Int(*i as int),
            JsonValue::Num(s) => JsonV::Num(s@),
            JsonValue::Str(s) => JsonV::Str(s@),
            JsonValue::Arr(v) => JsonV::Arr(elems_view(v@)),
            JsonValue::Obj(v) => JsonV::Obj(members_view(v@)),
        }
    }
}

/// The view of an array's element list.
pub open spec fn elems_view(elems: Seq<JsonValue>) -> Seq<JsonV>
    decreases elems,
{
    Seq::new(
        elems.len(),
        |i: int|
            if 0 <= i < elems.len() {
                elems[i]@
            } else {
                JsonV::Null
            },
    )
}

/// The view of an object's member list.
pub open spec fn members_view(fields: Seq<(String, JsonValue)>) -> Seq<(Seq<char>, JsonV)>
    decreases fields,
{
    Seq::new(
        fields.len(),
        |i: int|
            if 0 <= i < fields.len() {
                (fields[i].0@, fields[i].1@)
            } else {
                (Seq::empty(), JsonV::Null)
            },
    )
}

/// What a JSON text parses to, `None` for malformed text. The tree is a
/// function of the text alone.
pub uninterp spec fn json_of(s: Seq<char>) -> Option<JsonV>;

#[verifier::external_type_specification]
#[verifier::external_body]
pub struct ExSerdeJsonValue(serde_json::Value);

/// Relies on serde_json's `Value` tree: each variant is moved across
/// one-for-one; an integral number in `i64` range becomes `Int`, any other
/// number keeps serde_json's rendering of it.
#[verifier::external_body]
fn convert_value(v: serde_json::Value) -> JsonValue {
    match v {
        serde_json::Value::Null => JsonValue::Null,
        serde_json::Value::Bool(b) => JsonValue::Bool(b),
        serde_json::Value::Number(n) => match n.as_i64() {
            Some(i) => JsonValue::Int(i),
            None => JsonValue::Num(n.to_string()),
        },
        serde_json::Value::String(s) => JsonValue::Str(s),
        serde_json::Value::Array(a) => JsonValue::Arr(
            a.into_iter().map(convert_value).collect(),
        ),
        serde_json::Value::Object(m) => JsonValue::Obj(
            m.into_iter().map(|(k, x)| (k, convert_value(x))).collect(),
        ),
    }
}

/// Relies on `serde_json::from_str::<serde_json::Value>`: parses JSON
/// text, `None` exactly for malformed documents; the resulting tree is
/// named `json_of(text)`.
#[verifier::external_body]
pub fn json_parse(s: &str) -> (r: Option<JsonValue>)
    ensures
        match r {
            Some(v) => json_of(s@) == Some(v@),
            None => json_of(s@) is None,
        },
{
    serde_json::from_str::<serde_json::Value>(s).ok().map(convert_value)
}

/// The first member of `fields` named `key`, if any.
pub open spec fn obj_get(fields: Seq<(Seq<char>, JsonV)>, key: Seq<char>) -> Option<JsonV>
    decreases fields.len(),
{
    if fields.len() == 0 {
        None
    } else if fields[0].0 == key {
        Some(fields[0].1)
    } else {
        obj_get(fields.drop_first(), key)
    }
}

/// Looks a key up in an object's member list (first match).
pub fn lookup<'a>(fields: &'a Vec<(String, JsonValue)>, key: &str) -> (r: Option<
    &'a JsonValue,
>)
    ensures
        match r {
            Some(v) => obj_get(members_view(fields@), key@) == Some(v@),
            None => obj_get(members_view(fields@), key@) is None,
        },
{
    let ghost m = members_view(fields@);
    proof {
        assert(m.skip(0) =~= m);
    }
    let mut i: usize = 0;
    while i < fields.len()
        invariant
            i <= fields@.len(),
            m == members_view(fields@),
            obj_get(m, key@) == obj_get(m.skip(i as int), key@),
        decreases fields@.len() - i,
    {
        let pair = &fields[i];
        if crate::text::str_eq(pair.0.as_str(), key) {
            proof {
                assert(m.skip(i as int)[0] == (fields@[i as int].0@, fields@[i as int].1@));
            }
            return Some(&pair.1);
        }
        proof {
            assert(m.skip(i as int)[0] == (fields@[i as int].0@, fields@[i as int].1@));
            assert(m.skip(i as int).drop_first() =~= m.skip(i + 1));
        }
        i += 1;
    }
    proof {
        assert(m.skip(i as int).len() == 0);
    }
    None
}

} // verus!

//! The JSON values that requests and responses carry. The core builds and
//! inspects these values; parsing the wire text is delegated to serde_json
//! behind trusted wrappers, named by `parsed_json` / `parsed_json_bytes`.
//!
//! Numbers are signed 64-bit integers: the protocol's envelopes and payloads
//! carry method codes, sequence numbers and identifiers, never fractional
//! numbers. A parsed number outside that range maps to `Null` and is then
//! rejected wherever a number is required.
use vstd::prelude::*;

verus! {

broadcast use vstd::std_specs::vec::group_vec_axioms;

/// A JSON value, as the core holds it. `duplicate` copies one.
#[derive(Debug, PartialEq, Eq)]
pub enum JsonValue {
    Null,
    Bool(bool),
    Int(i64),
    Str(String),
    Arr(Vec<JsonValue>),
    Obj(Vec<(String, JsonValue)>),
}

/// The mathematical model of a `JsonValue`.
pub enum JsonModel {
    Null,
    Bool(bool),
    Int(int),
    Str(Seq<char>),
    Arr(Seq<JsonModel>),
    Obj(Seq<(Seq<char>, JsonModel)>),
}

pub open spec fn model_of(v: JsonValue) -> JsonModel
    decreases v,
{
    match v {
        JsonValue::Null => JsonModel::Null,
        JsonValue::Bool(b) => JsonModel::Bool(b),
        JsonValue::Int(n) => JsonModel::Int(n as int),
        JsonValue::Str(s) => JsonModel::Str(s@),
        JsonValue::Arr(items) => JsonModel::Arr(models_of(items@)),
        JsonValue::Obj(fields) => JsonModel::Obj(field_models_of(fields@)),
    }
}

/// The models of a sequence of values, in order.
pub open spec fn models_of(items: Seq<JsonValue>) -> Seq<JsonModel>
    decreases items,
{
    if items.len() == 0 {
        Seq::empty()
    } else {
        models_of(items.drop_last()).push(model_of(items.last()))
    }
}

/// The models of an object's fields, in order.
pub open spec fn field_models_of(fields: Seq<(String, JsonValue)>) -> Seq<(Seq<char>, JsonModel)>
    decreases fields,
{
    if fields.len() == 0 {
        Seq::empty()
    } else {
        field_models_of(fields.drop_last()).push(
            (fields.last().0@, model_of(fields.last().1)),
        )
    }
}

pub proof fn lemma_models_of(items: Seq<JsonValue>)
    ensures
        models_of(items).len() == items.len(),
        forall|i: int| 0 <= i < items.len() ==> models_of(items)[i] == model_of(items[i]),
    decreases items.len(),
{
    if items.len() > 0 {
        lemma_models_of(items.drop_last());
    }
}

pub proof fn lemma_field_models_of(fields: Seq<(String, JsonValue)>)
    ensures
        field_models_of(fields).len() == fields.len(),
        forall|i: int|
            0 <= i < fields.len() ==> field_models_of(fields)[i] == (
            fields[i].0@,
            model_of(fields[i].1),
            ),
    decreases fields.len(),
{
    if fields.len() > 0 {
        lemma_field_models_of(fields.drop_last());
    }
}

impl View for JsonValue {
    type V = JsonModel;

    open spec fn view(&self) -> JsonModel {
        model_of(*self)
    }
}

impl JsonValue {
    /// A structurally equal copy.
    pub fn duplicate(&self) -> (r: JsonValue)
        ensures
            r@ == self@,
        decreases self,
    {
        match self {
            JsonValue::Null => JsonValue::Null,
            JsonValue::Bool(b) => JsonValue::Bool(*b),
            JsonValue::Int(n) => JsonValue::Int(*n),
            JsonValue::Str(s) => JsonValue::Str(s.clone()),
            JsonValue::Arr(items) => {
                let mut out: Vec<JsonValue> = Vec::new();
                let mut i: usize = 0;
                while i < items.len()
                    invariant
                        0 <= i <= items@.len(),
                        out@.len() == i,
                        forall|k: int| 0 <= k < i ==> out@[k]@ == model_of(items@[k]),
                    decreases items@.len() - i,
                {
                    out.push(items[i].duplicate());
                    i += 1;
                }
                proof {
                    lemma_models_of(out@);
                    lemma_models_of(items@);
                    assert(models_of(out@) =~= models_of(items@));
                }
                JsonValue::Arr(out)
            },
            JsonValue::Obj(fields) => {
                let mut out: Vec<(String, JsonValue)> = Vec::new();
                let mut i: usize = 0;
                while i < fields.len()
                    invariant
                        0 <= i <= fields@.len(),
                        out@.len() == i,
                        forall|k: int|
                            0 <= k < i ==> out@[k].0@ == fields@[k].0@ && out@[k].1@ == model_of(
                                fields@[k].1,
                            ),
                    decreases fields@.len() - i,
                {
                    let key = fields[i].0.clone();
                    let val = fields[i].1.duplicate();
                    out.push((key, val));
                    i += 1;
                }
                proof {
                    lemma_field_models_of(out@);
                    lemma_field_models_of(fields@);
                    assert(field_models_of(out@) =~= field_models_of(fields@));
                }
                JsonValue::Obj(out)
            },
        }
    }
}

/// The value bound to `key` in an object's field list, first occurrence.
pub open spec fn obj_lookup(fields: Seq<(Seq<char>, JsonModel)>, key: Seq<char>) -> Option<
    JsonModel,
>
    decreases fields.len(),
{
    if fields.len() == 0 {
        None
    } else if fields[0].0 == key {
        Some(fields[0].1)
    } else {
        obj_lookup(fields.drop_first(), key)
    }
}

/// Find the value bound to `key` among an object's fields.
pub fn lookup_field<'a>(fields: &'a Vec<(String, JsonValue)>, key: &str) -> (r: Option<
    &'a JsonValue,
>)
    ensures
        match r {
            Some(v) => obj_lookup(field_models_of(fields@), key@) == Some(v@),
            None => obj_lookup(field_models_of(fields@), key@) is None,
        },
{
    let ghost m = field_models_of(fields@);
    let mut i: usize = 0;
    proof {
        lemma_field_models_of(fields@);
        assert(m.subrange(0, m.len() as int) =~= m);
    }
    while i < fields.len()
        invariant
            0 <= i <= fields@.len(),
            m == field_models_of(fields@),
            m.len() == fields@.len(),
            forall|k: int| 0 <= k < m.len() ==> m[k] == (fields@[k].0@, model_of(fields@[k].1)),
            obj_lookup(m, key@) == obj_lookup(m.subrange(i as int, m.len() as int), key@),
        decreases fields@.len() - i,
    {
        proof {
            let rest = m.subrange(i as int, m.len() as int);
            assert(rest[0] == m[i as int]);
            assert(rest.drop_first() =~= m.subrange(i + 1, m.len() as int));
        }
        if crate::text::str_eq(fields[i].0.as_str(), key) {
            return Some(&fields[i].1);
        }
        i += 1;
    }
    proof {
        assert(m.subrange(fields@.len() as int, m.len() as int).len() == 0);
    }
    None
}

/// Declares serde_json's value type so the parse wrappers can hold it; the
/// core never looks inside one.
#[verifier::external_type_specification]
#[verifier::external_body]
pub struct ExSerdeValue(serde_json::Value);

/// The value that `parse_json` yields on a given text; `None` where the text
/// is not valid JSON.
pub uninterp spec fn parsed_json(s: Seq<char>) -> Option<JsonModel>;

/// The value that `parse_json_bytes` yields on given bytes; `None` where the
/// bytes are not valid JSON.
pub uninterp spec fn parsed_json_bytes(s: Seq<u8>) -> Option<JsonModel>;

/// Relies on serde_json::Value and its accessors: each JSON kind moves to the
/// library's value kind of the same name; a number outside the signed 64-bit
/// integer range becomes `Null`.
#[verifier::external_body]
fn from_serde(v: serde_json::Value) -> JsonValue {
    match v {
        serde_json::Value::Null => JsonValue::Null,
        serde_json::Value::Bool(b) => JsonValue::Bool(b),
        serde_json::Value::Number(n) => match n.as_i64() {
            Some(i) => JsonValue::Int(i),
            None => JsonValue::Null,
        },
        serde_json::Value::String(s) => JsonValue::Str(s),
        serde_json::Value::Array(a) => JsonValue::Arr(a.into_iter().map(from_serde).collect()),
        serde_json::Value::Object(o) => JsonValue::Obj(
            o.into_iter().map(|(k, x)| (k, from_serde(x))).collect(),
        ),
    }
}

/// Relies on serde_json::from_str: whether a text is valid JSON, and the
/// value it denotes, are functions of the text alone.
#[verifier::external_body]
pub fn parse_json(text: &str) -> (r: Result<JsonValue, String>)
    ensures
        match r {
            Ok(v) => parsed_json(text@) == Some(v@),
            Err(_) => parsed_json(text@) is None,
        },
{
    match serde_json::from_str::<serde_json::Value>(text) {
        Ok(v) => Ok(from_serde(v)),
        Err(e) => Err(e.to_string()),
    }
}

/// Relies on serde_json::from_slice: whether bytes are valid JSON, and the
/// value they denote, are functions of the bytes alone.
#[verifier::external_body]
pub fn parse_json_bytes(bytes: &Vec<u8>) -> (r: Result<JsonValue, String>)
    ensures
        match r {
            Ok(v) => parsed_json_bytes(bytes@) == Some(v@),
            Err(_) => parsed_json_bytes(bytes@) is None,
        },
{
    match serde_json::from_slice::<serde_json::Value>(bytes) {
        Ok(v) => Ok(from_serde(v)),
        Err(e) => Err(e.to_string()),
    }
}

} // verus!

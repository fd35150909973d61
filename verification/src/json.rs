//! The library's JSON document model.
//!
//! A decrypted save file is a JSON document.  The model holds it as plain
//! values: booleans, strings, number literal text, arrays and ordered
//! key/value lists.  serde_json does the parsing behind a trusted
//! boundary; every reading of the tree afterwards is verified.

use vstd::prelude::*;

verus! {

/// A JSON number, kept as its decimal literal text.  Integers appear as
/// plain digits; non-integers always carry a fraction or an exponent.
#[derive(Debug, PartialEq)]
pub struct JsonNumber {
    pub text: String,
}

/// A JSON value as plain data.
#[derive(Debug, PartialEq)]
pub enum JsonValue {
    Null,
    Bool(bool),
    Num(JsonNumber),
    Str(String),
    Arr(Vec<JsonValue>),
    Obj(Vec<(String, JsonValue)>),
}

/// Look a key up in an ordered entry list: the first match counts.
pub open spec fn spec_obj_get(entries: Seq<(String, JsonValue)>, key: Seq<char>) -> Option<
    JsonValue,
>
    decreases entries.len(),
{
    if entries.len() == 0 {
        None
    } else if entries[0].0@ == key {
        Some(entries[0].1)
    } else {
        spec_obj_get(entries.drop_first(), key)
    }
}

/// Look a key up in a value: only objects hold members.
pub open spec fn spec_get(v: JsonValue, key: Seq<char>) -> Option<JsonValue> {
    match v {
        JsonValue::Obj(entries) => spec_obj_get(entries@, key),
        _ => None,
    }
}

impl JsonValue {
    /// The member of this object named `key`, if any.
    pub fn get<'a>(&'a self, key: &String) -> (r: Option<&'a JsonValue>)
        ensures
            match r {
                Some(v) => spec_get(*self, key@) == Some(*v),
                None => spec_get(*self, key@) is None,
            },
    {
        match self {
            JsonValue::Obj(entries) => {
                proof {
                    assert(*self == JsonValue::Obj(*entries));
                }
                let n = entries.len();
                let mut i: usize = 0;
                proof {
                    assert(entries@.skip(0) =~= entries@);
                }
                while i < n
                    invariant
                        i <= n,
                        n == entries@.len(),
                        *self == JsonValue::Obj(*entries),
                        spec_obj_get(entries@, key@) == spec_obj_get(
                            entries@.skip(i as int),
                            key@,
                        ),
                    decreases n - i,
                {
                    let e = &entries[i];
                    if e.0 == *key {
                        proof {
                            assert(entries@.skip(i as int)[0] == entries@[i as int]);
                            assert(entries@.skip(i as int)[0].0@ == key@);
                            assert(spec_obj_get(entries@.skip(i as int), key@) == Some(
                                entries@[i as int].1,
                            ));
                            assert(spec_get(*self, key@) == spec_obj_get(entries@, key@));
                        }
                        return Some(&entries[i].1);
                    }
                    proof {
                        assert(entries@.skip(i as int).drop_first() =~= entries@.skip(i + 1));
                    }
                    i = i + 1;
                }
                proof {
                    assert(entries@.skip(n as int) =~= Seq::<(String, JsonValue)>::empty());
                }
                None
            },
            _ => None,
        }
    }
}

/// What serde_json makes of a document text, carried into the model:
/// the converted value tree, or nothing when the text is not a JSON
/// document it accepts.
pub uninterp spec fn json_parse_of(text: Seq<char>) -> Option<JsonValue>;

/// Relies on `serde_json::from_str::<serde_json::Value>`: it accepts a
/// text exactly when the text is one JSON document, and its result is a
/// function of the text alone.  The tree is carried over by
/// [`value_model`].
#[verifier::external_body]
pub(crate) fn parse_json_text(text: &str) -> (r: Option<JsonValue>)
    ensures
        r matches Some(v) ==> json_parse_of(text@) == Some(v),
        r is None ==> json_parse_of(text@) is None,
{
    match serde_json::from_str::<serde_json::Value>(text) {
        Ok(v) => Some(value_model(v)),
        Err(_) => None,
    }
}

/// serde_json's value tree, declared so that [`value_model`] can take it;
/// the library never reads inside it.
#[verifier::external_type_specification]
#[verifier::external_body]
pub struct ExValue(serde_json::Value);

/// Relies on serde_json's `Value`: one arm per variant, moving fields
/// into the model.  A number keeps the canonical text of its `Display`
/// form; object entries keep serde_json's map order.
#[verifier::external_body]
fn value_model(v: serde_json::Value) -> JsonValue {
    match v {
        serde_json::Value::Null => JsonValue::Null,
        serde_json::Value::Bool(b) => JsonValue::Bool(b),
        serde_json::Value::Number(n) => JsonValue::Num(JsonNumber { text: n.to_string() }),
        serde_json::Value::String(s) => JsonValue::Str(s),
        serde_json::Value::Array(a) => JsonValue::Arr(a.into_iter().map(value_model).collect()),
        serde_json::Value::Object(m) => JsonValue::Obj(
            m.into_iter().map(|(k, w)| (k, value_model(w))).collect(),
        ),
    }
}

} // verus!

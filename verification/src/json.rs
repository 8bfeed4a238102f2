//! A plain JSON tree, its mathematical model, and the trusted bridge to
//! `serde_json`, which does the actual parsing and printing.

use vstd::prelude::*;

verus! {

broadcast use vstd::std_specs::vec::axiom_vec_index_decreases;

/// A JSON document as plain values. Numbers are kept in their textual
/// form: none of the logic in this crate computes with them.
pub enum JsonValue {
    Null,
    Bool(bool),
    Number(String),
    Text(String),
    Array(Vec<JsonValue>),
    Object(Vec<(String, JsonValue)>),
}

/// The mathematical model of a `JsonValue`: the same tree over `Seq`.
pub enum JsonModel {
    Null,
    Bool(bool),
    Number(Seq<char>),
    Text(Seq<char>),
    Array(Seq<JsonModel>),
    Object(Seq<(Seq<char>, JsonModel)>),
}

impl JsonValue {
    /// The model of this tree: every `String` becomes its `Seq<char>`
    /// and every `Vec` its `Seq`.
    pub open spec fn model(self) -> JsonModel
        decreases self,
        via Self::model_dec
    {
        match self {
            JsonValue::Null => JsonModel::Null,
            JsonValue::Bool(b) => JsonModel::Bool(b),
            JsonValue::Number(s) => JsonModel::Number(s@),
            JsonValue::Text(s) => JsonModel::Text(s@),
            JsonValue::Array(a) => JsonModel::Array(
                Seq::new(
                    a@.len(),
                    |i: int|
                        if 0 <= i < a@.len() {
                            a[i].model()
                        } else {
                            JsonModel::Null
                        },
                ),
            ),
            JsonValue::Object(o) => JsonModel::Object(
                Seq::new(
                    o@.len(),
                    |i: int|
                        if 0 <= i < o@.len() {
                            (o[i].0@, o[i].1.model())
                        } else {
                            (Seq::empty(), JsonModel::Null)
                        },
                ),
            ),
        }
    }

    #[via_fn]
    proof fn model_dec(self) {
        broadcast use vstd::std_specs::vec::axiom_vec_index_decreases;

        match self {
            JsonValue::Array(a) => {
                assert forall|i: int| 0 <= i < a@.len() implies decreases_to!(self => a[i]) by {
                    assert(decreases_to!(self => a));
                    assert(decreases_to!(a => a[i]));
                }
            },
            JsonValue::Object(o) => {
                assert forall|i: int| 0 <= i < o@.len() implies decreases_to!(self => o[i].1) by {
                    assert(decreases_to!(self => o));
                    assert(decreases_to!(o => o[i]));
                    assert(decreases_to!(o[i] => o[i].1));
                }
            },
            _ => {},
        }
    }
}

/// What `serde_json` parses a given text into, as a model tree, or
/// `None` where the text is not valid JSON. Parsing depends on the text
/// alone, so the result has a name rather than a page of clauses.
pub uninterp spec fn json_of(text: Seq<char>) -> Option<JsonModel>;

/// The text `serde_json` prints for a given model tree. Printing
/// depends on the tree alone.
pub uninterp spec fn json_text_of(v: JsonModel) -> Seq<char>;

#[verifier::external_type_specification]
#[verifier::external_body]
pub struct ExValue(serde_json::Value);

/// Relies on `serde_json::Value`: turns the parsed tree into this
/// crate's own tree, one variant for one, keeping object order.
#[verifier::external_body]
fn tree_of_value(v: &serde_json::Value) -> JsonValue {
    match v {
        serde_json::Value::Null => JsonValue::Null,
        serde_json::Value::Bool(b) => JsonValue::Bool(*b),
        serde_json::Value::Number(n) => JsonValue::Number(n.to_string()),
        serde_json::Value::String(s) => JsonValue::Text(s.clone()),
        serde_json::Value::Array(a) => JsonValue::Array(a.iter().map(tree_of_value).collect()),
        serde_json::Value::Object(o) => JsonValue::Object(
            o.iter().map(|(k, w)| (k.clone(), tree_of_value(w))).collect(),
        ),
    }
}

/// Relies on `serde_json::Value`: turns this crate's tree back into a
/// `serde_json` tree, one variant for one. A number's text is parsed
/// back as JSON, `Null` where it does not parse; the logic in this
/// crate never builds a number, so neither path runs on trees of its
/// own making, and a parsed number round-trips through its own text.
#[verifier::external_body]
fn value_of_tree(t: &JsonValue) -> serde_json::Value {
    match t {
        JsonValue::Null => serde_json::Value::Null,
        JsonValue::Bool(b) => serde_json::Value::Bool(*b),
        JsonValue::Number(s) => match serde_json::from_str(s) {
            Ok(v) => v,
            Err(_) => serde_json::Value::Null,
        },
        JsonValue::Text(s) => serde_json::Value::String(s.clone()),
        JsonValue::Array(a) => serde_json::Value::Array(a.iter().map(value_of_tree).collect()),
        JsonValue::Object(o) => serde_json::Value::Object(
            o.iter().map(|(k, w)| (k.clone(), value_of_tree(w))).collect(),
        ),
    }
}

/// Relies on `serde_json::from_str`: whether a text parses, and to what
/// tree, depends on the text alone.
#[verifier::external_body]
pub fn parse_json(text: &str) -> (r: Option<JsonValue>)
    ensures
        match r {
            Some(v) => json_of(text@) == Some(v.model()),
            None => json_of(text@) is None,
        },
{
    match serde_json::from_str::<serde_json::Value>(text) {
        Ok(v) => Some(tree_of_value(&v)),
        Err(_) => None,
    }
}

/// Relies on `serde_json::Value`'s printer: the text depends on the
/// tree alone (object keys come out in the backing map's sorted order,
/// so it depends on nothing outside the tree).
#[verifier::external_body]
pub fn render_json(v: &JsonValue) -> (r: String)
    ensures
        r@ == json_text_of(v.model()),
{
    value_of_tree(v).to_string()
}

} // verus!

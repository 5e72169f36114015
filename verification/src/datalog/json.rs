//! Reading one field of a JSON document.

use vstd::prelude::*;
use vstd::string::*;

use crate::text::text;

verus! {

/// What a JSON document holds under a name.
#[derive(Debug)]
pub enum JsonField {
    /// A string.
    Text(String),
    /// A number, as JSON text.
    Number(String),
    /// `true` or `false`.
    Flag(bool),
    /// `null`, an array or an object.
    Other,
    /// The document is an object without this name, or no object.
    Absent,
    /// The text is no JSON document.
    Invalid,
}

/// What a JSON document holds under a name, text as UTF-8 bytes.
pub ghost enum JsonFieldModel {
    Text(Seq<u8>),
    Number(Seq<u8>),
    Flag(bool),
    Other,
    Absent,
    Invalid,
}

impl View for JsonField {
    type V = JsonFieldModel;

    open spec fn view(&self) -> JsonFieldModel {
        match self {
            JsonField::Text(s) => JsonFieldModel::Text(text(s@)),
            JsonField::Number(s) => JsonFieldModel::Number(text(s@)),
            JsonField::Flag(b) => JsonFieldModel::Flag(*b),
            JsonField::Other => JsonFieldModel::Other,
            JsonField::Absent => JsonFieldModel::Absent,
            JsonField::Invalid => JsonFieldModel::Invalid,
        }
    }
}

/// What the JSON document `doc` holds under `name`.
pub uninterp spec fn json_field_of(doc: Seq<u8>, name: Seq<u8>) -> JsonFieldModel;

/// `serde_json::from_str` and `Value::get`: what the document holds under
/// `name`. It depends on the two texts alone. A number comes as
/// `serde_json` prints it.
#[verifier::external_body]
pub(crate) fn json_field(doc: &str, name: &str) -> (r: JsonField)
    ensures
        r@ == json_field_of(text(doc@), text(name@)),
{
    match serde_json::from_str::<serde_json::Value>(doc) {
        Ok(v) => match v.get(name) {
            Some(serde_json::Value::String(s)) => JsonField::Text(s.clone()),
            Some(serde_json::Value::Number(n)) => JsonField::Number(n.to_string()),
            Some(serde_json::Value::Bool(b)) => JsonField::Flag(*b),
            Some(_) => JsonField::Other,
            None => JsonField::Absent,
        },
        Err(_) => JsonField::Invalid,
    }
}

/// The text of a field as an attribute: a string as it is, a number as
/// JSON text, a flag as `true` or `false`; nothing for anything else.
pub open spec fn field_text(f: JsonFieldModel) -> Option<Seq<u8>> {
    match f {
        JsonFieldModel::Text(s) => Some(s),
        JsonFieldModel::Number(s) => Some(s),
        JsonFieldModel::Flag(b) => Some(
            if b {
                text("true"@)
            } else {
                text("false"@)
            },
        ),
        _ => None,
    }
}

/// The text of a field as an attribute.
pub fn attribute_text(f: JsonField) -> (r: Option<String>)
    ensures
        crate::text::opt_text(r) == field_text(f@),
{
    match f {
        JsonField::Text(s) => Some(s),
        JsonField::Number(s) => Some(s),
        JsonField::Flag(b) => Some(
            if b {
                "true".to_owned()
            } else {
                "false".to_owned()
            },
        ),
        _ => None,
    }
}

/// The attribute that a metadata document holds under `name`.
pub open spec fn metadata_attr(doc: Seq<u8>, name: Seq<u8>) -> Option<Seq<u8>> {
    field_text(json_field_of(doc, name))
}

} // verus!

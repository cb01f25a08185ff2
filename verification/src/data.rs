//! Parsed TOML and JSON documents, as plain values the library can reason about.
//!
//! The documents themselves are read by the `toml` and `serde_json` crates;
//! what they return is turned, variant by variant, into a [`Data`] tree.
use vstd::prelude::*;

verus! {

/// A value read from a TOML or JSON document.
pub enum Data {
    /// A string.
    Str(String),
    /// A TOML date-time, held in its written form.
    Datetime(String),
    /// A boolean.
    Bool(bool),
    /// An array, in order.
    Array(Vec<Data>),
    /// A table (TOML) or object (JSON): its keys in the order the reader yields them.
    Table(Vec<(String, Data)>),
    /// Any other value: numbers, JSON `null`.
    Other,
}

#[verifier::external_type_specification]
#[verifier::external_body]
pub struct ExTomlValue(toml::Value);

#[verifier::external_type_specification]
#[verifier::external_body]
pub struct ExTomlError(toml::de::Error);

#[verifier::external_type_specification]
#[verifier::external_body]
pub struct ExJsonValue(serde_json::Value);

#[verifier::external_type_specification]
#[verifier::external_body]
pub struct ExJsonError(serde_json::Error);

/// The top-level table that `toml::from_str::<toml::Table>` reads from `text`,
/// with its entries in the map's (name) order; `None` when the text is not a
/// TOML document.
pub uninterp spec fn toml_document(text: Seq<char>) -> Option<Seq<(String, Data)>>;

/// The value that `serde_json::from_str::<serde_json::Value>` reads from
/// `text`, objects with their keys in the map's (name) order; `None` when the
/// text is not JSON.
pub uninterp spec fn json_document(text: Seq<char>) -> Option<Data>;

/// Converts a `toml::Value`, variant by variant, into [`Data`].
#[verifier::external_body]
fn toml_value_data(v: toml::Value) -> Data {
    match v {
        toml::Value::String(s) => Data::Str(s),
        toml::Value::Datetime(d) => Data::Datetime(d.to_string()),
        toml::Value::Boolean(b) => Data::Bool(b),
        toml::Value::Array(a) => Data::Array(a.into_iter().map(toml_value_data).collect()),
        toml::Value::Table(t) => Data::Table(
            t.into_iter().map(|(k, v)| (k, toml_value_data(v))).collect(),
        ),
        toml::Value::Integer(_) => Data::Other,
        toml::Value::Float(_) => Data::Other,
    }
}

/// Calls `toml::from_str::<toml::Table>`: reads a TOML document.
/// Claims that the call succeeds exactly on the texts that have a
/// `toml_document`, and that the table read is that document.
#[verifier::external_body]
pub(crate) fn parse_toml_table(text: &str) -> (res: Result<Vec<(String, Data)>, toml::de::Error>)
    ensures
        res is Ok <==> toml_document(text@) is Some,
        res matches Ok(t) ==> toml_document(text@) == Some(t@),
{
    match toml::from_str::<toml::Table>(text) {
        Ok(t) => Ok(t.into_iter().map(|(k, v)| (k, toml_value_data(v))).collect()),
        Err(e) => Err(e),
    }
}

/// Converts a `serde_json::Value`, variant by variant, into [`Data`].
#[verifier::external_body]
fn json_value_data(v: serde_json::Value) -> Data {
    match v {
        serde_json::Value::String(s) => Data::Str(s),
        serde_json::Value::Bool(b) => Data::Bool(b),
        serde_json::Value::Array(a) => Data::Array(a.into_iter().map(json_value_data).collect()),
        serde_json::Value::Object(m) => Data::Table(
            m.into_iter().map(|(k, v)| (k, json_value_data(v))).collect(),
        ),
        serde_json::Value::Number(_) => Data::Other,
        serde_json::Value::Null => Data::Other,
    }
}

/// Calls `serde_json::from_str::<serde_json::Value>`: reads a JSON document.
/// Claims that the call succeeds exactly on the texts that have a
/// `json_document`, and that the value read is that document.
#[verifier::external_body]
pub(crate) fn parse_json(text: &str) -> (res: Result<Data, serde_json::Error>)
    ensures
        res is Ok <==> json_document(text@) is Some,
        res matches Ok(d) ==> json_document(text@) == Some(d),
{
    match serde_json::from_str::<serde_json::Value>(text) {
        Ok(v) => Ok(json_value_data(v)),
        Err(e) => Err(e),
    }
}

} // verus!

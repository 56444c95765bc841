//! Reading TOML documents with the `toml` crate.
//!
//! What stands here is believed, not proved: the parser's work is given a
//! name, and what the rest of the library proves of a configuration it
//! proves of whatever the parser returns.

use crate::config::{field_views, Field, FieldView};
use vstd::prelude::*;

verus! {

/// The error with which `toml` rejects a document.
#[verifier::external_type_specification]
#[verifier::external_body]
pub struct ExDocumentError(toml::de::Error);

/// The top-level entries of the TOML document `text`, in the order in which
/// its root table lists them, or `None` where `text` is not well-formed
/// TOML. This names what `toml::Value::from_str` makes of the text; the
/// library says nothing about the TOML grammar.
pub uninterp spec fn toml_fields(text: Seq<char>) -> Option<Seq<(Seq<char>, FieldView)>>;

/// Parses `text` with `toml::Value::from_str` and hands out the entries of
/// the root table, read with `Value::as_table` and `Map::iter`: a string as
/// its text, a table as its entries (each value through `Value::as_str`),
/// anything else as `Field::Other`. The contract claims only that the
/// outcome is the one that `toml_fields` names for this text: an error
/// exactly where that is `None`.
#[verifier::external_body]
pub(crate) fn read_document(text: &str) -> (r: Result<Vec<(String, Field)>, toml::de::Error>)
    ensures
        match r {
            Ok(fields) => toml_fields(text@) == Some(field_views(fields@)),
            Err(_) => toml_fields(text@) is None,
        },
{
    let root = text.parse::<toml::Value>()?;
    let entries = root.as_table().into_iter().flatten();
    Ok(entries.map(|(key, value)| (key.clone(), match value {
        toml::Value::String(text) => Field::Text(text.clone()),
        toml::Value::Table(table) => Field::Table(
            table.iter().map(|(name, at)| (name.clone(), at.as_str().map(String::from))).collect(),
        ),
        _ => Field::Other,
    })).collect())
}

/// The message of a parse error, as `toml::de::Error` displays it. Nothing
/// is claimed of the text.
#[verifier::external_body]
pub(crate) fn syntax_message(error: &toml::de::Error) -> (message: String) {
    error.to_string()
}

} // verus!

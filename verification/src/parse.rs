//! The document parser: UTF-8 decoding and TOML parsing, each behind a
//! trusted item, feeding the verified pipeline a `Doc` tree.

use vstd::prelude::*;
use vstd::string::StringSliceAdditionalSpecFns;
use vstd::utf8::valid_utf8;
use crate::doc::Doc;

verus! {

#[verifier::external_type_specification]
#[verifier::external_body]
pub struct ExTomlValue(toml::Value);

/// The document that the toml crate reads from `text`: `None` when the text
/// is not well-formed TOML. The result depends on the text alone.
pub uninterp spec fn toml_doc_of(text: Seq<char>) -> Option<Doc>;

/// Relies on toml::Value's variants: each arm moves one variant into the
/// matching `Doc` node; floats, booleans and datetimes carry nothing the
/// pipeline reads and become `Other`.
#[verifier::external_body]
fn doc_of_value(v: &toml::Value) -> Doc {
    match v {
        toml::Value::String(s) => Doc::Text(s.clone()),
        toml::Value::Integer(i) => Doc::Int(*i),
        toml::Value::Array(items) => Doc::Array(items.iter().map(doc_of_value).collect()),
        toml::Value::Table(t) => Doc::Table(
            t.iter().map(|(k, v)| (k.clone(), doc_of_value(v))).collect(),
        ),
        toml::Value::Float(_) => Doc::Other,
        toml::Value::Boolean(_) => Doc::Other,
        toml::Value::Datetime(_) => Doc::Other,
    }
}

/// Relies on the toml crate's `FromStr` for `toml::Table`: it parses the
/// whole text as one TOML table, or fails on malformed text; what it returns
/// depends on the text alone, here named `toml_doc_of`.
#[verifier::external_body]
pub fn parse_document(text: &str) -> (r: Option<Doc>)
    ensures
        r == toml_doc_of(text@),
{
    match text.parse::<toml::Table>() {
        Ok(t) => Some(Doc::Table(t.iter().map(|(k, v)| (k.clone(), doc_of_value(v))).collect())),
        Err(_) => None,
    }
}

/// Relies on core::str::from_utf8: it returns `Ok` exactly on valid UTF-8
/// input, and the returned `str` is backed by those same bytes.
#[verifier::external_body]
pub fn utf8_str(bytes: &[u8]) -> (r: Option<&str>)
    ensures
        r is Some <==> valid_utf8(bytes@),
        r matches Some(s) ==> s.spec_bytes() == bytes@,
{
    core::str::from_utf8(bytes).ok()
}

} // verus!

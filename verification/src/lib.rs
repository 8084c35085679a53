//! A manifest-ingestion pipeline: parse a nested manifest document, check an
//! optional marker keyword, extract the embedded order records, aggregate
//! them per item in first-seen order, and render a plain-text report. A
//! small dotted-octet transform used by the surrounding service lives in
//! `octets`.

pub mod aggregate;
pub mod doc;
pub mod laws;
pub mod numeric;
pub mod octets;
pub mod orders;
pub mod parse;
pub mod pipeline;
pub mod render;
pub mod validate;

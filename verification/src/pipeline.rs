//! The whole per-request pipeline: decode, parse, optionally validate,
//! extract, aggregate, render.

use vstd::prelude::*;
use vstd::utf8::{decode_utf8, encode_utf8_decode_utf8, valid_utf8};
use crate::aggregate::{aggregate, spec_aggregate};
use crate::doc::Doc;
use crate::orders::{extract_orders, spec_orders, OrderRecord};
use crate::parse::{parse_document, toml_doc_of, utf8_str};
use crate::render::{render_report, report_chars};
use crate::validate::{spec_validate, validate_manifest, ValidationReason};

verus! {

/// What one request ends in: the rendered report, the distinguished empty
/// outcome, or one of the named failures.
#[derive(Debug, PartialEq, Eq)]
pub enum Outcome {
    /// The success payload: the rendered report text.
    Rendered(String),
    /// No orders at all: a successful, but empty, outcome.
    EmptyResult,
    /// The body is not valid UTF-8.
    EncodingError,
    /// The text does not parse as a manifest document.
    SyntaxError,
    /// The marker-keyword check failed, for the carried reason.
    ValidationError(ValidationReason),
    /// Some item's total left the unsigned 32-bit range.
    OverflowError,
}

/// The mathematical shadow of `Outcome`.
pub enum OutcomeView {
    Rendered(Seq<char>),
    EmptyResult,
    EncodingError,
    SyntaxError,
    ValidationError(ValidationReason),
    OverflowError,
}

impl View for Outcome {
    type V = OutcomeView;

    open spec fn view(&self) -> OutcomeView {
        match self {
            Outcome::Rendered(s) => OutcomeView::Rendered(s@),
            Outcome::EmptyResult => OutcomeView::EmptyResult,
            Outcome::EncodingError => OutcomeView::EncodingError,
            Outcome::SyntaxError => OutcomeView::SyntaxError,
            Outcome::ValidationError(r) => OutcomeView::ValidationError(*r),
            Outcome::OverflowError => OutcomeView::OverflowError,
        }
    }
}

/// The outcome once a document is in hand: validation when asked for, then
/// extraction, aggregation and rendering.
pub open spec fn doc_outcome(doc: Doc, require_marker: bool, marker: Seq<char>) -> OutcomeView {
    if require_marker && spec_validate(doc, marker) is Some {
        OutcomeView::ValidationError(spec_validate(doc, marker)->0)
    } else {
        match spec_aggregate(spec_orders(doc)) {
            None => OutcomeView::OverflowError,
            Some(lines) => if lines.len() == 0 {
                OutcomeView::EmptyResult
            } else {
                OutcomeView::Rendered(report_chars(lines))
            },
        }
    }
}

/// The outcome of one request over the raw body bytes.
pub open spec fn spec_outcome(body: Seq<u8>, require_marker: bool, marker: Seq<char>) -> OutcomeView {
    if !valid_utf8(body) {
        OutcomeView::EncodingError
    } else {
        match toml_doc_of(decode_utf8(body)) {
            None => OutcomeView::SyntaxError,
            Some(doc) => doc_outcome(doc, require_marker, marker),
        }
    }
}

/// Runs the whole pipeline on one request body, as `spec_outcome` describes:
/// with `require_marker` set, a manifest whose `package.keywords` string
/// array lacks `marker` is rejected before extraction.
pub fn process_manifest(body: &[u8], require_marker: bool, marker: &String) -> (r: Outcome)
    ensures
        r@ == spec_outcome(body@, require_marker, marker@),
{
    let text = match utf8_str(body) {
        Some(t) => t,
        None => {
            return Outcome::EncodingError;
        },
    };
    proof {
        encode_utf8_decode_utf8(text@);
        assert(decode_utf8(body@) == text@);
    }
    let doc = match parse_document(text) {
        Some(d) => d,
        None => {
            return Outcome::SyntaxError;
        },
    };
    if require_marker {
        match validate_manifest(&doc, marker) {
            Some(reason) => {
                return Outcome::ValidationError(reason);
            },
            None => (),
        }
    }
    let orders: Vec<OrderRecord> = extract_orders(&doc);
    let lines = match aggregate(&orders) {
        Some(lines) => lines,
        None => {
            return Outcome::OverflowError;
        },
    };
    match render_report(&lines) {
        Some(text) => Outcome::Rendered(text),
        None => Outcome::EmptyResult,
    }
}

} // verus!

use manifest_orders::pipeline::{process_manifest, Outcome};
use manifest_orders::validate::ValidationReason;

const MARKER: &str = "Christmas 2024";

fn run(body: &str, require_marker: bool) -> Outcome {
    let marker = MARKER.to_string();
    process_manifest(body.as_bytes(), require_marker, &marker)
}

#[test]
fn round_trip_orders_are_merged_in_first_seen_order() {
    let body = "[package]\n\
        name = 'not-a-gift-order'\n\
        authors = ['Not Santa']\n\
        keywords = ['Christmas 2024']\n\
        \n\
        [[package.metadata.orders]]\n\
        item = 'Toy car'\n\
        quantity = 2\n\
        \n\
        [[package.metadata.orders]]\n\
        item = 'Lego brick'\n\
        quantity = 230\n\
        \n\
        [[package.metadata.orders]]\n\
        item = 'Toy car'\n\
        quantity = 1\n";
    assert_eq!(
        run(body, true),
        Outcome::Rendered("Toy car: 3\nLego brick: 230".to_string())
    );
}

#[test]
fn empty_orders_array_is_the_empty_result() {
    let body = "[package]\n[package.metadata]\norders = []\n";
    assert_eq!(run(body, false), Outcome::EmptyResult);
}

#[test]
fn absent_orders_path_is_the_empty_result() {
    let body = "[package]\nname = 'x'\n";
    assert_eq!(run(body, false), Outcome::EmptyResult);
}

#[test]
fn malformed_entries_are_dropped_silently() {
    let body = "[[package.metadata.orders]]\n\
        item = 'Toy train'\n\
        quantity = 5\n\
        \n\
        [[package.metadata.orders]]\n\
        item = 'No quantity here'\n\
        \n\
        [[package.metadata.orders]]\n\
        quantity = 4\n\
        \n\
        [[package.metadata.orders]]\n\
        item = 'Negative'\n\
        quantity = -3\n\
        \n\
        [[package.metadata.orders]]\n\
        item = 'Wrong type'\n\
        quantity = 'two'\n\
        \n\
        [[package.metadata.orders]]\n\
        item = 'Doll'\n\
        quantity = 1\n";
    assert_eq!(
        run(body, false),
        Outcome::Rendered("Toy train: 5\nDoll: 1".to_string())
    );
}

#[test]
fn all_entries_malformed_is_the_empty_result() {
    let body = "[[package.metadata.orders]]\nitem = 'x'\n";
    assert_eq!(run(body, false), Outcome::EmptyResult);
}

#[test]
fn missing_marker_is_a_validation_error() {
    let body = "[package]\n\
        keywords = ['Advent']\n\
        \n\
        [[package.metadata.orders]]\n\
        item = 'Toy car'\n\
        quantity = 2\n";
    assert_eq!(
        run(body, true),
        Outcome::ValidationError(ValidationReason::MarkerAbsent)
    );
}

#[test]
fn absent_keywords_is_structurally_invalid() {
    let body = "[package]\nname = 'x'\n";
    assert_eq!(
        run(body, true),
        Outcome::ValidationError(ValidationReason::StructurallyInvalid)
    );
}

#[test]
fn non_string_keywords_is_structurally_invalid() {
    let body = "[package]\nkeywords = [1, 2]\n";
    assert_eq!(
        run(body, true),
        Outcome::ValidationError(ValidationReason::StructurallyInvalid)
    );
}

#[test]
fn marker_present_with_orders_is_a_success() {
    let body = "[package]\n\
        keywords = ['other', 'Christmas 2024']\n\
        \n\
        [[package.metadata.orders]]\n\
        item = 'Doll'\n\
        quantity = 7\n";
    assert_eq!(run(body, true), Outcome::Rendered("Doll: 7".to_string()));
}

#[test]
fn validation_is_skipped_when_not_required() {
    let body = "[[package.metadata.orders]]\nitem = 'Doll'\nquantity = 7\n";
    assert_eq!(run(body, false), Outcome::Rendered("Doll: 7".to_string()));
}

#[test]
fn non_utf8_body_is_an_encoding_error() {
    let marker = MARKER.to_string();
    let body: Vec<u8> = vec![0xff, 0xfe, 0x20];
    assert_eq!(
        process_manifest(&body, false, &marker),
        Outcome::EncodingError
    );
}

#[test]
fn broken_document_text_is_a_syntax_error() {
    assert_eq!(run("[package\nname = 'x'", false), Outcome::SyntaxError);
    assert_eq!(run("test test test", false), Outcome::SyntaxError);
}

#[test]
fn overflowing_total_is_an_overflow_error() {
    let body = "[[package.metadata.orders]]\n\
        item = 'Bulk'\n\
        quantity = 2200000000\n\
        \n\
        [[package.metadata.orders]]\n\
        item = 'Bulk'\n\
        quantity = 2200000000\n";
    assert_eq!(run(body, false), Outcome::OverflowError);
}

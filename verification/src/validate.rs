//! The manifest validator: a pure predicate over the parsed document that
//! looks for the marker keyword under `package.keywords`.

use vstd::prelude::*;
use crate::doc::{doc_get, lookup, Doc};

verus! {

/// Why a manifest fails validation.
#[derive(Clone, Copy, Debug, PartialEq, Eq)]
pub enum ValidationReason {
    /// `package.keywords` is a string array, but the marker is not in it.
    MarkerAbsent,
    /// `package.keywords` is absent, or is not an array of strings.
    StructurallyInvalid,
}

/// The node under `package.keywords`, if both segments are present.
pub open spec fn keywords_node(doc: Doc) -> Option<Doc> {
    match doc_get(doc, "package"@) {
        Some(p) => doc_get(p, "keywords"@),
        None => None,
    }
}

/// Whether every element is a string node.
pub open spec fn all_text(items: Seq<Doc>) -> bool {
    forall|i: int| 0 <= i < items.len() ==> (#[trigger] items[i]) is Text
}

/// Whether some element is a string node holding exactly `marker`.
pub open spec fn contains_marker(items: Seq<Doc>, marker: Seq<char>) -> bool {
    exists|i: int|
        0 <= i < items.len() && ((#[trigger] items[i]) matches Doc::Text(s) && s@ == marker)
}

/// The verdict on the keyword array itself.
pub open spec fn array_verdict(items: Seq<Doc>, marker: Seq<char>) -> Option<ValidationReason> {
    if !all_text(items) {
        Some(ValidationReason::StructurallyInvalid)
    } else if contains_marker(items, marker) {
        None
    } else {
        Some(ValidationReason::MarkerAbsent)
    }
}

/// The validator's verdict on `doc`: nothing when `package.keywords` is an
/// array of strings holding `marker`; the reason otherwise.
pub open spec fn spec_validate(doc: Doc, marker: Seq<char>) -> Option<ValidationReason> {
    match keywords_node(doc) {
        Some(Doc::Array(items)) => array_verdict(items@, marker),
        _ => Some(ValidationReason::StructurallyInvalid),
    }
}

/// Checks `doc` for the marker keyword, as `spec_validate` describes.
pub fn validate_manifest(doc: &Doc, marker: &String) -> (r: Option<ValidationReason>)
    ensures
        r == spec_validate(*doc, marker@),
{
    let package_key: String = "package".to_owned();
    let keywords_key: String = "keywords".to_owned();
    let node = match lookup(doc, &package_key) {
        Some(p) => lookup(p, &keywords_key),
        None => None,
    };
    match node {
        Some(Doc::Array(items)) => {
            let n = items.len();
            let mut found = false;
            let mut i: usize = 0;
            while i < n
                invariant
                    i <= n,
                    n == items@.len(),
                    spec_validate(*doc, marker@) == array_verdict(items@, marker@),
                    forall|j: int| 0 <= j < i ==> (#[trigger] items@[j]) is Text,
                    found == contains_marker(items@.take(i as int), marker@),
                decreases n - i,
            {
                let ghost pre = items@.take(i as int);
                match &items[i] {
                    Doc::Text(s) => {
                        if s.eq(marker) {
                            found = true;
                        }
                    },
                    _ => {
                        proof {
                            assert(!(items@[i as int] is Text));
                        }
                        return Some(ValidationReason::StructurallyInvalid);
                    },
                }
                proof {
                    let post = items@.take(i as int + 1);
                    assert(post.len() == i + 1);
                    assert(forall|j: int| 0 <= j < i ==> post[j] == pre[j]);
                    assert(post[i as int] == items@[i as int]);
                    if found {
                        if contains_marker(pre, marker@) {
                            let w = choose|w: int|
                                0 <= w < pre.len() && ((#[trigger] pre[w]) matches Doc::Text(
                                s) && s@ == marker@);
                            assert(post[w] == pre[w]);
                            assert(contains_marker(post, marker@));
                        } else {
                            assert(post[i as int] == items@[i as int]);
                            assert(contains_marker(post, marker@));
                        }
                    } else {
                        if contains_marker(post, marker@) {
                            let w = choose|w: int|
                                0 <= w < post.len() && ((#[trigger] post[w]) matches Doc::Text(
                                s) && s@ == marker@);
                            assert(w < i ==> pre[w] == post[w]);
                            assert(false);
                        }
                    }
                }
                i = i + 1;
            }
            proof {
                assert(items@.take(n as int) =~= items@);
            }
            if found {
                None
            } else {
                Some(ValidationReason::MarkerAbsent)
            }
        },
        _ => Some(ValidationReason::StructurallyInvalid),
    }
}

} // verus!

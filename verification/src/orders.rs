//! The order extractor: walks `package.metadata.orders` and tolerantly
//! collects the well-formed item/quantity entries, in array order.

use vstd::prelude::*;
use crate::doc::{doc_get, lookup, Doc};

verus! {

/// A single item/quantity pair extracted from the manifest's nested order
/// array.
pub struct OrderRecord {
    pub item: String,
    pub quantity: u32,
}

impl View for OrderRecord {
    type V = (Seq<char>, u32);

    open spec fn view(&self) -> (Seq<char>, u32) {
        (self.item@, self.quantity)
    }
}

/// The record one array element yields: its `item` string and `quantity`
/// integer, provided the element is a table holding both, with the quantity
/// non-negative and within 32 bits. Any other shape yields nothing.
pub open spec fn record_of(d: Doc) -> Option<(Seq<char>, u32)> {
    match (doc_get(d, "item"@), doc_get(d, "quantity"@)) {
        (Some(Doc::Text(s)), Some(Doc::Int(q))) => if 0 <= q as int && q as int <= u32::MAX as int {
            Some((s@, q as u32))
        } else {
            None
        },
        _ => None,
    }
}

/// The records of the array elements in order, with malformed elements
/// silently dropped.
pub open spec fn records_of(items: Seq<Doc>) -> Seq<(Seq<char>, u32)>
    decreases items.len(),
{
    if items.len() == 0 {
        Seq::empty()
    } else {
        let p = records_of(items.drop_last());
        match record_of(items.last()) {
            Some(r) => p.push(r),
            None => p,
        }
    }
}

/// The node under `package.metadata.orders`, if every segment is present.
pub open spec fn orders_node(doc: Doc) -> Option<Doc> {
    match doc_get(doc, "package"@) {
        Some(p) => match doc_get(p, "metadata"@) {
            Some(m) => doc_get(m, "orders"@),
            None => None,
        },
        None => None,
    }
}

/// The order records of the whole document: those of the array under
/// `package.metadata.orders`, or none at all when any path segment is
/// absent or the terminal value is not an array.
pub open spec fn spec_orders(doc: Doc) -> Seq<(Seq<char>, u32)> {
    match orders_node(doc) {
        Some(Doc::Array(items)) => records_of(items@),
        _ => Seq::empty(),
    }
}

/// The record of one array element, as `record_of` describes it.
fn extract_record(d: &Doc) -> (r: Option<OrderRecord>)
    ensures
        match r {
            Some(rec) => record_of(*d) == Some(rec@),
            None => record_of(*d) is None,
        },
{
    let item_key: String = "item".to_owned();
    let quantity_key: String = "quantity".to_owned();
    let item = lookup(d, &item_key);
    let quantity = lookup(d, &quantity_key);
    match (item, quantity) {
        (Some(Doc::Text(s)), Some(Doc::Int(q))) => {
            if 0 <= *q && *q <= u32::MAX as i64 {
                Some(OrderRecord { item: s.clone(), quantity: *q as u32 })
            } else {
                None
            }
        },
        _ => None,
    }
}

/// Collects the order records of `doc` in array order, dropping malformed
/// elements and yielding none when the orders path is absent.
pub fn extract_orders(doc: &Doc) -> (r: Vec<OrderRecord>)
    ensures
        r@.map_values(|o: OrderRecord| o@) == spec_orders(*doc),
{
    let package_key: String = "package".to_owned();
    let metadata_key: String = "metadata".to_owned();
    let orders_key: String = "orders".to_owned();
    let mut out: Vec<OrderRecord> = Vec::new();
    let package = lookup(doc, &package_key);
    let node = match package {
        Some(p) => {
            let metadata = lookup(p, &metadata_key);
            match metadata {
                Some(m) => lookup(m, &orders_key),
                None => None,
            }
        },
        None => None,
    };
    match node {
        Some(Doc::Array(items)) => {
            let n = items.len();
            let mut i: usize = 0;
            while i < n
                invariant
                    i <= n,
                    n == items@.len(),
                    spec_orders(*doc) == records_of(items@),
                    out@.map_values(|o: OrderRecord| o@) == records_of(items@.take(i as int)),
                decreases n - i,
            {
                let ghost pre = out@;
                let rec = extract_record(&items[i]);
                match rec {
                    Some(rec) => out.push(rec),
                    None => (),
                }
                proof {
                    assert(items@.take(i as int + 1).drop_last() =~= items@.take(i as int));
                    assert(items@.take(i as int + 1).last() == items@[i as int]);
                    assert(out@.map_values(|o: OrderRecord| o@) =~= records_of(
                        items@.take(i as int + 1),
                    ));
                }
                i = i + 1;
            }
            proof {
                assert(items@.take(n as int) =~= items@);
            }
            out
        },
        _ => {
            proof {
                assert(out@.map_values(|o: OrderRecord| o@) =~= Seq::<(Seq<char>, u32)>::empty());
            }
            out
        },
    }
}

} // verus!

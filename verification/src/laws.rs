//! The laws the pipeline obeys: conservation of quantities, first-seen
//! ordering of the report, and tolerance of malformed order entries.

use vstd::prelude::*;
use crate::aggregate::{
    first_seen, lemma_absent_total_zero, lemma_first_seen_contains, lemma_first_seen_distinct,
    no_overflow, spec_aggregate, total_of,
};
use crate::doc::Doc;
use crate::orders::{record_of, records_of, spec_orders};
use crate::pipeline::{doc_outcome, OutcomeView};
use crate::validate::spec_validate;

verus! {

/// The position of the first record carrying `name`, counting misses from
/// the left.
pub open spec fn first_index(rs: Seq<(Seq<char>, u32)>, name: Seq<char>) -> int
    decreases rs.len(),
{
    if rs.len() == 0 {
        0
    } else if rs.first().0 == name {
        0
    } else {
        1 + first_index(rs.drop_first(), name)
    }
}

/// Where a name occurs at all, `first_index` points at its earliest record.
pub proof fn lemma_first_index_occurs(rs: Seq<(Seq<char>, u32)>, name: Seq<char>)
    requires
        exists|k: int| 0 <= k < rs.len() && (#[trigger] rs[k]).0 == name,
    ensures
        0 <= first_index(rs, name) < rs.len(),
        rs[first_index(rs, name)].0 == name,
        forall|k: int| 0 <= k < first_index(rs, name) ==> (#[trigger] rs[k]).0 != name,
    decreases rs.len(),
{
    if rs.first().0 == name {
    } else {
        let d = rs.drop_first();
        let k = choose|k: int| 0 <= k < rs.len() && (#[trigger] rs[k]).0 == name;
        assert(forall|k2: int| 0 <= k2 < d.len() ==> #[trigger] d[k2] == rs[k2 + 1]);
        assert(d[k - 1] == rs[k]);
        lemma_first_index_occurs(d, name);
        assert(rs[first_index(rs, name)] == d[first_index(d, name)]);
        assert(rs[0] == rs.first());
        assert forall|k2: int| 0 <= k2 < first_index(rs, name) implies (#[trigger] rs[k2]).0
            != name by {
            if k2 > 0 {
                assert(d[k2 - 1] == rs[k2]);
            }
        }
    }
}

proof fn lemma_first_index_agrees(rs: Seq<(Seq<char>, u32)>, name: Seq<char>)
    requires
        rs.len() > 0,
        exists|k: int| 0 <= k < rs.len() - 1 && (#[trigger] rs[k]).0 == name,
    ensures
        first_index(rs.drop_last(), name) == first_index(rs, name),
{
    let p = rs.drop_last();
    let k = choose|k: int| 0 <= k < rs.len() - 1 && (#[trigger] rs[k]).0 == name;
    assert(forall|k2: int| 0 <= k2 < p.len() ==> #[trigger] p[k2] == rs[k2]);
    assert(p[k] == rs[k]);
    lemma_first_index_occurs(p, name);
    lemma_first_index_occurs(rs, name);
    let fp = first_index(p, name);
    let fr = first_index(rs, name);
    if fr < fp {
        assert(p[fr] == rs[fr]);
        assert(false);
    }
    if fp < fr {
        assert(rs[fp] == p[fp]);
        assert(false);
    }
}

/// The names of `first_seen` stand in the order of their first appearance
/// among the records.
pub proof fn lemma_first_seen_ordered(rs: Seq<(Seq<char>, u32)>)
    ensures
        forall|i: int, j: int|
            0 <= i < j < first_seen(rs).len() ==> first_index(rs, #[trigger] first_seen(rs)[i])
                < first_index(rs, #[trigger] first_seen(rs)[j]),
    decreases rs.len(),
{
    if rs.len() > 0 {
        let p = rs.drop_last();
        let last = rs.last();
        let fp = first_seen(p);
        let fs = first_seen(rs);
        lemma_first_seen_ordered(p);
        assert(forall|k: int| 0 <= k < p.len() ==> #[trigger] p[k] == rs[k]);
        assert forall|i: int| 0 <= i < fp.len() implies first_index(rs, fp[i]) == first_index(
            p,
            fp[i],
        ) && first_index(rs, fp[i]) < rs.len() - 1 by {
            assert(fp.contains(fp[i]));
            lemma_first_seen_contains(p, fp[i]);
            let k = choose|k: int| 0 <= k < p.len() && (#[trigger] p[k]).0 == fp[i];
            assert(rs[k] == p[k]);
            lemma_first_index_agrees(rs, fp[i]);
            lemma_first_index_occurs(p, fp[i]);
        }
        if fp.contains(last.0) {
            assert(fs == fp);
        } else {
            assert(fs == fp.push(last.0));
            lemma_first_seen_contains(p, last.0);
            assert forall|k: int| 0 <= k < rs.len() - 1 implies (#[trigger] rs[k]).0 != last.0 by {
                assert(p[k] == rs[k]);
            }
            assert(rs[rs.len() - 1].0 == last.0);
            lemma_first_index_occurs(rs, last.0);
            assert(first_index(rs, last.0) == rs.len() - 1);
            assert(forall|j: int| 0 <= j < fp.len() ==> #[trigger] fs[j] == fp[j]);
            assert(fs[fp.len() as int] == last.0);
        }
    }
}

/// Conservation: when aggregation succeeds, each line's total is exactly
/// the summed quantity of the records carrying that line's name, and a name
/// with no line at all has summed quantity zero.
pub proof fn lemma_aggregate_conserves(rs: Seq<(Seq<char>, u32)>, lines: Seq<(Seq<char>, u32)>)
    requires
        spec_aggregate(rs) == Some(lines),
    ensures
        forall|j: int|
            0 <= j < lines.len() ==> (#[trigger] lines[j]).1 as nat == total_of(rs, lines[j].0),
        forall|name: Seq<char>|
            !first_seen(rs).contains(name) ==> #[trigger] total_of(rs, name) == 0,
{
    assert forall|name: Seq<char>| !first_seen(rs).contains(name) implies #[trigger] total_of(
        rs,
        name,
    ) == 0 by {
        lemma_absent_total_zero(rs, name);
    }
}

/// Ordering: the aggregated lines carry the distinct record names, one line
/// each, ordered by each name's earliest record; a name gets a line exactly
/// when some record carries it.
pub proof fn lemma_aggregate_ordering(rs: Seq<(Seq<char>, u32)>, lines: Seq<(Seq<char>, u32)>)
    requires
        spec_aggregate(rs) == Some(lines),
    ensures
        forall|j: int| 0 <= j < lines.len() ==> (#[trigger] lines[j]).0 == first_seen(rs)[j],
        forall|i: int, j: int| 0 <= i < j < lines.len() ==> lines[i].0 != lines[j].0,
        forall|i: int, j: int|
            0 <= i < j < lines.len() ==> first_index(rs, (#[trigger] lines[i]).0) < first_index(
                rs,
                (#[trigger] lines[j]).0,
            ),
        forall|name: Seq<char>|
            #[trigger] first_seen(rs).contains(name) <==> exists|k: int|
                0 <= k < rs.len() && (#[trigger] rs[k]).0 == name,
{
    lemma_first_seen_distinct(rs);
    lemma_first_seen_ordered(rs);
    assert forall|name: Seq<char>| #[trigger]
        first_seen(rs).contains(name) <==> exists|k: int|
            0 <= k < rs.len() && (#[trigger] rs[k]).0 == name by {
        lemma_first_seen_contains(rs, name);
    }
}

/// Tolerance: a malformed order element contributes nothing, and taking it
/// out leaves the extracted records exactly as they were.
pub proof fn lemma_malformed_dropped(items: Seq<Doc>, i: int)
    requires
        0 <= i < items.len(),
        record_of(items[i]) is None,
    ensures
        records_of(items) == records_of(items.remove(i)),
    decreases items.len(),
{
    if i == items.len() - 1 {
        assert(items.remove(i) =~= items.drop_last());
    } else {
        assert(items.remove(i).drop_last() =~= items.drop_last().remove(i));
        assert(items.remove(i).last() == items.last());
        assert(items.drop_last()[i] == items[i]);
        lemma_malformed_dropped(items.drop_last(), i);
    }
}

/// Empty orders are no failure: a document whose orders path is absent or
/// empty, and which passes whatever validation is asked for, ends in the
/// empty outcome.
pub proof fn lemma_empty_orders(doc: Doc, require_marker: bool, marker: Seq<char>)
    requires
        spec_orders(doc).len() == 0,
        require_marker ==> spec_validate(doc, marker) is None,
    ensures
        doc_outcome(doc, require_marker, marker) == OutcomeView::EmptyResult,
{
    let rs = spec_orders(doc);
    assert(first_seen(rs) =~= Seq::<Seq<char>>::empty());
    assert(no_overflow(rs));
    assert(spec_aggregate(rs)->0.len() == 0);
}

} // verus!

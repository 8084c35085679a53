//! The aggregator: sums quantities per distinct item name while preserving
//! the order in which each name first appears, and refuses to wrap a total
//! past the 32-bit range.

use vstd::prelude::*;
use crate::orders::OrderRecord;

verus! {

/// One item name with its summed quantity across all matching records.
pub struct AggregatedLine {
    pub item: String,
    pub total: u32,
}

impl View for AggregatedLine {
    type V = (Seq<char>, u32);

    open spec fn view(&self) -> (Seq<char>, u32) {
        (self.item@, self.total)
    }
}

/// The distinct item names of `rs`, ordered by first appearance.
pub open spec fn first_seen(rs: Seq<(Seq<char>, u32)>) -> Seq<Seq<char>>
    decreases rs.len(),
{
    if rs.len() == 0 {
        Seq::empty()
    } else {
        let p = first_seen(rs.drop_last());
        if p.contains(rs.last().0) {
            p
        } else {
            p.push(rs.last().0)
        }
    }
}

/// The sum of the quantities of the records of `rs` carrying `name`.
pub open spec fn total_of(rs: Seq<(Seq<char>, u32)>, name: Seq<char>) -> nat
    decreases rs.len(),
{
    if rs.len() == 0 {
        0
    } else {
        total_of(rs.drop_last(), name) + (if rs.last().0 == name {
            rs.last().1 as nat
        } else {
            0 as nat
        })
    }
}

/// Whether every per-name total fits an unsigned 32-bit value.
pub open spec fn no_overflow(rs: Seq<(Seq<char>, u32)>) -> bool {
    forall|i: int|
        0 <= i < first_seen(rs).len() ==> total_of(rs, #[trigger] first_seen(rs)[i]) <= u32::MAX
}

/// The aggregated lines of `rs`: one line per distinct name in first-seen
/// order, each carrying that name's summed quantity; nothing when a total
/// leaves the 32-bit range.
pub open spec fn spec_aggregate(rs: Seq<(Seq<char>, u32)>) -> Option<Seq<(Seq<char>, u32)>> {
    if no_overflow(rs) {
        Some(
            Seq::new(
                first_seen(rs).len(),
                |i: int| (first_seen(rs)[i], total_of(rs, first_seen(rs)[i]) as u32),
            ),
        )
    } else {
        None
    }
}

/// A name stands in `first_seen` exactly when some record carries it.
pub proof fn lemma_first_seen_contains(rs: Seq<(Seq<char>, u32)>, name: Seq<char>)
    ensures
        first_seen(rs).contains(name) <==> exists|k: int|
            0 <= k < rs.len() && (#[trigger] rs[k]).0 == name,
    decreases rs.len(),
{
    if rs.len() == 0 {
    } else {
        let p = rs.drop_last();
        let last = rs.last();
        let fs = first_seen(rs);
        let fp = first_seen(p);
        lemma_first_seen_contains(p, name);
        assert(forall|k: int| 0 <= k < p.len() ==> #[trigger] p[k] == rs[k]);
        assert(rs[rs.len() - 1] == last);
        if fs.contains(name) {
            let j = choose|j: int| 0 <= j < fs.len() && fs[j] == name;
            if fp.contains(last.0) {
                assert(fp[j] == name);
                assert(fp.contains(name));
            } else if j < fp.len() {
                assert(fs[j] == fp[j]);
                assert(fp.contains(name));
            } else {
                assert(name == last.0);
                assert(rs[rs.len() - 1].0 == name);
            }
            if fp.contains(name) {
                let k = choose|k: int| 0 <= k < p.len() && (#[trigger] p[k]).0 == name;
                assert(rs[k].0 == name);
            }
        }
        if exists|k: int| 0 <= k < rs.len() && (#[trigger] rs[k]).0 == name {
            let k = choose|k: int| 0 <= k < rs.len() && (#[trigger] rs[k]).0 == name;
            if k < p.len() {
                assert(p[k].0 == name);
                assert(fp.contains(name));
                let j = choose|j: int| 0 <= j < fp.len() && fp[j] == name;
                if fp.contains(last.0) {
                    assert(fs.contains(name));
                } else {
                    assert(fs[j] == fp[j]);
                    assert(fs.contains(name));
                }
            } else {
                assert(name == last.0);
                if fp.contains(last.0) {
                    assert(fs.contains(name));
                } else {
                    assert(fs[fp.len() as int] == last.0);
                    assert(fs.contains(name));
                }
            }
        }
    }
}

/// No name appears twice among the aggregated lines.
pub proof fn lemma_first_seen_distinct(rs: Seq<(Seq<char>, u32)>)
    ensures
        forall|i: int, j: int|
            0 <= i < j < first_seen(rs).len() ==> first_seen(rs)[i] != first_seen(rs)[j],
    decreases rs.len(),
{
    if rs.len() == 0 {
    } else {
        let p = rs.drop_last();
        let fp = first_seen(p);
        lemma_first_seen_distinct(p);
        if !fp.contains(rs.last().0) {
            assert(forall|j: int| 0 <= j < fp.len() ==> fp[j] != rs.last().0);
            assert(forall|j: int| 0 <= j < fp.len() ==> first_seen(rs)[j] == fp[j]);
            assert(first_seen(rs)[fp.len() as int] == rs.last().0);
        }
    }
}

/// A name that never appears totals zero.
pub proof fn lemma_absent_total_zero(rs: Seq<(Seq<char>, u32)>, name: Seq<char>)
    requires
        !first_seen(rs).contains(name),
    ensures
        total_of(rs, name) == 0,
    decreases rs.len(),
{
    if rs.len() == 0 {
    } else {
        let p = rs.drop_last();
        let fp = first_seen(p);
        let fs = first_seen(rs);
        assert(forall|j: int| 0 <= j < fp.len() ==> fs[j] == fp[j]);
        if fp.contains(name) {
            let j = choose|j: int| 0 <= j < fp.len() && fp[j] == name;
            assert(fs[j] == name);
            assert(fs.contains(name));
        }
        if rs.last().0 == name {
            if fp.contains(name) {
                assert(fs.contains(name));
            } else {
                assert(fs[fp.len() as int] == name);
                assert(fs.contains(name));
            }
        }
        lemma_absent_total_zero(p, name);
    }
}

/// Extending the records never lowers a total.
pub proof fn lemma_total_take_le(rs: Seq<(Seq<char>, u32)>, k: int, name: Seq<char>)
    requires
        0 <= k <= rs.len(),
    ensures
        total_of(rs.take(k), name) <= total_of(rs, name),
    decreases rs.len() - k,
{
    if k == rs.len() {
        assert(rs.take(k) =~= rs);
    } else {
        assert(rs.take(k + 1).drop_last() =~= rs.take(k));
        assert(rs.take(k + 1).last() == rs[k]);
        lemma_total_take_le(rs, k + 1, name);
    }
}

fn find_line(lines: &Vec<AggregatedLine>, name: &String) -> (r: Option<usize>)
    ensures
        match r {
            Some(j) => (j as int) < lines@.len() && lines@[j as int].item@ == name@,
            None => forall|k: int| 0 <= k < lines@.len() ==> (#[trigger] lines@[k]).item@ != name@,
        },
{
    let n = lines.len();
    let mut i: usize = 0;
    while i < n
        invariant
            i <= n,
            n == lines@.len(),
            forall|k: int| 0 <= k < i ==> (#[trigger] lines@[k]).item@ != name@,
        decreases n - i,
    {
        if lines[i].item.eq(name) {
            return Some(i);
        }
        i = i + 1;
    }
    None
}

/// Folds the records into one aggregated line per distinct item name, in
/// first-seen order; fails instead of wrapping when a total leaves the
/// 32-bit range.
pub fn aggregate(orders: &Vec<OrderRecord>) -> (r: Option<Vec<AggregatedLine>>)
    ensures
        match spec_aggregate(orders@.map_values(|o: OrderRecord| o@)) {
            Some(lines) => r matches Some(v) && v@.map_values(|l: AggregatedLine| l@) == lines,
            None => r is None,
        },
{
    let ghost rsv = orders@.map_values(|o: OrderRecord| o@);
    let mut lines: Vec<AggregatedLine> = Vec::new();
    let n = orders.len();
    let mut i: usize = 0;
    proof {
        assert(rsv.take(0) =~= Seq::<(Seq<char>, u32)>::empty());
    }
    while i < n
        invariant
            i <= n,
            n == orders@.len(),
            rsv == orders@.map_values(|o: OrderRecord| o@),
            lines@.len() == first_seen(rsv.take(i as int)).len(),
            forall|j: int|
                0 <= j < lines@.len() ==> (#[trigger] lines@[j]).item@ == first_seen(
                    rsv.take(i as int),
                )[j],
            forall|j: int|
                0 <= j < lines@.len() ==> (#[trigger] lines@[j]).total as nat == total_of(
                    rsv.take(i as int),
                    lines@[j].item@,
                ),
        decreases n - i,
    {
        let ghost pre = rsv.take(i as int);
        let ghost post = rsv.take(i as int + 1);
        let ghost name = rsv[i as int].0;
        proof {
            assert(post.drop_last() =~= pre);
            assert(post.last() == rsv[i as int]);
            assert(rsv[i as int] == orders@[i as int]@);
        }
        let found = find_line(&lines, &orders[i].item);
        let q = orders[i].quantity;
        match found {
            Some(j) => {
                proof {
                    assert(first_seen(pre)[j as int] == name);
                    assert(first_seen(pre).contains(name));
                    assert(first_seen(post) == first_seen(pre));
                    lemma_first_seen_distinct(pre);
                }
                let cur = lines[j].total;
                match cur.checked_add(q) {
                    Some(t) => {
                        lines[j].total = t;
                        proof {
                            assert(forall|k: int|
                                0 <= k < lines@.len() && k != j ==> (#[trigger] lines@[k]).item@
                                    != name);
                        }
                    },
                    None => {
                        proof {
                            assert(total_of(post, name) == total_of(pre, name) + q);
                            assert(total_of(post, name) > u32::MAX);
                            lemma_total_take_le(rsv, i as int + 1, name);
                            assert(total_of(rsv, name) > u32::MAX);
                            assert(rsv[i as int].0 == name);
                            lemma_first_seen_contains(rsv, name);
                            assert(first_seen(rsv).contains(name));
                            let w = choose|w: int|
                                0 <= w < first_seen(rsv).len() && first_seen(rsv)[w] == name;
                            assert(total_of(rsv, first_seen(rsv)[w]) > u32::MAX);
                            assert(!no_overflow(rsv));
                        }
                        return None;
                    },
                }
            },
            None => {
                proof {
                    if first_seen(pre).contains(name) {
                        let w = choose|w: int|
                            0 <= w < first_seen(pre).len() && first_seen(pre)[w] == name;
                        assert(lines@[w].item@ == name);
                        assert(false);
                    }
                    assert(first_seen(post) == first_seen(pre).push(name));
                    lemma_absent_total_zero(pre, name);
                }
                lines.push(AggregatedLine { item: orders[i].item.clone(), total: q });
                proof {
                    assert(forall|k: int|
                        0 <= k < first_seen(pre).len() ==> #[trigger] first_seen(post)[k]
                            == first_seen(pre)[k]);
                }
            },
        }
        i = i + 1;
    }
    proof {
        assert(rsv.take(n as int) =~= rsv);
        assert(forall|j: int|
            0 <= j < lines@.len() ==> (#[trigger] first_seen(rsv)[j]) == lines@[j].item@);
        assert(forall|j: int|
            0 <= j < first_seen(rsv).len() ==> total_of(rsv, #[trigger] first_seen(rsv)[j])
                <= u32::MAX);
        assert(no_overflow(rsv));
        assert(lines@.map_values(|l: AggregatedLine| l@) =~= Seq::new(
            first_seen(rsv).len(),
            |i: int| (first_seen(rsv)[i], total_of(rsv, first_seen(rsv)[i]) as u32),
        ));
    }
    Some(lines)
}

} // verus!

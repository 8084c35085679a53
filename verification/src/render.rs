//! The report formatter: one `name: total` line per aggregated item, joined
//! by single newlines, with no trailing newline.

use vstd::prelude::*;
use crate::aggregate::AggregatedLine;
use crate::numeric::{dec_chars, push_decimal};

verus! {

/// The text of one report line.
pub open spec fn line_chars(name: Seq<char>, total: u32) -> Seq<char> {
    name + seq![':', ' '] + dec_chars(total as nat)
}

/// The text of the whole report: the lines joined by single newlines.
pub open spec fn report_chars(lines: Seq<(Seq<char>, u32)>) -> Seq<char>
    recommends
        lines.len() > 0,
    decreases lines.len(),
{
    if lines.len() == 0 {
        Seq::empty()
    } else if lines.len() == 1 {
        line_chars(lines[0].0, lines[0].1)
    } else {
        report_chars(lines.drop_last()) + seq!['\n'] + line_chars(lines.last().0, lines.last().1)
    }
}

/// Renders the aggregated lines as the report text, or signals the empty
/// result when there is no line at all.
pub fn render_report(lines: &Vec<AggregatedLine>) -> (r: Option<String>)
    ensures
        lines@.len() == 0 ==> r is None,
        lines@.len() > 0 ==> (r matches Some(s) && s@ == report_chars(
            lines@.map_values(|l: AggregatedLine| l@),
        )),
{
    let ghost view = lines@.map_values(|l: AggregatedLine| l@);
    let n = lines.len();
    if n == 0 {
        return None;
    }
    let mut body = String::new();
    let mut i: usize = 0;
    while i < n
        invariant
            i <= n,
            n == lines@.len(),
            n > 0,
            view == lines@.map_values(|l: AggregatedLine| l@),
            i > 0 ==> body@ == report_chars(view.take(i as int)),
            i == 0 ==> body@ == Seq::<char>::empty(),
        decreases n - i,
    {
        let ghost mark = body@;
        if i > 0 {
            body.append("\n");
            proof {
                reveal_strlit("\n");
                assert("\n"@ =~= seq!['\n']);
            }
        }
        body.append(lines[i].item.as_str());
        body.append(": ");
        push_decimal(lines[i].total, &mut body);
        proof {
            reveal_strlit(": ");
            assert(": "@ =~= seq![':', ' ']);
            assert(view.take(i as int + 1).drop_last() =~= view.take(i as int));
            assert(view.take(i as int + 1).last() == view[i as int]);
            assert(view[i as int] == lines@[i as int]@);
            if i == 0 {
                assert(body@ =~= line_chars(view[0].0, view[0].1));
                assert(view.take(1)[0] == view[0]);
                assert(body@ == report_chars(view.take(1)));
            } else {
                assert(body@ =~= report_chars(view.take(i as int)) + seq!['\n'] + line_chars(
                    view[i as int].0,
                    view[i as int].1,
                ));
                assert(body@ == report_chars(view.take(i as int + 1)));
            }
        }
        i = i + 1;
    }
    proof {
        assert(view.take(n as int) =~= view);
    }
    Some(body)
}

} // verus!

//! The dotted-octet transform: reads two four-octet strings and combines
//! them octet by octet with wrapping arithmetic.

use vstd::prelude::*;
use vstd::string::StringSliceAdditionalSpecFns;
use crate::numeric::{dec_chars, parse_u8, push_decimal, spec_parse_u8};

verus! {

/// Which direction the transform runs.
#[derive(Clone, Copy, Debug, PartialEq, Eq)]
pub enum Op {
    Add,
    Sub,
}

/// The failure of the transform, carrying its message.
#[derive(Clone, Debug, PartialEq, Eq)]
pub struct RequestError(pub String);

/// The segments of `s` split on `'.'`, leftmost first, as std's `split`
/// yields them: empty input gives one empty segment.
pub open spec fn split_dots(s: Seq<u8>) -> Seq<Seq<u8>>
    decreases s.len(),
{
    if s.len() == 0 {
        seq![Seq::<u8>::empty()]
    } else if s.last() == 0x2e {
        split_dots(s.drop_last()).push(Seq::empty())
    } else {
        let p = split_dots(s.drop_last());
        p.update(p.len() - 1, p.last().push(s.last()))
    }
}

proof fn lemma_split_dots_len(s: Seq<u8>)
    ensures
        split_dots(s).len() >= 1,
    decreases s.len(),
{
    if s.len() > 0 {
        lemma_split_dots_len(s.drop_last());
    }
}

/// The segments that parse as octets, in order; unparseable segments are
/// skipped.
pub open spec fn parsed_octets(segs: Seq<Seq<u8>>) -> Seq<u8>
    decreases segs.len(),
{
    if segs.len() == 0 {
        Seq::empty()
    } else {
        let p = parsed_octets(segs.drop_last());
        match spec_parse_u8(segs.last()) {
            Some(v) => p.push(v),
            None => p,
        }
    }
}

/// The octets of a dotted string: present exactly when four of its
/// dot-separated segments parse as octets.
pub open spec fn spec_get_octets(s: Seq<u8>) -> Option<Seq<u8>> {
    let o = parsed_octets(split_dots(s));
    if o.len() == 4 {
        Some(o)
    } else {
        None
    }
}

/// Reads the four octets of a dotted string, as `spec_get_octets` describes.
pub fn get_octets(s: &str) -> (r: Option<Vec<u8>>)
    ensures
        match spec_get_octets(s.spec_bytes()) {
            Some(o) => r matches Some(v) && v@ == o,
            None => r is None,
        },
{
    let bytes = s.as_bytes();
    let n = bytes.len();
    let mut cur: Vec<u8> = Vec::new();
    let mut octs: Vec<u8> = Vec::new();
    let mut i: usize = 0;
    proof {
        assert(bytes@.take(0) =~= Seq::<u8>::empty());
        assert(cur@ =~= split_dots(bytes@.take(0)).last());
        assert(split_dots(bytes@.take(0)).drop_last() =~= Seq::<Seq<u8>>::empty());
    }
    while i < n
        invariant
            i <= n,
            n == bytes@.len(),
            bytes@ == s.spec_bytes(),
            split_dots(bytes@.take(i as int)).len() >= 1,
            cur@ == split_dots(bytes@.take(i as int)).last(),
            octs@ == parsed_octets(split_dots(bytes@.take(i as int)).drop_last()),
        decreases n - i,
    {
        let ghost sd = split_dots(bytes@.take(i as int));
        proof {
            assert(bytes@.take(i as int + 1).drop_last() =~= bytes@.take(i as int));
            assert(bytes@.take(i as int + 1).last() == bytes@[i as int]);
            lemma_split_dots_len(bytes@.take(i as int + 1));
        }
        let b = bytes[i];
        if b == 0x2e {
            proof {
                assert(split_dots(bytes@.take(i as int + 1)) == sd.push(Seq::<u8>::empty()));
                assert(sd.push(Seq::<u8>::empty()).drop_last() =~= sd);
            }
            match parse_u8(cur.as_slice()) {
                Some(v) => octs.push(v),
                None => (),
            }
            cur = Vec::new();
            proof {
                assert(split_dots(bytes@.take(i as int + 1)).last() =~= cur@);
                assert(octs@ == parsed_octets(sd));
            }
        } else {
            cur.push(b);
            proof {
                let sd2 = split_dots(bytes@.take(i as int + 1));
                assert(sd2 == sd.update(sd.len() - 1, sd.last().push(bytes@[i as int])));
                assert(sd2.drop_last() =~= sd.drop_last());
                assert(sd2.last() == sd.last().push(bytes@[i as int]));
                assert(cur@ =~= sd2.last());
            }
        }
        i = i + 1;
    }
    proof {
        assert(bytes@.take(n as int) =~= bytes@);
    }
    let ghost sd = split_dots(bytes@);
    match parse_u8(cur.as_slice()) {
        Some(v) => octs.push(v),
        None => (),
    }
    proof {
        assert(octs@ == parsed_octets(sd));
    }
    if octs.len() == 4 {
        Some(octs)
    } else {
        None
    }
}

/// One octet combined under `op`: addition wraps past 255; subtraction takes
/// the first string's octet from the second's, wrapping below zero.
pub open spec fn op_octet(op: Op, a: u8, b: u8) -> u8 {
    match op {
        Op::Add => if a + b <= 255 {
            (a + b) as u8
        } else {
            (a + b - 256) as u8
        },
        Op::Sub => if b >= a {
            (b - a) as u8
        } else {
            (b - a + 256) as u8
        },
    }
}

/// The octets rendered in decimal and joined by dots.
pub open spec fn dotted_chars(o: Seq<u8>) -> Seq<char>
    decreases o.len(),
{
    if o.len() == 0 {
        Seq::empty()
    } else if o.len() == 1 {
        dec_chars(o[0] as nat)
    } else {
        dotted_chars(o.drop_last()) + seq!['.'] + dec_chars(o.last() as nat)
    }
}

/// The message reported when either string fails to read as four octets.
pub open spec fn error_chars(first: Seq<char>, second: Seq<char>) -> Seq<char> {
    "cannot decode request: octets are "@ + first + " and "@ + second
}

/// The transform's result over the bytes of the two strings: the combined
/// octets rendered dot-joined, when both strings read as four octets.
pub open spec fn spec_compute(first_b: Seq<u8>, second_b: Seq<u8>, op: Op) -> Option<Seq<char>> {
    match (spec_get_octets(first_b), spec_get_octets(second_b)) {
        (Some(a), Some(b)) => Some(
            dotted_chars(Seq::new(4, |i: int| op_octet(op, a[i], b[i]))),
        ),
        _ => None,
    }
}

/// Combines two dotted-octet strings under `op`, octet by octet with
/// wrapping arithmetic, as `spec_compute` describes; when either string does
/// not read as four octets the error carries both strings in its message.
pub fn compute_octets_with_overflow(first: &str, second: &str, op: Op) -> (r: Result<
    String,
    RequestError,
>)
    ensures
        match spec_compute(first.spec_bytes(), second.spec_bytes(), op) {
            Some(t) => r matches Ok(s) && s@ == t,
            None => r matches Err(e) && e.0@ == error_chars(first@, second@),
        },
{
    let oct_fst = get_octets(first);
    let oct_snd = get_octets(second);
    match (oct_fst, oct_snd) {
        (Some(from), Some(key)) => {
            let ghost combined = Seq::new(
                4,
                |i: int| op_octet(op, from@[i], key@[i]),
            );
            let mut res: Vec<u8> = Vec::new();
            let mut k: usize = 0;
            while k < 4
                invariant
                    k <= 4,
                    from@.len() == 4,
                    key@.len() == 4,
                    combined == Seq::new(4, |i: int| op_octet(op, from@[i], key@[i])),
                    res@ == combined.take(k as int),
                decreases 4 - k,
            {
                let a = from[k];
                let b = key[k];
                let v: u8 = match op {
                    Op::Add => {
                        let sum: u16 = a as u16 + b as u16;
                        if sum <= 255 {
                            sum as u8
                        } else {
                            (sum - 256) as u8
                        }
                    },
                    Op::Sub => {
                        if b >= a {
                            b - a
                        } else {
                            ((b as u16 + 256 - a as u16)) as u8
                        }
                    },
                };
                res.push(v);
                proof {
                    assert(v == op_octet(op, from@[k as int], key@[k as int]));
                    assert(res@ =~= combined.take(k as int + 1));
                }
                k = k + 1;
            }
            proof {
                assert(combined.take(4) =~= combined);
            }
            let mut out = String::new();
            let mut j: usize = 0;
            while j < 4
                invariant
                    j <= 4,
                    res@ == combined,
                    combined.len() == 4,
                    j > 0 ==> out@ == dotted_chars(combined.take(j as int)),
                    j == 0 ==> out@ == Seq::<char>::empty(),
                decreases 4 - j,
            {
                if j > 0 {
                    out.append(".");
                    proof {
                        reveal_strlit(".");
                        assert("."@ =~= seq!['.']);
                    }
                }
                push_decimal(res[j] as u32, &mut out);
                proof {
                    assert(combined.take(j as int + 1).drop_last() =~= combined.take(j as int));
                    assert(combined.take(j as int + 1).last() == combined[j as int]);
                    if j == 0 {
                        assert(combined.take(1)[0] == combined[0]);
                        assert(out@ =~= dec_chars(combined[0] as nat));
                        assert(out@ == dotted_chars(combined.take(1)));
                    } else {
                        assert(out@ =~= dotted_chars(combined.take(j as int)) + seq!['.']
                            + dec_chars(combined[j as int] as nat));
                        assert(out@ == dotted_chars(combined.take(j as int + 1)));
                    }
                }
                j = j + 1;
            }
            proof {
                assert(combined.take(4) =~= combined);
            }
            Ok(out)
        },
        _ => {
            let mut msg: String = "cannot decode request: octets are ".to_owned();
            msg.append(first);
            msg.append(" and ");
            msg.append(second);
            proof {
                assert(msg@ =~= error_chars(first@, second@));
            }
            Err(RequestError(msg))
        },
    }
}

} // verus!

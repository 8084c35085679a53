//! The manifest document model: a dynamically typed tree of tables, arrays,
//! strings and integers, with lookup by key.

use vstd::prelude::*;

verus! {

/// One node of a parsed manifest document. Shapes the pipeline never reads
/// (booleans, floats, datetimes) appear as `Other`.
pub enum Doc {
    Table(Vec<(String, Doc)>),
    Array(Vec<Doc>),
    Text(String),
    Int(i64),
    Other,
}

/// The value under `key` among table entries: the first entry whose key
/// matches, if any.
pub open spec fn entries_get(entries: Seq<(String, Doc)>, key: Seq<char>) -> Option<Doc>
    decreases entries.len(),
{
    if entries.len() == 0 {
        None
    } else if entries.first().0@ == key {
        Some(entries.first().1)
    } else {
        entries_get(entries.drop_first(), key)
    }
}

/// The value under `key` in `d`: `None` unless `d` is a table holding the
/// key.
pub open spec fn doc_get(d: Doc, key: Seq<char>) -> Option<Doc> {
    match d {
        Doc::Table(entries) => entries_get(entries@, key),
        _ => None,
    }
}

/// Looks `key` up in `d`, as `doc_get` describes.
pub fn lookup<'a>(d: &'a Doc, key: &String) -> (r: Option<&'a Doc>)
    ensures
        match r {
            Some(v) => doc_get(*d, key@) == Some(*v),
            None => doc_get(*d, key@) is None,
        },
{
    match d {
        Doc::Table(entries) => {
            let n = entries.len();
            let mut i: usize = 0;
            proof {
                assert(entries@.skip(0) =~= entries@);
            }
            while i < n
                invariant
                    i <= n,
                    n == entries@.len(),
                    doc_get(*d, key@) == entries_get(entries@, key@),
                    entries_get(entries@.skip(i as int), key@) == entries_get(entries@, key@),
                decreases n - i,
            {
                proof {
                    assert(entries@.skip(i as int).first() == entries@[i as int]);
                    assert(entries@.skip(i as int).drop_first() =~= entries@.skip(i as int + 1));
                }
                if entries[i].0.eq(key) {
                    proof {
                        assert(entries@.skip(i as int).len() > 0);
                        assert(entries_get(entries@.skip(i as int), key@) == Some(
                            entries@[i as int].1,
                        ));
                    }
                    return Some(&entries[i].1);
                }
                i = i + 1;
            }
            proof {
                assert(entries@.skip(n as int) =~= Seq::<(String, Doc)>::empty());
            }
            None
        },
        _ => None,
    }
}

} // verus!

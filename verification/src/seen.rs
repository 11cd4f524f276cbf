//! The values already met in a unique column, grouped by a hash of their
//! text so that a repeated value is found without scanning every earlier
//! record.

use crate::text::is_blank;
use crate::validator::{cell_text, earliest_row};
use std::collections::HashMap;
use vstd::prelude::*;

verus! {

broadcast use vstd::std_specs::hash::group_hash_axioms;

/// A polynomial hash of a text, computed with wrapping arithmetic.
pub open spec fn text_hash(s: Seq<char>) -> u64
    decreases s.len(),
{
    if s.len() == 0 {
        0
    } else {
        text_hash(s.drop_last()).wrapping_mul(31).wrapping_add((s.last() as u32) as u64)
    }
}

pub fn hash_text(s: &str) -> (r: u64)
    ensures
        r == text_hash(s@),
{
    let n = s.unicode_len();
    let mut h: u64 = 0;
    let mut i: usize = 0;
    while i < n
        invariant
            n == s@.len(),
            i <= n,
            h == text_hash(s@.take(i as int)),
        decreases n - i,
    {
        assert(s@.take(i + 1).drop_last() =~= s@.take(i as int));
        let c = s.get_char(i);
        h = h.wrapping_mul(31).wrapping_add(c as u32 as u64);
        i = i + 1;
    }
    assert(s@.take(n as int) =~= s@);
    h
}

/// `seen` maps the hash of each distinct non-blank value of column `j`
/// among the records `0..upto` to the first records holding the values of
/// that hash.
pub open spec fn seen_ok(
    records: Seq<Vec<String>>,
    j: int,
    seen: Map<u64, Vec<usize>>,
    upto: int,
) -> bool {
    &&& forall|h: u64, x: int|
        #![trigger seen[h]@[x]]
        seen.contains_key(h) && 0 <= x < seen[h]@.len() ==> {
            &&& (seen[h]@[x] as int) < upto
            &&& !is_blank(cell_text(records[seen[h]@[x] as int]@, j))
            &&& text_hash(cell_text(records[seen[h]@[x] as int]@, j)) == h
            &&& earliest_row(records, j, cell_text(records[seen[h]@[x] as int]@, j), upto) == Some(
                seen[h]@[x] as int,
            )
        }
    &&& forall|r: int|
        0 <= r < upto && !is_blank(#[trigger] cell_text(records[r]@, j)) ==> holds_value(
            records,
            j,
            seen,
            cell_text(records[r]@, j),
        )
}

/// Some first record kept under the hash of `value` holds `value`.
pub open spec fn holds_value(
    records: Seq<Vec<String>>,
    j: int,
    seen: Map<u64, Vec<usize>>,
    value: Seq<char>,
) -> bool {
    seen.contains_key(text_hash(value)) && exists|x: int|
        0 <= x < seen[text_hash(value)]@.len() && cell_text(
            records[#[trigger] seen[text_hash(value)]@[x] as int]@,
            j,
        ) == value
}

/// The earliest row holding a value holds it, and no row before it does;
/// when there is none, no row holds it.
pub proof fn lemma_earliest_found(records: Seq<Vec<String>>, j: int, value: Seq<char>, i: int)
    ensures
        earliest_row(records, j, value, i) matches Some(r) ==> 0 <= r < i && cell_text(
            records[r]@,
            j,
        ) == value && forall|g: int| 0 <= g < r ==> cell_text(#[trigger] records[g]@, j) != value,
        earliest_row(records, j, value, i) is None ==> forall|r: int|
            0 <= r < i ==> cell_text(#[trigger] records[r]@, j) != value,
    decreases i,
{
    if i > 0 {
        lemma_earliest_found(records, j, value, i - 1);
    }
}

/// A blank cell leaves the state valid one record further.
pub proof fn lemma_seen_blank(records: Seq<Vec<String>>, j: int, seen: Map<u64, Vec<usize>>, i: int)
    requires
        seen_ok(records, j, seen, i),
        i >= 0,
        is_blank(cell_text(records[i]@, j)),
    ensures
        seen_ok(records, j, seen, i + 1),
{
    assert forall|r: int|
        0 <= r < i + 1 && !is_blank(#[trigger] cell_text(records[r]@, j)) implies holds_value(
        records,
        j,
        seen,
        cell_text(records[r]@, j),
    ) by {
        if r < i {
        }
    }
}

/// Looks `value` up among the first records kept under hash `h`.
fn find_in_bucket(records: &Vec<Vec<String>>, j: usize, bucket: &Vec<usize>, value: &String) -> (r:
    Option<usize>)
    requires
        forall|x: int|
            0 <= x < bucket@.len() ==> (#[trigger] bucket@[x] as int) < records@.len() && !is_blank(
                cell_text(records@[bucket@[x] as int]@, j as int),
            ),
    ensures
        match r {
            Some(f) => exists|x: int| 0 <= x < bucket@.len() && bucket@[x] == f && cell_text(
                records@[f as int]@,
                j as int,
            ) == value@,
            None => forall|x: int|
                0 <= x < bucket@.len() ==> cell_text(records@[#[trigger] bucket@[x] as int]@, j as int)
                    != value@,
        },
{
    let n = bucket.len();
    let mut x: usize = 0;
    while x < n
        invariant
            n == bucket@.len(),
            x <= n,
            forall|y: int|
                0 <= y < bucket@.len() ==> (#[trigger] bucket@[y] as int) < records@.len() && !is_blank(
                    cell_text(records@[bucket@[y] as int]@, j as int),
                ),
            forall|y: int|
                0 <= y < x ==> cell_text(records@[#[trigger] bucket@[y] as int]@, j as int)
                    != value@,
        decreases n - x,
    {
        let f = bucket[x];
        let record = &records[f];
        assert(j < record@.len());
        if record[j] == *value {
            assert(bucket@[x as int] == f);
            return Some(f);
        }
        x = x + 1;
    }
    None
}

/// Notes the non-blank value of record `i` in column `j`: returns the first
/// earlier record holding the same value, and remembers record `i` when
/// there is none.
pub fn note_value(
    seen: &mut HashMap<u64, Vec<usize>>,
    records: &Vec<Vec<String>>,
    j: usize,
    i: usize,
    value: &String,
) -> (r: Option<usize>)
    requires
        seen_ok(records@, j as int, old(seen)@, i as int),
        i < records@.len(),
        value@ == cell_text(records@[i as int]@, j as int),
        !is_blank(value@),
    ensures
        match r {
            Some(f) => earliest_row(records@, j as int, value@, i as int) == Some(f as int),
            None => earliest_row(records@, j as int, value@, i as int) is None,
        },
        seen_ok(records@, j as int, final(seen)@, i + 1),
{
    let ghost recs = records@;
    let ghost jj = j as int;
    let ghost v = value@;
    let ghost old_seen = seen@;
    let h = hash_text(value.as_str());
    let found = match seen.get(&h) {
        Some(bucket) => {
            assert(seen@.contains_key(h) && seen@[h] == *bucket);
            assert forall|x: int| 0 <= x < bucket@.len() implies (#[trigger] bucket@[x] as int)
                < records@.len() && !is_blank(cell_text(records@[bucket@[x] as int]@, j as int)) by {
                assert(seen@[h]@[x] == bucket@[x]);
            }
            find_in_bucket(records, j, bucket, value)
        },
        None => None,
    };
    proof {
        lemma_earliest_found(recs, jj, v, i as int);
    }
    match found {
        Some(f) => {
            proof {
                let x = choose|x: int|
                    0 <= x < seen@[h]@.len() && seen@[h]@[x] == f && cell_text(recs[f as int]@, jj)
                        == v;
                assert(seen@[h]@[x] == f);
                assert forall|r: int|
                    0 <= r < i + 1 && !is_blank(#[trigger] cell_text(recs[r]@, jj)) implies holds_value(
                    recs,
                    jj,
                    seen@,
                    cell_text(recs[r]@, jj),
                ) by {
                    if r == i {
                        assert(seen@[h]@[x] == f);
                    }
                }
                assert forall|g: u64, y: int|
                    #![trigger seen@[g]@[y]]
                    seen@.contains_key(g) && 0 <= y < seen@[g]@.len() implies earliest_row(
                    recs,
                    jj,
                    cell_text(recs[seen@[g]@[y] as int]@, jj),
                    i + 1,
                ) == Some(seen@[g]@[y] as int) by {
                    assert(earliest_row(recs, jj, cell_text(recs[seen@[g]@[y] as int]@, jj), i as int)
                        == Some(seen@[g]@[y] as int));
                }
            }
            Some(f)
        },
        None => {
            proof {
                if earliest_row(recs, jj, v, i as int) is Some {
                    let r = earliest_row(recs, jj, v, i as int)->0;
                    assert(cell_text(recs[r]@, jj) == v);
                    assert(holds_value(recs, jj, old_seen, v));
                    let x = choose|x: int|
                        0 <= x < old_seen[text_hash(v)]@.len() && cell_text(
                            recs[#[trigger] old_seen[text_hash(v)]@[x] as int]@,
                            jj,
                        ) == v;
                    assert(old_seen[h]@[x] == old_seen[text_hash(v)]@[x]);
                }
            }
            let mut bucket = match seen.remove(&h) {
                Some(b) => b,
                None => Vec::new(),
            };
            let ghost old_bucket = bucket@;
            bucket.push(i);
            seen.insert(h, bucket);
            proof {
                let s2 = seen@;
                assert(s2 == old_seen.insert(h, bucket));
                assert(old_seen.contains_key(h) ==> old_bucket == old_seen[h]@);
                assert(!old_seen.contains_key(h) ==> old_bucket.len() == 0);
                assert forall|g: u64, y: int|
                    #![trigger s2[g]@[y]]
                    s2.contains_key(g) && 0 <= y < s2[g]@.len() implies {
                    &&& (s2[g]@[y] as int) < i + 1
                    &&& !is_blank(cell_text(recs[s2[g]@[y] as int]@, jj))
                    &&& text_hash(cell_text(recs[s2[g]@[y] as int]@, jj)) == g
                    &&& earliest_row(recs, jj, cell_text(recs[s2[g]@[y] as int]@, jj), i + 1) == Some(
                        s2[g]@[y] as int,
                    )
                } by {
                    if g == h && y == old_bucket.len() {
                        assert(s2[g]@[y] == i);
                    } else if g == h {
                        assert(s2[g]@[y] == old_seen[h]@[y]);
                    } else {
                        assert(s2[g] == old_seen[g]);
                    }
                }
                assert forall|r: int|
                    0 <= r < i + 1 && !is_blank(#[trigger] cell_text(recs[r]@, jj)) implies holds_value(
                    recs,
                    jj,
                    s2,
                    cell_text(recs[r]@, jj),
                ) by {
                    let w = cell_text(recs[r]@, jj);
                    if r == i {
                        assert(s2[h]@[old_bucket.len() as int] == i);
                    } else {
                        assert(holds_value(recs, jj, old_seen, w));
                        let x = choose|x: int|
                            0 <= x < old_seen[text_hash(w)]@.len() && cell_text(
                                recs[#[trigger] old_seen[text_hash(w)]@[x] as int]@,
                                jj,
                            ) == w;
                        if text_hash(w) == h {
                            assert(s2[h]@[x] == old_seen[h]@[x]);
                        } else {
                            assert(s2[text_hash(w)] == old_seen[text_hash(w)]);
                        }
                    }
                }
            }
            None
        },
    }
}

} // verus!

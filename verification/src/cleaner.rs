//! Which records a cleaned copy of the table keeps.

use crate::report::ValidationReport;
use vstd::prelude::*;

verus! {

broadcast use vstd::std_specs::hash::group_hash_axioms;

/// The indices, in order, of the first `n` records whose row (index + 1, the
/// header being row 0) carries no error.
pub open spec fn kept_indices(rows_with_errors: Set<usize>, n: nat) -> Seq<usize>
    decreases n,
{
    if n == 0 {
        Seq::empty()
    } else {
        let rest = kept_indices(rows_with_errors, (n - 1) as nat);
        if rows_with_errors.contains(n as usize) {
            rest
        } else {
            rest.push((n - 1) as usize)
        }
    }
}

/// The records of a table of `n` records that a cleaned copy keeps: those on
/// rows without errors, in their order.
pub fn rows_to_keep(report: &ValidationReport, n: usize) -> (r: Vec<usize>)
    ensures
        r@ == kept_indices(report.rows_with_errors@, n as nat),
{
    let mut kept: Vec<usize> = Vec::new();
    let mut i: usize = 0;
    while i < n
        invariant
            i <= n,
            kept@ == kept_indices(report.rows_with_errors@, i as nat),
        decreases n - i,
    {
        let row = i + 1;
        if !report.rows_with_errors.contains(&row) {
            kept.push(i);
        }
        i = i + 1;
    }
    kept
}

} // verus!

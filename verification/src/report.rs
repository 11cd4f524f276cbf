//! The validation report: the errors found and the rows they fall on.

use std::collections::HashSet;
use vstd::prelude::*;

verus! {

broadcast use vstd::std_specs::hash::group_hash_axioms;

/// One failed check: the column, the 1-based row, a message, and the cell.
pub struct ValidationError {
    pub column: String,
    pub row: usize,
    pub message: String,
    pub value: Option<String>,
}

/// The content of a `ValidationError`.
pub struct ErrorModel {
    pub column: Seq<char>,
    pub row: usize,
    pub message: Seq<char>,
    pub value: Option<Seq<char>>,
}

impl View for ValidationError {
    type V = ErrorModel;

    open spec fn view(&self) -> ErrorModel {
        ErrorModel {
            column: self.column@,
            row: self.row,
            message: self.message@,
            value: match self.value {
                Some(v) => Some(v@),
                None => None,
            },
        }
    }
}

/// The contents of a list of errors.
pub open spec fn error_models(errors: Seq<ValidationError>) -> Seq<ErrorModel> {
    errors.map_values(|e: ValidationError| e@)
}

/// The rows on which some error falls.
pub open spec fn rows_of(errors: Seq<ErrorModel>) -> Set<usize> {
    Set::new(|r: usize| exists|i: int| 0 <= i < errors.len() && #[trigger] errors[i].row == r)
}

pub struct ValidationReport {
    pub errors: Vec<ValidationError>,
    pub rows_with_errors: HashSet<usize>,
    pub total_rows: usize,
    pub total_errors: usize,
}

impl ValidationReport {
    /// The counters agree with the list of errors: `total_errors` counts them
    /// and `rows_with_errors` holds exactly the rows they fall on.
    pub open spec fn wf(&self) -> bool {
        &&& self.total_errors == self.errors@.len()
        &&& self.rows_with_errors@ == rows_of(error_models(self.errors@))
    }

    pub fn new() -> (r: Self)
        ensures
            r.errors@.len() == 0,
            r.rows_with_errors@ == Set::<usize>::empty(),
            r.total_rows == 0,
            r.total_errors == 0,
            r.wf(),
    {
        let r = ValidationReport {
            errors: Vec::new(),
            rows_with_errors: HashSet::new(),
            total_rows: 0,
            total_errors: 0,
        };
        assert(rows_of(error_models(r.errors@)) =~= Set::<usize>::empty());
        r
    }

    /// Records an error on `row`.
    pub fn add_error(&mut self, row: usize, error: ValidationError)
        requires
            old(self).total_errors < usize::MAX,
        ensures
            final(self).errors@ == old(self).errors@.push(error),
            final(self).total_errors == old(self).total_errors + 1,
            final(self).rows_with_errors@ == old(self).rows_with_errors@.insert(row),
            final(self).total_rows == old(self).total_rows,
            old(self).wf() && error.row == row ==> final(self).wf(),
    {
        let ghost e = error;
        self.errors.push(error);
        self.total_errors += 1;
        self.rows_with_errors.insert(row);
        proof {
            if old(self).wf() && e.row == row {
                let before = error_models(old(self).errors@);
                let after = error_models(self.errors@);
                assert(after =~= before.push(e@));
                assert(rows_of(after) =~= rows_of(before).insert(row)) by {
                    assert forall|r: usize| rows_of(before).insert(row).contains(r) implies rows_of(
                        after,
                    ).contains(r) by {
                        if r == row {
                            assert(after[before.len() as int].row == r);
                        } else {
                            let i = choose|i: int| 0 <= i < before.len() && #[trigger] before[i].row == r;
                            assert(after[i].row == r);
                        }
                    }
                    assert forall|r: usize| rows_of(after).contains(r) implies rows_of(
                        before,
                    ).insert(row).contains(r) by {
                        let i = choose|i: int| 0 <= i < after.len() && #[trigger] after[i].row == r;
                        if i < before.len() {
                            assert(before[i].row == r);
                        }
                    }
                }
            }
        }
    }

    pub fn set_total_rows(&mut self, total: usize)
        ensures
            final(self).total_rows == total,
            final(self).errors@ == old(self).errors@,
            final(self).rows_with_errors@ == old(self).rows_with_errors@,
            final(self).total_errors == old(self).total_errors,
    {
        self.total_rows = total;
    }
}

} // verus!

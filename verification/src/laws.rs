//! Properties of validation and cleaning that hold for every input.

use crate::cleaner::kept_indices;
use crate::date::{date_accepted, date_of, precedes, Date};
use crate::messages::{duplicate_message, required_message};
use crate::report::{rows_of, ErrorModel};
use crate::rules::{rule_is_sound, ColumnRule, ColumnsConfig};
use crate::seen::lemma_earliest_found;
use crate::text::{all_digits, decimal, digit_char, digit_value, digits_value, is_ascii_digit, is_blank, parse_u64_spec};
use crate::validator::{
    cell_errors, cell_text, earliest_row, header_index, integer_accepted, patterns_compile,
    row_errors, table_errors, type_errors, TableInput,
};
use vstd::prelude::*;

verus! {

proof fn lemma_row_errors_rows(inp: TableInput, i: int, k: int)
    requires
        0 <= i < usize::MAX,
    ensures
        forall|x: int|
            0 <= x < row_errors(inp, i, k).len() ==> #[trigger] row_errors(inp, i, k)[x].row == i
                + 1,
    decreases k,
{
    if k > 0 {
        lemma_row_errors_rows(inp, i, k - 1);
        let a = row_errors(inp, i, k - 1);
        let c = cell_errors(inp, i, k - 1);
        assert forall|x: int| 0 <= x < (a + c).len() implies #[trigger] (a + c)[x].row == i + 1 by {
            if x >= a.len() {
                assert(c[x - a.len()].row == i + 1);
            }
        }
    }
}

/// Rows are numbered from 1, the header being row 0: every error of the
/// first `n` records falls on a row between 1 and `n`.
pub proof fn law_error_rows_are_record_rows(inp: TableInput, n: int)
    requires
        0 <= n <= usize::MAX,
    ensures
        forall|x: int|
            0 <= x < table_errors(inp, n).len() ==> 1 <= #[trigger] table_errors(inp, n)[x].row
                <= n,
    decreases n,
{
    if n > 0 {
        law_error_rows_are_record_rows(inp, n - 1);
        lemma_row_errors_rows(inp, n - 1, inp.rules.len() as int);
        let a = table_errors(inp, n - 1);
        let b = row_errors(inp, n - 1, inp.rules.len() as int);
        assert forall|x: int| 0 <= x < (a + b).len() implies 1 <= #[trigger] (a + b)[x].row <= n by {
            if x >= a.len() {
                assert(b[x - a.len()].row == n);
            }
        }
    }
}

/// The column that rule `k` names is among the headers.
pub open spec fn column_present(inp: TableInput, k: int) -> bool {
    header_index(inp.headers, inp.rules[k].0@) is Some
}

/// `column` is the column of a rule and is among the headers.
pub open spec fn is_checked_column(inp: TableInput, column: Seq<char>) -> bool {
    exists|q: int| 0 <= q < inp.rules.len() && column_present(inp, q) && #[trigger] inp.rules[q].0@ == column
}

proof fn lemma_row_errors_columns(inp: TableInput, i: int, k: int)
    requires
        k <= inp.rules.len(),
    ensures
        forall|x: int|
            0 <= x < row_errors(inp, i, k).len() ==> is_checked_column(inp, (#[trigger] row_errors(inp, i, k)[x]).column),
    decreases k,
{
    if k > 0 {
        lemma_row_errors_columns(inp, i, k - 1);
        let a = row_errors(inp, i, k - 1);
        let c = cell_errors(inp, i, k - 1);
        assert(row_errors(inp, i, k) == a + c);
        assert forall|x: int| 0 <= x < row_errors(inp, i, k).len() implies is_checked_column(inp, (#[trigger] row_errors(inp, i, k)[x]).column) by {
            if x >= a.len() {
                assert(row_errors(inp, i, k)[x] == c[x - a.len()]);
                assert(c[x - a.len()].column == inp.rules[k - 1].0@);
                assert(column_present(inp, k - 1));
                assert(inp.rules[k - 1].0@ == c[x - a.len()].column);
            } else {
                assert(row_errors(inp, i, k)[x] == a[x]);
            }
        }
    }
}

/// A rule whose column is missing from the table raises no error: every
/// error names the column of a rule that the headers hold.
pub proof fn law_errors_name_present_columns(inp: TableInput, n: int)
    ensures
        forall|x: int|
            0 <= x < table_errors(inp, n).len() ==> is_checked_column(inp, (#[trigger] table_errors(inp, n)[x]).column),
    decreases n,
{
    if n > 0 {
        law_errors_name_present_columns(inp, n - 1);
        lemma_row_errors_columns(inp, n - 1, inp.rules.len() as int);
        let a = table_errors(inp, n - 1);
        let b = row_errors(inp, n - 1, inp.rules.len() as int);
        assert(table_errors(inp, n) == a + b);
        assert forall|x: int| 0 <= x < table_errors(inp, n).len() implies is_checked_column(inp, (#[trigger] table_errors(inp, n)[x]).column) by {
            if x >= a.len() {
                assert(table_errors(inp, n)[x] == b[x - a.len()]);
            } else {
                assert(table_errors(inp, n)[x] == a[x]);
            }
        }
    }
}

/// A blank cell in a column that is not required raises no error.
pub proof fn law_blank_optional_cell_passes(inp: TableInput, i: int, k: int)
    requires
        0 <= k < inp.rules.len(),
        !inp.rules[k].1.required,
        header_index(inp.headers, inp.rules[k].0@) matches Some(j) && is_blank(
            cell_text(inp.records[i]@, j),
        ),
    ensures
        cell_errors(inp, i, k) == Seq::<ErrorModel>::empty(),
{
}

/// A blank cell (empty or white space only) in a required column raises
/// exactly one error, the required error, and no type check.
pub proof fn law_required_blank_cell_is_reported(inp: TableInput, i: int, k: int)
    requires
        0 <= k < inp.rules.len(),
        inp.rules[k].1.required,
        header_index(inp.headers, inp.rules[k].0@) matches Some(j) && is_blank(
            cell_text(inp.records[i]@, j),
        ),
    ensures
        cell_errors(inp, i, k).len() == 1,
        cell_errors(inp, i, k)[0].row == (i + 1) as usize,
        cell_errors(inp, i, k)[0].column == inp.rules[k].0@,
        cell_errors(inp, i, k)[0].message == required_message(inp.rules[k].0@),
{
}

proof fn lemma_earliest_is_first(records: Seq<Vec<String>>, j: int, value: Seq<char>, i: int, r: int)
    requires
        0 <= r < i,
        cell_text(records[r]@, j) == value,
    ensures
        earliest_row(records, j, value, i) matches Some(f) && f <= r && cell_text(records[f]@, j)
            == value,
        earliest_row(records, j, value, i) matches Some(f) && forall|g: int|
            0 <= g < f ==> cell_text(#[trigger] records[g]@, j) != value,
    decreases i,
{
    if r < i - 1 {
        lemma_earliest_is_first(records, j, value, i - 1, r);
    } else {
        lemma_earliest_found(records, j, value, i - 1);
    }
}

/// In a unique column, a non-blank value already held by an earlier record
/// raises a duplicate error (the cell's first error), which names the row
/// of the value's first occurrence.
pub proof fn law_repeated_value_is_reported(inp: TableInput, i: int, k: int, j: int, r: int)
    requires
        0 <= k < inp.rules.len(),
        inp.rules[k].1.unique,
        0 <= r < i,
        header_index(inp.headers, inp.rules[k].0@) == Some(j),
        !is_blank(cell_text(inp.records[i]@, j)),
        cell_text(inp.records[r]@, j) == cell_text(inp.records[i]@, j),
    ensures
        earliest_row(inp.records, j, cell_text(inp.records[i]@, j), i) matches Some(f) && f <= r
            && cell_text(inp.records[f]@, j) == cell_text(inp.records[i]@, j) && (forall|g: int|
            0 <= g < f ==> cell_text(#[trigger] inp.records[g]@, j) != cell_text(
                inp.records[i]@,
                j,
            )) && cell_errors(inp, i, k).len() >= 1 && cell_errors(inp, i, k)[0] == (ErrorModel {
            column: inp.rules[k].0@,
            row: (i + 1) as usize,
            message: duplicate_message(
                cell_text(inp.records[i]@, j),
                inp.rules[k].0@,
                (f + 1) as nat,
            ),
            value: Some(cell_text(inp.records[i]@, j)),
        }),
{
    let v = cell_text(inp.records[i]@, j);
    lemma_earliest_is_first(inp.records, j, v, i, r);
    lemma_earliest_found(inp.records, j, v, i);
}

/// The first occurrence of a value raises no duplicate error: a non-blank
/// cell whose value no earlier record holds gets its type error, if any,
/// and nothing else.
pub proof fn law_first_occurrence_is_not_duplicate(inp: TableInput, i: int, k: int, j: int)
    requires
        0 <= k < inp.rules.len(),
        header_index(inp.headers, inp.rules[k].0@) == Some(j),
        !is_blank(cell_text(inp.records[i]@, j)),
        forall|g: int|
            0 <= g < i ==> cell_text(#[trigger] inp.records[g]@, j) != cell_text(
                inp.records[i]@,
                j,
            ),
    ensures
        cell_errors(inp, i, k) == type_errors(inp, i, k, cell_text(inp.records[i]@, j)),
{
    let v = cell_text(inp.records[i]@, j);
    lemma_earliest_found(inp.records, j, v, i);
    if earliest_row(inp.records, j, v, i) is Some {
        let f = earliest_row(inp.records, j, v, i)->0;
        assert(cell_text(inp.records[f]@, j) != v);
    }
    assert(cell_errors(inp, i, k) =~= type_errors(inp, i, k, v));
}

proof fn lemma_header_index_bound(headers: Seq<String>, name: Seq<char>)
    ensures
        header_index(headers, name) matches Some(j) ==> 0 <= j < headers.len() && headers[j]@
            == name,
    decreases headers.len(),
{
    if headers.len() > 0 {
        lemma_header_index_bound(headers.drop_last(), name);
    }
}

proof fn lemma_earliest_same(a: Seq<Vec<String>>, b: Seq<Vec<String>>, j: int, v: Seq<char>, i: int)
    requires
        i <= a.len(),
        i <= b.len(),
        forall|r: int| 0 <= r < i ==> cell_text(#[trigger] a[r]@, j) == cell_text(b[r]@, j),
    ensures
        earliest_row(a, j, v, i) == earliest_row(b, j, v, i),
    decreases i,
{
    if i > 0 {
        lemma_earliest_same(a, b, j, v, i - 1);
        assert(cell_text(a[i - 1]@, j) == cell_text(b[i - 1]@, j));
    }
}

/// `wider` is `inp` with one more column, `extra`, appended to the headers
/// and to every record, which all have the headers' width.
pub open spec fn with_extra_column(inp: TableInput, wider: TableInput, extra: Seq<char>) -> bool {
    &&& wider.headers.len() == inp.headers.len() + 1
    &&& wider.headers.drop_last() == inp.headers
    &&& wider.headers.last()@ == extra
    &&& wider.rules == inp.rules
    &&& wider.float_rejects == inp.float_rejects
    &&& wider.records.len() == inp.records.len()
    &&& forall|i: int|
        0 <= i < inp.records.len() ==> {
            &&& (#[trigger] inp.records[i])@.len() == inp.headers.len()
            &&& wider.records[i]@.len() == inp.headers.len() + 1
            &&& wider.records[i]@.drop_last() == inp.records[i]@
        }
}

proof fn lemma_extra_column_cell(inp: TableInput, wider: TableInput, extra: Seq<char>, i: int, k: int)
    requires
        with_extra_column(inp, wider, extra),
        forall|q: int| 0 <= q < inp.rules.len() ==> #[trigger] inp.rules[q].0@ != extra,
        0 <= i < inp.records.len(),
        0 <= k < inp.rules.len(),
    ensures
        cell_errors(wider, i, k) == cell_errors(inp, i, k),
{
    let name = inp.rules[k].0@;
    assert(header_index(wider.headers, name) == header_index(inp.headers, name));
    lemma_header_index_bound(inp.headers, name);
    if let Some(j) = header_index(inp.headers, name) {
        assert forall|r: int| 0 <= r < inp.records.len() implies cell_text(
            #[trigger] inp.records[r]@,
            j,
        ) == cell_text(wider.records[r]@, j) by {
            assert(inp.records[r]@.len() == inp.headers.len());
            assert(wider.records[r]@.drop_last()[j] == wider.records[r]@[j]);
        }
        let v = cell_text(inp.records[i]@, j);
        lemma_earliest_same(inp.records, wider.records, j, v, i);
        assert(cell_text(wider.records[i]@, j) == v);
    }
}

proof fn lemma_extra_column_row(inp: TableInput, wider: TableInput, extra: Seq<char>, i: int, k: int)
    requires
        with_extra_column(inp, wider, extra),
        forall|q: int| 0 <= q < inp.rules.len() ==> #[trigger] inp.rules[q].0@ != extra,
        0 <= i < inp.records.len(),
        0 <= k <= inp.rules.len(),
    ensures
        row_errors(wider, i, k) == row_errors(inp, i, k),
    decreases k,
{
    if k > 0 {
        lemma_extra_column_row(inp, wider, extra, i, k - 1);
        lemma_extra_column_cell(inp, wider, extra, i, k - 1);
    }
}

/// Columns of the table that no rule names are ignored: appending one to
/// the headers and to every record changes no error.
pub proof fn law_extra_column_is_ignored(inp: TableInput, wider: TableInput, extra: Seq<char>, n: int)
    requires
        with_extra_column(inp, wider, extra),
        forall|q: int| 0 <= q < inp.rules.len() ==> #[trigger] inp.rules[q].0@ != extra,
        0 <= n <= inp.records.len(),
    ensures
        table_errors(wider, n) == table_errors(inp, n),
    decreases n,
{
    if n > 0 {
        law_extra_column_is_ignored(inp, wider, extra, n - 1);
        lemma_extra_column_row(inp, wider, extra, n - 1, inp.rules.len() as int);
    }
}

/// No error falls on the row of record `i` (row `i + 1`).
pub open spec fn record_is_clean(errors: Seq<ErrorModel>, i: int) -> bool {
    forall|e: int| 0 <= e < errors.len() ==> (#[trigger] errors[e]).row != i + 1
}

/// Cleaning keeps exactly the records whose row carries no error, in their
/// order.
pub proof fn law_cleaning_keeps_clean_rows(errors: Seq<ErrorModel>, n: nat)
    requires
        n < usize::MAX,
    ensures
        forall|x: int, e: int|
            0 <= x < kept_indices(rows_of(errors), n).len() && 0 <= e < errors.len() ==> (
            #[trigger] errors[e]).row != #[trigger] kept_indices(rows_of(errors), n)[x] + 1,
        forall|x: int|
            0 <= x < kept_indices(rows_of(errors), n).len() ==> #[trigger] kept_indices(
                rows_of(errors),
                n,
            )[x] < n,
        forall|x: int, y: int|
            0 <= x < y < kept_indices(rows_of(errors), n).len() ==> #[trigger] kept_indices(
                rows_of(errors),
                n,
            )[x] < #[trigger] kept_indices(rows_of(errors), n)[y],
        forall|i: int|
            0 <= i < n && #[trigger] record_is_clean(errors, i) ==> kept_indices(
                rows_of(errors),
                n,
            ).contains(i as usize),
    decreases n,
{
    let rows = rows_of(errors);
    if n > 0 {
        law_cleaning_keeps_clean_rows(errors, (n - 1) as nat);
        let prev = kept_indices(rows, (n - 1) as nat);
        let cur = kept_indices(rows, n);
        assert forall|x: int, e: int| 0 <= x < cur.len() && 0 <= e < errors.len() implies (
        #[trigger] errors[e]).row != #[trigger] cur[x] + 1 by {
            if x < prev.len() {
                assert(cur[x] == prev[x]);
            } else {
                assert(cur[x] == n - 1);
                assert(!rows.contains(n as usize));
                if errors[e].row == n {
                    assert(rows.contains(errors[e].row));
                }
            }
        }
        assert forall|x: int| 0 <= x < cur.len() implies #[trigger] cur[x] < n by {
            if x < prev.len() {
                assert(cur[x] == prev[x]);
            }
        }
        assert forall|x: int, y: int| 0 <= x < y < cur.len() implies #[trigger] cur[x]
            < #[trigger] cur[y] by {
            if y < prev.len() {
                assert(cur[x] == prev[x]);
                assert(cur[y] == prev[y]);
            } else if x < prev.len() {
                assert(cur[x] == prev[x]);
                assert(prev[x] < n - 1);
            }
        }
        assert forall|i: int| 0 <= i < n && #[trigger] record_is_clean(errors, i) implies cur.contains(
            i as usize,
        ) by {
            if i < n - 1 {
                let x = choose|x: int| 0 <= x < prev.len() && prev[x] == i as usize;
                assert(cur[x] == prev[x]);
            } else {
                assert(!rows.contains(n as usize)) by {
                    if rows.contains(n as usize) {
                        let e = choose|e: int| 0 <= e < errors.len() && #[trigger] errors[e].row
                            == n as usize;
                        assert(errors[e].row != i + 1);
                    }
                }
                assert(cur[cur.len() - 1] == i as usize);
            }
        }
    }
}

/// Rules that `Rules::validate` accepts give validation every pattern it
/// compiles.
pub proof fn law_sound_rules_compile(rules: Seq<(String, ColumnsConfig)>)
    requires
        forall|k: int| 0 <= k < rules.len() ==> rule_is_sound(#[trigger] rules[k].1.rule),
    ensures
        patterns_compile(rules),
{
    assert forall|k: int| 0 <= k < rules.len() implies (#[trigger] rules[k].1.rule matches ColumnRule::Text {
        pattern: Some(p),
    } ==> crate::pattern::regex_compiles(p@)) by {
        assert(rule_is_sound(rules[k].1.rule));
    }
}

/// Date bounds are inclusive: a date equal to both bounds is accepted.
pub proof fn law_date_bounds_are_inclusive(text: Seq<char>, d: Date)
    requires
        date_of(text) == Some(d),
    ensures
        date_accepted(text, Some(d), Some(d)),
        date_accepted(text, None, None),
{
}

proof fn lemma_decimal_digits(n: nat)
    ensures
        decimal(n).len() >= 1,
        all_digits(decimal(n)),
        digits_value(decimal(n)) == n,
    decreases n,
{
    let d = (n % 10) as int;
    assert(is_ascii_digit(digit_char(d)) && digit_value(digit_char(d)) == d);
    if n >= 10 {
        lemma_decimal_digits(n / 10);
        let s = decimal(n);
        assert(s.drop_last() =~= decimal(n / 10));
        assert(s.last() == digit_char(d));
        assert(digits_value(s) == digits_value(decimal(n / 10)) * 10 + d);
        assert(all_digits(s)) by {
            assert forall|i: int| 0 <= i < s.len() implies #[trigger] is_ascii_digit(s[i]) by {
                if i < s.len() - 1 {
                    assert(s[i] == decimal(n / 10)[i]);
                }
            }
        }
    } else {
        assert(decimal(n) == seq![digit_char(n as int)]);
        assert(decimal(n).drop_last() =~= Seq::<char>::empty());
        assert(digits_value(decimal(n)) == digits_value(Seq::<char>::empty()) * 10 + d);
    }
}

/// Integer bounds are inclusive, and an integer written in decimal reads
/// back as itself: it is accepted with itself as both bounds.
pub proof fn law_integer_bounds_are_inclusive(n: u64)
    ensures
        parse_u64_spec(decimal(n as nat)) == Some(n),
        integer_accepted(decimal(n as nat), Some(n), Some(n)),
        integer_accepted(decimal(n as nat), None, None),
{
    lemma_decimal_digits(n as nat);
    assert(decimal(n as nat)[0] != '+') by {
        assert(is_ascii_digit(decimal(n as nat)[0]));
    }
}

/// Dates are ordered as on the calendar: an earlier year comes first
/// whatever the months and days; within a year an earlier month comes first;
/// within a month an earlier day comes first.
pub proof fn law_dates_follow_the_calendar(a: Date, b: Date)
    ensures
        a.year < b.year ==> precedes(a, b),
        a.year > b.year ==> !precedes(a, b),
        a.year == b.year && a.month < b.month ==> precedes(a, b),
        a.year == b.year && a.month > b.month ==> !precedes(a, b),
        a.year == b.year && a.month == b.month ==> (precedes(a, b) <==> a.day < b.day),
        !precedes(a, a),
        precedes(a, b) ==> !precedes(b, a),
        a != b ==> (precedes(a, b) || precedes(b, a)),
{
}

/// For calendar dates (months 1 to 12, days 1 to 31), one date precedes
/// another exactly when it has fewer days counted on a 512-day-year,
/// 32-day-month scale.
pub proof fn law_date_order_is_a_day_count(a: Date, b: Date)
    requires
        1 <= a.month <= 12,
        1 <= b.month <= 12,
        1 <= a.day <= 31,
        1 <= b.day <= 31,
    ensures
        precedes(a, b) <==> a.year * 512 + a.month * 32 + a.day < b.year * 512 + b.month * 32 + b.day,
{
}

/// Precedence is transitive.
pub proof fn law_date_order_is_transitive(a: Date, b: Date, c: Date)
    requires
        precedes(a, b),
        precedes(b, c),
    ensures
        precedes(a, c),
{
}

/// The two date bounds act independently: a date passes both exactly when
/// it passes each alone, and dropping a bound never rejects a date.
pub proof fn law_date_bounds_are_independent(text: Seq<char>, b: Date, a: Date)
    ensures
        date_accepted(text, Some(b), Some(a)) == (date_accepted(text, Some(b), None)
            && date_accepted(text, None, Some(a))),
        date_accepted(text, Some(b), Some(a)) ==> date_accepted(text, None, None),
        date_accepted(text, Some(b), None) ==> date_accepted(text, None, None),
        date_accepted(text, None, Some(a)) ==> date_accepted(text, None, None),
        date_accepted(text, None, None) == date_of(text) is Some,
{
}

/// A date earlier than the `after` bound is rejected whatever the `before`
/// bound; a date later than the `before` bound is rejected whatever the
/// `after` bound; a date within both (inclusive) is accepted.
pub proof fn law_dates_outside_a_bound_are_rejected(
    text: Seq<char>,
    d: Date,
    before: Option<Date>,
    after: Option<Date>,
)
    requires
        date_of(text) == Some(d),
    ensures
        after matches Some(a) && d.year < a.year ==> !date_accepted(text, before, after),
        after matches Some(a) && precedes(d, a) ==> !date_accepted(text, before, after),
        before matches Some(b) && d.year > b.year ==> !date_accepted(text, before, after),
        before matches Some(b) && precedes(b, d) ==> !date_accepted(text, before, after),
        (after matches Some(a) ==> d == a || precedes(a, d)) && (before matches Some(b) ==> d == b
            || precedes(d, b)) ==> date_accepted(text, before, after),
{
}

/// A date rule whose `before` date is the same as, or later on the calendar
/// than, its `after` date is sound; one whose `before` date falls in an
/// earlier year is not.
pub proof fn law_ordered_date_bounds_are_sound(
    before: String,
    after: String,
    db: Date,
    da: Date,
)
    requires
        date_of(before@) == Some(db),
        date_of(after@) == Some(da),
    ensures
        db.year > da.year ==> rule_is_sound(
            ColumnRule::Date { before: Some(before), after: Some(after) },
        ),
        db == da ==> rule_is_sound(ColumnRule::Date { before: Some(before), after: Some(after) }),
        !precedes(db, da) ==> rule_is_sound(
            ColumnRule::Date { before: Some(before), after: Some(after) },
        ),
        db.year < da.year ==> !rule_is_sound(
            ColumnRule::Date { before: Some(before), after: Some(after) },
        ),
{
}

/// The two integer bounds act independently, and an absent bound imposes
/// nothing: no minimum is the same as a minimum of 0, no maximum the same
/// as a maximum of `u64::MAX`.
pub proof fn law_integer_bounds_are_independent(text: Seq<char>, lo: u64, hi: u64)
    ensures
        integer_accepted(text, Some(lo), Some(hi)) == (integer_accepted(text, Some(lo), None)
            && integer_accepted(text, None, Some(hi))),
        integer_accepted(text, Some(lo), None) == integer_accepted(text, Some(lo), Some(u64::MAX)),
        integer_accepted(text, None, Some(hi)) == integer_accepted(text, Some(0), Some(hi)),
        integer_accepted(text, None, None) == parse_u64_spec(text) is Some,
        integer_accepted(text, Some(lo), None) ==> integer_accepted(text, None, None),
        integer_accepted(text, None, Some(hi)) ==> integer_accepted(text, None, None),
{
}

/// An integer written in decimal is accepted exactly when it lies within
/// the bounds that are given: at or above the minimum, at or below the
/// maximum.
pub proof fn law_integers_within_bounds_are_accepted(n: u64, lo: u64, hi: u64)
    ensures
        lo <= n ==> integer_accepted(decimal(n as nat), Some(lo), None),
        n < lo ==> !integer_accepted(decimal(n as nat), Some(lo), None),
        n <= hi ==> integer_accepted(decimal(n as nat), None, Some(hi)),
        hi < n ==> !integer_accepted(decimal(n as nat), None, Some(hi)),
        lo <= n <= hi ==> integer_accepted(decimal(n as nat), Some(lo), Some(hi)),
        n < lo || hi < n ==> !integer_accepted(decimal(n as nat), Some(lo), Some(hi)),
{
    law_integer_bounds_are_inclusive(n);
}

/// An integer rule is sound exactly when it does not give a minimum above
/// its maximum; a rule with a missing bound is always sound.
pub proof fn law_integer_rule_soundness(lo: u64, hi: u64)
    ensures
        rule_is_sound(ColumnRule::Integer { min: Some(lo), max: Some(hi) }) == (lo <= hi),
        rule_is_sound(ColumnRule::Integer { min: Some(lo), max: None }),
        rule_is_sound(ColumnRule::Integer { min: None, max: Some(hi) }),
        rule_is_sound(ColumnRule::Integer { min: None, max: None }),
{
}

/// A rule's column is the last header carrying its name, and there is none
/// when no header carries it.
pub proof fn law_rule_column_is_last_matching_header(headers: Seq<String>, name: Seq<char>)
    ensures
        header_index(headers, name) matches Some(j) ==> 0 <= j < headers.len() && headers[j]@
            == name && forall|q: int| j < q < headers.len() ==> (#[trigger] headers[q])@ != name,
        header_index(headers, name) is None ==> forall|q: int|
            0 <= q < headers.len() ==> (#[trigger] headers[q])@ != name,
    decreases headers.len(),
{
    if headers.len() > 0 {
        law_rule_column_is_last_matching_header(headers.drop_last(), name);
        assert forall|q: int| 0 <= q < headers.len() - 1 implies headers[q] == headers.drop_last()[q] by {
        }
    }
}

/// A text is blank exactly when each of its parts is: white space joined to
/// white space stays blank, and any other character makes it non-blank.
pub proof fn law_blank_texts(s: Seq<char>, t: Seq<char>)
    ensures
        is_blank(s + t) == (is_blank(s) && is_blank(t)),
        is_blank(Seq::<char>::empty()),
        is_blank(seq![' ']),
        is_blank(seq!['\t']),
        !is_blank(seq!['a']),
        !is_blank(seq!['0']),
{
    assert forall|i: int| 0 <= i < s.len() implies (s + t)[i] == s[i] by {}
    assert forall|i: int| 0 <= i < t.len() implies (s + t)[s.len() + i] == t[i] by {}
    if is_blank(s) && is_blank(t) {
        assert forall|i: int| 0 <= i < (s + t).len() implies #[trigger] crate::text::is_white_space(
            (s + t)[i],
        ) by {
            if i >= s.len() {
                assert((s + t)[i] == t[i - s.len()]);
            }
        }
    }
    assert(seq!['a'][0] == 'a' && !crate::text::is_white_space(seq!['a'][0]));
    assert(seq!['0'][0] == '0' && !crate::text::is_white_space(seq!['0'][0]));
    if is_blank(s + t) {
        assert forall|i: int| 0 <= i < t.len() implies #[trigger] crate::text::is_white_space(t[i]) by {
            assert((s + t)[s.len() + i] == t[i]);
        }
    }
}

proof fn lemma_digits_value_leading_zero(t: Seq<char>)
    ensures
        digits_value(seq!['0'] + t) == digits_value(t),
    decreases t.len(),
{
    if t.len() > 0 {
        lemma_digits_value_leading_zero(t.drop_last());
        assert((seq!['0'] + t).drop_last() =~= seq!['0'] + t.drop_last());
        assert((seq!['0'] + t).last() == t.last());
        assert(digits_value(seq!['0'] + t) == digits_value(seq!['0'] + t.drop_last()) * 10
            + digit_value(t.last()));
    } else {
        assert(seq!['0'] + t =~= seq!['0']);
        assert(seq!['0'].drop_last() =~= Seq::<char>::empty());
        assert(digits_value(seq!['0']) == digits_value(Seq::<char>::empty()) * 10 + digit_value('0'));
    }
}

/// Reading an unsigned integer: a leading `+` or leading zeros change
/// nothing, a leading `-` is refused, and a text holding a character other
/// than a digit (after the optional `+`) is refused.
pub proof fn law_integer_text_forms(t: Seq<char>)
    requires
        t.len() > 0,
        all_digits(t),
    ensures
        parse_u64_spec(seq!['+'] + t) == parse_u64_spec(t),
        parse_u64_spec(seq!['0'] + t) == parse_u64_spec(t),
        parse_u64_spec(seq!['-'] + t) is None,
        parse_u64_spec(t + seq![' ']) is None,
        parse_u64_spec(Seq::<char>::empty()) is None,
        parse_u64_spec(seq!['+']) is None,
{
    assert((seq!['+'] + t).drop_first() =~= t);
    assert(is_ascii_digit(t[0]));
    assert(t[0] != '+');
    lemma_digits_value_leading_zero(t);
    assert(all_digits(seq!['0'] + t)) by {
        assert forall|i: int| 0 <= i < (seq!['0'] + t).len() implies #[trigger] is_ascii_digit(
            (seq!['0'] + t)[i],
        ) by {
            if i > 0 {
                assert((seq!['0'] + t)[i] == t[i - 1]);
            }
        }
    }
    assert(!is_ascii_digit((seq!['-'] + t)[0]));
    assert(!is_ascii_digit((t + seq![' '])[t.len() as int]));
    assert(seq!['+'].drop_first().len() == 0);
}

} // verus!

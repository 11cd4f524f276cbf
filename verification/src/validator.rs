//! Validation of a table against its rules.

use crate::date::{date_accepted, date_of, parse_date, validate_date, Date};
use crate::messages::{
    date_message, duplicate_message, email_message, float_message, integer_message,
    make_date_message, make_duplicate_message, make_email_message, make_float_message,
    make_integer_message, make_pattern_message, make_required_message, pattern_message,
    required_message,
};
use crate::pattern::{regex_compiles, regex_matches, TextPattern};
use crate::report::{error_models, ErrorModel, ValidationError, ValidationReport};
use crate::rules::{ColumnRule, ColumnsConfig, Rules};
use crate::seen::{lemma_seen_blank, note_value, seen_ok};
use std::collections::HashMap;
use crate::text::{is_blank, parse_u64, parse_u64_spec, text_is_blank};
use vstd::prelude::*;

verus! {

/// The pattern an e-mail address must match: `x@x.x` with no white space or
/// extra `@`.
pub const EMAIL_PATTERN: &'static str = r"^[^\s@]+@[^\s@]+\.[^\s@]+$";

/// The position of the column `name` among the headers: the last header of
/// that name.
pub open spec fn header_index(headers: Seq<String>, name: Seq<char>) -> Option<int>
    decreases headers.len(),
{
    if headers.len() == 0 {
        None
    } else if headers.last()@ == name {
        Some(headers.len() - 1)
    } else {
        header_index(headers.drop_last(), name)
    }
}

/// The text of a cell; a record shorter than the headers reads as empty there.
pub open spec fn cell_text(record: Seq<String>, j: int) -> Seq<char> {
    if 0 <= j < record.len() {
        record[j]@
    } else {
        Seq::<char>::empty()
    }
}

/// An unsigned integer within the inclusive bounds.
pub open spec fn integer_accepted(text: Seq<char>, min: Option<u64>, max: Option<u64>) -> bool {
    match parse_u64_spec(text) {
        None => false,
        Some(n) => {
            &&& (min matches Some(lo) ==> lo <= n)
            &&& (max matches Some(hi) ==> n <= hi)
        },
    }
}

/// The date a rule's bound writes, when it writes one.
pub open spec fn date_bound(text: Option<String>) -> Option<Date> {
    match text {
        Some(t) => date_of(t@),
        None => None,
    }
}

/// The message of the type check of a non-blank cell, when the check fails.
/// A float cell's verdict comes from outside (`float_rejected`).
pub open spec fn type_failure(rule: ColumnRule, value: Seq<char>, float_rejected: bool) -> Option<
    Seq<char>,
> {
    match rule {
        ColumnRule::Text { pattern } => match pattern {
            Some(p) => if regex_matches(p@, value) {
                None
            } else {
                Some(pattern_message(value, p@))
            },
            None => None,
        },
        ColumnRule::Integer { min, max } => if integer_accepted(value, min, max) {
            None
        } else {
            Some(integer_message(value))
        },
        ColumnRule::Float { .. } => if float_rejected {
            Some(float_message(value))
        } else {
            None
        },
        ColumnRule::Date { before, after } => if date_accepted(
            value,
            date_bound(before),
            date_bound(after),
        ) {
            None
        } else {
            Some(date_message(value))
        },
        ColumnRule::Email => if regex_matches(EMAIL_PATTERN@, value) {
            None
        } else {
            Some(email_message(value))
        },
    }
}

/// Where the column `name` stands among the headers (the last header of that
/// name).
pub fn column_index(headers: &Vec<String>, name: &String) -> (r: Option<usize>)
    ensures
        match r {
            Some(j) => header_index(headers@, name@) == Some(j as int),
            None => header_index(headers@, name@) is None,
        },
{
    let n = headers.len();
    let mut found: Option<usize> = None;
    let mut j: usize = 0;
    while j < n
        invariant
            n == headers@.len(),
            j <= n,
            match found {
                Some(x) => header_index(headers@.take(j as int), name@) == Some(x as int),
                None => header_index(headers@.take(j as int), name@) is None,
            },
        decreases n - j,
    {
        assert(headers@.take(j + 1).drop_last() =~= headers@.take(j as int));
        if headers[j] == *name {
            found = Some(j);
        }
        j = j + 1;
    }
    assert(headers@.take(n as int) =~= headers@);
    found
}

/// Whether `value` is an unsigned integer within the inclusive bounds.
pub fn validate_integer(value: &str, min: Option<u64>, max: Option<u64>) -> (r: bool)
    ensures
        r == integer_accepted(value@, min, max),
{
    if let Some(num) = parse_u64(value) {
        if let Some(min_val) = min {
            if num < min_val {
                return false;
            }
        }
        if let Some(max_val) = max {
            if num > max_val {
                return false;
            }
        }
        return true;
    }
    false
}

/// Whether `email` matches the e-mail pattern it is given.
pub fn validate_email(email: &str, email_regex: &TextPattern) -> (r: bool)
    ensures
        r == regex_matches(email_regex.text(), email@),
{
    email_regex.is_match(email)
}

/// Whether `value` matches `pattern`.
pub fn validate_pattern(value: &str, pattern: &TextPattern) -> (r: bool)
    ensures
        r == regex_matches(pattern.text(), value@),
{
    pattern.is_match(value)
}

/// What a column needs, prepared once before the rows are read: its compiled
/// pattern (text rules with a pattern) and its date bounds (date rules).
struct Prepared {
    pattern: Option<TextPattern>,
    before: Option<Date>,
    after: Option<Date>,
}

spec fn prepared_for(p: Prepared, rule: ColumnRule) -> bool {
    &&& (rule matches ColumnRule::Text { pattern: Some(text) } ==> (p.pattern matches Some(tp)
        && tp.text() == text@))
    &&& (rule matches ColumnRule::Date { before, after } ==> (p.before == date_bound(before)
        && p.after == date_bound(after)))
}

fn prepare(rule: &ColumnRule) -> (r: Prepared)
    requires
        rule matches ColumnRule::Text { pattern: Some(text) } ==> regex_compiles(text@),
    ensures
        prepared_for(r, *rule),
{
    match rule {
        ColumnRule::Text { pattern: Some(text) } => match TextPattern::new(text.as_str()) {
            Ok(tp) => Prepared { pattern: Some(tp), before: None, after: None },
            Err(_) => Prepared { pattern: None, before: None, after: None },
        },
        ColumnRule::Date { before, after } => {
            let b = match before {
                Some(t) => match parse_date(t.as_str()) {
                    Ok(d) => Some(d),
                    Err(_) => None,
                },
                None => None,
            };
            let a = match after {
                Some(t) => match parse_date(t.as_str()) {
                    Ok(d) => Some(d),
                    Err(_) => None,
                },
                None => None,
            };
            Prepared { pattern: None, before: b, after: a }
        },
        _ => Prepared { pattern: None, before: None, after: None },
    }
}

/// The type check of a non-blank cell: the failure message, if it fails.
fn type_check(
    rule: &ColumnRule,
    prepared: &Prepared,
    email: &TextPattern,
    value: &str,
    float_rejected: bool,
) -> (r: Option<String>)
    requires
        prepared_for(*prepared, *rule),
        email.text() == EMAIL_PATTERN@,
    ensures
        match r {
            Some(m) => type_failure(*rule, value@, float_rejected) == Some(m@),
            None => type_failure(*rule, value@, float_rejected) is None,
        },
{
    match rule {
        ColumnRule::Text { pattern } => match pattern {
            Some(p) => {
                let tp = prepared.pattern.as_ref().unwrap();
                if !validate_pattern(value, tp) {
                    Some(make_pattern_message(value, p.as_str()))
                } else {
                    None
                }
            },
            None => None,
        },
        ColumnRule::Integer { min, max } => {
            if !validate_integer(value, *min, *max) {
                Some(make_integer_message(value))
            } else {
                None
            }
        },
        ColumnRule::Float { .. } => {
            if float_rejected {
                Some(make_float_message(value))
            } else {
                None
            }
        },
        ColumnRule::Date { .. } => {
            if !validate_date(value, prepared.before, prepared.after) {
                Some(make_date_message(value))
            } else {
                None
            }
        },
        ColumnRule::Email => {
            if !validate_email(value, email) {
                Some(make_email_message(value))
            } else {
                None
            }
        },
    }
}

/// Everything validation reads: the headers, the records, the rules in
/// order, and the (record, rule) positions whose float check failed.
pub struct TableInput {
    pub headers: Seq<String>,
    pub records: Seq<Vec<String>>,
    pub rules: Seq<(String, ColumnsConfig)>,
    pub float_rejects: Seq<(usize, usize)>,
}

/// The first of the records `0..i` whose cell in column `j` is `value`.
pub open spec fn earliest_row(records: Seq<Vec<String>>, j: int, value: Seq<char>, i: int) -> Option<
    int,
>
    decreases i,
{
    if i <= 0 {
        None
    } else {
        match earliest_row(records, j, value, i - 1) {
            Some(r) => Some(r),
            None => if cell_text(records[i - 1]@, j) == value {
                Some(i - 1)
            } else {
                None
            },
        }
    }
}

/// The duplicate error of a non-blank cell of record `i` in the column `j`
/// of rule `k`: when the column is unique and an earlier record holds the
/// same value, the error names the first such record's row.
pub open spec fn duplicate_errors(inp: TableInput, i: int, k: int, j: int, value: Seq<char>) -> Seq<
    ErrorModel,
> {
    let name = inp.rules[k].0@;
    if inp.rules[k].1.unique {
        match earliest_row(inp.records, j, value, i) {
            Some(r) => seq![
                ErrorModel {
                    column: name,
                    row: (i + 1) as usize,
                    message: duplicate_message(value, name, (r + 1) as nat),
                    value: Some(value),
                },
            ],
            None => Seq::empty(),
        }
    } else {
        Seq::empty()
    }
}

/// The type error of a non-blank cell of record `i` under rule `k`.
pub open spec fn type_errors(inp: TableInput, i: int, k: int, value: Seq<char>) -> Seq<ErrorModel> {
    let name = inp.rules[k].0@;
    match type_failure(
        inp.rules[k].1.rule,
        value,
        inp.float_rejects.contains((i as usize, k as usize)),
    ) {
        Some(m) => seq![
            ErrorModel { column: name, row: (i + 1) as usize, message: m, value: Some(value) },
        ],
        None => Seq::empty(),
    }
}

/// The errors that rule `k` raises on record `i` (row `i + 1`, the header
/// being row 0): none when its column is absent; for a blank cell, the
/// required error when the column is required and nothing else; otherwise
/// the duplicate error, then the type error.
pub open spec fn cell_errors(inp: TableInput, i: int, k: int) -> Seq<ErrorModel> {
    let name = inp.rules[k].0@;
    let config = inp.rules[k].1;
    match header_index(inp.headers, name) {
        None => Seq::empty(),
        Some(j) => {
            let value = cell_text(inp.records[i]@, j);
            if is_blank(value) {
                if config.required {
                    seq![
                        ErrorModel {
                            column: name,
                            row: (i + 1) as usize,
                            message: required_message(name),
                            value: Some(value),
                        },
                    ]
                } else {
                    Seq::empty()
                }
            } else {
                duplicate_errors(inp, i, k, j, value) + type_errors(inp, i, k, value)
            }
        },
    }
}

/// The errors of record `i` under the first `k` rules, in rule order.
pub open spec fn row_errors(inp: TableInput, i: int, k: int) -> Seq<ErrorModel>
    decreases k,
{
    if k <= 0 {
        Seq::empty()
    } else {
        row_errors(inp, i, k - 1) + cell_errors(inp, i, k - 1)
    }
}

/// The errors of the first `n` records, record by record.
pub open spec fn table_errors(inp: TableInput, n: int) -> Seq<ErrorModel>
    decreases n,
{
    if n <= 0 {
        Seq::empty()
    } else {
        table_errors(inp, n - 1) + row_errors(inp, n - 1, inp.rules.len() as int)
    }
}

/// The uniqueness state kept for rule `k` covers the records `0..upto`.
pub open spec fn unique_ok(inp: TableInput, k: int, seen: Map<u64, Vec<usize>>, upto: int) -> bool {
    inp.rules[k].1.unique ==> match header_index(inp.headers, inp.rules[k].0@) {
        Some(j) => seen_ok(inp.records, j, seen, upto),
        None => true,
    }
}

/// Checks the cell of record `i` under one rule, records its errors and
/// keeps the uniqueness state of the rule up to date.
fn check_cell(
    report: &mut ValidationReport,
    seen: &mut HashMap<u64, Vec<usize>>,
    records: &Vec<Vec<String>>,
    i: usize,
    name: &String,
    config: &ColumnsConfig,
    column: Option<usize>,
    prepared: &Prepared,
    email: &TextPattern,
    float_rejected: bool,
    Ghost(inp): Ghost<TableInput>,
    Ghost(k): Ghost<int>,
)
    requires
        inp.records == records@,
        i < records@.len(),
        i < usize::MAX,
        0 <= k < inp.rules.len(),
        inp.rules[k].0 == *name,
        inp.rules[k].1 == *config,
        match column {
            Some(j) => header_index(inp.headers, name@) == Some(j as int),
            None => header_index(inp.headers, name@) is None,
        },
        prepared_for(*prepared, config.rule),
        email.text() == EMAIL_PATTERN@,
        float_rejected == inp.float_rejects.contains((i, k as usize)),
        old(report).wf(),
        old(report).total_errors + 2 <= usize::MAX,
        unique_ok(inp, k, old(seen)@, i as int),
    ensures
        error_models(final(report).errors@) == error_models(old(report).errors@) + cell_errors(
            inp,
            i as int,
            k,
        ),
        final(report).wf(),
        final(report).total_errors <= old(report).total_errors + 2,
        final(report).total_rows == old(report).total_rows,
        unique_ok(inp, k, final(seen)@, i + 1),
{
    let ghost before = error_models(report.errors@);
    let row = i + 1;
    match column {
        None => {
            assert(cell_errors(inp, i as int, k) =~= Seq::<ErrorModel>::empty());
            assert(error_models(report.errors@) =~= before + cell_errors(inp, i as int, k));
        },
        Some(j) => {
            let record = &records[i];
            let ghost value = cell_text(record@, j as int);
            let blank = if j < record.len() {
                text_is_blank(record[j].as_str())
            } else {
                true
            };
            assert(blank == is_blank(value));
            if blank {
                if config.required {
                    let text = if j < record.len() {
                        record[j].clone()
                    } else {
                        String::new()
                    };
                    let message = make_required_message(name.as_str());
                    let error = ValidationError {
                        column: name.clone(),
                        row,
                        message,
                        value: Some(text),
                    };
                    assert(error@ == cell_errors(inp, i as int, k)[0]);
                    report.add_error(row, error);
                    assert(error_models(report.errors@) =~= before.push(error@));
                }
                assert(error_models(report.errors@) =~= before + cell_errors(inp, i as int, k));
                proof {
                    if config.unique {
                        lemma_seen_blank(records@, j as int, seen@, i as int);
                    }
                }
            } else {
                let text = &record[j];
                assert(text@ == value);
                let ghost dup = duplicate_errors(inp, i as int, k, j as int, value);
                if config.unique {
                    match note_value(seen, records, j, i, text) {
                        Some(f) => {
                            let message = make_duplicate_message(text.as_str(), name.as_str(), f + 1);
                            let error = ValidationError {
                                column: name.clone(),
                                row,
                                message,
                                value: Some(text.clone()),
                            };
                            assert(error@ == dup[0]);
                            report.add_error(row, error);
                            assert(error_models(report.errors@) =~= before + dup);
                        },
                        None => {
                            assert(error_models(report.errors@) =~= before + dup);
                        },
                    }
                } else {
                    assert(error_models(report.errors@) =~= before + dup);
                }
                let ghost mid = error_models(report.errors@);
                let ghost ty = type_errors(inp, i as int, k, value);
                match type_check(&config.rule, prepared, email, text.as_str(), float_rejected) {
                    Some(message) => {
                        let error = ValidationError {
                            column: name.clone(),
                            row,
                            message,
                            value: Some(text.clone()),
                        };
                        assert(error@ == ty[0]);
                        report.add_error(row, error);
                        assert(error_models(report.errors@) =~= mid + ty);
                    },
                    None => {
                        assert(error_models(report.errors@) =~= mid + ty);
                    },
                }
                assert(error_models(report.errors@) =~= before + cell_errors(inp, i as int, k));
            }
        },
    }
}

/// Every text rule's pattern compiles.
pub open spec fn patterns_compile(rules: Seq<(String, ColumnsConfig)>) -> bool {
    forall|k: int|
        0 <= k < rules.len() ==> (#[trigger] rules[k].1.rule matches ColumnRule::Text {
            pattern: Some(p),
        } ==> regex_compiles(p@))
}

/// The input of a validation, as a value.
pub open spec fn table_input(
    headers: &Vec<String>,
    records: &Vec<Vec<String>>,
    rules: &Rules,
    float_rejects: &Vec<(usize, usize)>,
) -> TableInput {
    TableInput {
        headers: headers@,
        records: records@,
        rules: rules.columns@,
        float_rejects: float_rejects@,
    }
}

/// Whether `pairs` holds `(i, k)`.
fn holds_pair(pairs: &Vec<(usize, usize)>, i: usize, k: usize) -> (r: bool)
    ensures
        r == pairs@.contains((i, k)),
{
    let n = pairs.len();
    let mut x: usize = 0;
    while x < n
        invariant
            n == pairs@.len(),
            x <= n,
            forall|y: int| 0 <= y < x ==> #[trigger] pairs@[y] != (i, k),
        decreases n - x,
    {
        if pairs[x].0 == i && pairs[x].1 == k {
            assert(pairs@[x as int] == (i, k));
            return true;
        }
        x = x + 1;
    }
    false
}

proof fn lemma_count_step(i: int, k: int, n: int, m: int)
    requires
        0 <= i < n,
        0 <= k < m,
    ensures
        2 * (i * m + k) + 2 <= 2 * (n * m),
        i * m + k + 1 <= (i + 1) * m,
{
    assert(i * m + k + 1 <= (i + 1) * m) by (nonlinear_arith)
        requires
            0 <= k < m,
    ;
    assert((i + 1) * m <= n * m) by (nonlinear_arith)
        requires
            i + 1 <= n,
            0 <= m,
    ;
}

/// Validates every record against every rule.
///
/// The report lists, record by record and within a record rule by rule, the
/// errors that `cell_errors` describes; `float_rejects` holds the (record,
/// rule) positions of float columns whose value is not a float within the
/// bounds. Rows are numbered from 1 (the header is row 0).
pub fn validate(
    headers: &Vec<String>,
    records: &Vec<Vec<String>>,
    rules: &Rules,
    float_rejects: &Vec<(usize, usize)>,
) -> (report: ValidationReport)
    requires
        patterns_compile(rules.columns@),
        regex_compiles(EMAIL_PATTERN@),
        records@.len() * rules.columns@.len() <= usize::MAX / 2,
    ensures
        error_models(report.errors@) == table_errors(
            table_input(headers, records, rules, float_rejects),
            records@.len() as int,
        ),
        report.wf(),
        report.total_rows == records@.len(),
{
    let ghost inp = table_input(headers, records, rules, float_rejects);
    let mut report = ValidationReport::new();
    let email = match TextPattern::new(EMAIL_PATTERN) {
        Ok(p) => p,
        Err(_) => {
            return report;
        },
    };
    let m = rules.columns.len();
    let n = records.len();
    let mut columns: Vec<Option<usize>> = Vec::new();
    let mut prepared: Vec<Prepared> = Vec::new();
    let mut seen: Vec<HashMap<u64, Vec<usize>>> = Vec::new();
    let mut k: usize = 0;
    while k < m
        invariant
            m == rules.columns@.len(),
            inp == table_input(headers, records, rules, float_rejects),
            patterns_compile(rules.columns@),
            k <= m,
            columns@.len() == k,
            prepared@.len() == k,
            seen@.len() == k,
            forall|q: int|
                0 <= q < k ==> match #[trigger] columns@[q] {
                    Some(j) => header_index(headers@, rules.columns@[q].0@) == Some(j as int),
                    None => header_index(headers@, rules.columns@[q].0@) is None,
                },
            forall|q: int| 0 <= q < k ==> prepared_for(#[trigger] prepared@[q], rules.columns@[q].1.rule),
            forall|q: int| 0 <= q < k ==> (#[trigger] seen@[q])@ == Map::<u64, Vec<usize>>::empty(),
        decreases m - k,
    {
        columns.push(column_index(headers, &rules.columns[k].0));
        assert(rules.columns@[k as int].1.rule matches ColumnRule::Text { pattern: Some(p) }
            ==> regex_compiles(p@));
        prepared.push(prepare(&rules.columns[k].1.rule));
        seen.push(HashMap::new());
        k = k + 1;
    }
    let mut i: usize = 0;
    while i < n
        invariant
            m == rules.columns@.len(),
            n == records@.len(),
            n * m <= usize::MAX / 2,
            inp == table_input(headers, records, rules, float_rejects),
            email.text() == EMAIL_PATTERN@,
            i <= n,
            columns@.len() == m,
            prepared@.len() == m,
            seen@.len() == m,
            forall|q: int|
                0 <= q < m ==> match #[trigger] columns@[q] {
                    Some(j) => header_index(headers@, rules.columns@[q].0@) == Some(j as int),
                    None => header_index(headers@, rules.columns@[q].0@) is None,
                },
            forall|q: int| 0 <= q < m ==> prepared_for(#[trigger] prepared@[q], rules.columns@[q].1.rule),
            forall|q: int| 0 <= q < m ==> unique_ok(inp, q, #[trigger] seen@[q]@, i as int),
            error_models(report.errors@) == table_errors(inp, i as int),
            report.wf(),
            report.total_errors <= 2 * (i * m),
        decreases n - i,
    {
        let mut k: usize = 0;
        while k < m
            invariant
                m == rules.columns@.len(),
                n == records@.len(),
                n * m <= usize::MAX / 2,
                inp == table_input(headers, records, rules, float_rejects),
                email.text() == EMAIL_PATTERN@,
                i < n,
                k <= m,
                columns@.len() == m,
                prepared@.len() == m,
                seen@.len() == m,
                forall|q: int|
                    0 <= q < m ==> match #[trigger] columns@[q] {
                        Some(j) => header_index(headers@, rules.columns@[q].0@) == Some(j as int),
                        None => header_index(headers@, rules.columns@[q].0@) is None,
                    },
                forall|q: int|
                    0 <= q < m ==> prepared_for(#[trigger] prepared@[q], rules.columns@[q].1.rule),
                forall|q: int|
                    0 <= q < m ==> unique_ok(
                        inp,
                        q,
                        #[trigger] seen@[q]@,
                        if q < k {
                            i + 1
                        } else {
                            i as int
                        },
                    ),
                error_models(report.errors@) == table_errors(inp, i as int) + row_errors(
                    inp,
                    i as int,
                    k as int,
                ),
                report.wf(),
                report.total_errors <= 2 * (i * m + k),
            decreases m - k,
        {
            proof {
                lemma_count_step(i as int, k as int, n as int, m as int);
                assert(n * m <= usize::MAX / 2);
            }
            let float_rejected = holds_pair(float_rejects, i, k);
            let ghost old_seen = seen@;
            let ghost before = error_models(report.errors@);
            assert(unique_ok(inp, k as int, seen@[k as int]@, i as int));
            check_cell(
                &mut report,
                &mut seen[k],
                records,
                i,
                &rules.columns[k].0,
                &rules.columns[k].1,
                columns[k],
                &prepared[k],
                &email,
                float_rejected,
                Ghost(inp),
                Ghost(k as int),
            );
            assert forall|q: int|
                0 <= q < m implies unique_ok(
                inp,
                q,
                #[trigger] seen@[q]@,
                if q < k + 1 {
                    i + 1
                } else {
                    i as int
                },
            ) by {
                if q != k {
                    assert(seen@[q] == old_seen[q]);
                }
            }
            assert(error_models(report.errors@) =~= table_errors(inp, i as int) + row_errors(
                inp,
                i as int,
                k + 1,
            ));
            k = k + 1;
        }
        assert(table_errors(inp, i + 1) == table_errors(inp, i as int) + row_errors(
            inp,
            i as int,
            m as int,
        ));
        assert(i * m + m == (i + 1) * m) by (nonlinear_arith);
        i = i + 1;
    }
    report.set_total_rows(n);
    report
}

/// Validates as `validate` does, after checking that every pattern it needs
/// compiles; `None` when one does not.
pub fn validate_checked(
    headers: &Vec<String>,
    records: &Vec<Vec<String>>,
    rules: &Rules,
    float_rejects: &Vec<(usize, usize)>,
) -> (r: Option<ValidationReport>)
    requires
        records@.len() * rules.columns@.len() <= usize::MAX / 2,
    ensures
        r is Some <==> patterns_compile(rules.columns@) && regex_compiles(EMAIL_PATTERN@),
        r matches Some(report) ==> {
            &&& error_models(report.errors@) == table_errors(
                table_input(headers, records, rules, float_rejects),
                records@.len() as int,
            )
            &&& report.wf()
            &&& report.total_rows == records@.len()
        },
{
    if TextPattern::new(EMAIL_PATTERN).is_err() {
        return None;
    }
    let m = rules.columns.len();
    let mut k: usize = 0;
    while k < m
        invariant
            m == rules.columns@.len(),
            k <= m,
            forall|q: int|
                0 <= q < k ==> (#[trigger] rules.columns@[q].1.rule matches ColumnRule::Text {
                    pattern: Some(p),
                } ==> regex_compiles(p@)),
        decreases m - k,
    {
        if let ColumnRule::Text { pattern: Some(p) } = &rules.columns[k].1.rule {
            if TextPattern::new(p.as_str()).is_err() {
                return None;
            }
        }
        k = k + 1;
    }
    Some(validate(headers, records, rules, float_rejects))
}

/// The text of cell `j` of a record; empty where the record is too short.
pub fn cell_value(record: &Vec<String>, j: usize) -> (r: &str)
    ensures
        r@ == cell_text(record@, j as int),
{
    if j < record.len() {
        record[j].as_str()
    } else {
        proof {
            reveal_strlit("");
        }
        ""
    }
}

/// The names, in rule order, of the rules whose column is not among the
/// headers.
pub open spec fn absent_columns(headers: Seq<String>, rules: Seq<(String, ColumnsConfig)>) -> Seq<
    Seq<char>,
>
    decreases rules.len(),
{
    if rules.len() == 0 {
        Seq::empty()
    } else {
        let rest = absent_columns(headers, rules.drop_last());
        if header_index(headers, rules.last().0@) is None {
            rest.push(rules.last().0@)
        } else {
            rest
        }
    }
}

/// The columns named in the rules but missing from the headers.
pub fn missing_columns(headers: &Vec<String>, rules: &Rules) -> (r: Vec<String>)
    ensures
        r@.map_values(|s: String| s@) == absent_columns(headers@, rules.columns@),
{
    let m = rules.columns.len();
    let mut missing: Vec<String> = Vec::new();
    let mut k: usize = 0;
    while k < m
        invariant
            m == rules.columns@.len(),
            k <= m,
            missing@.map_values(|s: String| s@) == absent_columns(
                headers@,
                rules.columns@.take(k as int),
            ),
        decreases m - k,
    {
        assert(rules.columns@.take(k + 1).drop_last() =~= rules.columns@.take(k as int));
        if column_index(headers, &rules.columns[k].0).is_none() {
            missing.push(rules.columns[k].0.clone());
        }
        assert(missing@.map_values(|s: String| s@) =~= absent_columns(
            headers@,
            rules.columns@.take(k + 1),
        ));
        k = k + 1;
    }
    assert(rules.columns@.take(m as int) =~= rules.columns@);
    missing
}

} // verus!

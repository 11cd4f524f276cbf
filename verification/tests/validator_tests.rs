use unravel::date::{validate_date, Date};
use unravel::pattern::TextPattern;
use unravel::report::ValidationReport;
use unravel::rules::{ColumnRule, ColumnsConfig, Rules};
use unravel::validator::{validate, validate_email, validate_integer, validate_pattern};

const EMAIL: &str = r"^[^\s@]+@[^\s@]+\.[^\s@]+$";

fn rules_with(name: &str, rule: ColumnRule, required: bool, unique: bool) -> Rules {
    let mut rules = Rules::new();
    rules.insert(name.to_string(), ColumnsConfig { rule, required, unique });
    rules
}

fn text_rule() -> ColumnRule {
    ColumnRule::Text { pattern: None }
}

fn record(values: &[&str]) -> Vec<String> {
    values.iter().map(|v| v.to_string()).collect()
}

fn run(headers: &[&str], records: Vec<Vec<String>>, rules: &Rules) -> ValidationReport {
    let headers: Vec<String> = headers.iter().map(|h| h.to_string()).collect();
    validate(&headers, &records, rules, &Vec::new())
}

// --- validate_email ---
#[test]
fn email_valid_format_is_valid() {
    let email_regex = TextPattern::new(EMAIL).unwrap();
    assert!(validate_email("test@example.com", &email_regex));
}

#[test]
fn email_invalid_format_is_invalid() {
    let r = TextPattern::new(EMAIL).unwrap();
    assert!(!validate_email("not-an-email", &r));
    assert!(!validate_email("missing@dot", &r));
}

// --- validate_pattern ---
#[test]
fn pattern_valid_format_is_valid() {
    let pattern_regex = TextPattern::new(r"^[A-Z]{3}-\d{4}$").unwrap();
    assert!(validate_pattern("ABC-1234", &pattern_regex));
    assert!(!validate_pattern("abc-1234", &pattern_regex));
}

// --- validate_integer ---
#[test]
fn integer_min_boundary_is_valid() {
    assert!(validate_integer("1", Some(1), Some(10)));
}

#[test]
fn integer_max_boundary_is_valid() {
    assert!(validate_integer("10", Some(1), Some(10)));
}

#[test]
fn integer_below_min_is_invalid() {
    assert!(!validate_integer("0", Some(1), Some(10)));
}

#[test]
fn integer_above_max_is_invalid() {
    assert!(!validate_integer("11", Some(1), Some(10)));
}

#[test]
fn integer_no_bounds_is_valid() {
    assert!(validate_integer("99999", None, None));
}

// --- validate_date ---
fn ymd(year: i32, month: u32, day: u32) -> Date {
    Date { year, month, day }
}

#[test]
fn date_exactly_on_before_is_valid() {
    assert!(validate_date("2025-01-01", Some(ymd(2025, 1, 1)), None));
}

#[test]
fn date_after_before_is_invalid() {
    assert!(!validate_date("2025-01-02", Some(ymd(2025, 1, 1)), None));
}

#[test]
fn date_exactly_on_after_is_valid() {
    assert!(validate_date("2020-01-01", None, Some(ymd(2020, 1, 1))));
}

#[test]
fn date_before_after_is_invalid() {
    assert!(!validate_date("2019-12-31", None, Some(ymd(2020, 1, 1))));
}

#[test]
fn date_invalid_format_is_invalid() {
    assert!(!validate_date("31-01-2025", None, None));
}

// --- validate() ---
#[test]
fn required_empty_cell_is_error() {
    let rules = rules_with("name", text_rule(), true, false);
    let report = run(&["name"], vec![record(&[""])], &rules);
    assert_eq!(report.total_errors, 1);
    assert!(report.rows_with_errors.contains(&1));
}

#[test]
fn required_spaces_only_is_error() {
    let rules = rules_with("name", text_rule(), true, false);
    let report = run(&["name"], vec![record(&["   "])], &rules);
    assert_eq!(report.total_errors, 1);
}

#[test]
fn required_with_value_is_valid() {
    let rules = rules_with("name", text_rule(), true, false);
    let report = run(&["name"], vec![record(&["John"])], &rules);
    assert_eq!(report.total_errors, 0);
}

#[test]
fn unique_duplicate_is_error() {
    let rules = rules_with("email", text_rule(), false, true);
    let records = vec![record(&["a@b.com"]), record(&["c@d.com"]), record(&["c@d.com"])];
    let report = run(&["email"], records, &rules);
    assert_eq!(report.total_errors, 1);
    assert!(report.rows_with_errors.contains(&3));
}

#[test]
fn unique_no_duplicates_is_valid() {
    let rules = rules_with("email", text_rule(), false, true);
    let records = vec![record(&["a@b.com"]), record(&["c@d.com"])];
    let report = run(&["email"], records, &rules);
    assert_eq!(report.total_errors, 0);
}

#[test]
fn missing_column_in_csv_produces_no_errors() {
    let rules = rules_with("nonexistent", text_rule(), true, false);
    let report = run(&["other"], vec![record(&["value"])], &rules);
    assert_eq!(report.total_errors, 0);
}

#[test]
fn extra_column_in_csv_is_ignored() {
    let rules = rules_with("name", text_rule(), false, false);
    let report = run(&["name", "extra"], vec![record(&["John", "ignored"])], &rules);
    assert_eq!(report.total_errors, 0);
}

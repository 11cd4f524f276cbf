use unravel::cleaner::rows_to_keep;
use unravel::date::{parse_date, validate_date, Date};
use unravel::pattern::TextPattern;
use unravel::report::{ValidationError, ValidationReport};
use unravel::rules::{ColumnRule, ColumnsConfig, RuleProblem, Rules};
use unravel::table::{is_csv_extension, load, LoadError};
use unravel::text::{parse_u64, text_is_blank};
use unravel::validator::{
    cell_value, column_index, missing_columns, validate, validate_checked, validate_integer,
    EMAIL_PATTERN,
};

fn strings(values: &[&str]) -> Vec<String> {
    values.iter().map(|v| v.to_string()).collect()
}

fn config(rule: ColumnRule, required: bool, unique: bool) -> ColumnsConfig {
    ColumnsConfig { rule, required, unique }
}

fn one_rule(name: &str, rule: ColumnRule, required: bool, unique: bool) -> Rules {
    let mut rules = Rules::new();
    rules.insert(name.to_string(), config(rule, required, unique));
    rules
}

fn column(values: &[&str]) -> Vec<Vec<String>> {
    values.iter().map(|v| vec![v.to_string()]).collect()
}

fn messages(report: &ValidationReport) -> Vec<(usize, String)> {
    report.errors.iter().map(|e| (e.row, e.message.clone())).collect()
}

#[test]
fn parse_u64_follows_std_parsing() {
    assert_eq!(parse_u64("42"), Some(42));
    assert_eq!(parse_u64("+5"), Some(5));
    assert_eq!(parse_u64("007"), Some(7));
    assert_eq!(parse_u64("18446744073709551615"), Some(u64::MAX));
    assert_eq!(parse_u64("18446744073709551616"), None);
    assert_eq!(parse_u64("99999999999999999999x"), None);
    for bad in ["", "+", "-5", "-0", " 5", "5 ", "5a", "1.0", "٣"] {
        assert_eq!(parse_u64(bad), None, "{bad:?}");
        assert_eq!(bad.parse::<u64>().ok(), None, "{bad:?}");
    }
}

#[test]
fn integer_with_plus_sign_and_largest_value() {
    assert!(validate_integer("+3", Some(1), Some(10)));
    assert!(validate_integer("18446744073709551615", Some(u64::MAX), Some(u64::MAX)));
    assert!(!validate_integer("-1", None, None));
    assert!(!validate_integer("", None, None));
}

#[test]
fn blank_means_white_space_only() {
    assert!(text_is_blank(""));
    assert!(text_is_blank(" \t\r\n"));
    assert!(text_is_blank("\u{3000}\u{a0}\u{2028}"));
    assert!(!text_is_blank("a"));
    assert!(!text_is_blank(" x "));
    assert!(!text_is_blank("\u{200b}"));
    for s in ["", " \t", "\u{3000}", "\u{200b}", "a b"] {
        assert_eq!(text_is_blank(s), s.trim().is_empty(), "{s:?}");
    }
}

#[test]
fn required_error_message_and_value() {
    let rules = one_rule("name", ColumnRule::Text { pattern: None }, true, false);
    let report = validate(&strings(&["name"]), &column(&["  "]), &rules, &Vec::new());
    assert_eq!(report.errors.len(), 1);
    let e = &report.errors[0];
    assert_eq!(e.column, "name");
    assert_eq!(e.row, 1);
    assert_eq!(e.message, "Value in column 'name' is required");
    assert_eq!(e.value, Some("  ".to_string()));
    assert_eq!(report.total_rows, 1);
}

#[test]
fn duplicate_names_first_occurrence_row() {
    let rules = one_rule("id", ColumnRule::Text { pattern: None }, false, true);
    let mut values = vec!["x"; 1];
    for _ in 0..10 {
        values.push("y");
    }
    values.push("x");
    values.push("y");
    let report = validate(&strings(&["id"]), &column(&values), &rules, &Vec::new());
    let msgs = messages(&report);
    assert_eq!(msgs.len(), 11);
    assert_eq!(msgs[0], (3, "Value 'y' in column 'id' is duplicated (also found in row 2)".to_string()));
    assert_eq!(msgs[9], (12, "Value 'x' in column 'id' is duplicated (also found in row 1)".to_string()));
    assert_eq!(msgs[10], (13, "Value 'y' in column 'id' is duplicated (also found in row 2)".to_string()));
    assert!(!report.rows_with_errors.contains(&1));
    assert!(!report.rows_with_errors.contains(&2));
    assert_eq!(report.total_errors, 11);
}

#[test]
fn duplicates_are_compared_untrimmed_and_blank_cells_skip_uniqueness() {
    let rules = one_rule("id", ColumnRule::Text { pattern: None }, false, true);
    let report = validate(&strings(&["id"]), &column(&["a", "a ", "", "", "a"]), &rules, &Vec::new());
    assert_eq!(
        messages(&report),
        vec![(5, "Value 'a' in column 'id' is duplicated (also found in row 1)".to_string())]
    );
}

#[test]
fn duplicate_error_precedes_type_error() {
    let rules = one_rule("n", ColumnRule::Integer { min: Some(10), max: None }, false, true);
    let report = validate(&strings(&["n"]), &column(&["5", "5"]), &rules, &Vec::new());
    assert_eq!(
        messages(&report),
        vec![
            (1, "Value '5' is not a valid integer within the specified range".to_string()),
            (2, "Value '5' in column 'n' is duplicated (also found in row 1)".to_string()),
            (2, "Value '5' is not a valid integer within the specified range".to_string()),
        ]
    );
    assert_eq!(report.total_errors, 3);
    assert_eq!(report.rows_with_errors.len(), 2);
}

#[test]
fn required_blank_cell_gets_only_the_required_error() {
    let rules = one_rule("d", ColumnRule::Date { before: None, after: None }, true, true);
    let report = validate(&strings(&["d"]), &column(&[""]), &rules, &Vec::new());
    assert_eq!(messages(&report), vec![(1, "Value in column 'd' is required".to_string())]);
}

#[test]
fn type_messages() {
    let mut rules = Rules::new();
    rules.insert("code".to_string(), config(ColumnRule::Text { pattern: Some("^[0-9]+$".to_string()) }, false, false));
    rules.insert("mail".to_string(), config(ColumnRule::Email, false, false));
    rules.insert(
        "day".to_string(),
        config(ColumnRule::Date { before: Some("2020-12-31".to_string()), after: Some("2020-01-01".to_string()) }, false, false),
    );
    rules.insert("price".to_string(), config(ColumnRule::Float { inverted_range: false }, false, false));
    let headers = strings(&["code", "mail", "day", "price"]);
    let records = vec![
        strings(&["abc", "a@b", "2021-01-01", "x"]),
        strings(&["123", "a@b.c", "2020-06-15", "1.5"]),
    ];
    let report = validate(&headers, &records, &rules, &vec![(0, 3)]);
    assert_eq!(
        messages(&report),
        vec![
            (1, "Value 'abc' does not match pattern '^[0-9]+$'".to_string()),
            (1, "Value 'a@b' is not a valid email address".to_string()),
            (1, "Value '2021-01-01' is not a valid date within the specified range".to_string()),
            (1, "Value 'x' is not a valid float within the specified range".to_string()),
        ]
    );
    let columns: Vec<String> = report.errors.iter().map(|e| e.column.clone()).collect();
    assert_eq!(columns, strings(&["code", "mail", "day", "price"]));
}

#[test]
fn float_verdict_is_ignored_for_blank_cells() {
    let rules = one_rule("p", ColumnRule::Float { inverted_range: false }, false, false);
    let report = validate(&strings(&["p"]), &column(&[" "]), &rules, &vec![(0, 0)]);
    assert_eq!(report.total_errors, 0);
}

#[test]
fn last_header_of_a_name_is_used_and_short_records_read_empty() {
    let rules = one_rule("a", ColumnRule::Text { pattern: None }, true, false);
    let headers = strings(&["a", "b", "a"]);
    let records = vec![strings(&["", "x", "ok"]), strings(&["ok", "x"])];
    let report = validate(&headers, &records, &rules, &Vec::new());
    assert_eq!(messages(&report), vec![(2, "Value in column 'a' is required".to_string())]);
    assert_eq!(report.errors[0].value, Some(String::new()));
    assert_eq!(column_index(&headers, &"a".to_string()), Some(2));
    assert_eq!(column_index(&headers, &"z".to_string()), None);
    assert_eq!(cell_value(&records[1], 2), "");
    assert_eq!(cell_value(&records[1], 0), "ok");
}

#[test]
fn extra_column_changes_nothing() {
    let rules = one_rule("n", ColumnRule::Integer { min: None, max: Some(3) }, true, true);
    let narrow = validate(&strings(&["n"]), &column(&["1", "9", "1", ""]), &rules, &Vec::new());
    let wide_records = vec![strings(&["1", "a"]), strings(&["9", "b"]), strings(&["1", "c"]), strings(&["", "d"])];
    let wide = validate(&strings(&["n", "extra"]), &wide_records, &rules, &Vec::new());
    assert_eq!(messages(&narrow), messages(&wide));
    assert_eq!(narrow.total_errors, 3);
}

#[test]
fn validate_checked_refuses_bad_patterns() {
    let bad = one_rule("t", ColumnRule::Text { pattern: Some("(".to_string()) }, false, false);
    assert!(validate_checked(&strings(&["t"]), &column(&["x"]), &bad, &Vec::new()).is_none());
    let good = one_rule("t", ColumnRule::Text { pattern: Some("^x$".to_string()) }, false, false);
    let report = validate_checked(&strings(&["t"]), &column(&["x", "y"]), &good, &Vec::new()).unwrap();
    assert_eq!(messages(&report), vec![(2, "Value 'y' does not match pattern '^x$'".to_string())]);
}

#[test]
fn email_pattern_constant() {
    let p = TextPattern::new(EMAIL_PATTERN).unwrap();
    assert_eq!(p.as_str(), r"^[^\s@]+@[^\s@]+\.[^\s@]+$");
    assert!(p.is_match("x@y.z"));
    assert!(!p.is_match("x y@z.w"));
    assert!(!p.is_match("x@@y.z"));
    assert!(TextPattern::new("(").is_err());
}

#[test]
fn dates_parse_with_chrono() {
    assert_eq!(parse_date("2024-02-29").ok(), Some(Date { year: 2024, month: 2, day: 29 }));
    assert!(parse_date("2023-02-29").is_err());
    assert!(!validate_date("2024-02-30", None, None));
    assert!(validate_date("2024-02-29", None, None));
    assert!(validate_date("2024-06-01", Some(Date { year: 2024, month: 12, day: 1 }), Some(Date { year: 2024, month: 1, day: 31 })));
    assert!(!validate_date("2024-06-01", Some(Date { year: 2024, month: 5, day: 31 }), None));
}

#[test]
fn rules_validate_reports_each_problem() {
    let check = |rule: ColumnRule| one_rule("c", rule, false, false).validate();
    assert!(matches!(
        check(ColumnRule::Integer { min: Some(5), max: Some(1) }),
        Err(e) if e.column == "c" && matches!(e.problem, RuleProblem::IntegerBounds { min: 5, max: 1 })
    ));
    assert!(check(ColumnRule::Integer { min: Some(1), max: Some(1) }).is_ok());
    assert!(matches!(check(ColumnRule::Float { inverted_range: true }), Err(e) if matches!(e.problem, RuleProblem::FloatBounds)));
    assert!(check(ColumnRule::Float { inverted_range: false }).is_ok());
    assert!(matches!(
        check(ColumnRule::Date { before: Some("nope".to_string()), after: Some("also".to_string()) }),
        Err(e) if matches!(&e.problem, RuleProblem::InvalidBefore { value, .. } if value == "nope")
    ));
    assert!(matches!(
        check(ColumnRule::Date { before: Some("2020-01-01".to_string()), after: Some("2020-13-01".to_string()) }),
        Err(e) if matches!(&e.problem, RuleProblem::InvalidAfter { value, .. } if value == "2020-13-01")
    ));
    assert!(matches!(
        check(ColumnRule::Date { before: Some("2020-01-01".to_string()), after: Some("2020-01-02".to_string()) }),
        Err(e) if matches!(&e.problem, RuleProblem::BeforeEarlierThanAfter { before, after } if before == "2020-01-01" && after == "2020-01-02")
    ));
    assert!(check(ColumnRule::Date { before: Some("2020-01-01".to_string()), after: Some("2020-01-01".to_string()) }).is_ok());
    assert!(matches!(
        check(ColumnRule::Text { pattern: Some("[".to_string()) }),
        Err(e) if matches!(&e.problem, RuleProblem::InvalidPattern { pattern, .. } if pattern == "[")
    ));
    assert!(check(ColumnRule::Text { pattern: None }).is_ok());
    assert!(check(ColumnRule::Email).is_ok());
}

#[test]
fn rules_validate_stops_at_the_first_bad_column() {
    let mut rules = Rules::new();
    rules.insert("ok".to_string(), config(ColumnRule::Email, false, false));
    rules.insert("first".to_string(), config(ColumnRule::Integer { min: Some(2), max: Some(1) }, false, false));
    rules.insert("second".to_string(), config(ColumnRule::Float { inverted_range: true }, false, false));
    let e = rules.validate().err().unwrap();
    assert_eq!(e.column, "first");
}

#[test]
fn insert_replaces_an_existing_column() {
    let mut rules = Rules::new();
    rules.insert("a".to_string(), config(ColumnRule::Email, false, false));
    rules.insert("b".to_string(), config(ColumnRule::Email, false, false));
    rules.insert("a".to_string(), config(ColumnRule::Email, true, false));
    assert_eq!(rules.columns.len(), 2);
    assert_eq!(rules.columns[0].0, "a");
    assert!(rules.columns[0].1.required);
}

#[test]
fn defaults_are_optional_free_text() {
    assert!(matches!(ColumnRule::default(), ColumnRule::Text { pattern: None }));
    let c = ColumnsConfig::default();
    assert!(!c.required && !c.unique);
    assert!(matches!(c.rule, ColumnRule::Text { pattern: None }));
}

#[test]
fn missing_columns_are_listed_in_rule_order() {
    let mut rules = Rules::new();
    rules.insert("x".to_string(), ColumnsConfig::default());
    rules.insert("name".to_string(), ColumnsConfig::default());
    rules.insert("y".to_string(), ColumnsConfig::default());
    assert_eq!(missing_columns(&strings(&["name", "other"]), &rules), strings(&["x", "y"]));
}

#[test]
fn cleaning_keeps_rows_without_errors() {
    let rules = one_rule("n", ColumnRule::Integer { min: None, max: None }, true, false);
    let report = validate(&strings(&["n"]), &column(&["1", "x", "3", "", "5"]), &rules, &Vec::new());
    assert_eq!(rows_to_keep(&report, 5), vec![0, 2, 4]);
}

#[test]
fn report_bookkeeping() {
    let mut report = ValidationReport::new();
    assert_eq!(report.total_errors, 0);
    let error = ValidationError { column: "c".to_string(), row: 4, message: "m".to_string(), value: None };
    report.add_error(4, error);
    report.add_error(4, ValidationError { column: "c".to_string(), row: 4, message: "n".to_string(), value: None });
    report.set_total_rows(7);
    assert_eq!(report.total_errors, 2);
    assert_eq!(report.errors.len(), 2);
    assert_eq!(report.rows_with_errors.len(), 1);
    assert!(report.rows_with_errors.contains(&4));
    assert_eq!(report.total_rows, 7);
}

#[test]
fn load_reads_csv_tables() {
    assert!(is_csv_extension("csv"));
    assert!(!is_csv_extension("CSV"));
    assert!(matches!(load("txt", b"a\n1\n"), Err(LoadError::InvalidExtension)));
    let (headers, records) = load("csv", b"id,name\n1,Ann\n2,\"Bo, Jr\"\n").ok().unwrap();
    assert_eq!(headers, strings(&["id", "name"]));
    assert_eq!(records, vec![strings(&["1", "Ann"]), strings(&["2", "Bo, Jr"])]);
    assert!(matches!(load("csv", b"a,b\n1\n"), Err(LoadError::Csv(_))));
    let (headers, records) = load("csv", b"").ok().unwrap();
    assert!(headers.is_empty() && records.is_empty());
}

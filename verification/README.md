# unravel

Validation and cleaning of CSV files against per-column rules written in
YAML, as a verified library (`src/`) and a command-line program (`app/`).

Rules give each column a type (`integer`, `float`, `text` with an optional
regular expression, `date` in `YYYY-MM-DD` form, `email`) and two flags:
`required` (a blank cell is an error) and `unique` (a value seen in an
earlier row is an error, reported with the row of its first occurrence).
Rows are numbered from 1, the header being row 0. Rule columns missing from
the file raise no error (the program warns about them); columns without
rules are ignored. In `fix` mode the program writes `<name>_cleaned.csv`
with the rows that carry no error, unless the share of rows with errors
exceeds the threshold (inclusive).

Layout of `src/`:

- `validator.rs` — the validation of a table and its specification
  (`cell_errors`, `row_errors`, `table_errors`);
- `seen.rs` — the values met so far in unique columns;
- `rules.rs` — column rules and their consistency check;
- `report.rs` — the report and its bookkeeping;
- `cleaner.rs` — which records a cleaned copy keeps;
- `table.rs` — CSV parsing (through the `csv` crate);
- `pattern.rs`, `date.rs` — regular expressions (`regex`) and dates (`chrono`);
- `text.rs`, `messages.rs` — blank detection, integer parsing and rendering,
  message texts;
- `laws.rs` — properties proved of validation and cleaning.

Floating-point checks (float columns, the cleaning threshold) stay in
`app/`, which hands their verdicts to the library.

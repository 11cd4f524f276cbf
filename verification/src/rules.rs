//! Per-column rules and their consistency check.

use crate::date::{date_of, parse_date, precedes};
use crate::pattern::{regex_compiles, TextPattern};
use vstd::prelude::*;

verus! {

/// What the values of a column must look like.
pub enum ColumnRule {
    /// Unsigned integers, with optional inclusive bounds.
    Integer { min: Option<u64>, max: Option<u64> },
    /// Floating-point numbers. Their bounds are floats and are checked where
    /// floats are handled; `inverted_range` records whether both bounds were
    /// given with the minimum above the maximum.
    Float { inverted_range: bool },
    /// Any text, or text matching a regular expression.
    Text { pattern: Option<String> },
    /// `YYYY-MM-DD` dates, with optional inclusive bounds.
    Date { before: Option<String>, after: Option<String> },
    /// E-mail addresses of the basic form `x@x.x`.
    Email,
}

impl Default for ColumnRule {
    /// Any text.
    fn default() -> (r: Self)
        ensures
            r matches ColumnRule::Text { pattern: None },
    {
        ColumnRule::Text { pattern: None }
    }
}

/// The rule and flags of one column.
pub struct ColumnsConfig {
    pub rule: ColumnRule,
    /// A blank cell is an error.
    pub required: bool,
    /// A value seen earlier in the column is an error.
    pub unique: bool,
}

impl Default for ColumnsConfig {
    fn default() -> (r: Self)
        ensures
            r.rule matches ColumnRule::Text { pattern: None },
            !r.required,
            !r.unique,
    {
        ColumnsConfig { rule: ColumnRule::default(), required: false, unique: false }
    }
}

/// The rules of a table: a column name and its configuration, for each
/// column that has rules. Names are distinct when the rules are built with
/// `insert`.
pub struct Rules {
    pub columns: Vec<(String, ColumnsConfig)>,
}

/// The position of the first entry named `name`.
pub open spec fn position_of(columns: Seq<(String, ColumnsConfig)>, name: Seq<char>) -> Option<int> {
    if exists|k: int| 0 <= k < columns.len() && #[trigger] columns[k].0@ == name {
        Some(choose|k: int| 0 <= k < columns.len() && #[trigger] columns[k].0@ == name && forall|j: int| 0 <= j < k ==> columns[j].0@ != name)
    } else {
        None
    }
}

impl Rules {
    /// No two entries have the same name.
    pub open spec fn names_distinct(&self) -> bool {
        forall|i: int, j: int|
            0 <= i < self.columns@.len() && 0 <= j < self.columns@.len() && i != j
                ==> #[trigger] self.columns@[i].0@ != #[trigger] self.columns@[j].0@
    }

    pub fn new() -> (r: Rules)
        ensures
            r.columns@.len() == 0,
            r.names_distinct(),
    {
        Rules { columns: Vec::new() }
    }

    /// Sets the configuration of column `name`: it replaces the entry of that
    /// name where there is one, and is added last otherwise.
    pub fn insert(&mut self, name: String, config: ColumnsConfig)
        ensures
            (exists|k: int| 0 <= k < old(self).columns@.len() && old(self).columns@[k].0@ == name@)
                ==> exists|k: int|
                0 <= k < old(self).columns@.len() && old(self).columns@[k].0@ == name@
                    && final(self).columns@ == old(self).columns@.update(k, (name, config)),
            !(exists|k: int| 0 <= k < old(self).columns@.len() && old(self).columns@[k].0@ == name@)
                ==> final(self).columns@ == old(self).columns@.push((name, config)),
            old(self).names_distinct() ==> final(self).names_distinct(),
    {
        let n = self.columns.len();
        let mut k: usize = 0;
        while k < n
            invariant
                n == self.columns@.len(),
                self.columns@ == old(self).columns@,
                k <= n,
                forall|j: int| 0 <= j < k ==> self.columns@[j].0@ != name@,
            decreases n - k,
        {
            if self.columns[k].0 == name {
                let ghost before = self.columns@;
                self.columns.set(k, (name, config));
                assert(before[k as int].0@ == self.columns@[k as int].0@);
                return;
            }
            k = k + 1;
        }
        self.columns.push((name, config));
    }
}

/// Why a rule cannot be used.
pub enum RuleProblem {
    /// Both integer bounds are given and the minimum exceeds the maximum.
    IntegerBounds { min: u64, max: u64 },
    /// Both float bounds are given and the minimum exceeds the maximum.
    FloatBounds,
    /// The `before` date is not a `YYYY-MM-DD` date.
    InvalidBefore { value: String, cause: chrono::ParseError },
    /// The `after` date is not a `YYYY-MM-DD` date.
    InvalidAfter { value: String, cause: chrono::ParseError },
    /// The `before` date falls earlier than the `after` date.
    BeforeEarlierThanAfter { before: String, after: String },
    /// The pattern is not a regular expression that compiles.
    InvalidPattern { pattern: String, error: regex::Error },
}

/// The column whose rule cannot be used, and why.
pub struct RuleError {
    pub column: String,
    pub problem: RuleProblem,
}

/// A rule can be used: its bounds are in order, its dates parse and its
/// pattern compiles.
pub open spec fn rule_is_sound(rule: ColumnRule) -> bool {
    match rule {
        ColumnRule::Integer { min, max } => match (min, max) {
            (Some(a), Some(b)) => a <= b,
            _ => true,
        },
        ColumnRule::Float { inverted_range } => !inverted_range,
        ColumnRule::Date { before, after } => {
            &&& (before matches Some(b) ==> date_of(b@) is Some)
            &&& (after matches Some(a) ==> date_of(a@) is Some)
            &&& match (before, after) {
                (Some(b), Some(a)) => !precedes(date_of(b@)->0, date_of(a@)->0),
                _ => true,
            }
        },
        ColumnRule::Text { pattern } => pattern matches Some(p) ==> regex_compiles(p@),
        ColumnRule::Email => true,
    }
}

/// `problem` is the first thing wrong with `rule`, checked in the order
/// integer bounds, float bounds, `before`, `after`, date order, pattern.
pub open spec fn describes(problem: RuleProblem, rule: ColumnRule) -> bool {
    match problem {
        RuleProblem::IntegerBounds { min, max } => rule matches ColumnRule::Integer {
            min: Some(a),
            max: Some(b),
        } && a == min && b == max && a > b,
        RuleProblem::FloatBounds => rule matches ColumnRule::Float { inverted_range: true },
        RuleProblem::InvalidBefore { value, cause: _ } => rule matches ColumnRule::Date {
            before: Some(b),
            after: _,
        } && b@ == value@ && date_of(b@) is None,
        RuleProblem::InvalidAfter { value, cause: _ } => rule matches ColumnRule::Date {
            before,
            after: Some(a),
        } && a@ == value@ && date_of(a@) is None && (before matches Some(b) ==> date_of(
            b@,
        ) is Some),
        RuleProblem::BeforeEarlierThanAfter { before, after } => rule matches ColumnRule::Date {
            before: Some(b),
            after: Some(a),
        } && b@ == before@ && a@ == after@ && date_of(b@) is Some && date_of(a@) is Some
            && precedes(date_of(b@)->0, date_of(a@)->0),
        RuleProblem::InvalidPattern { pattern, error: _ } => rule matches ColumnRule::Text {
            pattern: Some(p),
        } && p@ == pattern@ && !regex_compiles(p@),
    }
}

/// The first problem of a rule, if any.
pub fn rule_problem(rule: &ColumnRule) -> (r: Option<RuleProblem>)
    ensures
        r is None <==> rule_is_sound(*rule),
        r matches Some(p) ==> describes(p, *rule),
{
    match rule {
        ColumnRule::Integer { min, max } => {
            if let (Some(min_val), Some(max_val)) = (min, max) {
                if *min_val > *max_val {
                    return Some(RuleProblem::IntegerBounds { min: *min_val, max: *max_val });
                }
            }
            None
        },
        ColumnRule::Float { inverted_range } => {
            if *inverted_range {
                Some(RuleProblem::FloatBounds)
            } else {
                None
            }
        },
        ColumnRule::Date { before, after } => {
            let mut before_date = None;
            if let Some(text) = before {
                match parse_date(text.as_str()) {
                    Ok(d) => {
                        before_date = Some(d);
                    },
                    Err(cause) => {
                        return Some(RuleProblem::InvalidBefore { value: text.clone(), cause });
                    },
                }
            }
            let mut after_date = None;
            if let Some(text) = after {
                match parse_date(text.as_str()) {
                    Ok(d) => {
                        after_date = Some(d);
                    },
                    Err(cause) => {
                        return Some(RuleProblem::InvalidAfter { value: text.clone(), cause });
                    },
                }
            }
            if let (Some(b), Some(a)) = (before_date, after_date) {
                if b.precedes(&a) {
                    return Some(
                        RuleProblem::BeforeEarlierThanAfter {
                            before: before.as_ref().unwrap().clone(),
                            after: after.as_ref().unwrap().clone(),
                        },
                    );
                }
            }
            None
        },
        ColumnRule::Text { pattern } => {
            if let Some(pat) = pattern {
                if let Err(error) = TextPattern::new(pat.as_str()) {
                    return Some(RuleProblem::InvalidPattern { pattern: pat.clone(), error });
                }
            }
            None
        },
        ColumnRule::Email => None,
    }
}

impl Rules {
    /// Checks every rule, in order, and reports the first that cannot be used.
    pub fn validate(&self) -> (r: Result<(), RuleError>)
        ensures
            r is Ok <==> forall|k: int|
                0 <= k < self.columns@.len() ==> rule_is_sound(#[trigger] self.columns@[k].1.rule),
            r matches Err(e) ==> exists|k: int|
                0 <= k < self.columns@.len() && (forall|j: int|
                    0 <= j < k ==> rule_is_sound(#[trigger] self.columns@[j].1.rule))
                    && !rule_is_sound(self.columns@[k].1.rule) && e.column@
                    == self.columns@[k].0@ && describes(e.problem, self.columns@[k].1.rule),
    {
        let n = self.columns.len();
        let mut k: usize = 0;
        while k < n
            invariant
                n == self.columns@.len(),
                k <= n,
                forall|j: int| 0 <= j < k ==> rule_is_sound(#[trigger] self.columns@[j].1.rule),
            decreases n - k,
        {
            if let Some(problem) = rule_problem(&self.columns[k].1.rule) {
                return Err(RuleError { column: self.columns[k].0.clone(), problem });
            }
            k = k + 1;
        }
        Ok(())
    }
}

} // verus!

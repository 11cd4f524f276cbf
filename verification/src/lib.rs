//! Validation and cleaning of tabular (CSV) data against per-column rules.

pub mod cleaner;
pub mod date;
pub mod laws;
pub mod messages;
pub mod pattern;
pub mod report;
pub mod rules;
pub mod seen;
pub mod table;
pub mod text;
pub mod validator;

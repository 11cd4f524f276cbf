//! The texts of the validation messages.

use crate::text::{append_decimal, decimal};
use vstd::prelude::*;

verus! {

pub open spec fn required_message(column: Seq<char>) -> Seq<char> {
    "Value in column '"@ + column + "' is required"@
}

pub open spec fn duplicate_message(value: Seq<char>, column: Seq<char>, first_row: nat) -> Seq<char> {
    "Value '"@ + value + "' in column '"@ + column + "' is duplicated (also found in row "@
        + decimal(first_row) + ")"@
}

pub open spec fn pattern_message(value: Seq<char>, pattern: Seq<char>) -> Seq<char> {
    "Value '"@ + value + "' does not match pattern '"@ + pattern + "'"@
}

pub open spec fn integer_message(value: Seq<char>) -> Seq<char> {
    "Value '"@ + value + "' is not a valid integer within the specified range"@
}

pub open spec fn float_message(value: Seq<char>) -> Seq<char> {
    "Value '"@ + value + "' is not a valid float within the specified range"@
}

pub open spec fn date_message(value: Seq<char>) -> Seq<char> {
    "Value '"@ + value + "' is not a valid date within the specified range"@
}

pub open spec fn email_message(value: Seq<char>) -> Seq<char> {
    "Value '"@ + value + "' is not a valid email address"@
}

pub fn make_required_message(column: &str) -> (r: String)
    ensures
        r@ == required_message(column@),
{
    let mut s = String::new();
    s.append("Value in column '");
    s.append(column);
    s.append("' is required");
    assert(s@ =~= required_message(column@));
    s
}

pub fn make_duplicate_message(value: &str, column: &str, first_row: usize) -> (r: String)
    ensures
        r@ == duplicate_message(value@, column@, first_row as nat),
{
    let mut s = String::new();
    s.append("Value '");
    s.append(value);
    s.append("' in column '");
    s.append(column);
    s.append("' is duplicated (also found in row ");
    append_decimal(&mut s, first_row);
    s.append(")");
    assert(s@ =~= duplicate_message(value@, column@, first_row as nat));
    s
}

pub fn make_pattern_message(value: &str, pattern: &str) -> (r: String)
    ensures
        r@ == pattern_message(value@, pattern@),
{
    let mut s = String::new();
    s.append("Value '");
    s.append(value);
    s.append("' does not match pattern '");
    s.append(pattern);
    s.append("'");
    assert(s@ =~= pattern_message(value@, pattern@));
    s
}

pub fn make_integer_message(value: &str) -> (r: String)
    ensures
        r@ == integer_message(value@),
{
    let mut s = String::new();
    s.append("Value '");
    s.append(value);
    s.append("' is not a valid integer within the specified range");
    assert(s@ =~= integer_message(value@));
    s
}

pub fn make_float_message(value: &str) -> (r: String)
    ensures
        r@ == float_message(value@),
{
    let mut s = String::new();
    s.append("Value '");
    s.append(value);
    s.append("' is not a valid float within the specified range");
    assert(s@ =~= float_message(value@));
    s
}

pub fn make_date_message(value: &str) -> (r: String)
    ensures
        r@ == date_message(value@),
{
    let mut s = String::new();
    s.append("Value '");
    s.append(value);
    s.append("' is not a valid date within the specified range");
    assert(s@ =~= date_message(value@));
    s
}

pub fn make_email_message(value: &str) -> (r: String)
    ensures
        r@ == email_message(value@),
{
    let mut s = String::new();
    s.append("Value '");
    s.append(value);
    s.append("' is not a valid email address");
    assert(s@ =~= email_message(value@));
    s
}

} // verus!

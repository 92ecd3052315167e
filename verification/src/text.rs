//! Small helpers on text.

use vstd::prelude::*;
use vstd::string::StringExecFns;

verus! {

/// Compares two string slices.
///
/// Calls `str::eq` of the standard library, which compares the two slices
/// byte for byte; two slices of valid UTF-8 hold the same bytes exactly when
/// they hold the same characters.
#[verifier::external_body]
pub(crate) fn text_eq(a: &str, b: &str) -> (same: bool)
    ensures
        same == (a@ == b@),
{
    a == b
}

/// The number that a text spells in decimal digits: what `str::parse`
/// returns for it when asked for an `i64`, `None` standing for its error.
pub uninterp spec fn parsed_number(text: Seq<char>) -> Option<i64>;

/// Reads a decimal number.
///
/// Calls `str::parse::<i64>` of the standard library and keeps the number
/// it returns, or `None` where it returns an error. The contract only
/// gives that result its name.
#[verifier::external_body]
pub(crate) fn parse_number(text: &str) -> (number: Option<i64>)
    ensures
        number == parsed_number(text@),
{
    text.parse::<i64>().ok()
}

/// The digit that stands for a number below ten.
pub open spec fn digit_text(d: int) -> Seq<char> {
    if d == 0 {
        "0"@
    } else if d == 1 {
        "1"@
    } else if d == 2 {
        "2"@
    } else if d == 3 {
        "3"@
    } else if d == 4 {
        "4"@
    } else if d == 5 {
        "5"@
    } else if d == 6 {
        "6"@
    } else if d == 7 {
        "7"@
    } else if d == 8 {
        "8"@
    } else {
        "9"@
    }
}

/// A number in decimal digits.
pub open spec fn decimal(n: nat) -> Seq<char>
    decreases n,
{
    if n < 10 {
        digit_text(n as int)
    } else {
        decimal(n / 10) + digit_text((n % 10) as int)
    }
}

/// The digit that stands for a number below ten.
fn digit(d: usize) -> (text: &'static str)
    requires
        d < 10,
    ensures
        text@ == digit_text(d as int),
{
    if d == 0 {
        "0"
    } else if d == 1 {
        "1"
    } else if d == 2 {
        "2"
    } else if d == 3 {
        "3"
    } else if d == 4 {
        "4"
    } else if d == 5 {
        "5"
    } else if d == 6 {
        "6"
    } else if d == 7 {
        "7"
    } else if d == 8 {
        "8"
    } else {
        "9"
    }
}

/// Writes a number in decimal digits.
pub fn decimal_text(n: usize) -> (text: String)
    ensures
        text@ == decimal(n as nat),
    decreases n,
{
    if n < 10 {
        String::from_str(digit(n))
    } else {
        decimal_text(n / 10).concat(digit(n % 10))
    }
}

} // verus!

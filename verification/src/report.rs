//! How a candidate and its verdict are shown.

use crate::arithmetic::{less, to_decimal};
use crate::decimal::{decimal_digits, decimal_value, is_decimal, lemma_decimal_round_trip};
use crate::natural::{integer, Natural};
use crate::strings::{chars_of, string_of};
use vstd::prelude::*;
use vstd::string::StringExecFns;

verus! {

/// The largest number that is shown in full.
pub open spec fn longest_shown() -> int {
    9_999_999_999
}

/// A numeral cut down to its first ten characters.
pub open spec fn shortened(digits: Seq<char>) -> Seq<char> {
    if digits.len() > 10 {
        digits.take(10)
    } else {
        digits
    }
}

/// How a candidate is shown: its numeral, or, for a number above
/// 9,999,999,999, the first ten digits of it followed by three dots.
pub open spec fn label_of(n: int) -> Seq<char> {
    if n > longest_shown() {
        shortened(decimal_digits(n)) + seq!['.', '.', '.']
    } else {
        decimal_digits(n)
    }
}

/// The line that reports a verdict.
pub open spec fn verdict_line_of(label: Seq<char>, prime: bool) -> Seq<char> {
    if prime {
        label + " is prime"@
    } else {
        label + " is composite"@
    }
}

/// The text under which a candidate is shown.
pub fn label(number: &Natural) -> (shown: String)
    ensures
        shown@ == label_of(integer(*number)),
        integer(*number) <= longest_shown() ==> is_decimal(shown@) && decimal_value(shown@)
            == integer(*number),
{
    proof {
        lemma_decimal_round_trip(integer(*number));
    }
    let digits = to_decimal(number);
    let limit = Natural::from_u64(9_999_999_999);
    if less(&limit, number) {
        let chars = chars_of(digits.as_str());
        let kept: usize = if chars.len() > 10 {
            10
        } else {
            chars.len()
        };
        let mut shown = string_of(&chars, 0, kept);
        shown.push('.');
        shown.push('.');
        shown.push('.');
        shown
    } else {
        digits
    }
}

/// The line that reports a verdict on the candidate shown as `label`.
pub fn verdict_line(label: &str, prime: bool) -> (line: String)
    ensures
        line@ == verdict_line_of(label@, prime),
{
    let mut line = String::from_str(label);
    if prime {
        line.append(" is prime");
    } else {
        line.append(" is composite");
    }
    line
}

} // verus!

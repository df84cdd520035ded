//! From raw input to candidates: a text is cut into its lines, each line is
//! stripped of surrounding white space, blank lines are dropped, and what is left
//! is read as a decimal number.

use crate::arithmetic::parse_decimal;
use crate::decimal::{decimal_value, is_decimal, is_digit};
use crate::natural::{integer, Natural};
use crate::strings::{chars_of, is_white_space, string_of, texts};
use vstd::prelude::*;

verus! {

/// Why a text was not read as a candidate.
#[derive(Clone, Copy, Debug, PartialEq, Eq, Structural)]
pub enum ParseError {
    /// The text is empty.
    Empty,
    /// The text holds a character that is not a decimal digit.
    InvalidDigit,
}

/// The position of the first line break in `s`, or the length of `s` where it
/// holds none.
pub open spec fn first_line_break(s: Seq<char>) -> int
    decreases s.len(),
{
    if s.len() == 0 || s[0] == '\n' {
        0
    } else {
        1 + first_line_break(s.drop_first())
    }
}

/// `s` without the white space at its start.
pub open spec fn trim_start(s: Seq<char>) -> Seq<char>
    decreases s.len(),
{
    if s.len() > 0 && is_white_space(s[0]) {
        trim_start(s.drop_first())
    } else {
        s
    }
}

/// `s` without the white space at its end.
pub open spec fn trim_end(s: Seq<char>) -> Seq<char>
    decreases s.len(),
{
    if s.len() > 0 && is_white_space(s.last()) {
        trim_end(s.drop_last())
    } else {
        s
    }
}

/// `s` without the white space at either end.
pub open spec fn trimmed(s: Seq<char>) -> Seq<char> {
    trim_end(trim_start(s))
}

/// The entries of a text: its first line, trimmed, unless that leaves nothing,
/// followed by the entries of what comes after the first line break.
pub open spec fn entries_in(s: Seq<char>) -> Seq<Seq<char>>
    decreases s.len(),
{
    let cut = first_line_break(s);
    let head = trimmed(s.take(cut));
    let rest = if 0 <= cut < s.len() {
        entries_in(s.skip(cut + 1))
    } else {
        Seq::empty()
    };
    if head.len() > 0 {
        seq![head] + rest
    } else {
        rest
    }
}

/// The first line break is where a scan from the left first meets one.
pub proof fn lemma_first_line_break_found(s: Seq<char>, cut: int)
    requires
        0 <= cut <= s.len(),
        forall|j: int| 0 <= j < cut ==> s[j] != '\n',
        cut == s.len() || s[cut] == '\n',
    ensures
        first_line_break(s) == cut,
    decreases s.len(),
{
    if cut > 0 {
        let tail = s.drop_first();
        lemma_first_line_break_found(tail, cut - 1);
    }
}

/// Trimming at the start removes exactly the leading run of white space.
pub proof fn lemma_trim_start_found(s: Seq<char>, from: int)
    requires
        0 <= from <= s.len(),
        forall|j: int| 0 <= j < from ==> is_white_space(s[j]),
        from == s.len() || !is_white_space(s[from]),
    ensures
        trim_start(s) == s.skip(from),
    decreases s.len(),
{
    if from > 0 {
        let tail = s.drop_first();
        lemma_trim_start_found(tail, from - 1);
    }
}

/// Trimming at the end removes exactly the trailing run of white space.
pub proof fn lemma_trim_end_found(s: Seq<char>, to: int)
    requires
        0 <= to <= s.len(),
        forall|j: int| to <= j < s.len() ==> is_white_space(s[j]),
        to == 0 || !is_white_space(s[to - 1]),
    ensures
        trim_end(s) == s.take(to),
    decreases s.len(),
{
    if to < s.len() {
        let front = s.drop_last();
        lemma_trim_end_found(front, to);
    }
}

/// Cuts a text into its entries: the lines, each without the white space around
/// it, blank lines left out, in the order in which they stand.
pub fn entries(text: &str) -> (found: Vec<String>)
    ensures
        texts(found@) == entries_in(text@),
{
    let chars = chars_of(text);
    let n = chars.len();
    let mut found: Vec<String> = Vec::new();
    let mut start: usize = 0;
    let mut done = false;
    assert(chars@.skip(0) =~= chars@);
    while !done
        invariant
            n == chars@.len(),
            start <= n,
            !done ==> texts(found@) + entries_in(chars@.skip(start as int)) == entries_in(chars@),
            done ==> texts(found@) == entries_in(chars@),
        decreases n - start + (if done { 0int } else { 1int }),
    {
        let ghost rest = chars@.skip(start as int);
        let mut end: usize = start;
        while end < n && chars[end] != '\n'
            invariant
                n == chars@.len(),
                start <= end <= n,
                forall|j: int| start <= j < end ==> chars@[j] != '\n',
            decreases n - end,
        {
            end = end + 1;
        }
        let mut from: usize = start;
        while from < end && chars[from].is_whitespace()
            invariant
                n == chars@.len(),
                start <= from <= end <= n,
                forall|j: int| start <= j < from ==> is_white_space(chars@[j]),
            decreases end - from,
        {
            from = from + 1;
        }
        let mut to: usize = end;
        while to > from && chars[to - 1].is_whitespace()
            invariant
                n == chars@.len(),
                from <= to <= end <= n,
                forall|j: int| to <= j < end ==> is_white_space(chars@[j]),
            decreases to - from,
        {
            to = to - 1;
        }
        proof {
            let line = chars@.subrange(start as int, end as int);
            lemma_first_line_break_found(rest, end - start);
            assert(rest.take(end - start) =~= line);
            lemma_trim_start_found(line, from - start);
            let kept = chars@.subrange(from as int, end as int);
            assert(line.skip(from - start) =~= kept);
            lemma_trim_end_found(kept, to - from);
            assert(trimmed(line) == chars@.subrange(from as int, to as int));
            if end < n {
                assert(rest.skip(end - start + 1) =~= chars@.skip(end + 1));
            }
        }
        let ghost before = texts(found@);
        if from < to {
            let line = string_of(&chars, from, to);
            found.push(line);
        }
        if end < n {
            start = end + 1;
        } else {
            done = true;
        }
    }
    found
}

/// Reads a numeral as a candidate. A text is accepted exactly when it is made of
/// one or more decimal digits; a sign, a blank or any other character makes it
/// malformed.
pub fn parse_candidate(text: &str) -> (parsed: Result<Natural, ParseError>)
    ensures
        match parsed {
            Ok(number) => is_decimal(text@) && integer(number) == decimal_value(text@),
            Err(ParseError::Empty) => text@.len() == 0,
            Err(ParseError::InvalidDigit) => text@.len() > 0 && !is_decimal(text@),
        },
{
    let chars = chars_of(text);
    if chars.len() == 0 {
        return Err(ParseError::Empty);
    }
    let mut i: usize = 0;
    while i < chars.len()
        invariant
            chars@ == text@,
            i <= chars@.len(),
            forall|j: int| 0 <= j < i ==> is_digit(#[trigger] chars@[j]),
        decreases chars@.len() - i,
    {
        let c = chars[i];
        if !('0' <= c && c <= '9') {
            return Err(ParseError::InvalidDigit);
        }
        i = i + 1;
    }
    match parse_decimal(text) {
        Ok(number) => Ok(number),
        Err(_) => Err(ParseError::InvalidDigit),
    }
}

} // verus!

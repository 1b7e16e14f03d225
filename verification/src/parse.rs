//! Parsing of date and timestamp strings.
//!
//! Dates are written `YYYY-MM-DD` and timestamps `YYYY-MM-DDTHH:MM:SS`,
//! zero-padded. A string is rejected unless it has exactly that shape and
//! names a real calendar date in the supported range.

use vstd::prelude::*;
use vstd::string::StrSliceExecFns;
use crate::date::{valid_date, Date};
use crate::datetime::{valid_datetime, DateTime};
use crate::units::{digit_val, is_digit_char};

verus! {

/// Value of the two-digit number at position `i`.
pub open spec fn two_digit_val(s: Seq<char>, i: int) -> int {
    digit_val(s[i]) * 10 + digit_val(s[i + 1])
}

/// Whether the two characters at position `i` are digits.
pub open spec fn two_digits_at(s: Seq<char>, i: int) -> bool {
    is_digit_char(s[i]) && is_digit_char(s[i + 1])
}

/// Whether positions 0 to 9 of `s` spell a zero-padded `YYYY-MM-DD` date.
pub open spec fn date_shape(s: Seq<char>) -> bool {
    &&& two_digits_at(s, 0)
    &&& two_digits_at(s, 2)
    &&& s[4] == '-'
    &&& two_digits_at(s, 5)
    &&& s[7] == '-'
    &&& two_digits_at(s, 8)
}

/// The date named by positions 0 to 9 of `s`.
pub open spec fn date_at(s: Seq<char>) -> Date {
    Date {
        year: (two_digit_val(s, 0) * 100 + two_digit_val(s, 2)) as u64,
        month: two_digit_val(s, 5) as u64,
        day: two_digit_val(s, 8) as u64,
    }
}

/// What a date string means: a valid date, or nothing when rejected.
pub open spec fn spec_parse_date(s: Seq<char>) -> Option<Date> {
    if s.len() == 10 && date_shape(s) && valid_date(date_at(s)) {
        Some(date_at(s))
    } else {
        None
    }
}

/// Whether `s` spells a zero-padded `YYYY-MM-DDTHH:MM:SS` timestamp.
pub open spec fn datetime_shape(s: Seq<char>) -> bool {
    &&& date_shape(s)
    &&& s[10] == 'T'
    &&& two_digits_at(s, 11)
    &&& s[13] == ':'
    &&& two_digits_at(s, 14)
    &&& s[16] == ':'
    &&& two_digits_at(s, 17)
}

/// The timestamp named by `s`.
pub open spec fn datetime_at(s: Seq<char>) -> DateTime {
    DateTime {
        date: date_at(s),
        hour: two_digit_val(s, 11) as u64,
        minute: two_digit_val(s, 14) as u64,
        second: two_digit_val(s, 17) as u64,
    }
}

/// What a timestamp string means: a valid timestamp, or nothing when
/// rejected.
pub open spec fn spec_parse_datetime(s: Seq<char>) -> Option<DateTime> {
    if s.len() == 19 && datetime_shape(s) && valid_datetime(datetime_at(s)) {
        Some(datetime_at(s))
    } else {
        None
    }
}

/// Reads the digit at position `i` of `s`, or gives up.
fn digit_at(s: &str, i: usize) -> (r: Option<u64>)
    requires
        i < s@.len(),
    ensures
        match r {
            Some(v) => is_digit_char(s@[i as int]) && v == digit_val(s@[i as int]),
            None => !is_digit_char(s@[i as int]),
        },
{
    let c: u32 = s.get_char(i) as u32;
    if 48 <= c && c <= 57 {
        Some((c - 48) as u64)
    } else {
        None
    }
}

/// Reads the two-digit number at position `i` of `s`, or gives up.
fn two_digits(s: &str, i: usize) -> (r: Option<u64>)
    requires
        i + 1 < s@.len(),
        s@.len() <= usize::MAX,
    ensures
        match r {
            Some(v) => two_digits_at(s@, i as int) && v == two_digit_val(s@, i as int),
            None => !two_digits_at(s@, i as int),
        },
{
    match (digit_at(s, i), digit_at(s, i + 1)) {
        (Some(a), Some(b)) => Some(a * 10 + b),
        _ => None,
    }
}

/// Checks that position `i` of `s` holds exactly `c`.
fn expect_char(s: &str, i: usize, c: char) -> (r: bool)
    requires
        i < s@.len(),
    ensures
        r == (s@[i as int] == c),
{
    s.get_char(i) == c
}

/// Parses a `YYYY-MM-DD` string to a date.
pub fn parse_date(s: &str) -> (r: Option<Date>)
    ensures
        r == spec_parse_date(s@),
{
    if s.unicode_len() != 10 {
        return None;
    }
    let hi = match two_digits(s, 0) {
        Some(v) => v,
        None => { return None },
    };
    let lo = match two_digits(s, 2) {
        Some(v) => v,
        None => { return None },
    };
    if !expect_char(s, 4, '-') {
        return None;
    }
    let month = match two_digits(s, 5) {
        Some(v) => v,
        None => { return None },
    };
    if !expect_char(s, 7, '-') {
        return None;
    }
    let day = match two_digits(s, 8) {
        Some(v) => v,
        None => { return None },
    };
    let d = Date { year: hi * 100 + lo, month, day };
    if d.is_valid() {
        Some(d)
    } else {
        None
    }
}

/// Parses a `YYYY-MM-DDTHH:MM:SS` string to a timestamp.
pub fn parse_datetime(s: &str) -> (r: Option<DateTime>)
    ensures
        r == spec_parse_datetime(s@),
{
    if s.unicode_len() != 19 {
        return None;
    }
    let hi = match two_digits(s, 0) {
        Some(v) => v,
        None => { return None },
    };
    let lo = match two_digits(s, 2) {
        Some(v) => v,
        None => { return None },
    };
    if !expect_char(s, 4, '-') {
        return None;
    }
    let month = match two_digits(s, 5) {
        Some(v) => v,
        None => { return None },
    };
    if !expect_char(s, 7, '-') {
        return None;
    }
    let day = match two_digits(s, 8) {
        Some(v) => v,
        None => { return None },
    };
    if !expect_char(s, 10, 'T') {
        return None;
    }
    let hour = match two_digits(s, 11) {
        Some(v) => v,
        None => { return None },
    };
    if !expect_char(s, 13, ':') {
        return None;
    }
    let minute = match two_digits(s, 14) {
        Some(v) => v,
        None => { return None },
    };
    if !expect_char(s, 16, ':') {
        return None;
    }
    let second = match two_digits(s, 17) {
        Some(v) => v,
        None => { return None },
    };
    let t = DateTime { date: Date { year: hi * 100 + lo, month, day }, hour, minute, second };
    if t.is_valid() {
        Some(t)
    } else {
        None
    }
}

} // verus!

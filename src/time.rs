//! Calendar times of certificate validity: parsing the two DER time forms,
//! seconds since the Unix epoch, and the text the report shows.

use vstd::prelude::*;
use crate::error::{DecodeError, Found};
use crate::text::{decimal, push_decimal, push_char, push_str};

verus! {

/// A time of day on a calendar date, in UTC.
#[derive(Debug, Clone, Copy, PartialEq, Eq, Structural)]
pub struct Time {
    pub year: u64,
    pub month: u64,
    pub day: u64,
    pub hour: u64,
    pub minute: u64,
    pub second: u64,
}

impl Time {
    /// Fields within their calendar ranges (days up to 31 in every month).
    pub open spec fn wf(self) -> bool {
        &&& 1 <= self.year <= 9999
        &&& 1 <= self.month <= 12
        &&& 1 <= self.day <= 31
        &&& self.hour <= 23
        &&& self.minute <= 59
        &&& self.second <= 60
    }
}

pub open spec fn is_digit(b: u8) -> bool {
    48 <= b <= 57
}

/// Value of two decimal digits at `s[i]`, `s[i + 1]`.
pub open spec fn two_digits(s: Seq<u8>, i: int) -> nat {
    ((s[i] - 48) * 10 + (s[i + 1] - 48)) as nat
}

/// Days from 1970-01-01 to the given proleptic Gregorian date.
pub open spec fn days_from_civil(y: int, m: int, d: int) -> int {
    let y2 = if m <= 2 { y - 1 } else { y };
    let era = y2 / 400;
    let yoe = y2 - era * 400;
    let mp = if m > 2 { m - 3 } else { m + 9 };
    let doy = (153 * mp + 2) / 5 + d - 1;
    let doe = yoe * 365 + yoe / 4 - yoe / 100 + doy;
    era * 146097 + doe - 719468
}

/// Seconds since 1970-01-01T00:00:00Z.
pub open spec fn unix_seconds(t: Time) -> int {
    days_from_civil(t.year as int, t.month as int, t.day as int) * 86400
        + t.hour * 3600 + t.minute * 60 + t.second
}

/// Short English month names.
pub open spec fn month_name(m: nat) -> Seq<char> {
    if m == 1 { "Jan"@ } else if m == 2 { "Feb"@ } else if m == 3 { "Mar"@ }
    else if m == 4 { "Apr"@ } else if m == 5 { "May"@ } else if m == 6 { "Jun"@ }
    else if m == 7 { "Jul"@ } else if m == 8 { "Aug"@ } else if m == 9 { "Sep"@ }
    else if m == 10 { "Oct"@ } else if m == 11 { "Nov"@ } else { "Dec"@ }
}

/// A number below 100 as two digits.
pub open spec fn two(n: nat) -> Seq<char> {
    if n < 10 { seq!['0'] + decimal(n) } else { decimal(n) }
}

/// A day of month padded with a space to two characters.
pub open spec fn day_text(n: nat) -> Seq<char> {
    if n < 10 { seq![' '] + decimal(n) } else { decimal(n) }
}

/// The text of a time: `Mon DD HH:MM:SS YYYY +00:00`.
pub open spec fn time_text(t: Time) -> Seq<char> {
    month_name(t.month as nat) + seq![' '] + day_text(t.day as nat) + seq![' ']
        + two(t.hour as nat) + seq![':'] + two(t.minute as nat) + seq![':'] + two(t.second as nat)
        + seq![' '] + decimal(t.year as nat) + " +00:00"@
}

/// The time that a UTCTime (`YYMMDDHHMMSSZ`, years 1950 to 2049) or a
/// GeneralizedTime (`YYYYMMDDHHMMSSZ`) content holds, if it has that form.
pub open spec fn time_of(tag: u8, s: Seq<u8>) -> Option<Time> {
    let n: int = if tag == 0x17 { 13 } else { 15 };
    let o: int = n - 13;
    if (tag != 0x17 && tag != 0x18) || s.len() != n || s[n - 1] != 90
        || exists|i: int| 0 <= i < n - 1 && !is_digit(#[trigger] s[i]) {
        None
    } else {
        let yy = two_digits(s, 0);
        let year = if tag == 0x17 {
            if yy < 50 { 2000 + yy } else { 1900 + yy }
        } else {
            yy * 100 + two_digits(s, 2)
        };
        let t = Time {
            year: year as u64,
            month: two_digits(s, o + 2) as u64,
            day: two_digits(s, o + 4) as u64,
            hour: two_digits(s, o + 6) as u64,
            minute: two_digits(s, o + 8) as u64,
            second: two_digits(s, o + 10) as u64,
        };
        if t.wf() { Some(t) } else { None }
    }
}

fn two_digits_exec(s: &[u8], i: usize) -> (r: u64)
    requires
        i + 1 < s@.len(),
        is_digit(s@[i as int]),
        is_digit(s@[i + 1]),
    ensures
        r == two_digits(s@, i as int),
        r < 100,
{
    ((s[i] - 48) as u64) * 10 + ((s[i + 1] - 48) as u64)
}

/// Reads a time from the content `b[lo..hi]` of an element with tag `tag`.
pub fn parse_time(b: &[u8], lo: usize, hi: usize, tag: u8) -> (r: Result<Time, DecodeError>)
    requires
        lo <= hi <= b@.len(),
    ensures
        match r {
            Ok(t) => time_of(tag, b@.subrange(lo as int, hi as int)) == Some(t),
            Err(e) => time_of(tag, b@.subrange(lo as int, hi as int)) is None
                && e == (DecodeError::DerStructureError { offset: lo, expected: tag, found: Found::BadContent }),
        },
{
    let ghost s = b@.subrange(lo as int, hi as int);
    let n: usize = if tag == 0x17 { 13 } else { 15 };
    if (tag != 0x17 && tag != 0x18) || hi - lo != n || b[hi - 1] != 90 {
        assert(s.len() == hi - lo);
        assert(hi - lo == n ==> s[n - 1] == b@[hi - 1]);
        return Err(DecodeError::DerStructureError { offset: lo, expected: tag, found: Found::BadContent });
    }
    let mut i: usize = 0;
    while i < n - 1
        invariant
            lo + n == hi <= b@.len(),
            n == 13 || n == 15,
            s == b@.subrange(lo as int, hi as int),
            i <= n - 1,
            forall|j: int| 0 <= j < i ==> is_digit(#[trigger] s[j]),
        decreases n - 1 - i,
    {
        if b[lo + i] < 48 || b[lo + i] > 57 {
            assert(!is_digit(s[i as int]));
            return Err(DecodeError::DerStructureError { offset: lo, expected: tag, found: Found::BadContent });
        }
        i = i + 1;
    }
    let o = n - 13;
    let yy = two_digits_exec(b, lo);
    let year = if tag == 0x17 {
        if yy < 50 { 2000 + yy } else { 1900 + yy }
    } else {
        yy * 100 + two_digits_exec(b, lo + 2)
    };
    let t = Time {
        year,
        month: two_digits_exec(b, lo + o + 2),
        day: two_digits_exec(b, lo + o + 4),
        hour: two_digits_exec(b, lo + o + 6),
        minute: two_digits_exec(b, lo + o + 8),
        second: two_digits_exec(b, lo + o + 10),
    };
    proof {
        assert(two_digits(s, 0) == two_digits(b@, lo as int));
        assert(two_digits(s, 2) == two_digits(b@, lo + 2));
        assert(two_digits(s, o + 2) == two_digits(b@, lo + o + 2));
        assert(two_digits(s, o + 4) == two_digits(b@, lo + o + 4));
        assert(two_digits(s, o + 6) == two_digits(b@, lo + o + 6));
        assert(two_digits(s, o + 8) == two_digits(b@, lo + o + 8));
        assert(two_digits(s, o + 10) == two_digits(b@, lo + o + 10));
    }
    if 1 <= t.year && t.year <= 9999 && 1 <= t.month && t.month <= 12 && 1 <= t.day && t.day <= 31
        && t.hour <= 23 && t.minute <= 59 && t.second <= 60 {
        Ok(t)
    } else {
        Err(DecodeError::DerStructureError { offset: lo, expected: tag, found: Found::BadContent })
    }
}

/// Seconds since the Unix epoch of a well-formed time.
pub fn to_unix_seconds(t: &Time) -> (r: i64)
    requires
        t.wf(),
    ensures
        r == unix_seconds(*t),
{
    let y: i64 = if t.month <= 2 { t.year as i64 - 1 } else { t.year as i64 };
    let era = y / 400;
    let yoe = y - era * 400;
    let m = t.month as i64;
    let mp = if m > 2 { m - 3 } else { m + 9 };
    let doy = (153 * mp + 2) / 5 + t.day as i64 - 1;
    let doe = yoe * 365 + yoe / 4 - yoe / 100 + doy;
    let days = era * 146097 + doe - 719468;
    proof {
        assert(0 <= y <= 9999);
        assert(0 <= era <= 24) by (nonlinear_arith) requires era == y / 400, 0 <= y <= 9999;
        assert(0 <= yoe < 400) by (nonlinear_arith) requires era == y / 400, yoe == y - era * 400, 0 <= y;
        assert(0 <= doy < 400) by (nonlinear_arith) requires 0 <= mp <= 11, 1 <= t.day <= 31, doy == (153 * mp + 2) / 5 + t.day - 1;
    }
    days * 86400 + t.hour as i64 * 3600 + t.minute as i64 * 60 + t.second as i64
}

fn push_two(out: &mut String, n: u64)
    requires
        n < 100,
    ensures
        final(out)@ == old(out)@ + two(n as nat),
{
    if n < 10 {
        push_char(out, '0');
    }
    push_decimal(out, n);
    assert(final(out)@ =~= old(out)@ + two(n as nat));
}

fn month_str(m: u64) -> (r: &'static str)
    ensures
        r@ == month_name(m as nat),
{
    if m == 1 { "Jan" } else if m == 2 { "Feb" } else if m == 3 { "Mar" }
    else if m == 4 { "Apr" } else if m == 5 { "May" } else if m == 6 { "Jun" }
    else if m == 7 { "Jul" } else if m == 8 { "Aug" } else if m == 9 { "Sep" }
    else if m == 10 { "Oct" } else if m == 11 { "Nov" } else { "Dec" }
}

/// Appends the text of a well-formed time.
pub fn push_time(out: &mut String, t: &Time)
    requires
        t.wf(),
    ensures
        final(out)@ == old(out)@ + time_text(*t),
{
    push_str(out, month_str(t.month));
    push_char(out, ' ');
    if t.day < 10 {
        push_char(out, ' ');
    }
    push_decimal(out, t.day);
    push_char(out, ' ');
    push_two(out, t.hour);
    push_char(out, ':');
    push_two(out, t.minute);
    push_char(out, ':');
    push_two(out, t.second);
    push_char(out, ' ');
    push_decimal(out, t.year);
    push_str(out, " +00:00");
    assert(final(out)@ =~= old(out)@ + time_text(*t));
}

} // verus!

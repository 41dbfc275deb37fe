//! Parsing HTTP date strings. A timestamp in a header may arrive in any of
//! three historically-defined formats, tried in this priority order:
//!
//! 1. IMF-fixdate, the preferred form: `Sun, 07 Nov 1994 08:48:37 GMT`
//! 2. the obsolete RFC 850 form:       `Sunday, 07-Nov-94 08:48:37 GMT`
//! 3. ANSI C's asctime form:           `Sun Nov  7 08:48:37 1994`
//!
//! Each grammar is written down as a spec function over the characters, and
//! the parser is proved to return exactly what the first matching grammar
//! denotes, or nothing when none matches. The timezone token of forms 1
//! and 2 is a symbolic name (commonly `GMT`) and is not resolved; all three
//! forms are read as GMT, so the UTC offset of a parsed timestamp is zero.

use vstd::prelude::*;
use vstd::string::StrSliceExecFns;

use crate::text::digit_val;
use crate::text::is_digit;

verus! {

/// A calendar timestamp, as carried by an HTTP date header.
#[derive(Clone, Copy, Debug, PartialEq, Eq, Structural)]
pub struct Timestamp {
    /// Full calendar year, e.g. 1994.
    pub year: u16,
    /// Month, 0-indexed: January is 0, December is 11.
    pub month: u8,
    /// Day of month, 1 to 31.
    pub day: u8,
    /// Hour, 0 to 23.
    pub hour: u8,
    /// Minute, 0 to 59.
    pub minute: u8,
    /// Second, 0 to 59.
    pub second: u8,
    /// Days since Sunday, 0 to 6.
    pub weekday: u8,
    /// Seconds east of UTC; always zero for parsed HTTP dates.
    pub utcoff: i32,
}

impl Timestamp {
    /// Field ranges every parsed timestamp satisfies. HTTP dates carry no
    /// sub-second component and are always read as GMT, so there is no
    /// sub-second field and the UTC offset is zero.
    pub open spec fn wf(self) -> bool {
        &&& self.month < 12
        &&& 1 <= self.day <= 31
        &&& self.hour < 24
        &&& self.minute < 60
        &&& self.second < 60
        &&& self.weekday < 7
        &&& self.utcoff == 0
    }
}

/// `lit` occurs in `s` at position `i`.
pub open spec fn is_prefix_at(s: Seq<char>, lit: Seq<char>, i: int) -> bool {
    0 <= i && i + lit.len() <= s.len() && s.subrange(i, i + lit.len() as int) == lit
}

/// An ASCII letter.
pub open spec fn is_alpha(c: char) -> bool {
    (65 <= c as u32 && c as u32 <= 90) || (97 <= c as u32 && c as u32 <= 122)
}

/// Two decimal digits stand at position `i`.
pub open spec fn digits2_at(s: Seq<char>, i: int) -> bool {
    0 <= i && i + 2 <= s.len() && is_digit(s[i]) && is_digit(s[i + 1])
}

/// The value of the two digits at position `i`.
pub open spec fn num2_at(s: Seq<char>, i: int) -> int {
    10 * digit_val(s[i]) + digit_val(s[i + 1])
}

/// Four decimal digits stand at position `i`.
pub open spec fn digits4_at(s: Seq<char>, i: int) -> bool {
    0 <= i && i + 4 <= s.len() && is_digit(s[i]) && is_digit(s[i + 1]) && is_digit(s[i + 2])
        && is_digit(s[i + 3])
}

/// The value of the four digits at position `i`.
pub open spec fn num4_at(s: Seq<char>, i: int) -> int {
    1000 * digit_val(s[i]) + 100 * digit_val(s[i + 1]) + 10 * digit_val(s[i + 2]) + digit_val(
        s[i + 3],
    )
}

/// A time of day `HH:MM:SS` stands at position `i`, with the hour below 24
/// and minute and second below 60.
pub open spec fn hms_at(s: Seq<char>, i: int) -> bool {
    &&& 0 <= i && i + 8 <= s.len()
    &&& digits2_at(s, i) && num2_at(s, i) < 24
    &&& s[i + 2] == ':'
    &&& digits2_at(s, i + 3) && num2_at(s, i + 3) < 60
    &&& s[i + 5] == ':'
    &&& digits2_at(s, i + 6) && num2_at(s, i + 6) < 60
}

/// A timezone name — one or more ASCII letters — runs from position `i` to
/// the end of the text.
pub open spec fn zone_at(s: Seq<char>, i: int) -> bool {
    0 <= i < s.len() && forall|j: int| i <= j < s.len() ==> is_alpha(s[j])
}

/// The month abbreviation at position `i`, as a 0-indexed month number.
pub open spec fn month_at(s: Seq<char>, i: int) -> Option<u8> {
    if is_prefix_at(s, "Jan"@, i) {
        Some(0u8)
    } else if is_prefix_at(s, "Feb"@, i) {
        Some(1u8)
    } else if is_prefix_at(s, "Mar"@, i) {
        Some(2u8)
    } else if is_prefix_at(s, "Apr"@, i) {
        Some(3u8)
    } else if is_prefix_at(s, "May"@, i) {
        Some(4u8)
    } else if is_prefix_at(s, "Jun"@, i) {
        Some(5u8)
    } else if is_prefix_at(s, "Jul"@, i) {
        Some(6u8)
    } else if is_prefix_at(s, "Aug"@, i) {
        Some(7u8)
    } else if is_prefix_at(s, "Sep"@, i) {
        Some(8u8)
    } else if is_prefix_at(s, "Oct"@, i) {
        Some(9u8)
    } else if is_prefix_at(s, "Nov"@, i) {
        Some(10u8)
    } else if is_prefix_at(s, "Dec"@, i) {
        Some(11u8)
    } else {
        None
    }
}

/// The weekday abbreviation at position `i`, as days since Sunday.
pub open spec fn wday_abbr_at(s: Seq<char>, i: int) -> Option<u8> {
    if is_prefix_at(s, "Sun"@, i) {
        Some(0u8)
    } else if is_prefix_at(s, "Mon"@, i) {
        Some(1u8)
    } else if is_prefix_at(s, "Tue"@, i) {
        Some(2u8)
    } else if is_prefix_at(s, "Wed"@, i) {
        Some(3u8)
    } else if is_prefix_at(s, "Thu"@, i) {
        Some(4u8)
    } else if is_prefix_at(s, "Fri"@, i) {
        Some(5u8)
    } else if is_prefix_at(s, "Sat"@, i) {
        Some(6u8)
    } else {
        None
    }
}

/// The full weekday name at the start of `s`: days since Sunday, and the
/// length of the name.
pub open spec fn wday_full_at(s: Seq<char>) -> Option<(u8, int)> {
    if is_prefix_at(s, "Sunday"@, 0) {
        Some((0u8, 6int))
    } else if is_prefix_at(s, "Monday"@, 0) {
        Some((1u8, 6int))
    } else if is_prefix_at(s, "Tuesday"@, 0) {
        Some((2u8, 7int))
    } else if is_prefix_at(s, "Wednesday"@, 0) {
        Some((3u8, 9int))
    } else if is_prefix_at(s, "Thursday"@, 0) {
        Some((4u8, 8int))
    } else if is_prefix_at(s, "Friday"@, 0) {
        Some((5u8, 6int))
    } else if is_prefix_at(s, "Saturday"@, 0) {
        Some((6u8, 8int))
    } else {
        None
    }
}

/// The IMF-fixdate grammar: weekday abbreviation, `", "`, 2-digit day,
/// space, month abbreviation, space, 4-digit year, space, `HH:MM:SS`,
/// space, timezone name running to the end.
pub open spec fn imf_fixdate_ok(s: Seq<char>) -> bool {
    &&& s.len() >= 27
    &&& wday_abbr_at(s, 0) is Some
    &&& s[3] == ',' && s[4] == ' '
    &&& digits2_at(s, 5) && 1 <= num2_at(s, 5) <= 31
    &&& s[7] == ' '
    &&& month_at(s, 8) is Some
    &&& s[11] == ' '
    &&& digits4_at(s, 12)
    &&& s[16] == ' '
    &&& hms_at(s, 17)
    &&& s[25] == ' '
    &&& zone_at(s, 26)
}

/// The timestamp an IMF-fixdate text denotes.
pub open spec fn imf_fixdate_value(s: Seq<char>) -> Timestamp {
    Timestamp {
        year: num4_at(s, 12) as u16,
        month: month_at(s, 8)->0,
        day: num2_at(s, 5) as u8,
        hour: num2_at(s, 17) as u8,
        minute: num2_at(s, 20) as u8,
        second: num2_at(s, 23) as u8,
        weekday: wday_abbr_at(s, 0)->0,
        utcoff: 0,
    }
}

/// The obsolete RFC 850 grammar: full weekday name, `", "`, 2-digit day,
/// hyphen, month abbreviation, hyphen, 2-digit year, space, `HH:MM:SS`,
/// space, timezone name running to the end.
pub open spec fn rfc850_ok(s: Seq<char>) -> bool {
    match wday_full_at(s) {
        None => false,
        Some(p) => {
            let l = p.1;
            &&& s.len() >= l + 22
            &&& s[l] == ',' && s[l + 1] == ' '
            &&& digits2_at(s, l + 2) && 1 <= num2_at(s, l + 2) <= 31
            &&& s[l + 4] == '-'
            &&& month_at(s, l + 5) is Some
            &&& s[l + 8] == '-'
            &&& digits2_at(s, l + 9)
            &&& s[l + 11] == ' '
            &&& hms_at(s, l + 12)
            &&& s[l + 20] == ' '
            &&& zone_at(s, l + 21)
        },
    }
}

/// The full year a 2-digit year denotes: 69 to 99 fall in the 1900s, 0 to 68
/// in the 2000s.
pub open spec fn full_year(yy: int) -> int {
    if yy >= 69 {
        1900 + yy
    } else {
        2000 + yy
    }
}

/// The timestamp an RFC 850 text denotes.
pub open spec fn rfc850_value(s: Seq<char>) -> Timestamp {
    let p = wday_full_at(s)->0;
    let l = p.1;
    Timestamp {
        year: full_year(num2_at(s, l + 9)) as u16,
        month: month_at(s, l + 5)->0,
        day: num2_at(s, l + 2) as u8,
        hour: num2_at(s, l + 12) as u8,
        minute: num2_at(s, l + 15) as u8,
        second: num2_at(s, l + 18) as u8,
        weekday: p.0,
        utcoff: 0,
    }
}

/// The asctime grammar, exactly 24 characters: weekday abbreviation, space,
/// month abbreviation, space, day of month padded to width 2 with a space or
/// a zero, space, `HH:MM:SS`, space, 4-digit year.
pub open spec fn asctime_ok(s: Seq<char>) -> bool {
    &&& s.len() == 24
    &&& wday_abbr_at(s, 0) is Some
    &&& s[3] == ' '
    &&& month_at(s, 4) is Some
    &&& s[7] == ' '
    &&& (s[8] == ' ' && is_digit(s[9]) && 1 <= digit_val(s[9])) || (digits2_at(s, 8) && 1
        <= num2_at(s, 8) <= 31)
    &&& s[10] == ' '
    &&& hms_at(s, 11)
    &&& s[19] == ' '
    &&& digits4_at(s, 20)
}

/// The day of month an asctime text carries.
pub open spec fn asctime_day(s: Seq<char>) -> int {
    if s[8] == ' ' {
        digit_val(s[9])
    } else {
        num2_at(s, 8)
    }
}

/// The timestamp an asctime text denotes.
pub open spec fn asctime_value(s: Seq<char>) -> Timestamp {
    Timestamp {
        year: num4_at(s, 20) as u16,
        month: month_at(s, 4)->0,
        day: asctime_day(s) as u8,
        hour: num2_at(s, 11) as u8,
        minute: num2_at(s, 14) as u8,
        second: num2_at(s, 17) as u8,
        weekday: wday_abbr_at(s, 0)->0,
        utcoff: 0,
    }
}

/// What parsing an HTTP date yields: the denotation of the first grammar
/// that matches, in the priority order IMF-fixdate, RFC 850, asctime; or
/// nothing when none matches.
pub open spec fn http_date_spec(s: Seq<char>) -> Option<Timestamp> {
    if imf_fixdate_ok(s) {
        Some(imf_fixdate_value(s))
    } else if rfc850_ok(s) {
        Some(rfc850_value(s))
    } else if asctime_ok(s) {
        Some(asctime_value(s))
    } else {
        None
    }
}

/// Compares the characters of `s` at position `i` with `lit`.
fn starts_with_at(s: &str, lit: &str, i: usize) -> (r: bool)
    ensures
        r == is_prefix_at(s@, lit@, i as int),
{
    let n = s.unicode_len();
    let m = lit.unicode_len();
    if i > n || m > n - i {
        return false;
    }
    let mut j: usize = 0;
    while j < m
        invariant
            j <= m,
            i + m <= n,
            n == s@.len(),
            m == lit@.len(),
            forall|k: int| 0 <= k < j ==> s@[i + k] == lit@[k],
        decreases m - j,
    {
        if s.get_char(i + j) != lit.get_char(j) {
            proof {
                assert(s@.subrange(i as int, i + m as int)[j as int] == s@[i + j]);
            }
            return false;
        }
        j += 1;
    }
    proof {
        assert(s@.subrange(i as int, i + m as int) =~= lit@);
    }
    true
}

fn parse_month(s: &str, i: usize) -> (r: Option<u8>)
    ensures
        r == month_at(s@, i as int),
{
    if starts_with_at(s, "Jan", i) {
        Some(0)
    } else if starts_with_at(s, "Feb", i) {
        Some(1)
    } else if starts_with_at(s, "Mar", i) {
        Some(2)
    } else if starts_with_at(s, "Apr", i) {
        Some(3)
    } else if starts_with_at(s, "May", i) {
        Some(4)
    } else if starts_with_at(s, "Jun", i) {
        Some(5)
    } else if starts_with_at(s, "Jul", i) {
        Some(6)
    } else if starts_with_at(s, "Aug", i) {
        Some(7)
    } else if starts_with_at(s, "Sep", i) {
        Some(8)
    } else if starts_with_at(s, "Oct", i) {
        Some(9)
    } else if starts_with_at(s, "Nov", i) {
        Some(10)
    } else if starts_with_at(s, "Dec", i) {
        Some(11)
    } else {
        None
    }
}

fn parse_wday_abbr(s: &str, i: usize) -> (r: Option<u8>)
    ensures
        r == wday_abbr_at(s@, i as int),
{
    if starts_with_at(s, "Sun", i) {
        Some(0)
    } else if starts_with_at(s, "Mon", i) {
        Some(1)
    } else if starts_with_at(s, "Tue", i) {
        Some(2)
    } else if starts_with_at(s, "Wed", i) {
        Some(3)
    } else if starts_with_at(s, "Thu", i) {
        Some(4)
    } else if starts_with_at(s, "Fri", i) {
        Some(5)
    } else if starts_with_at(s, "Sat", i) {
        Some(6)
    } else {
        None
    }
}

fn parse_wday_full(s: &str) -> (r: Option<(u8, usize)>)
    ensures
        match r {
            Some(p) => wday_full_at(s@) == Some((p.0, p.1 as int)),
            None => wday_full_at(s@) is None,
        },
{
    if starts_with_at(s, "Sunday", 0) {
        Some((0, 6))
    } else if starts_with_at(s, "Monday", 0) {
        Some((1, 6))
    } else if starts_with_at(s, "Tuesday", 0) {
        Some((2, 7))
    } else if starts_with_at(s, "Wednesday", 0) {
        Some((3, 9))
    } else if starts_with_at(s, "Thursday", 0) {
        Some((4, 8))
    } else if starts_with_at(s, "Friday", 0) {
        Some((5, 6))
    } else if starts_with_at(s, "Saturday", 0) {
        Some((6, 8))
    } else {
        None
    }
}

fn parse_2digits(s: &str, i: usize) -> (r: Option<u8>)
    requires
        i + 2 <= s@.len(),
        s@.len() <= usize::MAX,
    ensures
        match r {
            Some(v) => digits2_at(s@, i as int) && v == num2_at(s@, i as int),
            None => !digits2_at(s@, i as int),
        },
{
    let u0 = s.get_char(i) as u32;
    if u0 < 48 || u0 > 57 {
        return None;
    }
    let u1 = s.get_char(i + 1) as u32;
    if u1 < 48 || u1 > 57 {
        return None;
    }
    Some((10 * (u0 - 48) + (u1 - 48)) as u8)
}

fn parse_4digits(s: &str, i: usize) -> (r: Option<u16>)
    requires
        i + 4 <= s@.len(),
        s@.len() <= usize::MAX,
    ensures
        match r {
            Some(v) => digits4_at(s@, i as int) && v == num4_at(s@, i as int),
            None => !digits4_at(s@, i as int),
        },
{
    let hi = match parse_2digits(s, i) {
        Some(v) => v,
        None => {
            return None;
        },
    };
    let lo = match parse_2digits(s, i + 2) {
        Some(v) => v,
        None => {
            return None;
        },
    };
    Some(100 * (hi as u16) + (lo as u16))
}

fn parse_hms(s: &str, i: usize) -> (r: Option<(u8, u8, u8)>)
    requires
        i + 8 <= s@.len(),
        s@.len() <= usize::MAX,
    ensures
        match r {
            Some(t) => hms_at(s@, i as int) && t.0 == num2_at(s@, i as int) && t.1 == num2_at(
                s@,
                i + 3 as int,
            ) && t.2 == num2_at(s@, i + 6 as int),
            None => !hms_at(s@, i as int),
        },
{
    let h = match parse_2digits(s, i) {
        Some(v) => v,
        None => {
            return None;
        },
    };
    if h >= 24 || s.get_char(i + 2) != ':' {
        return None;
    }
    let m = match parse_2digits(s, i + 3) {
        Some(v) => v,
        None => {
            return None;
        },
    };
    if m >= 60 || s.get_char(i + 5) != ':' {
        return None;
    }
    let sec = match parse_2digits(s, i + 6) {
        Some(v) => v,
        None => {
            return None;
        },
    };
    if sec >= 60 {
        return None;
    }
    Some((h, m, sec))
}

fn zone_from(s: &str, i: usize) -> (r: bool)
    ensures
        r == zone_at(s@, i as int),
{
    let n = s.unicode_len();
    if i >= n {
        return false;
    }
    let mut j = i;
    while j < n
        invariant
            i <= j <= n,
            n == s@.len(),
            forall|k: int| i <= k < j ==> is_alpha(s@[k]),
        decreases n - j,
    {
        let u = s.get_char(j) as u32;
        if !(65 <= u && u <= 90) && !(97 <= u && u <= 122) {
            return false;
        }
        j += 1;
    }
    true
}

fn parse_imf_fixdate(s: &str) -> (r: Option<Timestamp>)
    ensures
        r == (if imf_fixdate_ok(s@) {
            Some(imf_fixdate_value(s@))
        } else {
            None
        }),
{
    let n = s.unicode_len();
    if n < 27 {
        return None;
    }
    let wd = match parse_wday_abbr(s, 0) {
        Some(w) => w,
        None => {
            return None;
        },
    };
    if s.get_char(3) != ',' || s.get_char(4) != ' ' {
        return None;
    }
    let day = match parse_2digits(s, 5) {
        Some(d) => d,
        None => {
            return None;
        },
    };
    if day < 1 || day > 31 {
        return None;
    }
    if s.get_char(7) != ' ' {
        return None;
    }
    let month = match parse_month(s, 8) {
        Some(m) => m,
        None => {
            return None;
        },
    };
    if s.get_char(11) != ' ' {
        return None;
    }
    let year = match parse_4digits(s, 12) {
        Some(y) => y,
        None => {
            return None;
        },
    };
    if s.get_char(16) != ' ' {
        return None;
    }
    let (hour, minute, second) = match parse_hms(s, 17) {
        Some(t) => t,
        None => {
            return None;
        },
    };
    if s.get_char(25) != ' ' {
        return None;
    }
    if !zone_from(s, 26) {
        return None;
    }
    Some(
        Timestamp {
            year,
            month,
            day,
            hour,
            minute,
            second,
            weekday: wd,
            utcoff: 0,
        },
    )
}

fn parse_rfc850(s: &str) -> (r: Option<Timestamp>)
    ensures
        r == (if rfc850_ok(s@) {
            Some(rfc850_value(s@))
        } else {
            None
        }),
{
    let n = s.unicode_len();
    let (wd, l) = match parse_wday_full(s) {
        Some(p) => p,
        None => {
            return None;
        },
    };
    assert(l <= 9);
    if n < l + 22 {
        return None;
    }
    if s.get_char(l) != ',' || s.get_char(l + 1) != ' ' {
        return None;
    }
    let day = match parse_2digits(s, l + 2) {
        Some(d) => d,
        None => {
            return None;
        },
    };
    if day < 1 || day > 31 {
        return None;
    }
    if s.get_char(l + 4) != '-' {
        return None;
    }
    let month = match parse_month(s, l + 5) {
        Some(m) => m,
        None => {
            return None;
        },
    };
    if s.get_char(l + 8) != '-' {
        return None;
    }
    let yy = match parse_2digits(s, l + 9) {
        Some(y) => y,
        None => {
            return None;
        },
    };
    if s.get_char(l + 11) != ' ' {
        return None;
    }
    let (hour, minute, second) = match parse_hms(s, l + 12) {
        Some(t) => t,
        None => {
            return None;
        },
    };
    if s.get_char(l + 20) != ' ' {
        return None;
    }
    if !zone_from(s, l + 21) {
        return None;
    }
    let year: u16 = if yy >= 69 {
        1900 + yy as u16
    } else {
        2000 + yy as u16
    };
    Some(
        Timestamp {
            year,
            month,
            day,
            hour,
            minute,
            second,
            weekday: wd,
            utcoff: 0,
        },
    )
}

fn parse_asctime(s: &str) -> (r: Option<Timestamp>)
    ensures
        r == (if asctime_ok(s@) {
            Some(asctime_value(s@))
        } else {
            None
        }),
{
    let n = s.unicode_len();
    if n != 24 {
        return None;
    }
    let wd = match parse_wday_abbr(s, 0) {
        Some(w) => w,
        None => {
            return None;
        },
    };
    if s.get_char(3) != ' ' {
        return None;
    }
    let month = match parse_month(s, 4) {
        Some(m) => m,
        None => {
            return None;
        },
    };
    if s.get_char(7) != ' ' {
        return None;
    }
    let day: u8 = if s.get_char(8) == ' ' {
        let u = s.get_char(9) as u32;
        if u < 49 || u > 57 {
            return None;
        }
        (u - 48) as u8
    } else {
        let d = match parse_2digits(s, 8) {
            Some(d) => d,
            None => {
                return None;
            },
        };
        if d < 1 || d > 31 {
            return None;
        }
        d
    };
    if s.get_char(10) != ' ' {
        return None;
    }
    let (hour, minute, second) = match parse_hms(s, 11) {
        Some(t) => t,
        None => {
            return None;
        },
    };
    if s.get_char(19) != ' ' {
        return None;
    }
    let year = match parse_4digits(s, 20) {
        Some(y) => y,
        None => {
            return None;
        },
    };
    Some(
        Timestamp {
            year,
            month,
            day,
            hour,
            minute,
            second,
            weekday: wd,
            utcoff: 0,
        },
    )
}

/// Parses an HTTP date string, trying the three accepted formats in priority
/// order — IMF-fixdate, then the obsolete RFC 850 form, then asctime — and
/// returning the timestamp of the first that matches, or `None` if none
/// does. Every returned timestamp is well-formed, with a zero UTC offset.
pub fn tm_from_str(s: &str) -> (r: Option<Timestamp>)
    ensures
        r == http_date_spec(s@),
        r matches Some(t) ==> t.wf(),
{
    if let Some(t) = parse_imf_fixdate(s) {
        return Some(t);
    }
    if let Some(t) = parse_rfc850(s) {
        return Some(t);
    }
    if let Some(t) = parse_asctime(s) {
        return Some(t);
    }
    None
}

} // verus!

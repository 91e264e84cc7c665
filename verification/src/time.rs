//! The RFC 1123 date format of HTTP: `Sun, 06 Nov 1994 08:49:37 GMT`.
//!
//! The text format is read and written here. Which calendar dates exist,
//! and what instant a date stands for, is the `chrono` crate's doing.

use vstd::prelude::*;
use vstd::string::*;
use chrono::Datelike;
use chrono::Timelike;
use crate::error::Error;
use crate::numeric::{all_digits, digits_value, is_digit};
use crate::text::{append, ascii, bytes_eq, lit};

verus! {

/// A date and time of day in UTC, to the second.
#[derive(Clone, Copy, Debug, PartialEq, Eq, Structural)]
pub struct UtcDateTime {
    pub year: i32,
    pub month: u32,
    pub day: u32,
    pub hour: u32,
    pub minute: u32,
    pub second: u32,
}

/// The instant that a calendar date and time of day in UTC stand for, as
/// `chrono` computes it: its Unix timestamp, and its day of the week
/// counted from Monday as zero. `None` where `chrono` knows no such date
/// or no such time of day.
pub uninterp spec fn utc_instant(
    year: i32,
    month: u32,
    day: u32,
    hour: u32,
    minute: u32,
    second: u32,
) -> Option<(i64, u32)>;

/// The date and time of day in UTC of a Unix timestamp, as `chrono`
/// computes it; `None` where the timestamp is out of `chrono`'s range.
pub uninterp spec fn utc_civil(secs: i64) -> Option<UtcDateTime>;

/// `chrono::NaiveDate::from_ymd_opt`, then `and_hms_opt`, and of the
/// result `and_utc().timestamp()` and `weekday().num_days_from_monday()`:
/// the Unix timestamp and the day of the week of the given date and time,
/// where both exist. The result is a function of the six numbers alone.
#[verifier::external_body]
fn chrono_instant(year: i32, month: u32, day: u32, hour: u32, minute: u32, second: u32) -> (r:
    Option<(i64, u32)>)
    ensures
        r == utc_instant(year, month, day, hour, minute, second),
{
    match chrono::NaiveDate::from_ymd_opt(year, month, day) {
        Some(date) => match date.and_hms_opt(hour, minute, second) {
            Some(time) => Some((time.and_utc().timestamp(), time.weekday().num_days_from_monday())),
            None => None,
        },
        None => None,
    }
}

/// `chrono::DateTime::from_timestamp` with no nanoseconds, then the
/// calendar fields of the result. The result is a function of the
/// timestamp alone.
#[verifier::external_body]
fn chrono_civil(secs: i64) -> (r: Option<UtcDateTime>)
    ensures
        r == utc_civil(secs),
{
    match chrono::DateTime::from_timestamp(secs, 0) {
        Some(t) => Some(
            UtcDateTime {
                year: t.year(),
                month: t.month(),
                day: t.day(),
                hour: t.hour(),
                minute: t.minute(),
                second: t.second(),
            },
        ),
        None => None,
    }
}

impl UtcDateTime {
    /// The instant that this date and time stand for: Unix timestamp and
    /// day of the week.
    pub open spec fn spec_instant(self) -> Option<(i64, u32)> {
        utc_instant(self.year, self.month, self.day, self.hour, self.minute, self.second)
    }

    /// The Unix timestamp of this date and time.
    pub open spec fn spec_timestamp(self) -> Option<i64> {
        match self.spec_instant() {
            Some((secs, _)) => Some(secs),
            None => None,
        }
    }

    /// The Unix timestamp of this date and time; `None` where the calendar
    /// has no such date or the clock no such time.
    pub fn timestamp(&self) -> (r: Option<i64>)
        ensures
            r == self.spec_timestamp(),
    {
        match chrono_instant(self.year, self.month, self.day, self.hour, self.minute, self.second) {
            Some((secs, _)) => Some(secs),
            None => None,
        }
    }

    /// The date and time of a Unix timestamp; `None` where it is out of
    /// range.
    pub fn from_timestamp(secs: i64) -> (r: Option<UtcDateTime>)
        ensures
            r == utc_civil(secs),
    {
        chrono_civil(secs)
    }
}

/// The three-letter name of a day of the week, counted from Monday as zero.
pub open spec fn weekday_name(w: u32) -> Seq<u8> {
    if w == 0 {
        ascii("Mon"@)
    } else if w == 1 {
        ascii("Tue"@)
    } else if w == 2 {
        ascii("Wed"@)
    } else if w == 3 {
        ascii("Thu"@)
    } else if w == 4 {
        ascii("Fri"@)
    } else if w == 5 {
        ascii("Sat"@)
    } else {
        ascii("Sun"@)
    }
}

/// The day of the week that a three-letter name denotes.
pub open spec fn weekday_of(name: Seq<u8>) -> Option<u32> {
    if name == ascii("Mon"@) {
        Some(0u32)
    } else if name == ascii("Tue"@) {
        Some(1u32)
    } else if name == ascii("Wed"@) {
        Some(2u32)
    } else if name == ascii("Thu"@) {
        Some(3u32)
    } else if name == ascii("Fri"@) {
        Some(4u32)
    } else if name == ascii("Sat"@) {
        Some(5u32)
    } else if name == ascii("Sun"@) {
        Some(6u32)
    } else {
        None
    }
}

/// The three-letter name of a month, counted from January as one.
pub open spec fn month_name(m: u32) -> Seq<u8> {
    if m == 1 {
        ascii("Jan"@)
    } else if m == 2 {
        ascii("Feb"@)
    } else if m == 3 {
        ascii("Mar"@)
    } else if m == 4 {
        ascii("Apr"@)
    } else if m == 5 {
        ascii("May"@)
    } else if m == 6 {
        ascii("Jun"@)
    } else if m == 7 {
        ascii("Jul"@)
    } else if m == 8 {
        ascii("Aug"@)
    } else if m == 9 {
        ascii("Sep"@)
    } else if m == 10 {
        ascii("Oct"@)
    } else if m == 11 {
        ascii("Nov"@)
    } else {
        ascii("Dec"@)
    }
}

/// The month that a three-letter name denotes.
pub open spec fn month_of(name: Seq<u8>) -> Option<u32> {
    if name == ascii("Jan"@) {
        Some(1u32)
    } else if name == ascii("Feb"@) {
        Some(2u32)
    } else if name == ascii("Mar"@) {
        Some(3u32)
    } else if name == ascii("Apr"@) {
        Some(4u32)
    } else if name == ascii("May"@) {
        Some(5u32)
    } else if name == ascii("Jun"@) {
        Some(6u32)
    } else if name == ascii("Jul"@) {
        Some(7u32)
    } else if name == ascii("Aug"@) {
        Some(8u32)
    } else if name == ascii("Sep"@) {
        Some(9u32)
    } else if name == ascii("Oct"@) {
        Some(10u32)
    } else if name == ascii("Nov"@) {
        Some(11u32)
    } else if name == ascii("Dec"@) {
        Some(12u32)
    } else {
        None
    }
}

/// Makes the texts of the day and month names known.
pub proof fn reveal_names()
    ensures
        ascii("Mon"@) == seq![77u8, 111u8, 110u8],
        ascii("Tue"@) == seq![84u8, 117u8, 101u8],
        ascii("Wed"@) == seq![87u8, 101u8, 100u8],
        ascii("Thu"@) == seq![84u8, 104u8, 117u8],
        ascii("Fri"@) == seq![70u8, 114u8, 105u8],
        ascii("Sat"@) == seq![83u8, 97u8, 116u8],
        ascii("Sun"@) == seq![83u8, 117u8, 110u8],
        ascii("Jan"@) == seq![74u8, 97u8, 110u8],
        ascii("Feb"@) == seq![70u8, 101u8, 98u8],
        ascii("Mar"@) == seq![77u8, 97u8, 114u8],
        ascii("Apr"@) == seq![65u8, 112u8, 114u8],
        ascii("May"@) == seq![77u8, 97u8, 121u8],
        ascii("Jun"@) == seq![74u8, 117u8, 110u8],
        ascii("Jul"@) == seq![74u8, 117u8, 108u8],
        ascii("Aug"@) == seq![65u8, 117u8, 103u8],
        ascii("Sep"@) == seq![83u8, 101u8, 112u8],
        ascii("Oct"@) == seq![79u8, 99u8, 116u8],
        ascii("Nov"@) == seq![78u8, 111u8, 118u8],
        ascii("Dec"@) == seq![68u8, 101u8, 99u8],
        ascii("GMT"@) == seq![71u8, 77u8, 84u8],
        is_ascii("Mon"),
        is_ascii("Tue"),
        is_ascii("Wed"),
        is_ascii("Thu"),
        is_ascii("Fri"),
        is_ascii("Sat"),
        is_ascii("Sun"),
        is_ascii("Jan"),
        is_ascii("Feb"),
        is_ascii("Mar"),
        is_ascii("Apr"),
        is_ascii("May"),
        is_ascii("Jun"),
        is_ascii("Jul"),
        is_ascii("Aug"),
        is_ascii("Sep"),
        is_ascii("Oct"),
        is_ascii("Nov"),
        is_ascii("Dec"),
        is_ascii("GMT"),
{
    reveal_strlit("Mon");
    reveal_strlit("Tue");
    reveal_strlit("Wed");
    reveal_strlit("Thu");
    reveal_strlit("Fri");
    reveal_strlit("Sat");
    reveal_strlit("Sun");
    reveal_strlit("Jan");
    reveal_strlit("Feb");
    reveal_strlit("Mar");
    reveal_strlit("Apr");
    reveal_strlit("May");
    reveal_strlit("Jun");
    reveal_strlit("Jul");
    reveal_strlit("Aug");
    reveal_strlit("Sep");
    reveal_strlit("Oct");
    reveal_strlit("Nov");
    reveal_strlit("Dec");
    reveal_strlit("GMT");
    assert(ascii("Mon"@) =~= seq![77u8, 111u8, 110u8]);
    assert(ascii("Tue"@) =~= seq![84u8, 117u8, 101u8]);
    assert(ascii("Wed"@) =~= seq![87u8, 101u8, 100u8]);
    assert(ascii("Thu"@) =~= seq![84u8, 104u8, 117u8]);
    assert(ascii("Fri"@) =~= seq![70u8, 114u8, 105u8]);
    assert(ascii("Sat"@) =~= seq![83u8, 97u8, 116u8]);
    assert(ascii("Sun"@) =~= seq![83u8, 117u8, 110u8]);
    assert(ascii("Jan"@) =~= seq![74u8, 97u8, 110u8]);
    assert(ascii("Feb"@) =~= seq![70u8, 101u8, 98u8]);
    assert(ascii("Mar"@) =~= seq![77u8, 97u8, 114u8]);
    assert(ascii("Apr"@) =~= seq![65u8, 112u8, 114u8]);
    assert(ascii("May"@) =~= seq![77u8, 97u8, 121u8]);
    assert(ascii("Jun"@) =~= seq![74u8, 117u8, 110u8]);
    assert(ascii("Jul"@) =~= seq![74u8, 117u8, 108u8]);
    assert(ascii("Aug"@) =~= seq![65u8, 117u8, 103u8]);
    assert(ascii("Sep"@) =~= seq![83u8, 101u8, 112u8]);
    assert(ascii("Oct"@) =~= seq![79u8, 99u8, 116u8]);
    assert(ascii("Nov"@) =~= seq![78u8, 111u8, 118u8]);
    assert(ascii("Dec"@) =~= seq![68u8, 101u8, 99u8]);
    assert(ascii("GMT"@) =~= seq![71u8, 77u8, 84u8]);
}

/// What reading a piece of a date leaves: the value read and the octets
/// after it, or a message.
pub type Parsed<T> = Result<(T, Seq<u8>), Seq<char>>;

/// Reads one decimal digit.
pub open spec fn spec_parse_digit(s: Seq<u8>) -> Parsed<i32> {
    if s.len() > 0 && is_digit(s[0]) {
        Ok(((s[0] - 48) as i32, s.skip(1)))
    } else {
        Err("Could not parse digit"@)
    }
}

/// Reads a number of exactly `n` decimal digits.
pub open spec fn spec_parse_digits(n: u32, s: Seq<u8>) -> Parsed<i32> {
    if s.len() >= n && all_digits(s.take(n as int)) {
        Ok((digits_value(s.take(n as int)) as i32, s.skip(n as int)))
    } else {
        Err("Could not parse digit"@)
    }
}

/// Reads the three-letter name of a day of the week.
pub open spec fn spec_parse_wkday(s: Seq<u8>) -> Parsed<u32> {
    if s.len() >= 3 && weekday_of(s.take(3)) is Some {
        Ok((weekday_of(s.take(3))->0, s.skip(3)))
    } else {
        Err("Could not parse weekday"@)
    }
}

/// Reads the three-letter name of a month.
pub open spec fn spec_parse_month(s: Seq<u8>) -> Parsed<u32> {
    if s.len() >= 3 && month_of(s.take(3)) is Some {
        Ok((month_of(s.take(3))->0, s.skip(3)))
    } else {
        Err("Could not parse month"@)
    }
}

/// Reads the octet `c`, failing with `message` on anything else.
pub open spec fn spec_expect(c: u8, message: Seq<char>, s: Seq<u8>) -> Result<
    Seq<u8>,
    Seq<char>,
> {
    if s.len() > 0 && s[0] == c {
        Ok(s.skip(1))
    } else {
        Err(message)
    }
}

/// Reads a date, `DD Mon YYYY`, as day, month and year.
pub open spec fn spec_parse_date(s: Seq<u8>) -> Parsed<(i32, u32, i32)> {
    match spec_parse_digits(2, s) {
        Err(m) => Err(m),
        Ok((day, s)) => match spec_expect(32, "Could not parse ' '"@, s) {
            Err(m) => Err(m),
            Ok(s) => match spec_parse_month(s) {
                Err(m) => Err(m),
                Ok((month, s)) => match spec_expect(32, "Could not parse ' '"@, s) {
                    Err(m) => Err(m),
                    Ok(s) => match spec_parse_digits(4, s) {
                        Err(m) => Err(m),
                        Ok((year, s)) => Ok(((day, month, year), s)),
                    },
                },
            },
        },
    }
}

/// Reads a time of day, `HH:MM:SS`, as hour, minute and second.
pub open spec fn spec_parse_time(s: Seq<u8>) -> Parsed<(i32, i32, i32)> {
    match spec_parse_digits(2, s) {
        Err(m) => Err(m),
        Ok((hour, s)) => match spec_expect(58, "Could not parse ':'"@, s) {
            Err(m) => Err(m),
            Ok(s) => match spec_parse_digits(2, s) {
                Err(m) => Err(m),
                Ok((minute, s)) => match spec_expect(58, "Could not parse ':'"@, s) {
                    Err(m) => Err(m),
                    Ok(s) => match spec_parse_digits(2, s) {
                        Err(m) => Err(m),
                        Ok((second, s)) => Ok(((hour, minute, second), s)),
                    },
                },
            },
        },
    }
}

/// What follows the date in an RFC 1123 date: a space, the time of day,
/// a space and `GMT`. Gives the date with that time.
pub open spec fn spec_parse_after_date(date: (i32, u32, i32), s: Seq<u8>) -> Result<
    UtcDateTime,
    Seq<char>,
> {
    match spec_expect(32, "Could not parse ' '"@, s) {
        Err(m) => Err(m),
        Ok(s) => match spec_parse_time(s) {
            Err(m) => Err(m),
            Ok(((hour, minute, second), s)) => match spec_expect(32, "Could not parse ' '"@, s) {
                Err(m) => Err(m),
                Ok(s) => if ascii("GMT"@).is_prefix_of(s) {
                    Ok(
                        UtcDateTime {
                            year: date.2,
                            month: date.1,
                            day: date.0 as u32,
                            hour: hour as u32,
                            minute: minute as u32,
                            second: second as u32,
                        },
                    )
                } else {
                    Err("Could not parse 'GMT'"@)
                },
            },
        },
    }
}

/// What follows the day name in an RFC 1123 date: a comma, a space, the
/// date, and what follows the date.
pub open spec fn spec_parse_after_wkday(s: Seq<u8>) -> Result<UtcDateTime, Seq<char>> {
    match spec_expect(44, "Could not parse ','"@, s) {
        Err(m) => Err(m),
        Ok(s) => match spec_expect(32, "Could not parse ' '"@, s) {
            Err(m) => Err(m),
            Ok(s) => match spec_parse_date(s) {
                Err(m) => Err(m),
                Ok((date, s)) => spec_parse_after_date(date, s),
            },
        },
    }
}

/// The fields of a date in RFC 1123 form: day name, comma, date, time and
/// `GMT`, with single spaces between them. The day name is read and not
/// held against the date; what follows `GMT` is not looked at.
pub open spec fn spec_parse_fields(s: Seq<u8>) -> Result<UtcDateTime, Seq<char>> {
    match spec_parse_wkday(s) {
        Err(m) => Err(m),
        Ok((_, s)) => spec_parse_after_wkday(s),
    }
}

/// The date and time that an RFC 1123 date denotes. It must be well formed
/// and name a date and a time that exist.
pub open spec fn spec_parse_date_1123(s: Seq<u8>) -> Result<UtcDateTime, Seq<char>> {
    match spec_parse_fields(s) {
        Err(m) => Err(m),
        Ok(t) => if t.spec_timestamp() is Some {
            Ok(t)
        } else {
            Err("Could not parse date"@)
        },
    }
}

/// Whether what was read is what should have been: the same value and the
/// same rest, or the same message.
pub open spec fn reads<T>(r: Result<(T, &[u8]), Error>, expected: Parsed<T>) -> bool {
    match expected {
        Ok((v, rest)) => r matches Ok(x) && x.0 == v && x.1@ == rest,
        Err(m) => r matches Err(e) && e@ == m,
    }
}

/// Reads one decimal digit from the front of `s`.
pub fn parse_digit(s: &[u8]) -> (r: Result<(i32, &[u8]), Error>)
    ensures
        reads(r, spec_parse_digit(s@)),
{
    if s.len() > 0 && 48 <= s[0] && s[0] <= 57 {
        Ok(((s[0] - 48) as i32, vstd::slice::slice_subrange(s, 1, s.len())))
    } else {
        Err(Error::of("Could not parse digit"))
    }
}

/// Reads a number of exactly `n` decimal digits from the front of `s`. The
/// number must fit: no more than nine digits.
pub fn parse_digits(n: u32, s: &[u8]) -> (r: Result<(i32, &[u8]), Error>)
    requires
        n <= 9,
    ensures
        reads(r, spec_parse_digits(n, s@)),
{
    let len: usize = s.len();
    if len < n as usize {
        return Err(Error::of("Could not parse digit"));
    }
    let mut running: i32 = 0;
    let mut rest: &[u8] = s;
    let mut i: u32 = 0;
    assert(s@.take(0) =~= Seq::<u8>::empty());
    while i < n
        invariant
            i <= n <= 9,
            n <= s@.len(),
            rest@ == s@.skip(i as int),
            all_digits(s@.take(i as int)),
            running == digits_value(s@.take(i as int)),
            running < pow10(i as nat),
        decreases n - i,
    {
        match parse_digit(rest) {
            Err(e) => {
                assert(!is_digit(s@.take(n as int)[i as int]));
                return Err(e);
            },
            Ok((d, after)) => {
                proof {
                    assert(s@.take(i + 1).drop_last() =~= s@.take(i as int));
                    assert(s@.take(i + 1).last() == s@[i as int]);
                    assert(after@ =~= s@.skip(i + 1));
                    lemma_pow10(i as nat);
                    lemma_pow10((i + 1) as nat);
                    assert(is_digit(s@[i as int]));
                }
                running = running * 10 + d;
                rest = after;
            },
        }
        i += 1;
    }
    Ok((running, rest))
}

/// Ten to the power of `e`.
pub open spec fn pow10(e: nat) -> nat
    decreases e,
{
    if e == 0 {
        1
    } else {
        10 * pow10((e - 1) as nat)
    }
}

/// The powers of ten up to the ninth fit a signed 32-bit number.
pub proof fn lemma_pow10(e: nat)
    requires
        e <= 9,
    ensures
        pow10(e) <= 1_000_000_000,
        pow10(e + 1) == 10 * pow10(e),
        pow10(e) >= 1,
{
    reveal_with_fuel(pow10, 11);
    assert(pow10(9) == 1_000_000_000);
    assert(e == 0 || e == 1 || e == 2 || e == 3 || e == 4 || e == 5 || e == 6 || e == 7 || e == 8
        || e == 9);
}

/// Reads the three-letter name of a day of the week from the front of `s`,
/// as its number counted from Monday as zero.
pub fn parse_wkday(s: &[u8]) -> (r: Result<(u32, &[u8]), Error>)
    ensures
        reads(r, spec_parse_wkday(s@)),
{
    proof {
        reveal_names();
    }
    if s.len() < 3 {
        return Err(Error::of("Could not parse weekday"));
    }
    let name = vstd::slice::slice_subrange(s, 0, 3);
    let rest = vstd::slice::slice_subrange(s, 3, s.len());
    if bytes_eq(name, lit("Mon")) {
        Ok((0, rest))
    } else if bytes_eq(name, lit("Tue")) {
        Ok((1, rest))
    } else if bytes_eq(name, lit("Wed")) {
        Ok((2, rest))
    } else if bytes_eq(name, lit("Thu")) {
        Ok((3, rest))
    } else if bytes_eq(name, lit("Fri")) {
        Ok((4, rest))
    } else if bytes_eq(name, lit("Sat")) {
        Ok((5, rest))
    } else if bytes_eq(name, lit("Sun")) {
        Ok((6, rest))
    } else {
        Err(Error::of("Could not parse weekday"))
    }
}

/// Reads the three-letter name of a month from the front of `s`, as its
/// number counted from January as one.
pub fn parse_month(s: &[u8]) -> (r: Result<(u32, &[u8]), Error>)
    ensures
        reads(r, spec_parse_month(s@)),
{
    proof {
        reveal_names();
    }
    if s.len() < 3 {
        return Err(Error::of("Could not parse month"));
    }
    let name = vstd::slice::slice_subrange(s, 0, 3);
    let rest = vstd::slice::slice_subrange(s, 3, s.len());
    if bytes_eq(name, lit("Jan")) {
        Ok((1, rest))
    } else if bytes_eq(name, lit("Feb")) {
        Ok((2, rest))
    } else if bytes_eq(name, lit("Mar")) {
        Ok((3, rest))
    } else if bytes_eq(name, lit("Apr")) {
        Ok((4, rest))
    } else if bytes_eq(name, lit("May")) {
        Ok((5, rest))
    } else if bytes_eq(name, lit("Jun")) {
        Ok((6, rest))
    } else if bytes_eq(name, lit("Jul")) {
        Ok((7, rest))
    } else if bytes_eq(name, lit("Aug")) {
        Ok((8, rest))
    } else if bytes_eq(name, lit("Sep")) {
        Ok((9, rest))
    } else if bytes_eq(name, lit("Oct")) {
        Ok((10, rest))
    } else if bytes_eq(name, lit("Nov")) {
        Ok((11, rest))
    } else if bytes_eq(name, lit("Dec")) {
        Ok((12, rest))
    } else {
        Err(Error::of("Could not parse month"))
    }
}

fn expect<'a>(c: u8, message: &str, s: &'a [u8]) -> (r: Result<&'a [u8], Error>)
    ensures
        match spec_expect(c, message@, s@) {
            Ok(rest) => r matches Ok(x) && x@ == rest,
            Err(m) => r matches Err(e) && e@ == m,
        },
{
    match crate::parse::discard_char(c, s) {
        Ok(rest) => Ok(rest),
        Err(_) => Err(Error::of(message)),
    }
}

/// Reads a date, `DD Mon YYYY`, from the front of `s`, as day, month and
/// year.
pub fn parse_date(s: &[u8]) -> (r: Result<((i32, u32, i32), &[u8]), Error>)
    ensures
        reads(r, spec_parse_date(s@)),
{
    let (day, s) = match parse_digits(2, s) {
        Ok(x) => x,
        Err(e) => {
            return Err(e);
        },
    };
    let s = match expect(32, "Could not parse ' '", s) {
        Ok(x) => x,
        Err(e) => {
            return Err(e);
        },
    };
    let (month, s) = match parse_month(s) {
        Ok(x) => x,
        Err(e) => {
            return Err(e);
        },
    };
    let s = match expect(32, "Could not parse ' '", s) {
        Ok(x) => x,
        Err(e) => {
            return Err(e);
        },
    };
    let (year, s) = match parse_digits(4, s) {
        Ok(x) => x,
        Err(e) => {
            return Err(e);
        },
    };
    Ok(((day, month, year), s))
}

/// Reads a time of day, `HH:MM:SS`, from the front of `s`, as hour, minute
/// and second.
pub fn parse_time(s: &[u8]) -> (r: Result<((i32, i32, i32), &[u8]), Error>)
    ensures
        reads(r, spec_parse_time(s@)),
{
    let (hour, s) = match parse_digits(2, s) {
        Ok(x) => x,
        Err(e) => {
            return Err(e);
        },
    };
    let s = match expect(58, "Could not parse ':'", s) {
        Ok(x) => x,
        Err(e) => {
            return Err(e);
        },
    };
    let (minute, s) = match parse_digits(2, s) {
        Ok(x) => x,
        Err(e) => {
            return Err(e);
        },
    };
    let s = match expect(58, "Could not parse ':'", s) {
        Ok(x) => x,
        Err(e) => {
            return Err(e);
        },
    };
    let (second, s) = match parse_digits(2, s) {
        Ok(x) => x,
        Err(e) => {
            return Err(e);
        },
    };
    Ok(((hour, minute, second), s))
}

/// A number read from digits is not negative.
pub proof fn lemma_digits_nonnegative(n: u32, s: Seq<u8>)
    requires
        n <= 9,
    ensures
        spec_parse_digits(n, s) matches Ok((v, _)) ==> 0 <= v < pow10(n as nat),
{
    if s.len() >= n && all_digits(s.take(n as int)) {
        lemma_digits_bound(s.take(n as int));
        lemma_pow10(n as nat);
    }
}

/// A string of digits denotes less than ten to the power of its length.
pub proof fn lemma_digits_bound(s: Seq<u8>)
    requires
        all_digits(s),
    ensures
        digits_value(s) < pow10(s.len()),
    decreases s.len(),
{
    if s.len() > 0 {
        lemma_digits_bound(s.drop_last());
        assert(is_digit(s.last()));
    }
}

/// Reads a date in RFC 1123 form, such as `Sun, 06 Nov 1994 08:49:37 GMT`.
/// Fails where the text is not of that form, or names a date or a time
/// that does not exist.
pub fn parse_date_1123(s: &[u8]) -> (r: Result<UtcDateTime, Error>)
    ensures
        match spec_parse_date_1123(s@) {
            Ok(t) => r matches Ok(x) && x == t,
            Err(m) => r matches Err(e) && e@ == m,
        },
{
    proof {
        reveal_names();
    }
    let (_, s) = match parse_wkday(s) {
        Ok(x) => x,
        Err(e) => {
            return Err(e);
        },
    };
    let s = match expect(44, "Could not parse ','", s) {
        Ok(x) => x,
        Err(e) => {
            return Err(e);
        },
    };
    let s = match expect(32, "Could not parse ' '", s) {
        Ok(x) => x,
        Err(e) => {
            return Err(e);
        },
    };
    let ghost date_text = s@;
    let ((day, month, year), s) = match parse_date(s) {
        Ok(x) => x,
        Err(e) => {
            return Err(e);
        },
    };
    let s = match expect(32, "Could not parse ' '", s) {
        Ok(x) => x,
        Err(e) => {
            return Err(e);
        },
    };
    let ghost time_text = s@;
    let ((hour, minute, second), s) = match parse_time(s) {
        Ok(x) => x,
        Err(e) => {
            return Err(e);
        },
    };
    let s = match expect(32, "Could not parse ' '", s) {
        Ok(x) => x,
        Err(e) => {
            return Err(e);
        },
    };
    if crate::parse::discard_string(lit("GMT"), s).is_err() {
        return Err(Error::of("Could not parse 'GMT'"));
    }
    proof {
        lemma_parts_nonnegative(date_text, time_text);
    }
    let t = UtcDateTime {
        year,
        month,
        day: day as u32,
        hour: hour as u32,
        minute: minute as u32,
        second: second as u32,
    };
    match t.timestamp() {
        Some(_) => Ok(t),
        None => Err(Error::of("Could not parse date")),
    }
}

/// The numbers of a date and of a time of day are not negative.
pub proof fn lemma_parts_nonnegative(date_text: Seq<u8>, time_text: Seq<u8>)
    ensures
        spec_parse_date(date_text) matches Ok(((day, _, year), _)) ==> 0 <= day < 100 && 0 <= year
            < 10000,
        spec_parse_time(time_text) matches Ok(((hour, minute, second), _)) ==> 0 <= hour < 100 && 0
            <= minute < 100 && 0 <= second < 100,
{
    reveal_with_fuel(pow10, 5);
    lemma_digits_nonnegative(2, date_text);
    if let Ok((_, s)) = spec_parse_digits(2, date_text) {
        if let Ok(s) = spec_expect(32, "Could not parse ' '"@, s) {
            if let Ok((_, s)) = spec_parse_month(s) {
                if let Ok(s) = spec_expect(32, "Could not parse ' '"@, s) {
                    lemma_digits_nonnegative(4, s);
                }
            }
        }
    }
    lemma_digits_nonnegative(2, time_text);
    if let Ok((_, s)) = spec_parse_digits(2, time_text) {
        if let Ok(s) = spec_expect(58, "Could not parse ':'"@, s) {
            lemma_digits_nonnegative(2, s);
            if let Ok((_, s)) = spec_parse_digits(2, s) {
                if let Ok(s) = spec_expect(58, "Could not parse ':'"@, s) {
                    lemma_digits_nonnegative(2, s);
                }
            }
        }
    }
}

/// A number below one hundred as two decimal digits.
pub open spec fn two_digits(n: nat) -> Seq<u8> {
    seq![(48 + n / 10) as u8, (48 + n % 10) as u8]
}

/// A number below ten thousand as four decimal digits.
pub open spec fn four_digits(n: nat) -> Seq<u8> {
    two_digits(n / 100) + two_digits(n % 100)
}

/// The RFC 1123 text of a date and time that falls on the given day of
/// the week.
pub open spec fn text_1123(t: UtcDateTime, weekday: u32) -> Seq<u8> {
    weekday_name(weekday) + seq![44u8, 32u8] + two_digits(t.day as nat) + seq![32u8] + month_name(
        t.month,
    ) + seq![32u8] + four_digits(t.year as nat) + seq![32u8] + two_digits(t.hour as nat)
        + seq![58u8] + two_digits(t.minute as nat) + seq![58u8] + two_digits(t.second as nat)
        + seq![32u8] + ascii("GMT"@)
}

/// Whether the fields fit the columns of the format.
pub open spec fn writable(t: UtcDateTime) -> bool {
    &&& 0 <= t.year <= 9999
    &&& 1 <= t.month <= 12
    &&& t.day < 100
    &&& t.hour < 100
    &&& t.minute < 100
    &&& t.second < 100
}

/// The RFC 1123 text of a date and time: with the day of the week that the
/// calendar gives the date, where date and time exist and the fields fit
/// the format.
pub open spec fn spec_to_1123(t: UtcDateTime) -> Option<Seq<u8>> {
    match t.spec_instant() {
        Some((_, w)) => if w < 7 && writable(t) {
            Some(text_1123(t, w))
        } else {
            None
        },
        None => None,
    }
}

fn push_two_digits(out: &mut Vec<u8>, n: u32)
    requires
        n < 100,
    ensures
        final(out)@ == old(out)@ + two_digits(n as nat),
{
    out.push(48 + (n / 10) as u8);
    out.push(48 + (n % 10) as u8);
    assert(out@ =~= old(out)@ + two_digits(n as nat));
}

fn weekday_text(w: u32) -> (r: &'static [u8])
    requires
        w < 7,
    ensures
        r@ == weekday_name(w),
{
    proof {
        reveal_names();
    }
    if w == 0 {
        lit("Mon")
    } else if w == 1 {
        lit("Tue")
    } else if w == 2 {
        lit("Wed")
    } else if w == 3 {
        lit("Thu")
    } else if w == 4 {
        lit("Fri")
    } else if w == 5 {
        lit("Sat")
    } else {
        lit("Sun")
    }
}

fn month_text(m: u32) -> (r: &'static [u8])
    requires
        1 <= m <= 12,
    ensures
        r@ == month_name(m),
{
    proof {
        reveal_names();
    }
    if m == 1 {
        lit("Jan")
    } else if m == 2 {
        lit("Feb")
    } else if m == 3 {
        lit("Mar")
    } else if m == 4 {
        lit("Apr")
    } else if m == 5 {
        lit("May")
    } else if m == 6 {
        lit("Jun")
    } else if m == 7 {
        lit("Jul")
    } else if m == 8 {
        lit("Aug")
    } else if m == 9 {
        lit("Sep")
    } else if m == 10 {
        lit("Oct")
    } else if m == 11 {
        lit("Nov")
    } else {
        lit("Dec")
    }
}

/// Writes a date and time in RFC 1123 form. `None` where the calendar has
/// no such date or the clock no such time, or a field does not fit the
/// format (a year after 9999).
pub fn to_1123(t: &UtcDateTime) -> (r: Option<Vec<u8>>)
    ensures
        r is Some <==> spec_to_1123(*t) is Some,
        r matches Some(text) ==> spec_to_1123(*t) == Some(text@),
{
    let w = match chrono_instant(t.year, t.month, t.day, t.hour, t.minute, t.second) {
        Some((_, w)) => w,
        None => {
            return None;
        },
    };
    if !(w < 7 && 0 <= t.year && t.year <= 9999 && 1 <= t.month && t.month <= 12 && t.day < 100
        && t.hour < 100 && t.minute < 100 && t.second < 100) {
        return None;
    }
    proof {
        reveal_names();
    }
    let year: u32 = t.year as u32;
    let mut out: Vec<u8> = Vec::new();
    append(&mut out, weekday_text(w));
    out.push(44);
    out.push(32);
    push_two_digits(&mut out, t.day);
    out.push(32);
    append(&mut out, month_text(t.month));
    out.push(32);
    push_two_digits(&mut out, year / 100);
    push_two_digits(&mut out, year % 100);
    out.push(32);
    push_two_digits(&mut out, t.hour);
    out.push(58);
    push_two_digits(&mut out, t.minute);
    out.push(58);
    push_two_digits(&mut out, t.second);
    out.push(32);
    append(&mut out, lit("GMT"));
    assert(out@ =~= text_1123(*t, w));
    Some(out)
}

/// The RFC 1123 text of a Unix timestamp, where it has one.
pub open spec fn spec_date_1123(secs: i64) -> Option<Seq<u8>> {
    match utc_civil(secs) {
        Some(t) => spec_to_1123(t),
        None => None,
    }
}

/// Writes the instant of a Unix timestamp in RFC 1123 form. `None` where
/// the instant is out of the calendar's range or past the year 9999.
pub fn date_1123(secs: i64) -> (r: Option<Vec<u8>>)
    ensures
        r is Some <==> spec_date_1123(secs) is Some,
        r matches Some(text) ==> spec_date_1123(secs) == Some(text@),
{
    match UtcDateTime::from_timestamp(secs) {
        Some(t) => to_1123(&t),
        None => None,
    }
}

/// The text of the `Date` header at the instant `now`, a Unix timestamp.
pub fn now_1123(now: i64) -> (r: Option<Vec<u8>>)
    ensures
        r is Some <==> spec_date_1123(now) is Some,
        r matches Some(text) ==> spec_date_1123(now) == Some(text@),
{
    date_1123(now)
}

/// Two digits read back as the number they were written from.
pub proof fn lemma_two_digits(n: nat, rest: Seq<u8>)
    requires
        n < 100,
    ensures
        spec_parse_digits(2, two_digits(n) + rest) == Ok::<(i32, Seq<u8>), Seq<char>>(
            (n as i32, rest),
        ),
{
    let s = two_digits(n) + rest;
    assert(s.take(2) =~= two_digits(n));
    assert(s.skip(2) =~= rest);
    let d = two_digits(n);
    assert(d.drop_last() =~= seq![(48 + n / 10) as u8]);
    assert(d.drop_last().drop_last() =~= Seq::<u8>::empty());
    reveal_with_fuel(digits_value, 3);
    assert(digits_value(d) == n);
}

/// Four digits read back as the number they were written from.
pub proof fn lemma_four_digits(n: nat, rest: Seq<u8>)
    requires
        n < 10000,
    ensures
        spec_parse_digits(4, four_digits(n) + rest) == Ok::<(i32, Seq<u8>), Seq<char>>(
            (n as i32, rest),
        ),
{
    let s = four_digits(n) + rest;
    let d = four_digits(n);
    assert(s.take(4) =~= d);
    assert(s.skip(4) =~= rest);
    let a = n / 100;
    let b = n % 100;
    assert(d =~= seq![
        (48 + a / 10) as u8,
        (48 + a % 10) as u8,
        (48 + b / 10) as u8,
        (48 + b % 10) as u8,
    ]);
    let d3 = d.drop_last();
    let d2 = d3.drop_last();
    let d1 = d2.drop_last();
    assert(d3 =~= seq![(48 + a / 10) as u8, (48 + a % 10) as u8, (48 + b / 10) as u8]);
    assert(d2 =~= seq![(48 + a / 10) as u8, (48 + a % 10) as u8]);
    assert(d1 =~= seq![(48 + a / 10) as u8]);
    assert(d1.drop_last() =~= Seq::<u8>::empty());
    assert(digits_value(d1.drop_last()) == 0);
    assert(digits_value(d1) == a / 10);
    assert(digits_value(d2) == (a / 10) * 10 + a % 10);
    assert(digits_value(d3) == a * 10 + b / 10);
    assert(digits_value(d) == (a * 10 + b / 10) * 10 + b % 10);
    assert(digits_value(d) == n);
}

/// The name of a day of the week denotes that day.
pub proof fn lemma_weekday_name(w: u32, rest: Seq<u8>)
    requires
        w < 7,
    ensures
        spec_parse_wkday(weekday_name(w) + rest) == Ok::<(u32, Seq<u8>), Seq<char>>((w, rest)),
{
    reveal_names();
    let n = weekday_name(w);
    let s = n + rest;
    assert(s.take(3) =~= n);
    assert(s.skip(3) =~= rest);
    assert(n[0] != 77 ==> n != ascii("Mon"@));
    assert(n[1] != 117 ==> n != ascii("Tue"@));
    assert(n[0] != 87 ==> n != ascii("Wed"@));
    assert(n[1] != 104 ==> n != ascii("Thu"@));
    assert(n[0] != 70 ==> n != ascii("Fri"@));
    assert(n[1] != 97 ==> n != ascii("Sat"@));
    assert(seq![84u8, 104u8, 117u8][2] != 101);
    assert(n[2] != 101 ==> n != ascii("Tue"@));
}

/// The name of a month denotes that month.
pub proof fn lemma_month_name(m: u32, rest: Seq<u8>)
    requires
        1 <= m <= 12,
    ensures
        spec_parse_month(month_name(m) + rest) == Ok::<(u32, Seq<u8>), Seq<char>>((m, rest)),
{
    reveal_names();
    let n = month_name(m);
    let s = n + rest;
    assert(s.take(3) =~= n);
    assert(s.skip(3) =~= rest);
    let key = n[0] as int * 65536 + n[1] as int * 256 + n[2] as int;
    assert(forall|o: Seq<u8>|
        o.len() == 3 && #[trigger] (o[0] as int * 65536 + o[1] as int * 256 + o[2] as int) != key
            ==> o != n);
    assert(ascii("Jan"@)[0] as int * 65536 + ascii("Jan"@)[1] as int * 256 + ascii("Jan"@)[2] as int
        == 74 * 65536 + 97 * 256 + 110);
    assert(ascii("Feb"@)[0] as int * 65536 + ascii("Feb"@)[1] as int * 256 + ascii("Feb"@)[2] as int
        == 70 * 65536 + 101 * 256 + 98);
    assert(ascii("Mar"@)[0] as int * 65536 + ascii("Mar"@)[1] as int * 256 + ascii("Mar"@)[2] as int
        == 77 * 65536 + 97 * 256 + 114);
    assert(ascii("Apr"@)[0] as int * 65536 + ascii("Apr"@)[1] as int * 256 + ascii("Apr"@)[2] as int
        == 65 * 65536 + 112 * 256 + 114);
    assert(ascii("May"@)[0] as int * 65536 + ascii("May"@)[1] as int * 256 + ascii("May"@)[2] as int
        == 77 * 65536 + 97 * 256 + 121);
    assert(ascii("Jun"@)[0] as int * 65536 + ascii("Jun"@)[1] as int * 256 + ascii("Jun"@)[2] as int
        == 74 * 65536 + 117 * 256 + 110);
    assert(ascii("Jul"@)[0] as int * 65536 + ascii("Jul"@)[1] as int * 256 + ascii("Jul"@)[2] as int
        == 74 * 65536 + 117 * 256 + 108);
    assert(ascii("Aug"@)[0] as int * 65536 + ascii("Aug"@)[1] as int * 256 + ascii("Aug"@)[2] as int
        == 65 * 65536 + 117 * 256 + 103);
    assert(ascii("Sep"@)[0] as int * 65536 + ascii("Sep"@)[1] as int * 256 + ascii("Sep"@)[2] as int
        == 83 * 65536 + 101 * 256 + 112);
    assert(ascii("Oct"@)[0] as int * 65536 + ascii("Oct"@)[1] as int * 256 + ascii("Oct"@)[2] as int
        == 79 * 65536 + 99 * 256 + 116);
    assert(ascii("Nov"@)[0] as int * 65536 + ascii("Nov"@)[1] as int * 256 + ascii("Nov"@)[2] as int
        == 78 * 65536 + 111 * 256 + 118);
    assert(ascii("Dec"@)[0] as int * 65536 + ascii("Dec"@)[1] as int * 256 + ascii("Dec"@)[2] as int
        == 68 * 65536 + 101 * 256 + 99);
}

/// A date is read back as the day, month and year it was written from.
pub proof fn lemma_date_part(day: u32, month: u32, year: i32, rest: Seq<u8>)
    requires
        day < 100,
        1 <= month <= 12,
        0 <= year <= 9999,
    ensures
        spec_parse_date(
            two_digits(day as nat) + (seq![32u8] + (month_name(month) + (seq![32u8] + (four_digits(
                year as nat,
            ) + rest)))),
        ) == Ok::<((i32, u32, i32), Seq<u8>), Seq<char>>(((day as i32, month, year), rest)),
{
    let year_on = four_digits(year as nat) + rest;
    let month_end = seq![32u8] + year_on;
    let month_on = month_name(month) + month_end;
    let day_end = seq![32u8] + month_on;
    lemma_two_digits(day as nat, day_end);
    assert(day_end.skip(1) =~= month_on);
    lemma_month_name(month, month_end);
    assert(month_end.skip(1) =~= year_on);
    lemma_four_digits(year as nat, rest);
}

/// A time of day is read back as the hour, minute and second it was
/// written from.
pub proof fn lemma_time_part(hour: u32, minute: u32, second: u32, rest: Seq<u8>)
    requires
        hour < 100,
        minute < 100,
        second < 100,
    ensures
        spec_parse_time(
            two_digits(hour as nat) + (seq![58u8] + (two_digits(minute as nat) + (seq![58u8] + (
            two_digits(second as nat) + rest)))),
        ) == Ok::<((i32, i32, i32), Seq<u8>), Seq<char>>(
            ((hour as i32, minute as i32, second as i32), rest),
        ),
{
    let second_on = two_digits(second as nat) + rest;
    let minute_end = seq![58u8] + second_on;
    let minute_on = two_digits(minute as nat) + minute_end;
    let hour_end = seq![58u8] + minute_on;
    lemma_two_digits(hour as nat, hour_end);
    assert(hour_end.skip(1) =~= minute_on);
    lemma_two_digits(minute as nat, minute_end);
    assert(minute_end.skip(1) =~= second_on);
    lemma_two_digits(second as nat, rest);
}

/// What follows the day name in the text of a date and time.
pub open spec fn after_weekday(t: UtcDateTime) -> Seq<u8> {
    seq![44u8] + (seq![32u8] + (two_digits(t.day as nat) + (seq![32u8] + (month_name(t.month) + (
    seq![32u8] + (four_digits(t.year as nat) + after_date(t)))))))
}

/// What follows the date in the text of a date and time.
pub open spec fn after_date(t: UtcDateTime) -> Seq<u8> {
    seq![32u8] + (two_digits(t.hour as nat) + (seq![58u8] + (two_digits(t.minute as nat) + (
    seq![58u8] + (two_digits(t.second as nat) + (seq![32u8] + ascii("GMT"@)))))))
}

/// The text of a date and time is the day name followed by the rest.
pub proof fn lemma_text_shape(t: UtcDateTime, w: u32)
    ensures
        text_1123(t, w) == weekday_name(w) + after_weekday(t),
{
    assert(text_1123(t, w) =~= weekday_name(w) + after_weekday(t));
}

/// What follows the date is read as the time of day and `GMT`.
pub proof fn lemma_read_after_date(t: UtcDateTime)
    requires
        writable(t),
    ensures
        spec_parse_after_date((t.day as i32, t.month, t.year), after_date(t)) == Ok::<
            UtcDateTime,
            Seq<char>,
        >(t),
{
    let zone = ascii("GMT"@);
    let time_end = seq![32u8] + zone;
    let time_text = two_digits(t.hour as nat) + (seq![58u8] + (two_digits(t.minute as nat) + (
    seq![58u8] + (two_digits(t.second as nat) + time_end))));
    assert(after_date(t).skip(1) =~= time_text);
    lemma_time_part(t.hour, t.minute, t.second, time_end);
    assert(time_end.skip(1) =~= zone);
    assert(zone.is_prefix_of(zone));
}

/// What follows the day name is read as the date and the time of day.
pub proof fn lemma_read_after_weekday(t: UtcDateTime)
    requires
        writable(t),
    ensures
        spec_parse_after_wkday(after_weekday(t)) == Ok::<UtcDateTime, Seq<char>>(t),
{
    let date_text = two_digits(t.day as nat) + (seq![32u8] + (month_name(t.month) + (seq![32u8] + (
    four_digits(t.year as nat) + after_date(t)))));
    let comma_end = seq![32u8] + date_text;
    assert(after_weekday(t).skip(1) =~= comma_end);
    assert(comma_end.skip(1) =~= date_text);
    lemma_date_part(t.day, t.month, t.year, after_date(t));
    lemma_read_after_date(t);
}

/// Reading what was written gives back the date and time: whatever text
/// `to_1123` writes for a date and time, `parse_date_1123` reads as that
/// same date and time.
pub proof fn lemma_date_roundtrip(t: UtcDateTime)
    ensures
        spec_to_1123(t) matches Some(text) ==> spec_parse_date_1123(text) == Ok::<
            UtcDateTime,
            Seq<char>,
        >(t),
{
    if spec_to_1123(t) is Some {
        let w = match t.spec_instant() {
            Some((_, w)) => w,
            None => 0u32,
        };
        lemma_text_shape(t, w);
        lemma_weekday_name(w, after_weekday(t));
        lemma_read_after_weekday(t);
    }
}

} // verus!

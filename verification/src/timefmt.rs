//! Points in time as the session logs write them, and the short forms in
//! which list rows show them.

use crate::text::{decimal, decimal_chars, push_all, string_of, two_digit_chars, two_digits};
use vstd::prelude::*;

verus! {

/// A month of the year.
#[derive(Clone, Copy, Debug, PartialEq, Eq)]
pub enum Month {
    January,
    February,
    March,
    April,
    May,
    June,
    July,
    August,
    September,
    October,
    November,
    December,
}

/// What a parsed date and time holds, as plain numbers: the instant (seconds
/// since the Unix epoch and the nanoseconds within that second) and the
/// calendar fields in the offset that the text names.
#[derive(Clone, Copy, Debug, PartialEq, Eq)]
pub struct TimeParts {
    pub unix_seconds: i64,
    pub nanosecond: u32,
    pub month: u8,
    pub day: u8,
    pub hour: u8,
    pub minute: u8,
}

/// A point in time with the calendar fields that a list row shows.
#[derive(Clone, Copy, Debug, PartialEq, Eq)]
pub struct Timestamp {
    pub unix_seconds: i64,
    pub nanosecond: u32,
    pub month: Month,
    pub day: u8,
    pub hour: u8,
    pub minute: u8,
}

/// What an RFC 3339 text parses to, if it parses.
pub uninterp spec fn rfc3339_parts(s: Seq<char>) -> Option<TimeParts>;

/// `time::OffsetDateTime::parse` with the `Rfc3339` format: `None` where the
/// text does not parse, else the fields of the parsed value, read through its
/// getters `unix_timestamp`, `nanosecond`, `month`, `day`, `hour`, `minute`.
#[verifier::external_body]
fn parse_parts(s: &str) -> (r: Option<TimeParts>)
    ensures
        r == rfc3339_parts(s@),
{
    let dt = time::OffsetDateTime::parse(s, &time::format_description::well_known::Rfc3339).ok()?;
    Some(TimeParts {
        unix_seconds: dt.unix_timestamp(),
        nanosecond: dt.nanosecond(),
        month: u8::from(dt.month()),
        day: dt.day(),
        hour: dt.hour(),
        minute: dt.minute(),
    })
}

/// The month with the given number, January being 1.
pub open spec fn month_of(n: u8) -> Option<Month> {
    if n == 1 {
        Some(Month::January)
    } else if n == 2 {
        Some(Month::February)
    } else if n == 3 {
        Some(Month::March)
    } else if n == 4 {
        Some(Month::April)
    } else if n == 5 {
        Some(Month::May)
    } else if n == 6 {
        Some(Month::June)
    } else if n == 7 {
        Some(Month::July)
    } else if n == 8 {
        Some(Month::August)
    } else if n == 9 {
        Some(Month::September)
    } else if n == 10 {
        Some(Month::October)
    } else if n == 11 {
        Some(Month::November)
    } else if n == 12 {
        Some(Month::December)
    } else {
        None
    }
}

/// The timestamp that the parts stand for; none where the month's number is
/// no month.
pub open spec fn timestamp_of(parts: Option<TimeParts>) -> Option<Timestamp> {
    match parts {
        None => None,
        Some(p) => match month_of(p.month) {
            None => None,
            Some(m) => Some(
                Timestamp {
                    unix_seconds: p.unix_seconds,
                    nanosecond: p.nanosecond,
                    month: m,
                    day: p.day,
                    hour: p.hour,
                    minute: p.minute,
                },
            ),
        },
    }
}

impl Month {
    /// The month with the given number, January being 1.
    pub fn from_number(n: u8) -> (r: Option<Month>)
        ensures
            r == month_of(n),
    {
        if n == 1 {
            Some(Month::January)
        } else if n == 2 {
            Some(Month::February)
        } else if n == 3 {
            Some(Month::March)
        } else if n == 4 {
            Some(Month::April)
        } else if n == 5 {
            Some(Month::May)
        } else if n == 6 {
            Some(Month::June)
        } else if n == 7 {
            Some(Month::July)
        } else if n == 8 {
            Some(Month::August)
        } else if n == 9 {
            Some(Month::September)
        } else if n == 10 {
            Some(Month::October)
        } else if n == 11 {
            Some(Month::November)
        } else if n == 12 {
            Some(Month::December)
        } else {
            None
        }
    }

    /// The three letters that stand for the month in a list row.
    pub open spec fn abbrev(self) -> Seq<char> {
        match self {
            Month::January => seq!['J', 'a', 'n'],
            Month::February => seq!['F', 'e', 'b'],
            Month::March => seq!['M', 'a', 'r'],
            Month::April => seq!['A', 'p', 'r'],
            Month::May => seq!['M', 'a', 'y'],
            Month::June => seq!['J', 'u', 'n'],
            Month::July => seq!['J', 'u', 'l'],
            Month::August => seq!['A', 'u', 'g'],
            Month::September => seq!['S', 'e', 'p'],
            Month::October => seq!['O', 'c', 't'],
            Month::November => seq!['N', 'o', 'v'],
            Month::December => seq!['D', 'e', 'c'],
        }
    }

    fn abbrev_chars(self) -> (out: Vec<char>)
        ensures
            out@ == self.abbrev(),
    {
        let (a, b, c) = match self {
            Month::January => ('J', 'a', 'n'),
            Month::February => ('F', 'e', 'b'),
            Month::March => ('M', 'a', 'r'),
            Month::April => ('A', 'p', 'r'),
            Month::May => ('M', 'a', 'y'),
            Month::June => ('J', 'u', 'n'),
            Month::July => ('J', 'u', 'l'),
            Month::August => ('A', 'u', 'g'),
            Month::September => ('S', 'e', 'p'),
            Month::October => ('O', 'c', 't'),
            Month::November => ('N', 'o', 'v'),
            Month::December => ('D', 'e', 'c'),
        };
        let mut out: Vec<char> = Vec::new();
        out.push(a);
        out.push(b);
        out.push(c);
        assert(out@ == seq![a, b, c]);
        out
    }
}

/// Parses a date and time in RFC 3339 form, such as
/// `2026-01-19T15:21:26.203Z`. `None` where the text is no such date.
pub fn parse_rfc3339(s: &str) -> (r: Option<Timestamp>)
    ensures
        r == timestamp_of(rfc3339_parts(s@)),
{
    match parse_parts(s) {
        None => None,
        Some(p) => match Month::from_number(p.month) {
            None => None,
            Some(m) => Some(
                Timestamp {
                    unix_seconds: p.unix_seconds,
                    nanosecond: p.nanosecond,
                    month: m,
                    day: p.day,
                    hour: p.hour,
                    minute: p.minute,
                },
            ),
        },
    }
}

/// The short form of a timestamp: month, day, hour and minute, as in
/// `Jan20 00:06`.
pub open spec fn short_text(dt: Timestamp) -> Seq<char> {
    dt.month.abbrev() + two_digits(dt.day as nat) + seq![' '] + two_digits(dt.hour as nat)
        + seq![':'] + two_digits(dt.minute as nat)
}

fn short_chars(dt: Timestamp) -> (out: Vec<char>)
    ensures
        out@ == short_text(dt),
{
    let mut out = dt.month.abbrev_chars();
    let d = two_digit_chars(dt.day as u64);
    push_all(&mut out, &d);
    out.push(' ');
    let h = two_digit_chars(dt.hour as u64);
    push_all(&mut out, &h);
    out.push(':');
    let m = two_digit_chars(dt.minute as u64);
    push_all(&mut out, &m);
    out
}

/// The short form of a timestamp: month, day, hour and minute, as in
/// `Jan20 00:06`.
pub fn format_short(dt: Timestamp) -> (r: String)
    ensures
        r@ == short_text(dt),
{
    string_of(&short_chars(dt))
}

/// The whole seconds from `dt` to `now`; zero where `dt` is not in the past.
pub open spec fn elapsed_seconds(dt: Timestamp, now: Timestamp) -> int {
    let ns = (now.unix_seconds - dt.unix_seconds) * 1_000_000_000 + (now.nanosecond
        - dt.nanosecond);
    if ns <= 0 {
        0
    } else {
        ns / 1_000_000_000
    }
}

/// An age of `secs` seconds in its coarsest fitting unit: `now` below a
/// minute, then minutes below an hour, hours below a day, days below two
/// weeks, weeks below 52 of them, and years of 52 weeks.
pub open spec fn age_of_seconds(secs: int) -> Seq<char> {
    let mins = secs / 60;
    let hours = mins / 60;
    let days = hours / 24;
    let weeks = days / 7;
    let years = weeks / 52;
    if secs < 60 {
        seq!['n', 'o', 'w']
    } else if mins < 60 {
        decimal(mins as nat).push('m')
    } else if hours < 24 {
        decimal(hours as nat).push('h')
    } else if days < 14 {
        decimal(days as nat).push('d')
    } else if weeks < 52 {
        decimal(weeks as nat).push('w')
    } else {
        decimal(years as nat).push('y')
    }
}

/// The age of `dt` at the time `now`.
pub open spec fn age_text(dt: Timestamp, now: Timestamp) -> Seq<char> {
    age_of_seconds(elapsed_seconds(dt, now))
}

fn age_chars(dt: Timestamp, now: Timestamp) -> (out: Vec<char>)
    ensures
        out@ == age_text(dt, now),
{
    let ds: i128 = now.unix_seconds as i128 - dt.unix_seconds as i128;
    let dn: i128 = now.nanosecond as i128 - dt.nanosecond as i128;
    let ns: i128 = ds * 1_000_000_000 + dn;
    let secs: i128 = if ns <= 0 { 0 } else { ns / 1_000_000_000 };
    assert(secs == elapsed_seconds(dt, now));
    if secs < 60 {
        let mut out: Vec<char> = Vec::new();
        out.push('n');
        out.push('o');
        out.push('w');
        assert(out@ == seq!['n', 'o', 'w']);
        return out;
    }
    let mins: i128 = secs / 60;
    let hours: i128 = mins / 60;
    let days: i128 = hours / 24;
    let weeks: i128 = days / 7;
    let years: i128 = weeks / 52;
    assert(mins < 0x1_0000_0000_0000_0000);
    let (n, unit): (i128, char) = if mins < 60 {
        (mins, 'm')
    } else if hours < 24 {
        (hours, 'h')
    } else if days < 14 {
        (days, 'd')
    } else if weeks < 52 {
        (weeks, 'w')
    } else {
        (years, 'y')
    };
    let mut out = decimal_chars(n as u64);
    out.push(unit);
    out
}

/// The age of `dt` at the time `now`, in its coarsest fitting unit, as in
/// `now`, `5m`, `3h`, `9d`, `20w`, `2y`.
pub fn format_age(dt: Timestamp, now: Timestamp) -> (r: String)
    ensures
        r@ == age_text(dt, now),
{
    string_of(&age_chars(dt, now))
}

/// When a session was made, as a list row shows it: its age and its short
/// form, or a dash where the text is absent or no date.
pub open spec fn when_text(created_at: Option<Seq<char>>, now: Timestamp) -> Seq<char> {
    match created_at {
        None => seq!['-'],
        Some(s) => match timestamp_of(rfc3339_parts(s)) {
            None => seq!['-'],
            Some(dt) => age_text(dt, now) + seq![' '] + short_text(dt),
        },
    }
}

/// When a session was made, as a list row shows it.
pub fn when_chars(created_at: &Option<String>, now: Timestamp) -> (out: Vec<char>)
    ensures
        out@ == when_text(crate::text::opt_text(*created_at), now),
{
    let parsed = match created_at {
        None => None,
        Some(s) => parse_rfc3339(s.as_str()),
    };
    match parsed {
        None => {
            let mut out: Vec<char> = Vec::new();
            out.push('-');
            out
        },
        Some(dt) => {
            let mut out = age_chars(dt, now);
            out.push(' ');
            let s = short_chars(dt);
            push_all(&mut out, &s);
            out
        },
    }
}

} // verus!

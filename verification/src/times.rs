//! Timestamp conversion shared by the undelete backends, so recovered files keep
//! their original modification (and access) times.
//!
//! Each filesystem stores time differently:
//!
//! * ext uses 32-bit Unix seconds (UTC).
//! * NTFS uses 64-bit Windows `FILETIME` (100 ns ticks since 1601, UTC).
//! * FAT/exFAT use packed "DOS" date+time fields in **local** time; without a
//!   recorded time zone we treat them as UTC, which can be off by the machine's
//!   offset. The date is preserved exactly.

use vstd::prelude::*;

pub mod written;

use crate::numbers::{dec_value, digits_value, lemma_digits_value, number, parse_number};
use crate::text::{
    chars_of, cut, find_char, first_from, pieces, push_text, string_of, sub_chars, texts,
    trim_chars, trimmed,
};

verus! {

/// A point in time: seconds since 1970-01-01 00:00:00 UTC, and nanoseconds.
#[derive(Clone, Copy, Debug, PartialEq, Eq, Structural)]
pub struct Timestamp {
    pub secs: u64,
    pub nanos: u32,
}

impl Timestamp {
    /// Whether the point in time lies before another.
    pub open spec fn precedes(self, other: Timestamp) -> bool {
        self.secs < other.secs || (self.secs == other.secs && self.nanos < other.nanos)
    }

    /// Does the point in time lie before another?
    pub fn is_before(self, other: Timestamp) -> (r: bool)
        ensures
            r == self.precedes(other),
    {
        self.secs < other.secs || (self.secs == other.secs && self.nanos < other.nanos)
    }
}

/// Whole seconds since the Unix epoch.
pub open spec fn at(secs: int) -> Timestamp {
    Timestamp { secs: secs as u64, nanos: 0 }
}

/// Unix seconds as a timestamp. Zero means that none is recorded.
pub open spec fn unix_time(secs: int) -> Option<Timestamp> {
    if secs == 0 {
        None
    } else {
        Some(at(secs))
    }
}

/// 32-bit Unix seconds (ext) as a timestamp. Zero means that none is recorded.
pub fn from_unix(secs: u32) -> (r: Option<Timestamp>)
    ensures
        r == unix_time(secs as int),
{
    if secs == 0 {
        None
    } else {
        Some(Timestamp { secs: secs as u64, nanos: 0 })
    }
}

/// Seconds from 1601-01-01 to 1970-01-01.
pub const EPOCH_DIFF_SECS: u64 = 11_644_473_600;

/// The timestamp of a Windows `FILETIME`; `None` when it is zero or lies before
/// the Unix epoch.
pub open spec fn filetime(ft: int) -> Option<Timestamp> {
    if ft == 0 || ft / 10_000_000 < EPOCH_DIFF_SECS {
        None
    } else {
        Some(
            Timestamp {
                secs: (ft / 10_000_000 - EPOCH_DIFF_SECS) as u64,
                nanos: (ft % 10_000_000 * 100) as u32,
            },
        )
    }
}

/// Windows `FILETIME` (100 ns ticks since 1601-01-01 UTC) as a timestamp.
pub fn from_filetime(ft: u64) -> (r: Option<Timestamp>)
    ensures
        r == filetime(ft as int),
{
    if ft == 0 {
        return None;
    }
    let total: u64 = ft / 10_000_000;
    if total < EPOCH_DIFF_SECS {
        return None;
    }
    Some(Timestamp { secs: total - EPOCH_DIFF_SECS, nanos: (ft % 10_000_000 * 100) as u32 })
}

// ---------------------------------------------------------------------------
// The calendar

/// Whether a year of the Gregorian calendar has a leap day.
pub open spec fn leap(y: int) -> bool {
    y % 4 == 0 && (y % 100 != 0 || y % 400 == 0)
}

/// Days of a year before the first of a month.
pub open spec fn days_before_month(y: int, m: int) -> int {
    (if m <= 1 {
        0int
    } else if m == 2 {
        31
    } else if m == 3 {
        59
    } else if m == 4 {
        90
    } else if m == 5 {
        120
    } else if m == 6 {
        151
    } else if m == 7 {
        181
    } else if m == 8 {
        212
    } else if m == 9 {
        243
    } else if m == 10 {
        273
    } else if m == 11 {
        304
    } else {
        334
    }) + (if m > 2 && leap(y) {
        1int
    } else {
        0
    })
}

/// Days of a month.
pub open spec fn days_in_month(y: int, m: int) -> int {
    if m == 2 {
        if leap(y) {
            29
        } else {
            28
        }
    } else if m == 4 || m == 6 || m == 9 || m == 11 {
        30
    } else {
        31
    }
}

/// Days from the first of January of the year 1 to that of the year `y`.
pub open spec fn days_before_year(y: int) -> int {
    365 * (y - 1) + (y - 1) / 4 - (y - 1) / 100 + (y - 1) / 400
}

/// Days from 1970-01-01 to a date of the proleptic Gregorian calendar.
pub open spec fn civil_days(y: int, m: int, d: int) -> int {
    days_before_year(y) + days_before_month(y, m) + d - 1 - 719_162
}

/// The calendar counts days: 1970-01-01 is day 0, and the day after the last of a
/// month is the first of the next.
pub proof fn lemma_calendar(y: int, m: int)
    requires
        1 <= m <= 12,
    ensures
        civil_days(1970, 1, 1) == 0,
        m < 12 ==> civil_days(y, m + 1, 1) == civil_days(y, m, days_in_month(y, m)) + 1,
        civil_days(y + 1, 1, 1) == civil_days(y, 12, 31) + 1,
{
    lemma_leap_days(y);
}

/// The quotients by 4, 100 and 400 count the leap years.
proof fn lemma_leap_days(y: int)
    ensures
        y / 4 - y / 100 + y / 400 - ((y - 1) / 4 - (y - 1) / 100 + (y - 1) / 400) == if leap(y) {
            1int
        } else {
            0
        },
{
    assert(y / 4 - (y - 1) / 4 == if y % 4 == 0 {
        1int
    } else {
        0
    });
    assert(y / 100 - (y - 1) / 100 == if y % 100 == 0 {
        1int
    } else {
        0
    });
    assert(y / 400 - (y - 1) / 400 == if y % 400 == 0 {
        1int
    } else {
        0
    });
}

/// Years that the day count accepts.
pub const MAX_YEAR: i64 = 300_000_000_000;

/// Days from 1970-01-01 to a civil date, counted in eras of 400 years that begin
/// in March.
fn days_from_civil(y: i64, m: i64, d: i64) -> (r: i64)
    requires
        -MAX_YEAR <= y <= MAX_YEAR,
        1 <= m <= 12,
        1 <= d <= 31,
    ensures
        r == civil_days(y as int, m as int, d as int),
        -110_000_000_000_000 <= r <= 110_000_000_000_000,
{
    let z: i64 = if m <= 2 {
        y - 1
    } else {
        y
    };
    let w: u64 = (z + 400 * MAX_YEAR) as u64;
    let era: i64 = (w / 400) as i64 - MAX_YEAR;
    let yoe: i64 = (w % 400) as i64;
    let mp: i64 = if m > 2 {
        m - 3
    } else {
        m + 9
    };
    let doy: i64 = ((153 * (mp as u64) + 2) / 5) as i64 + d - 1;
    let doe: i64 = yoe * 365 + (yoe as u64 / 4) as i64 - (yoe as u64 / 100) as i64 + doy;
    assert(z == 400 * era + yoe);
    proof {
        lemma_era(era as int, yoe as int);
        lemma_leap_days(y as int);
    }
    era * 146_097 + doe - 719_468
}

/// Leap days of whole eras and the years after them.
proof fn lemma_era(era: int, yoe: int)
    requires
        0 <= yoe < 400,
    ensures
        (400 * era + yoe) / 4 == 100 * era + yoe / 4,
        (400 * era + yoe) / 100 == 4 * era + yoe / 100,
        (400 * era + yoe) / 400 == era,
{
}

// ---------------------------------------------------------------------------
// Packed dates

/// The timestamp of a packed DOS date and time, taken as UTC; `None` when no date
/// is recorded or its month or day does not exist.
///
/// `date`: bits 0-4 day, 5-8 month, 9-15 year since 1980.
/// `time`: bits 0-4 seconds/2, 5-10 minute, 11-15 hour.
pub open spec fn dos_time(date: int, time: int) -> Option<Timestamp> {
    let day = date % 32;
    let month = date / 32 % 16;
    let year = 1980 + date / 512;
    if date == 0 || !(1 <= month <= 12) || day == 0 {
        None
    } else {
        Some(
            at(
                civil_days(year, month, day) * 86_400 + time / 2048 * 3600 + time / 32 % 64 * 60
                    + time % 32 * 2,
            ),
        )
    }
}

/// Dates from 1980 on lie after the Unix epoch.
proof fn lemma_since_1980(y: int, m: int, d: int)
    requires
        y >= 1980,
        1 <= m <= 12,
        1 <= d,
    ensures
        civil_days(y, m, d) >= 3652,
{
}

/// Packed DOS date+time (FAT) as a timestamp, treated as UTC.
pub fn from_dos(date: u16, time: u16) -> (r: Option<Timestamp>)
    ensures
        r == dos_time(date as int, time as int),
{
    if date == 0 {
        return None;
    }
    let day: i64 = (date % 32) as i64;
    let month: i64 = (date / 32 % 16) as i64;
    let year: i64 = 1980 + (date / 512) as i64;
    let sec: i64 = (time % 32 * 2) as i64;
    let min: i64 = (time / 32 % 64) as i64;
    let hour: i64 = (time / 2048) as i64;
    if month < 1 || month > 12 || day < 1 {
        return None;
    }
    proof {
        lemma_since_1980(year as int, month as int, day as int);
    }
    let days: i64 = days_from_civil(year, month, day);
    let secs: i64 = days * 86_400 + hour * 3600 + min * 60 + sec;
    Some(Timestamp { secs: secs as u64, nanos: 0 })
}

/// exFAT packs the date in the high 16 bits and the time in the low 16 bits.
pub fn from_exfat(ts: u32) -> (r: Option<Timestamp>)
    ensures
        r == dos_time(ts as int / 0x1_0000, ts as int % 0x1_0000),
{
    if ts == 0 {
        return None;
    }
    from_dos((ts / 0x1_0000) as u16, (ts % 0x1_0000) as u16)
}

// ---------------------------------------------------------------------------
// Dates as text

/// What is wrong with the text of a date.
#[derive(Clone, Copy, Debug, PartialEq, Eq, Structural)]
pub enum DateFault {
    Year,
    Month,
    Day,
    Date,
    Hour,
    Minute,
    Time,
    BeforeEpoch,
    OutOfRange,
}

/// The signed 64-bit number that a text spells: an optional sign, then at least
/// one decimal digit.
pub open spec fn signed(s: Seq<char>) -> Option<i64> {
    if s.len() > 1 && s[0] == '-' {
        match digits_value(s.drop_first()) {
            Some(v) => if v <= 0x8000_0000_0000_0000 {
                Some((0 - v) as i64)
            } else {
                None
            },
            None => None,
        }
    } else {
        match number(s) {
            Some(v) => if v <= i64::MAX {
                Some(v as i64)
            } else {
                None
            },
            None => None,
        }
    }
}

fn parse_signed(s: &Vec<char>) -> (r: Option<i64>)
    ensures
        r == signed(s@),
{
    if s.len() > 1 && s[0] == '-' {
        let rest = sub_chars(s, 1, s.len());
        assert(rest@ =~= s@.drop_first());
        if rest[0] == '+' {
            proof {
                lemma_plus_no_digits(rest@);
            }
            return None;
        }
        proof {
            if digits_value(rest@) is Some {
                lemma_digits_value(rest@, 0);
            }
        }
        match parse_number(&rest) {
            Some(v) => if v <= 0x7FFF_FFFF_FFFF_FFFF {
                Some(0 - v as i64)
            } else if v == 0x8000_0000_0000_0000 {
                Some(i64::MIN)
            } else {
                None
            },
            None => None,
        }
    } else {
        match parse_number(s) {
            Some(v) => if v <= 0x7FFF_FFFF_FFFF_FFFF {
                Some(v as i64)
            } else {
                None
            },
            None => None,
        }
    }
}

/// A sign is not a digit.
proof fn lemma_plus_no_digits(s: Seq<char>)
    requires
        s.len() > 0,
        s[0] == '+',
    ensures
        digits_value(s) is None,
    decreases s.len(),
{
    if s.len() > 1 {
        assert(s.drop_last()[0] == '+');
        lemma_plus_no_digits(s.drop_last());
    } else {
        assert(s.last() == '+');
        assert(dec_value('+') is None);
    }
}

/// The number in a field.
pub open spec fn field(f: Seq<Seq<char>>, i: int) -> Option<i64> {
    if i < f.len() {
        signed(f[i])
    } else {
        None
    }
}

/// The seconds into a day that `HH:MM[:SS]` gives.
pub open spec fn clock(t: Seq<char>) -> Result<int, DateFault> {
    let f = pieces(t, ':', 4);
    let sec = if f.len() > 2 {
        match signed(f[2]) {
            Some(v) => v as int,
            None => -1,
        }
    } else {
        0
    };
    match (field(f, 0), field(f, 1)) {
        (None, _) => Err(DateFault::Hour),
        (_, None) => Err(DateFault::Minute),
        (Some(h), Some(m)) => if f.len() > 3 || !(0 <= h <= 23) || !(0 <= m <= 59) || !(0 <= sec
            <= 60) {
            Err(DateFault::Time)
        } else {
            Ok(h * 3600 + m * 60 + sec)
        },
    }
}

/// The days since 1970-01-01 that `YYYY-MM-DD` gives.
pub open spec fn day(t: Seq<char>) -> Result<int, DateFault> {
    let f = pieces(t, '-', 4);
    match (field(f, 0), field(f, 1), field(f, 2)) {
        (None, _, _) => Err(DateFault::Year),
        (_, None, _) => Err(DateFault::Month),
        (_, _, None) => Err(DateFault::Day),
        (Some(y), Some(m), Some(d)) => if f.len() > 3 || !(1 <= m <= 12) || !(1 <= d <= 31) {
            Err(DateFault::Date)
        } else {
            Ok(civil_days(y as int, m as int, d as int))
        },
    }
}

/// Where the time of day is set off from the date: the first `T` or space.
pub open spec fn time_mark(s: Seq<char>) -> int {
    let t = first_from(s, 'T', 0);
    let b = first_from(s, ' ', 0);
    if t < b {
        t
    } else {
        b
    }
}

/// The seconds since the Unix epoch that a date, or a date and time, gives.
pub open spec fn moment(text: Seq<char>) -> Result<int, DateFault> {
    let s = trimmed(text);
    let k = time_mark(s);
    let date = day(s.take(k));
    let time = if k < s.len() {
        clock(s.skip(k + 1))
    } else {
        Ok(0)
    };
    match (date, time) {
        (Err(e), _) => Err(e),
        (_, Err(e)) => Err(e),
        (Ok(d), Ok(t)) => if d * 86_400 + t < 0 {
            Err(DateFault::BeforeEpoch)
        } else if d * 86_400 + t > i64::MAX {
            Err(DateFault::OutOfRange)
        } else {
            Ok(d * 86_400 + t)
        },
    }
}

fn get_field(f: &Vec<Vec<char>>, i: usize) -> (r: Option<i64>)
    ensures
        r == field(texts(f@), i as int),
{
    if i < f.len() {
        assert(texts(f@)[i as int] == f@[i as int]@);
        parse_signed(&f[i])
    } else {
        None
    }
}

fn read_clock(t: &Vec<char>) -> (r: Result<i64, DateFault>)
    ensures
        match (r, clock(t@)) {
            (Ok(a), Ok(b)) => a == b && 0 <= a <= 86_460,
            (Err(a), Err(b)) => a == b,
            _ => false,
        },
{
    let f = cut(t, ':', 4);
    let h: i64 = match get_field(&f, 0) {
        Some(v) => v,
        None => {
            return Err(DateFault::Hour);
        },
    };
    let m: i64 = match get_field(&f, 1) {
        Some(v) => v,
        None => {
            return Err(DateFault::Minute);
        },
    };
    let sec: i64 = if f.len() > 2 {
        match get_field(&f, 2) {
            Some(v) => v,
            None => -1,
        }
    } else {
        0
    };
    if f.len() > 3 || h < 0 || h > 23 || m < 0 || m > 59 || sec < 0 || sec > 60 {
        return Err(DateFault::Time);
    }
    Ok(h * 3600 + m * 60 + sec)
}

/// A date too far off for its seconds to fit 64 bits.
proof fn lemma_far(y: int, m: int, d: int, t: int)
    requires
        1 <= m <= 12,
        1 <= d,
        0 <= t <= 86_460,
    ensures
        y > MAX_YEAR ==> civil_days(y, m, d) * 86_400 + t > i64::MAX,
        y < 0 - MAX_YEAR && d <= 31 ==> civil_days(y, m, d) * 86_400 + t < 0,
{
}

fn read_moment(text: &str) -> (r: Result<u64, DateFault>)
    ensures
        match (r, moment(text@)) {
            (Ok(a), Ok(b)) => a == b,
            (Err(a), Err(b)) => a == b,
            _ => false,
        },
{
    let s = trim_chars(&chars_of(text));
    let t: usize = find_char(&s, 'T', 0);
    let b: usize = find_char(&s, ' ', 0);
    let k: usize = if t < b {
        t
    } else {
        b
    };
    let date = sub_chars(&s, 0, k);
    assert(date@ =~= s@.take(k as int));
    let f = cut(&date, '-', 4);
    let y: i64 = match get_field(&f, 0) {
        Some(v) => v,
        None => {
            return Err(DateFault::Year);
        },
    };
    let m: i64 = match get_field(&f, 1) {
        Some(v) => v,
        None => {
            return Err(DateFault::Month);
        },
    };
    let d: i64 = match get_field(&f, 2) {
        Some(v) => v,
        None => {
            return Err(DateFault::Day);
        },
    };
    if f.len() > 3 || m < 1 || m > 12 || d < 1 || d > 31 {
        return Err(DateFault::Date);
    }
    let time: i64 = if k < s.len() {
        let rest = sub_chars(&s, k + 1, s.len());
        assert(rest@ =~= s@.skip(k + 1));
        read_clock(&rest)?
    } else {
        0
    };
    proof {
        lemma_far(y as int, m as int, d as int, time as int);
    }
    if y > MAX_YEAR {
        return Err(DateFault::OutOfRange);
    }
    if y < 0 - MAX_YEAR {
        return Err(DateFault::BeforeEpoch);
    }
    let days: i64 = days_from_civil(y, m, d);
    let secs: i128 = days as i128 * 86_400 + time as i128;
    if secs < 0 {
        Err(DateFault::BeforeEpoch)
    } else if secs > 0x7FFF_FFFF_FFFF_FFFF {
        Err(DateFault::OutOfRange)
    } else {
        Ok(secs as u64)
    }
}

/// The message for a text that is no date.
pub open spec fn date_message(fault: DateFault, s: Seq<char>) -> Seq<char> {
    match fault {
        DateFault::Year => "invalid year in '"@ + s + "'"@,
        DateFault::Month => "invalid month in '"@ + s + "'"@,
        DateFault::Day => "invalid day in '"@ + s + "'"@,
        DateFault::Date => "invalid date '"@ + s + "' (expected YYYY-MM-DD)"@,
        DateFault::Hour => "invalid hour in '"@ + s + "'"@,
        DateFault::Minute => "invalid minute in '"@ + s + "'"@,
        DateFault::Time => "invalid time in '"@ + s + "' (expected HH:MM[:SS])"@,
        DateFault::BeforeEpoch => "date '"@ + s + "' is before the Unix epoch (1970)"@,
        DateFault::OutOfRange => "date '"@ + s + "' is out of range"@,
    }
}

fn around(before: &str, s: &Vec<char>, after: &str) -> (r: String)
    ensures
        r@ == before@ + s@ + after@,
{
    let mut out = String::new();
    push_text(&mut out, before);
    push_text(&mut out, string_of(s).as_str());
    push_text(&mut out, after);
    assert(out@ =~= before@ + s@ + after@);
    out
}

fn build_message(fault: DateFault, s: &Vec<char>) -> (r: String)
    ensures
        r@ == date_message(fault, s@),
{
    match fault {
        DateFault::Year => around("invalid year in '", s, "'"),
        DateFault::Month => around("invalid month in '", s, "'"),
        DateFault::Day => around("invalid day in '", s, "'"),
        DateFault::Date => around("invalid date '", s, "' (expected YYYY-MM-DD)"),
        DateFault::Hour => around("invalid hour in '", s, "'"),
        DateFault::Minute => around("invalid minute in '", s, "'"),
        DateFault::Time => around("invalid time in '", s, "' (expected HH:MM[:SS])"),
        DateFault::BeforeEpoch => around("date '", s, "' is before the Unix epoch (1970)"),
        DateFault::OutOfRange => around("date '", s, "' is out of range"),
    }
}

/// Parse a UTC date (`YYYY-MM-DD`) or date-time (`YYYY-MM-DDTHH:MM:SS`, with a
/// space also accepted as the separator). With no recorded time zone, all times
/// are treated as UTC, matching how timestamps are read back from the
/// filesystems. The error is a message for the user.
pub fn parse_date(s: &str) -> (r: Result<Timestamp, String>)
    ensures
        match moment(s@) {
            Ok(secs) => r == Ok::<Timestamp, String>(at(secs)) && 0 <= secs <= i64::MAX,
            Err(fault) => r matches Err(m) && m@ == date_message(fault, trimmed(s@)),
        },
{
    match read_moment(s) {
        Ok(secs) => Ok(Timestamp { secs, nanos: 0 }),
        Err(fault) => Err(build_message(fault, &trim_chars(&chars_of(s)))),
    }
}

} // verus!

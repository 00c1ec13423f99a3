//! Calendar dates as plain values: validity, leap years, neighbouring
//! days, parsing, and the date keys the journal files are named by.

use vstd::prelude::*;

use crate::numfmt::{format_u64_pad, spec_dec_pad};
use crate::paths::{spec_join, DataPaths};
use crate::text::{lower_of, str_eq, to_lowercase};

verus! {

/// A calendar date, held as year, month and day numbers.
#[derive(Clone, Copy, PartialEq, Eq, Structural, Debug)]
pub struct Date {
    pub year: i32,
    pub month: u32,
    pub day: u32,
}

/// Gregorian leap years.
pub open spec fn spec_is_leap_year(y: int) -> bool {
    (y % 4 == 0 && y % 100 != 0) || y % 400 == 0
}

/// The number of days in a month.
pub open spec fn spec_days_in_month(y: int, m: int) -> int {
    if m == 2 {
        if spec_is_leap_year(y) {
            29
        } else {
            28
        }
    } else if m == 4 || m == 6 || m == 9 || m == 11 {
        30
    } else {
        31
    }
}

/// A date the library handles: a real calendar day in years 0 through
/// 9999, so every date key formats with a four-digit year.
pub open spec fn valid_date(d: Date) -> bool {
    &&& 0 <= d.year <= 9999
    &&& 1 <= d.month <= 12
    &&& 1 <= d.day <= spec_days_in_month(d.year as int, d.month as int)
}

/// Decides leap years.
pub fn is_leap_year(y: i32) -> (r: bool)
    requires
        y >= 0,
    ensures
        r == spec_is_leap_year(y as int),
{
    (y % 4 == 0 && y % 100 != 0) || y % 400 == 0
}

/// The number of days in a month.
pub fn days_in_month(y: i32, m: u32) -> (r: u32)
    requires
        y >= 0,
    ensures
        r == spec_days_in_month(y as int, m as int),
{
    if m == 2 {
        if is_leap_year(y) {
            29
        } else {
            28
        }
    } else if m == 4 || m == 6 || m == 9 || m == 11 {
        30
    } else {
        31
    }
}

/// Decides whether year, month and day name a date the library handles.
pub fn is_valid_date(d: Date) -> (r: bool)
    ensures
        r == valid_date(d),
{
    if d.year < 0 || d.year > 9999 {
        return false;
    }
    if d.month < 1 || d.month > 12 {
        return false;
    }
    d.day >= 1 && d.day <= days_in_month(d.year, d.month)
}

/// The day after `d`, rolling over months and years.
pub open spec fn spec_next_day(d: Date) -> Date {
    if d.day < spec_days_in_month(d.year as int, d.month as int) {
        Date { year: d.year, month: d.month, day: (d.day + 1) as u32 }
    } else if d.month < 12 {
        Date { year: d.year, month: (d.month + 1) as u32, day: 1 }
    } else {
        Date { year: (d.year + 1) as i32, month: 1, day: 1 }
    }
}

/// The day before `d`, rolling back months and years.
pub open spec fn spec_prev_day(d: Date) -> Date {
    if d.day > 1 {
        Date { year: d.year, month: d.month, day: (d.day - 1) as u32 }
    } else if d.month > 1 {
        Date {
            year: d.year,
            month: (d.month - 1) as u32,
            day: spec_days_in_month(d.year as int, d.month as int - 1) as u32,
        }
    } else {
        Date { year: (d.year - 1) as i32, month: 12, day: 31 }
    }
}

/// Steps one day forward.
pub fn next_day(d: Date) -> (r: Date)
    requires
        valid_date(d),
        d.year < 9999 || !(d.month == 12 && d.day == 31),
    ensures
        r == spec_next_day(d),
        valid_date(r),
{
    let dim = days_in_month(d.year, d.month);
    if d.day < dim {
        Date { year: d.year, month: d.month, day: d.day + 1 }
    } else if d.month < 12 {
        Date { year: d.year, month: d.month + 1, day: 1 }
    } else {
        Date { year: d.year + 1, month: 1, day: 1 }
    }
}

/// Steps one day back.
pub fn prev_day(d: Date) -> (r: Date)
    requires
        valid_date(d),
        d.year > 0 || !(d.month == 1 && d.day == 1),
    ensures
        r == spec_prev_day(d),
        valid_date(r),
{
    if d.day > 1 {
        Date { year: d.year, month: d.month, day: d.day - 1 }
    } else if d.month > 1 {
        let pm = d.month - 1;
        Date { year: d.year, month: pm, day: days_in_month(d.year, pm) }
    } else {
        Date { year: d.year - 1, month: 12, day: 31 }
    }
}

/// The daily date key: `YYYY-MM-DD`.
pub open spec fn spec_date_key(d: Date) -> Seq<char> {
    spec_dec_pad(d.year as int, 4) + "-"@ + spec_dec_pad(d.month as int, 2) + "-"@ + spec_dec_pad(
        d.day as int,
        2,
    )
}

/// Renders the daily date key.
pub fn date_key(d: Date) -> (r: String)
    requires
        valid_date(d),
    ensures
        r@ == spec_date_key(d),
{
    let mut s = format_u64_pad(d.year as u64, 4);
    s.append("-");
    let m = format_u64_pad(d.month as u64, 2);
    s.append(m.as_str());
    s.append("-");
    let dd = format_u64_pad(d.day as u64, 2);
    s.append(dd.as_str());
    s
}

/// The weekly date key: `YYYY-Www`, from an ISO week year and number.
pub open spec fn spec_week_key(year: int, week: int) -> Seq<char> {
    spec_dec_pad(year, 1) + "-W"@ + spec_dec_pad(week, 2)
}

/// Renders the weekly date key.
pub fn week_key(year: i32, week: u32) -> (r: String)
    requires
        year >= 0,
    ensures
        r@ == spec_week_key(year as int, week as int),
{
    let mut s = format_u64_pad(year as u64, 1);
    s.append("-W");
    let w = format_u64_pad(week as u64, 2);
    s.append(w.as_str());
    s
}

/// The monthly date key: `YYYY-mm` with an unpadded year.
pub open spec fn spec_month_key(year: int, month: int) -> Seq<char> {
    spec_dec_pad(year, 1) + "-"@ + spec_dec_pad(month, 2)
}

/// Renders the monthly date key.
pub fn month_key(year: i32, month: u32) -> (r: String)
    requires
        year >= 0,
    ensures
        r@ == spec_month_key(year as int, month as int),
{
    let mut s = format_u64_pad(year as u64, 1);
    s.append("-");
    let m = format_u64_pad(month as u64, 2);
    s.append(m.as_str());
    s
}

/// What `YYYY-MM-DD` parsing accepts: ten characters, digits in the date
/// positions, hyphens between, naming a valid calendar date.
pub open spec fn spec_parse_ymd(s: Seq<char>) -> Option<Date> {
    if s.len() == 10 && s[4] == '-' && s[7] == '-' && (forall|i: int|
        (0 <= i < 4 || i == 5 || i == 6 || i == 8 || i == 9) ==> '0' <= #[trigger] s[i] && s[i]
            <= '9') {
        let y = (s[0] as u32 - 48) * 1000 + (s[1] as u32 - 48) * 100 + (s[2] as u32 - 48) * 10 + (
        s[3] as u32 - 48);
        let m = (s[5] as u32 - 48) * 10 + (s[6] as u32 - 48);
        let dd = (s[8] as u32 - 48) * 10 + (s[9] as u32 - 48);
        let d = Date { year: y as i32, month: m as u32, day: dd as u32 };
        if valid_date(d) {
            Some(d)
        } else {
            None
        }
    } else {
        None
    }
}

/// How a date argument is read: `today`, `yesterday` and `tomorrow`
/// (compared lower-cased) name days relative to `today`; anything else
/// must be a strict `YYYY-MM-DD` date.
pub open spec fn spec_parse_date(s: Seq<char>, today: Date) -> Option<Date> {
    if lower_of(s) == "today"@ {
        Some(today)
    } else if lower_of(s) == "yesterday"@ {
        Some(spec_prev_day(today))
    } else if lower_of(s) == "tomorrow"@ {
        Some(spec_next_day(today))
    } else {
        spec_parse_ymd(s)
    }
}

/// Reads one digit character.
fn digit_at(s: &str, i: usize) -> (r: Option<u32>)
    requires
        i < s@.len(),
    ensures
        match r {
            Some(v) => '0' <= s@[i as int] && s@[i as int] <= '9' && v == s@[i as int] as u32 - 48
                && v <= 9,
            None => !('0' <= s@[i as int] && s@[i as int] <= '9'),
        },
{
    let c = s.get_char(i);
    if c >= '0' && c <= '9' {
        Some((c as u32) - 48)
    } else {
        None
    }
}

/// Parses a date argument relative to `today`.
pub fn parse_date(s: &str, today: Date) -> (r: Option<Date>)
    requires
        valid_date(today),
        0 < today.year < 9999,
    ensures
        match r {
            Some(d) => spec_parse_date(s@, today) == Some(d) && valid_date(d),
            None => spec_parse_date(s@, today) is None,
        },
{
    let low = to_lowercase(s);
    if str_eq(low.as_str(), "today") {
        return Some(today);
    }
    if str_eq(low.as_str(), "yesterday") {
        return Some(prev_day(today));
    }
    if str_eq(low.as_str(), "tomorrow") {
        return Some(next_day(today));
    }
    let n = s.unicode_len();
    if n != 10 {
        return None;
    }
    if s.get_char(4) != '-' || s.get_char(7) != '-' {
        return None;
    }
    let d0 = digit_at(s, 0);
    let d1 = digit_at(s, 1);
    let d2 = digit_at(s, 2);
    let d3 = digit_at(s, 3);
    let d5 = digit_at(s, 5);
    let d6 = digit_at(s, 6);
    let d8 = digit_at(s, 8);
    let d9 = digit_at(s, 9);
    if d0.is_none() || d1.is_none() || d2.is_none() || d3.is_none() || d5.is_none() || d6.is_none()
        || d8.is_none() || d9.is_none() {
        return None;
    }
    let y = d0.unwrap() * 1000 + d1.unwrap() * 100 + d2.unwrap() * 10 + d3.unwrap();
    let m = d5.unwrap() * 10 + d6.unwrap();
    let dd = d8.unwrap() * 10 + d9.unwrap();
    let date = Date { year: y as i32, month: m, day: dd };
    if m < 1 || m > 12 {
        return None;
    }
    if dd < 1 || dd > days_in_month(date.year, m) {
        return None;
    }
    Some(date)
}

/// The ISO week-based year a calendar date falls in.
pub uninterp spec fn iso_week_year_of(y: int, m: int, d: int) -> int;

/// The ISO week number a calendar date falls in.
pub uninterp spec fn iso_week_num_of(y: int, m: int, d: int) -> int;

/// Relies on chrono's `NaiveDate::iso_week`: the ISO 8601 week year and
/// week number, functions of the calendar date alone; week numbers run 1
/// to 53, and the week year differs from the calendar year by at most one.
#[verifier::external_body]
pub fn iso_week_of(date: Date) -> (r: (i32, u32))
    requires
        valid_date(date),
    ensures
        r.0 as int == iso_week_year_of(date.year as int, date.month as int, date.day as int),
        r.1 as int == iso_week_num_of(date.year as int, date.month as int, date.day as int),
        1 <= r.1 <= 53,
        date.year - 1 <= r.0 <= date.year + 1,
{
    let d = chrono::NaiveDate::from_ymd_opt(date.year, date.month, date.day).unwrap();
    let iw = chrono::Datelike::iso_week(&d);
    (chrono::IsoWeek::year(&iw), chrono::IsoWeek::week(&iw))
}

impl DataPaths {
    /// Where one daily journal file lives.
    pub fn daily_file(&self, date: Date) -> (r: String)
        requires
            valid_date(date),
        ensures
            r@ == spec_join(
                spec_join(spec_join(self.root@, "journal"@), "daily"@),
                spec_date_key(date) + ".md"@,
            ),
    {
        let dir = self.journal_daily_dir();
        let mut name = date_key(date);
        name.append(".md");
        crate::paths::join(dir.as_str(), name.as_str())
    }

    /// Where one weekly journal file lives.
    pub fn weekly_file(&self, year: i32, week: u32) -> (r: String)
        requires
            year >= 0,
        ensures
            r@ == spec_join(
                spec_join(spec_join(self.root@, "journal"@), "weekly"@),
                spec_week_key(year as int, week as int) + ".md"@,
            ),
    {
        let dir = self.journal_weekly_dir();
        let mut name = week_key(year, week);
        name.append(".md");
        crate::paths::join(dir.as_str(), name.as_str())
    }

    /// Where one monthly journal file lives.
    pub fn monthly_file(&self, year: i32, month: u32) -> (r: String)
        requires
            year >= 0,
        ensures
            r@ == spec_join(
                spec_join(spec_join(self.root@, "journal"@), "monthly"@),
                spec_month_key(year as int, month as int) + ".md"@,
            ),
    {
        let dir = self.journal_monthly_dir();
        let mut name = month_key(year, month);
        name.append(".md");
        crate::paths::join(dir.as_str(), name.as_str())
    }
}

} // verus!

//! Calendar days, and the relative day words that scheduling accepts.

use crate::text::{chars_of, lower, to_lower};
use chrono::{DateTime, Datelike, NaiveDate};
use vstd::prelude::*;

verus! {

/// The last day that a [`Day`] can be: 9999-12-31.
pub const MAX_DAY: i32 = 3652059;

/// The day number of `NaiveDate::MIN` in chrono: 262144 BCE (year -262143)
/// January 1.
pub const MIN_CHRONO_DAY: i32 = -95746129;

/// The day number of `NaiveDate::MAX` in chrono: 262142 December 31.
pub const MAX_CHRONO_DAY: i32 = 95745399;

/// A day of the proleptic Gregorian calendar between 0001-01-01 and 9999-12-31,
/// counted from 0001-01-01, which is day 1.
#[derive(Debug, Clone, Copy, PartialEq, Eq)]
pub struct Day {
    days: i32,
}

/// The `YYYY-MM-DD` form of a day number.
pub uninterp spec fn iso_date(days: int) -> Seq<char>;

/// The day number of a year, month and day, if the calendar has that date.
pub uninterp spec fn ymd_days(year: int, month: int, day: int) -> Option<int>;

/// The day number of a `YYYY-MM-DD` text, if it reads as a date.
pub uninterp spec fn iso_days(s: Seq<char>) -> Option<int>;

/// Relies on chrono's `NaiveDate::from_num_days_from_ce_opt`, which gives a
/// date for every day number from `NaiveDate::MIN` to `NaiveDate::MAX`, and its
/// `%Y-%m-%d` format.
#[verifier::external_body]
pub(crate) fn format_iso(days: i32) -> (r: String)
    requires
        MIN_CHRONO_DAY <= days <= MAX_CHRONO_DAY,
    ensures
        r@ == iso_date(days as int),
{
    NaiveDate::from_num_days_from_ce_opt(days)
        .map(|d| d.format("%Y-%m-%d").to_string())
        .unwrap_or_default()
}

/// Relies on chrono's `NaiveDate::weekday` and `Weekday::number_from_monday`:
/// 0001-01-01 (day 1) is a Monday, and the weekdays repeat every seven days.
#[verifier::external_body]
fn weekday_number(days: i32) -> (r: u32)
    requires
        1 <= days <= MAX_DAY,
    ensures
        r as int == weekday(days as int),
{
    NaiveDate::from_num_days_from_ce_opt(days)
        .map(|d| d.weekday().number_from_monday())
        .unwrap_or_default()
}

/// Relies on chrono's `NaiveDate::from_ymd_opt` and `Datelike::num_days_from_ce`.
#[verifier::external_body]
fn days_of_ymd(year: i32, month: u32, day: u32) -> (r: Option<i32>)
    ensures
        r matches Some(n) ==> ymd_days(year as int, month as int, day as int) == Some(n as int),
        r is None ==> ymd_days(year as int, month as int, day as int) is None,
{
    NaiveDate::from_ymd_opt(year, month, day).map(|d| d.num_days_from_ce())
}

/// Relies on chrono's `NaiveDate::parse_from_str` with the format `%Y-%m-%d`,
/// and `Datelike::num_days_from_ce`; every `NaiveDate` lies between
/// `NaiveDate::MIN` and `NaiveDate::MAX`.
#[verifier::external_body]
fn days_of_iso(s: &str) -> (r: Option<i32>)
    ensures
        r matches Some(n) ==> iso_days(s@) == Some(n as int) && MIN_CHRONO_DAY <= n
            <= MAX_CHRONO_DAY,
        r is None ==> iso_days(s@) is None,
{
    NaiveDate::parse_from_str(s, "%Y-%m-%d").ok().map(|d| d.num_days_from_ce())
}

/// Relies on std's `SystemTime::now` and chrono's `DateTime::from_timestamp`
/// (UTC): today's day number, or `None` when the clock reads before 1970 or
/// past chrono's range. Nothing else is known of the value.
#[verifier::external_body]
fn clock_days() -> (r: Option<i32>) {
    std::time::SystemTime::now()
        .duration_since(std::time::UNIX_EPOCH)
        .ok()
        .and_then(|d| DateTime::from_timestamp(d.as_secs() as i64, 0))
        .map(|t| t.date_naive().num_days_from_ce())
}

/// Day of the week, Monday 1 to Sunday 7.
pub open spec fn weekday(days: int) -> int {
    (days - 1) % 7 + 1
}

/// The first day strictly after `from` that falls on weekday `wd`.
pub open spec fn next_weekday(from: int, wd: int) -> int {
    from + (wd - weekday(from) + 6) % 7 + 1
}

impl Day {
    #[verifier::type_invariant]
    spec fn in_range(self) -> bool {
        1 <= self.days <= MAX_DAY
    }

    /// The day number, 0001-01-01 being 1.
    pub closed spec fn num(self) -> int {
        self.days as int
    }

    /// The day with this number, if it lies between 0001-01-01 and 9999-12-31.
    pub fn from_days(days: i32) -> (r: Option<Day>)
        ensures
            r matches Some(d) ==> d.num() == days,
            r is None <==> !(1 <= days <= MAX_DAY),
    {
        if 1 <= days && days <= MAX_DAY {
            Some(Day { days })
        } else {
            None
        }
    }

    /// The day of a year, month and day, if that date exists and lies
    /// between 0001-01-01 and 9999-12-31.
    pub fn from_ymd(year: i32, month: u32, day: u32) -> (r: Option<Day>)
        ensures
            r matches Some(d) ==> ymd_days(year as int, month as int, day as int) == Some(d.num()),
            r is None ==> match ymd_days(year as int, month as int, day as int) {
                Some(n) => !(1 <= n <= MAX_DAY),
                None => true,
            },
    {
        match days_of_ymd(year, month, day) {
            Some(n) => Day::from_days(n),
            None => None,
        }
    }

    pub fn days(&self) -> (r: i32)
        ensures
            r == self.num(),
            1 <= r <= MAX_DAY,
    {
        proof {
            use_type_invariant(self);
        }
        self.days
    }

    /// The day as `YYYY-MM-DD`.
    pub fn format_iso(&self) -> (r: String)
        ensures
            r@ == iso_date(self.num()),
    {
        format_iso(self.days())
    }

    /// Day of the week, Monday 1 to Sunday 7.
    pub fn weekday(&self) -> (r: u32)
        ensures
            r as int == weekday(self.num()),
    {
        weekday_number(self.days())
    }
}

/// Today's date in UTC, if the clock shows a day between 0001-01-01 and
/// 9999-12-31 (and not before 1970).
pub fn date_today() -> (r: Option<Day>) {
    match clock_days() {
        Some(n) => Day::from_days(n),
        None => None,
    }
}

/// The day number that a `YYYY-MM-DD` text names, if it reads as a date.
pub fn parse_iso_days(s: &str) -> (r: Option<i32>)
    ensures
        r matches Some(n) ==> iso_days(s@) == Some(n as int) && MIN_CHRONO_DAY <= n
            <= MAX_CHRONO_DAY,
        r is None ==> iso_days(s@) is None,
{
    days_of_iso(s)
}

/// The weekday (Monday 1 to Sunday 7) that a lower-case day word names, `weekend`
/// meaning Saturday; 0 for any other word.
pub open spec fn weekday_word(k: Seq<char>) -> int {
    if k == "monday"@ || k == "mon"@ {
        1
    } else if k == "tuesday"@ || k == "tue"@ {
        2
    } else if k == "wednesday"@ || k == "wed"@ {
        3
    } else if k == "thursday"@ || k == "thu"@ {
        4
    } else if k == "friday"@ || k == "fri"@ {
        5
    } else if k == "saturday"@ || k == "sat"@ || k == "weekend"@ {
        6
    } else if k == "sunday"@ || k == "sun"@ {
        7
    } else {
        0
    }
}

/// A character of a schedule word as lower-casing leaves it wherever the word
/// can still spell a day word: `A`..`Z` become `a`..`z`, and the Kelvin sign
/// (U+212A), whose lower case is `k`, becomes `k`. No other character lower-cases
/// to ASCII alone.
pub open spec fn keyword_char(c: char) -> char {
    if c == '\u{212A}' {
        'k'
    } else {
        lower(c)
    }
}

pub open spec fn keyword_form(s: Seq<char>) -> Seq<char> {
    s.map_values(|c: char| keyword_char(c))
}

fn keyword_chars(s: &str) -> (r: Vec<char>)
    ensures
        r@ == keyword_form(s@),
{
    let cs = chars_of(s);
    let mut out: Vec<char> = Vec::new();
    let mut i: usize = 0;
    while i < cs.len()
        invariant
            cs@ == s@,
            i <= cs@.len(),
            out@ == keyword_form(cs@.take(i as int)),
        decreases cs@.len() - i,
    {
        let c = cs[i];
        let k = if c == '\u{212A}' {
            'k'
        } else {
            to_lower(c)
        };
        out.push(k);
        i = i + 1;
        assert(out@ =~= keyword_form(cs@.take(i as int)));
    }
    assert(cs@.take(cs@.len() as int) =~= cs@);
    out
}

/// What a schedule word means on day `today`: `today`, `tomorrow`, a weekday
/// (its next occurrence strictly after today) or `weekend` (the next Saturday),
/// in any case; any other text stands for itself.
pub open spec fn resolve(today: int, s: Seq<char>) -> Seq<char> {
    let k = keyword_form(s);
    if k == "today"@ {
        iso_date(today)
    } else if k == "tomorrow"@ {
        iso_date(today + 1)
    } else if weekday_word(k) != 0 {
        iso_date(next_weekday(today, weekday_word(k)))
    } else {
        s
    }
}

fn same_chars(a: &Vec<char>, b: &str) -> (r: bool)
    ensures
        r == (a@ == b@),
{
    let bc = chars_of(b);
    if a.len() != bc.len() {
        return false;
    }
    let mut i: usize = 0;
    while i < a.len()
        invariant
            a@.len() == bc@.len(),
            bc@ == b@,
            i <= a@.len(),
            forall|k: int| 0 <= k < i ==> a@[k] == bc@[k],
        decreases a@.len() - i,
    {
        if a[i] != bc[i] {
            assert(a@[i as int] != b@[i as int]);
            return false;
        }
        i = i + 1;
    }
    assert(a@ =~= bc@);
    true
}

fn weekday_of_word(k: &Vec<char>) -> (r: u32)
    ensures
        r as int == weekday_word(k@),
{
    if same_chars(k, "monday") || same_chars(k, "mon") {
        1
    } else if same_chars(k, "tuesday") || same_chars(k, "tue") {
        2
    } else if same_chars(k, "wednesday") || same_chars(k, "wed") {
        3
    } else if same_chars(k, "thursday") || same_chars(k, "thu") {
        4
    } else if same_chars(k, "friday") || same_chars(k, "fri") {
        5
    } else if same_chars(k, "saturday") || same_chars(k, "sat") || same_chars(k, "weekend") {
        6
    } else if same_chars(k, "sunday") || same_chars(k, "sun") {
        7
    } else {
        0
    }
}

/// The number of the first day strictly after `date` that is weekday `wd`
/// (Monday 1 to Sunday 7).
pub fn next_weekday_after(date: Day, wd: u32) -> (r: i32)
    requires
        1 <= wd <= 7,
    ensures
        r == next_weekday(date.num(), wd as int),
        date.num() < r <= date.num() + 7,
        weekday(r as int) == wd,
{
    let w = date.weekday();
    let n = date.days();
    let step = ((wd + 6 - w) % 7 + 1) as i32;
    proof {
        let k = (n - 1) / 7;
        assert(n - 1 == 7 * k + (n - 1) % 7);
        assert(n + step - 1 == 7 * k + ((n - 1) % 7 + step));
        assert(((n - 1) % 7 + step) % 7 == wd - 1);
        assert((n + step - 1) % 7 == wd - 1) by (nonlinear_arith)
            requires
                n + step - 1 == 7 * k + ((n - 1) % 7 + step),
                ((n - 1) % 7 + step) % 7 == wd - 1,
        {
        }
    }
    n + step
}

/// Resolves a schedule word against the reference day `date`: `today`,
/// `tomorrow`, `monday`/`mon` to `sunday`/`sun`, `weekend`; anything else is
/// returned unchanged.
pub fn parse_date_string_relative(date: Day, s: &str) -> (r: String)
    ensures
        r@ == resolve(date.num(), s@),
{
    let k = keyword_chars(s);
    let n = date.days();
    if same_chars(&k, "today") {
        date.format_iso()
    } else if same_chars(&k, "tomorrow") {
        format_iso(n + 1)
    } else {
        let wd = weekday_of_word(&k);
        if wd != 0 {
            format_iso(next_weekday_after(date, wd))
        } else {
            let cs = chars_of(s);
            crate::text::string_from_chars(cs.as_slice())
        }
    }
}

} // verus!

//! Calendar dates (the proleptic Gregorian calendar of `chrono::NaiveDate`)
//! and times of day.
use chrono::Datelike;
use chrono::Timelike;
use vstd::prelude::*;

verus! {

/// The first year that `chrono::NaiveDate` represents.
pub open spec fn min_year() -> int {
    -262143
}

/// The last year that `chrono::NaiveDate` represents.
pub open spec fn max_year() -> int {
    262142
}

pub open spec fn is_leap_year(y: int) -> bool {
    (y % 4 == 0 && y % 100 != 0) || y % 400 == 0
}

pub open spec fn days_in_month(y: int, m: int) -> int {
    if m == 2 {
        if is_leap_year(y) {
            29
        } else {
            28
        }
    } else if m == 4 || m == 6 || m == 9 || m == 11 {
        30
    } else {
        31
    }
}

/// A day that exists in the calendar and in the range of `chrono::NaiveDate`.
pub open spec fn valid_ymd(y: int, m: int, d: int) -> bool {
    &&& min_year() <= y <= max_year()
    &&& 1 <= m <= 12
    &&& 1 <= d <= days_in_month(y, m)
}

/// The number of a day in the proleptic Gregorian calendar, counted from a
/// fixed day. The year is taken to start in March, so that a leap day is the
/// last day of its year: `153 * k + 2) / 5` days pass before the `k`-th month
/// after March.
pub open spec fn day_number(y: int, m: int, d: int) -> int {
    let a = if m <= 2 {
        y - 1
    } else {
        y
    };
    let mm = if m <= 2 {
        m + 12
    } else {
        m
    };
    365 * a + a / 4 - a / 100 + a / 400 + (153 * (mm - 3) + 2) / 5 + d
}

/// The day of the week of a date, Monday = 1 through Sunday = 7 (2026-06-08
/// was a Monday).
pub open spec fn weekday_from_monday(y: int, m: int, d: int) -> int {
    (day_number(y, m, d) + 1) % 7 + 1
}

/// Calls `NaiveDate::from_ymd_opt(..).weekday().number_from_monday()`.
/// Claimed: for an existing date the result is the day of the week of that
/// date in the proleptic Gregorian calendar, Monday = 1 through Sunday = 7.
#[verifier::external_body]
fn weekday_number_from_monday(year: i32, month: u32, day: u32) -> (r: u32)
    requires
        valid_ymd(year as int, month as int, day as int),
    ensures
        r == weekday_from_monday(year as int, month as int, day as int),
{
    chrono::NaiveDate::from_ymd_opt(year, month, day).unwrap().weekday().number_from_monday()
}

/// The year, month and day that `NaiveDate::parse_from_str(s, "%Y-%m-%d")`
/// reads from a text, or `None` where it refuses the text.
pub uninterp spec fn chrono_parse_ymd(s: Seq<char>) -> Option<(i32, u32, u32)>;

/// Calls `NaiveDate::parse_from_str(s, "%Y-%m-%d")` and reads the year, month
/// and day of the date it gives. Claimed: the outcome is `chrono_parse_ymd` of
/// the text, and a date that comes back exists. Which texts the format accepts
/// is left to the name.
#[verifier::external_body]
fn parse_ymd(s: &str) -> (r: Option<(i32, u32, u32)>)
    ensures
        r == chrono_parse_ymd(s@),
        r matches Some(t) ==> valid_ymd(t.0 as int, t.1 as int, t.2 as int),
{
    match chrono::NaiveDate::parse_from_str(s, "%Y-%m-%d") {
        Ok(d) => Some((d.year(), d.month(), d.day())),
        Err(_) => None,
    }
}

/// The seconds since midnight of the time that
/// `NaiveTime::parse_from_str(s, "%H:%M")` reads from a text, or `None` where
/// it refuses the text.
pub uninterp spec fn chrono_parse_hm(s: Seq<char>) -> Option<u32>;

/// Calls `NaiveTime::parse_from_str(s, "%H:%M")` and reads
/// `num_seconds_from_midnight` of the time it gives. Claimed: the outcome is
/// `chrono_parse_hm` of the text and lies within a day. Which texts the
/// format accepts is left to the name.
#[verifier::external_body]
pub(crate) fn parse_hm(s: &str) -> (r: Option<u32>)
    ensures
        r == chrono_parse_hm(s@),
        r matches Some(x) ==> x < 86400,
{
    match chrono::NaiveTime::parse_from_str(s, "%H:%M") {
        Ok(t) => Some(t.num_seconds_from_midnight()),
        Err(_) => None,
    }
}

/// A calendar date, always one that exists.
#[derive(Clone, Copy, Debug, PartialEq, Eq)]
pub struct Date {
    year: i32,
    month: u32,
    day: u32,
}

impl View for Date {
    type V = (i32, u32, u32);

    closed spec fn view(&self) -> (i32, u32, u32) {
        (self.year, self.month, self.day)
    }
}

/// `a` falls on or before `b` (the order of `NaiveDate`).
pub open spec fn date_on_or_before(a: (i32, u32, u32), b: (i32, u32, u32)) -> bool {
    a.0 < b.0 || (a.0 == b.0 && (a.1 < b.1 || (a.1 == b.1 && a.2 <= b.2)))
}

/// Counting the days of year `y` before March: 365, or 366 in a leap year,
/// days lie between the first of March of the year before and that of `y`.
proof fn lemma_year_before_march(y: int)
    ensures
        (365 * y + y / 4 - y / 100 + y / 400) - (365 * (y - 1) + (y - 1) / 4 - (y - 1) / 100 + (y
            - 1) / 400) == if is_leap_year(y) {
            366int
        } else {
            365int
        },
{
    vstd::arithmetic::div_mod::lemma_fundamental_div_mod(y, 4);
    vstd::arithmetic::div_mod::lemma_fundamental_div_mod(y - 1, 4);
    vstd::arithmetic::div_mod::lemma_fundamental_div_mod(y, 100);
    vstd::arithmetic::div_mod::lemma_fundamental_div_mod(y - 1, 100);
    vstd::arithmetic::div_mod::lemma_fundamental_div_mod(y, 400);
    vstd::arithmetic::div_mod::lemma_fundamental_div_mod(y - 1, 400);
    assert(y / 4 - (y - 1) / 4 == if y % 4 == 0 { 1int } else { 0int });
    assert(y / 100 - (y - 1) / 100 == if y % 100 == 0 { 1int } else { 0int });
    assert(y / 400 - (y - 1) / 400 == if y % 400 == 0 { 1int } else { 0int });
    if y % 400 == 0 {
        let q = y / 400;
        assert(y == (4 * q) * 100);
        vstd::arithmetic::div_mod::lemma_mod_multiples_basic(4 * q, 100);
    }
    if y % 100 == 0 {
        let q = y / 100;
        assert(y == (25 * q) * 4);
        vstd::arithmetic::div_mod::lemma_mod_multiples_basic(25 * q, 4);
    }
}

/// The first day of a month follows the last day of the month before.
proof fn lemma_month_follows(y: int, m: int)
    requires
        1 <= m <= 11,
    ensures
        day_number(y, m + 1, 1) == day_number(y, m, days_in_month(y, m)) + 1,
{
    if m == 2 {
        lemma_year_before_march(y);
    }
}

/// The first of January follows the last day of the year before.
proof fn lemma_year_follows(y: int)
    ensures
        day_number(y + 1, 1, 1) == day_number(y, 12, 31) + 1,
{
}

/// Within a year, a later month starts after every day of an earlier one.
proof fn lemma_months_in_order(y: int, m1: int, d1: int, m2: int)
    requires
        1 <= m1 < m2 <= 12,
        1 <= d1 <= days_in_month(y, m1),
    ensures
        day_number(y, m1, d1) < day_number(y, m2, 1),
    decreases m2 - m1,
{
    lemma_month_follows(y, m1);
    if m1 + 1 < m2 {
        lemma_months_in_order(y, m1 + 1, 1, m2);
    }
}

/// Every day of a year comes before every day of a later year.
proof fn lemma_years_in_order(y1: int, m1: int, d1: int, y2: int, m2: int, d2: int)
    requires
        y1 < y2,
        valid_ymd(y1, m1, d1),
        valid_ymd(y2, m2, d2),
    ensures
        day_number(y1, m1, d1) < day_number(y2, m2, d2),
    decreases y2 - y1,
{
    if m1 < 12 {
        lemma_months_in_order(y1, m1, d1, 12);
    }
    lemma_year_follows(y1);
    if y1 + 1 < y2 {
        lemma_years_in_order(y1 + 1, 1, 1, y2, m2, d2);
    } else if m2 > 1 {
        lemma_months_in_order(y2, 1, 1, m2);
    }
}

/// The order of dates is the order of their day numbers: of two dates that
/// exist, one falls on or before the other exactly when its day number is not
/// larger, so later years, then later months, then later days come later.
pub proof fn lemma_on_or_before_counts_days(a: (i32, u32, u32), b: (i32, u32, u32))
    requires
        valid_ymd(a.0 as int, a.1 as int, a.2 as int),
        valid_ymd(b.0 as int, b.1 as int, b.2 as int),
    ensures
        date_on_or_before(a, b) <==> day_number(a.0 as int, a.1 as int, a.2 as int) <= day_number(
            b.0 as int,
            b.1 as int,
            b.2 as int,
        ),
{
    let (ya, ma, da) = (a.0 as int, a.1 as int, a.2 as int);
    let (yb, mb, db) = (b.0 as int, b.1 as int, b.2 as int);
    if ya < yb {
        lemma_years_in_order(ya, ma, da, yb, mb, db);
    } else if yb < ya {
        lemma_years_in_order(yb, mb, db, ya, ma, da);
    } else if ma < mb {
        lemma_months_in_order(ya, ma, da, mb);
    } else if mb < ma {
        lemma_months_in_order(yb, mb, db, ma);
    }
}

proof fn lemma_divides_negated(a: int, k: int)
    requires
        k > 0,
    ensures
        (a % k == 0) <==> ((-a) % k == 0),
{
    vstd::arithmetic::div_mod::lemma_fundamental_div_mod(a, k);
    vstd::arithmetic::div_mod::lemma_fundamental_div_mod(-a, k);
    if a % k == 0 {
        let q = a / k;
        assert(-a == (-q) * k) by (nonlinear_arith)
            requires
                a == k * q,
        ;
        vstd::arithmetic::div_mod::lemma_mod_multiples_basic(-q, k);
    }
    if (-a) % k == 0 {
        let q = (-a) / k;
        assert(a == (-q) * k) by (nonlinear_arith)
            requires
                -a == k * q,
        ;
        vstd::arithmetic::div_mod::lemma_mod_multiples_basic(-q, k);
    }
}

fn is_leap(y: i32) -> (r: bool)
    ensures
        r == is_leap_year(y as int),
{
    let a: u64 = if y < 0 {
        (-(y as i64)) as u64
    } else {
        y as u64
    };
    proof {
        lemma_divides_negated(y as int, 4);
        lemma_divides_negated(y as int, 100);
        lemma_divides_negated(y as int, 400);
    }
    (a % 4 == 0 && a % 100 != 0) || a % 400 == 0
}

impl Date {
    #[verifier::type_invariant]
    spec fn exists_in_calendar(self) -> bool {
        valid_ymd(self.year as int, self.month as int, self.day as int)
    }

    /// `NaiveDate::from_ymd_opt`: the date, where it exists.
    pub fn from_ymd_opt(year: i32, month: u32, day: u32) -> (r: Option<Date>)
        ensures
            r is Some <==> valid_ymd(year as int, month as int, day as int),
            r matches Some(d) ==> d@ == (year, month, day),
    {
        if year < -262143 || year > 262142 || month < 1 || month > 12 || day < 1 {
            return None;
        }
        let last: u32 = if month == 2 {
            if is_leap(year) {
                29
            } else {
                28
            }
        } else if month == 4 || month == 6 || month == 9 || month == 11 {
            30
        } else {
            31
        };
        if day > last {
            None
        } else {
            Some(Date { year, month, day })
        }
    }

    pub fn year(&self) -> (r: i32)
        ensures
            r == self@.0,
    {
        self.year
    }

    pub fn month(&self) -> (r: u32)
        ensures
            r == self@.1,
    {
        self.month
    }

    pub fn day(&self) -> (r: u32)
        ensures
            r == self@.2,
    {
        self.day
    }

    /// Monday = 1 through Sunday = 7.
    pub fn weekday_number_from_monday(&self) -> (r: u32)
        ensures
            1 <= r <= 7,
            r == weekday_from_monday(self@.0 as int, self@.1 as int, self@.2 as int),
    {
        proof {
            use_type_invariant(self);
        }
        weekday_number_from_monday(self.year, self.month, self.day)
    }

    /// `self <= other` in the order of dates.
    pub fn is_on_or_before(&self, other: &Date) -> (r: bool)
        ensures
            r == date_on_or_before(self@, other@),
    {
        self.year < other.year || (self.year == other.year && (self.month < other.month || (
        self.month == other.month && self.day <= other.day)))
    }

    /// `NaiveDate::parse_from_str(s, "%Y-%m-%d")`.
    pub fn parse_iso(s: &str) -> (r: Option<Date>)
        ensures
            match r {
                Some(d) => chrono_parse_ymd(s@) == Some(d@),
                None => chrono_parse_ymd(s@) is None,
            },
    {
        match parse_ymd(s) {
            Some(t) => Some(Date { year: t.0, month: t.1, day: t.2 }),
            None => None,
        }
    }
}

} // verus!

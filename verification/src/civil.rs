//! Calendar dates by day number: day 1 is January 1 of the year 1 in the
//! proleptic Gregorian calendar.

use crate::text;
use chrono::Datelike;
use vstd::prelude::*;

verus! {

/// The first year of the calendar's range.
pub const MIN_YEAR: i32 = -262143;

/// The last year of the calendar's range.
pub const MAX_YEAR: i32 = 262142;

/// A date, by its day number.
#[derive(Clone, Copy, PartialEq, Eq, Structural, Debug)]
pub struct Date {
    pub days: i32,
}

pub open spec fn is_leap(y: int) -> bool {
    y % 4 == 0 && (y % 100 != 0 || y % 400 == 0)
}

/// How many days a month has.
pub open spec fn month_days(y: int, m: int) -> int {
    if m == 2 {
        if is_leap(y) {
            29
        } else {
            28
        }
    } else if m == 4 || m == 6 || m == 9 || m == 11 {
        30
    } else {
        31
    }
}

/// How many days of a year pass before a month starts.
pub open spec fn days_before_month(y: int, m: int) -> int
    decreases m,
{
    if m <= 1 {
        0
    } else {
        days_before_month(y, m - 1) + month_days(y, m - 1)
    }
}

/// The number of the day with the given year, month and day of month.
pub open spec fn day_number(y: int, m: int, d: int) -> int {
    365 * (y - 1) + (y - 1) / 4 - (y - 1) / 100 + (y - 1) / 400 + days_before_month(y, m) + d
}

/// Whether year, month and day of month name a day of the calendar.
pub open spec fn valid_ymd(y: int, m: int, d: int) -> bool {
    MIN_YEAR <= y <= MAX_YEAR && 1 <= m <= 12 && 1 <= d <= month_days(y, m)
}

/// Whether a day number lies in the calendar's range.
pub open spec fn in_calendar(n: int) -> bool {
    day_number(MIN_YEAR as int, 1, 1) <= n <= day_number(MAX_YEAR as int, 12, 31)
}

/// The day number of a date that exists.
pub open spec fn day_of(y: int, m: int, d: int) -> Option<int> {
    if valid_ymd(y, m, d) {
        Some(day_number(y, m, d))
    } else {
        None
    }
}

/// Year, month and day of month of a day number in the calendar's range: those
/// of the one day that has this number.
#[verifier::opaque]
pub open spec fn civil_of(n: int) -> (int, int, int) {
    choose|p: (int, int, int)|
        valid_ymd(p.0, p.1, p.2) && #[trigger] day_number(p.0, p.1, p.2) == n
}

/// The day number that `%Y-%m-%d` reads from a text.
pub uninterp spec fn parsed_date(s: Seq<char>) -> Option<int>;

/// A year of four digits, or with its sign and four digits or more.
pub open spec fn year_text(y: int) -> Seq<char> {
    if 0 <= y <= 9999 {
        text::padded(y as nat, 4)
    } else if y < 0 {
        "-"@ + text::padded((0 - y) as nat, 4)
    } else {
        "+"@ + text::padded(y as nat, 4)
    }
}

/// A day number of the calendar written as `%Y-%m-%d`.
#[verifier::opaque]
pub open spec fn date_text(n: int) -> Seq<char> {
    let (y, m, d) = civil_of(n);
    year_text(y) + "-"@ + text::padded(m as nat, 2) + "-"@ + text::padded(d as nat, 2)
}

/// `chrono::NaiveDate::from_ymd_opt` and `num_days_from_ce`: the number of an
/// existing day within chrono's range of years, and nothing for any other
/// year, month and day.
#[verifier::external_body]
fn ymd_days(y: i32, m: u32, d: u32) -> (r: Option<i32>)
    ensures
        match r {
            Some(n) => valid_ymd(y as int, m as int, d as int) && n == day_number(
                y as int,
                m as int,
                d as int,
            ) && in_calendar(n as int),
            None => !valid_ymd(y as int, m as int, d as int),
        },
{
    chrono::NaiveDate::from_ymd_opt(y, m, d).map(|x| x.num_days_from_ce())
}

/// `chrono::NaiveDate::from_num_days_from_ce_opt` with `year`, `month` and
/// `day`: the parts of the date with a given number, and nothing beyond
/// chrono's range.
#[verifier::external_body]
fn days_ymd(n: i32) -> (r: Option<(i32, u32, u32)>)
    ensures
        match r {
            Some(p) => in_calendar(n as int) && valid_ymd(p.0 as int, p.1 as int, p.2 as int)
                && day_number(p.0 as int, p.1 as int, p.2 as int) == n,
            None => !in_calendar(n as int),
        },
{
    chrono::NaiveDate::from_num_days_from_ce_opt(n).map(|x| (x.year(), x.month(), x.day()))
}

/// `chrono::NaiveDate::parse_from_str` with `%Y-%m-%d`: a date of the
/// calendar, or nothing. What it reads depends on the text alone.
#[verifier::external_body]
fn parse_days(s: &str) -> (r: Option<i32>)
    ensures
        match r {
            Some(n) => parsed_date(s@) == Some(n as int) && in_calendar(n as int),
            None => parsed_date(s@) is None,
        },
{
    chrono::NaiveDate::parse_from_str(s, "%Y-%m-%d").ok().map(|x| x.num_days_from_ce())
}

/// `chrono::NaiveDate::format` with `%Y-%m-%d`: the year of four digits, or with
/// its sign where it has more or is negative, then the month and the day of two
/// digits. Reading the text with the same format gives the date back; the text
/// holds no `T`.
#[verifier::external_body]
fn format_days(n: i32) -> (r: Option<String>)
    ensures
        match r {
            Some(t) => in_calendar(n as int) && t@ == date_text(n as int) && parsed_date(t@)
                == Some(n as int) && !t@.contains('T'),
            None => !in_calendar(n as int),
        },
{
    chrono::NaiveDate::from_num_days_from_ce_opt(n).map(|x| x.format("%Y-%m-%d").to_string())
}

/// The day of the week of a day number, counted from Sunday.
pub open spec fn weekday_of(n: int) -> int {
    n % 7
}

/// How many days `day` comes after `first` in a week that starts there.
pub open spec fn offset_in_week(first: int, day: int) -> int {
    (day - first) % 7
}

impl Date {
    /// Whether the date lies in the calendar's range.
    pub open spec fn wf(self) -> bool {
        in_calendar(self.days as int)
    }

    /// The date with the given year, month and day of month, if it exists.
    pub fn from_ymd(y: i32, m: u32, d: u32) -> (r: Option<Date>)
        ensures
            match r {
                Some(x) => day_of(y as int, m as int, d as int) == Some(x.days as int) && x.wf()
                    && civil_of(x.days as int) == (y as int, m as int, d as int),
                None => day_of(y as int, m as int, d as int) is None,
            },
    {
        match ymd_days(y, m, d) {
            Some(n) => {
                proof {
                    days_have_one_date(y as int, m as int, d as int);
                }
                Some(Date { days: n })
            },
            None => None,
        }
    }

    /// Year, month and day of month.
    pub fn ymd(&self) -> (r: (i32, u32, u32))
        requires
            self.wf(),
        ensures
            civil_of(self.days as int) == (r.0 as int, r.1 as int, r.2 as int),
            valid_ymd(r.0 as int, r.1 as int, r.2 as int),
            day_number(r.0 as int, r.1 as int, r.2 as int) == self.days,
    {
        match days_ymd(self.days) {
            Some(p) => {
                proof {
                    days_have_one_date(p.0 as int, p.1 as int, p.2 as int);
                }
                p
            },
            None => {
                assert(false);
                (0, 0, 0)
            },
        }
    }

    /// Reads a date as `%Y-%m-%d`.
    pub fn parse(s: &str) -> (r: Option<Date>)
        ensures
            match r {
                Some(x) => parsed_date(s@) == Some(x.days as int) && x.wf(),
                None => parsed_date(s@) is None,
            },
    {
        match parse_days(s) {
            Some(n) => Some(Date { days: n }),
            None => None,
        }
    }

    /// Writes the date as `%Y-%m-%d`.
    pub fn format(&self) -> (r: String)
        requires
            self.wf(),
        ensures
            r@ == date_text(self.days as int),
            parsed_date(r@) == Some(self.days as int),
            !r@.contains('T'),
    {
        match format_days(self.days) {
            Some(t) => t,
            None => {
                assert(false);
                String::new()
            },
        }
    }

    /// The day of the week, counted from Sunday.
    pub fn weekday(&self) -> (w: u32)
        ensures
            w == weekday_of(self.days as int),
            w < 7,
    {
        weekday_number(self.days as i64)
    }
}

/// The remainder of a number by seven.
fn weekday_number(n: i64) -> (w: u32)
    requires
        i32::MIN <= n <= i32::MAX,
    ensures
        w == n as int % 7,
        w < 7,
{
    let up: i64 = n + 7_000_000_000;
    assert((n as int + 7_000_000_000) % 7 == n as int % 7);
    (up % 7) as u32
}

/// How many days `day` comes after `first`.
pub fn week_offset(first: u32, day: u32) -> (r: u32)
    requires
        first < 7,
        day < 7,
    ensures
        r == offset_in_week(first as int, day as int),
        r < 7,
{
    assert((day + 7 - first) % 7 == (day - first) % 7);
    (day + 7 - first) % 7
}

/// The first and the last day number of the calendar's range.
pub const MIN_DAYS: i32 = -95746129;

pub const MAX_DAYS: i32 = 95745399;

proof fn lemma_days_before_month(y: int, m: int)
    requires
        1 <= m <= 12,
    ensures
        days_before_month(y, m) == 31 * (m - 1) - (if m > 2 {
            if is_leap(y) {
                2int
            } else {
                3int
            }
        } else {
            0
        }) - (if m > 4 {
            1int
        } else {
            0
        }) - (if m > 6 {
            1int
        } else {
            0
        }) - (if m > 9 {
            1int
        } else {
            0
        }) - (if m > 11 {
            1int
        } else {
            0
        }),
{
    reveal_with_fuel(days_before_month, 13);
}

/// How many days pass before a year starts.
pub open spec fn days_before_year(y: int) -> int {
    365 * (y - 1) + (y - 1) / 4 - (y - 1) / 100 + (y - 1) / 400
}

proof fn lemma_quotient_step(y: int, k: int)
    requires
        k > 1,
    ensures
        y / k == (y - 1) / k + (if y % k == 0 {
            1int
        } else {
            0
        }),
{
    let q = y / k;
    let r = y % k;
    vstd::arithmetic::div_mod::lemma_fundamental_div_mod(y, k);
    if r == 0 {
        assert(y - 1 == (q - 1) * k + (k - 1)) by (nonlinear_arith)
            requires
                y == k * q + r,
                r == 0,
        ;
        vstd::arithmetic::div_mod::lemma_fundamental_div_mod_converse(y - 1, k, q - 1, k - 1);
    } else {
        assert(y - 1 == q * k + (r - 1)) by (nonlinear_arith)
            requires
                y == k * q + r,
        ;
        vstd::arithmetic::div_mod::lemma_fundamental_div_mod_converse(y - 1, k, q, r - 1);
    }
}

proof fn lemma_next_year(y: int)
    ensures
        days_before_year(y + 1) == days_before_year(y) + 365 + (if is_leap(y) {
            1int
        } else {
            0
        }),
{
    lemma_quotient_step(y, 4);
    lemma_quotient_step(y, 100);
    lemma_quotient_step(y, 400);
    assert(y % 400 == 0 ==> y % 100 == 0);
    assert(y % 100 == 0 ==> y % 4 == 0);
}

proof fn lemma_years_grow(a: int, b: int)
    requires
        a <= b,
    ensures
        days_before_year(a) <= days_before_year(b),
    decreases b - a,
{
    if a < b {
        lemma_years_grow(a, b - 1);
        lemma_next_year(b - 1);
    }
}

proof fn lemma_day_in_year(y: int, m: int, d: int)
    requires
        1 <= m <= 12,
        1 <= d <= month_days(y, m),
    ensures
        days_before_year(y) < day_number(y, m, d) <= days_before_year(y + 1),
{
    lemma_days_before_month(y, m);
    lemma_next_year(y);
}

/// No two days of the calendar have one number: the date of a day's number is
/// the day's.
pub proof fn days_have_one_date(y: int, m: int, d: int)
    requires
        valid_ymd(y, m, d),
    ensures
        civil_of(day_number(y, m, d)) == (y, m, d),
{
    reveal(civil_of);
    let n = day_number(y, m, d);
    let p = (y, m, d);
    assert(valid_ymd(p.0, p.1, p.2) && day_number(p.0, p.1, p.2) == n);
    let (y1, m1, d1) = civil_of(n);
    assert(valid_ymd(y1, m1, d1) && day_number(y1, m1, d1) == n);
    lemma_day_in_year(y, m, d);
    lemma_day_in_year(y1, m1, d1);
    if y < y1 {
        lemma_years_grow(y + 1, y1);
    } else if y1 < y {
        lemma_years_grow(y1 + 1, y);
    }
    lemma_days_before_month(y, m);
    lemma_days_before_month(y, m1);
}

/// Every day number of the calendar's range is that of a date.
pub proof fn every_day_has_a_date(n: int)
    requires
        in_calendar(n),
    ensures
        valid_ymd(civil_of(n).0, civil_of(n).1, civil_of(n).2),
        day_number(civil_of(n).0, civil_of(n).1, civil_of(n).2) == n,
    decreases n - MIN_DAYS,
{
    lemma_calendar_range();
    if n == MIN_DAYS {
        lemma_days_before_month(MIN_YEAR as int, 1);
        days_have_one_date(MIN_YEAR as int, 1, 1);
    } else {
        assert(in_calendar(n - 1));
        every_day_has_a_date(n - 1);
        let (y, m, d) = civil_of(n - 1);
        lemma_days_before_month(y, m);
        lemma_days_before_month(MAX_YEAR as int, 12);
        if d < month_days(y, m) {
            days_have_one_date(y, m, d + 1);
        } else if m < 12 {
            assert(day_number(y, m + 1, 1) == n);
            days_have_one_date(y, m + 1, 1);
        } else {
            lemma_next_year(y);
            assert(days_before_month(y + 1, 1) == 0);
            assert(day_number(y + 1, 1, 1) == n);
            days_have_one_date(y + 1, 1, 1);
        }
    }
}

/// Days of a later month come later, and the first day of a month comes no
/// later than its others.
pub proof fn months_follow_one_another(y1: int, m1: int, d1: int, y2: int, m2: int, d2: int)
    requires
        1 <= m1 <= 12,
        1 <= m2 <= 12,
        1 <= d1 <= month_days(y1, m1),
        1 <= d2 <= month_days(y2, m2),
        12 * y1 + m1 < 12 * y2 + m2 || (y1 == y2 && m1 == m2 && d1 < d2),
    ensures
        day_number(y1, m1, d1) < day_number(y2, m2, d2),
{
    lemma_day_in_year(y1, m1, d1);
    lemma_day_in_year(y2, m2, d2);
    if y1 < y2 {
        lemma_years_grow(y1 + 1, y2);
    } else {
        lemma_days_before_month(y1, m1);
        lemma_days_before_month(y1, m2);
    }
}

/// The range of the calendar in numbers.
pub proof fn lemma_calendar_range()
    ensures
        forall|n: int| #[trigger] in_calendar(n) <==> MIN_DAYS <= n <= MAX_DAYS,
{
    lemma_days_before_month(MIN_YEAR as int, 1);
    lemma_days_before_month(MAX_YEAR as int, 12);
}

/// The date `n` days later, if it lies in the calendar's range.
pub fn plus_days(days: i32, n: i128) -> (r: Option<Date>)
    requires
        -0x1_0000_0000_0000_0000_0000 <= n <= 0x1_0000_0000_0000_0000_0000,
    ensures
        match r {
            Some(x) => x.days == days + n && x.wf(),
            None => !in_calendar(days + n),
        },
{
    proof {
        lemma_calendar_range();
    }
    let t: i128 = days as i128 + n;
    assert(in_calendar(t as int) <==> MIN_DAYS <= t <= MAX_DAYS);
    if t >= MIN_DAYS as i128 && t <= MAX_DAYS as i128 {
        Some(Date { days: t as i32 })
    } else {
        None
    }
}

/// The last day of a month, if the first day of the next month is in the
/// calendar's range.
pub open spec fn last_of_month(y: int, m: int) -> Option<int> {
    if (if m == 12 {
        valid_ymd(y + 1, 1, 1)
    } else {
        valid_ymd(y, m + 1, 1)
    }) {
        Some(month_days(y, m))
    } else {
        None
    }
}

/// The given day of a month, or the month's last day where it is shorter.
pub open spec fn clamped(y: int, m: int, d: int) -> Option<int> {
    if 1 <= m <= 12 {
        match last_of_month(y, m) {
            Some(last) => day_of(
                y,
                m,
                if d < last {
                    d
                } else {
                    last
                },
            ),
            None => None,
        }
    } else {
        None
    }
}

fn leap(y: i32) -> (r: bool)
    requires
        MIN_YEAR <= y <= MAX_YEAR,
    ensures
        r == is_leap(y as int),
{
    let up: i32 = y + 400_000;
    assert((y as int + 400_000) % 4 == y as int % 4);
    assert((y as int + 400_000) % 100 == y as int % 100);
    assert((y as int + 400_000) % 400 == y as int % 400);
    up % 4 == 0 && (up % 100 != 0 || up % 400 == 0)
}

/// The number of days in a month.
pub fn last_day_of_month(y: i32, m: u32) -> (r: Option<u32>)
    requires
        MIN_YEAR <= y <= MAX_YEAR,
        1 <= m <= 12,
    ensures
        match r {
            Some(d) => last_of_month(y as int, m as int) == Some(d as int) && 28 <= d <= 31,
            None => last_of_month(y as int, m as int) is None,
        },
{
    if m == 12 && y == MAX_YEAR {
        return None;
    }
    if m == 2 {
        if leap(y) {
            Some(29)
        } else {
            Some(28)
        }
    } else if m == 4 || m == 6 || m == 9 || m == 11 {
        Some(30)
    } else {
        Some(31)
    }
}

/// The given day of a month, or the month's last day where it is shorter.
pub fn clamped_day(y: i32, m: u32, d: u32) -> (r: Option<Date>)
    requires
        MIN_YEAR <= y <= MAX_YEAR,
    ensures
        match r {
            Some(x) => clamped(y as int, m as int, d as int) == Some(x.days as int) && x.wf(),
            None => clamped(y as int, m as int, d as int) is None,
        },
{
    if m < 1 || m > 12 {
        return None;
    }
    match last_day_of_month(y, m) {
        Some(last) => {
            let day: u32 = if d < last {
                d
            } else {
                last
            };
            Date::from_ymd(y, m, day)
        },
        None => None,
    }
}

/// A number reduced to 32 bits with a sign.
pub open spec fn wrapped_i32(n: int) -> int {
    (n + 0x8000_0000) % 0x1_0000_0000 - 0x8000_0000
}

/// The first of the month that lies `months` months after month `m` of the
/// year `y`.
pub open spec fn month_later(y: int, m: int, months: int) -> Option<int> {
    let total = 12 * y + (m - 1) + months;
    day_of(wrapped_i32(total / 12), total % 12 + 1, 1)
}

pub fn wrap_i32(n: i128) -> (r: i32)
    requires
        -0x1_0000_0000_0000_0000_0000 <= n <= 0x1_0000_0000_0000_0000_0000,
    ensures
        r == wrapped_i32(n as int),
{
    let up: i128 = n + 0x8000_0000 + 0x1_0000_0000_0000_0000_0000_0000;
    assert((n as int + 0x8000_0000 + 0x1_0000_0000_0000_0000_0000_0000) % 0x1_0000_0000 == (n as int
        + 0x8000_0000) % 0x1_0000_0000);
    ((up % 0x1_0000_0000) - 0x8000_0000) as i32
}

/// The first of the month `months` months later, if it is in the calendar's
/// range.
pub fn add_months(y: i32, m: u32, months: i64) -> (r: Option<Date>)
    requires
        MIN_YEAR <= y <= MAX_YEAR,
        1 <= m <= 12,
    ensures
        match r {
            Some(x) => month_later(y as int, m as int, months as int) == Some(x.days as int)
                && x.wf(),
            None => month_later(y as int, m as int, months as int) is None,
        },
{
    let total: i128 = (y as i128) * 12 + (m as i128 - 1) + months as i128;
    let up: i128 = total + 12_000_000_000_000_000_000_000;
    let quotient: i128 = up / 12 - 1_000_000_000_000_000_000_000;
    let rest: i128 = up % 12;
    assert(quotient == total as int / 12 && rest == total as int % 12);
    let year: i32 = wrap_i32(quotient);
    Date::from_ymd(year, (rest + 1) as u32, 1)
}

/// The days of a month's first `n` days that fall on one of the given days of
/// the week, in order.
pub open spec fn matching_days(first: int, n: nat, days: Seq<u32>) -> Seq<int>
    decreases n,
{
    if n == 0 {
        Seq::empty()
    } else {
        let rest = matching_days(first, (n - 1) as nat, days);
        let d = first + n - 1;
        if days.contains(weekday_of(d) as u32) {
            rest.push(d)
        } else {
            rest
        }
    }
}

/// Which of a month's matching days an index names.
pub open spec fn picked(v: Seq<int>, index: Seq<char>) -> Option<int> {
    let name = text::lowered(index);
    let at = if name == "second"@ {
        1int
    } else if name == "third"@ {
        2
    } else if name == "fourth"@ {
        3
    } else if name == "last"@ {
        v.len() - 1
    } else {
        0
    };
    if 0 <= at < v.len() {
        Some(v[at])
    } else {
        None
    }
}

/// The day of a month that an index names among those that fall on one of the
/// given days of the week.
pub open spec fn nth_weekday(y: int, m: int, days: Seq<u32>, index: Seq<char>) -> Option<int> {
    if days.len() > 0 && 1 <= m <= 12 {
        match last_of_month(y, m) {
            Some(last) => picked(matching_days(day_number(y, m, 1), last as nat, days), index),
            None => None,
        }
    } else {
        None
    }
}

fn day_among(days: &Vec<u32>, d: u32) -> (r: bool)
    ensures
        r == days@.contains(d),
{
    let mut i: usize = 0;
    while i < days.len()
        invariant
            i <= days@.len(),
            forall|k: int| 0 <= k < i ==> days@[k] != d,
        decreases days@.len() - i,
    {
        if days[i] == d {
            return true;
        }
        i = i + 1;
    }
    false
}

/// Day numbers as mathematical integers.
pub open spec fn day_seq(v: Seq<Date>) -> Seq<int> {
    Seq::new(v.len(), |i: int| v[i].days as int)
}

proof fn lemma_month_in_range(y: int, m: int, d: int)
    requires
        valid_ymd(y, m, d),
    ensures
        in_calendar(day_number(y, m, d)),
{
    lemma_calendar_range();
    lemma_days_before_month(y, m);
    assert(in_calendar(day_number(y, m, d)) <==> MIN_DAYS <= day_number(y, m, d) <= MAX_DAYS);
}

/// The day of a month that an index names among those that fall on one of the
/// given days of the week.
pub fn nth_weekday_of_month(y: i32, m: u32, days: &Vec<u32>, index: &str) -> (r: Option<Date>)
    requires
        MIN_YEAR <= y <= MAX_YEAR,
    ensures
        match r {
            Some(x) => nth_weekday(y as int, m as int, days@, index@) == Some(x.days as int)
                && x.wf(),
            None => nth_weekday(y as int, m as int, days@, index@) is None,
        },
{
    if days.len() == 0 || m < 1 || m > 12 {
        return None;
    }
    let last: u32 = match last_day_of_month(y, m) {
        Some(d) => d,
        None => {
            return None;
        },
    };
    let first: Date = match Date::from_ymd(y, m, 1) {
        Some(d) => d,
        None => {
            assert(valid_ymd(y as int, m as int, 1));
            return None;
        },
    };
    let mut found: Vec<Date> = Vec::new();
    let mut n: u32 = 0;
    assert(day_seq(found@) =~= matching_days(first.days as int, 0, days@));
    while n < last
        invariant
            n <= last <= 31,
            MIN_YEAR <= y <= MAX_YEAR,
            1 <= m <= 12,
            last == month_days(y as int, m as int),
            first.days == day_number(y as int, m as int, 1),
            day_seq(found@) == matching_days(first.days as int, n as nat, days@),
            forall|k: int| 0 <= k < found@.len() ==> (#[trigger] found@[k]).wf(),
        decreases last - n,
    {
        proof {
            lemma_calendar_range();
            lemma_month_in_range(y as int, m as int, n + 1);
            assert(in_calendar(first.days + n));
        }
        let d: Date = Date { days: first.days + n as i32 };
        let w: u32 = d.weekday();
        if day_among(days, w) {
            let ghost before = day_seq(found@);
            found.push(d);
            assert(day_seq(found@) =~= before.push(d.days as int));
        }
        n = n + 1;
    }
    let name: String = text::to_lower(index);
    let at: usize = if text::same(name.as_str(), "second") {
        1
    } else if text::same(name.as_str(), "third") {
        2
    } else if text::same(name.as_str(), "fourth") {
        3
    } else if text::same(name.as_str(), "last") {
        if found.len() == 0 {
            return None;
        }
        found.len() - 1
    } else {
        0
    };
    if at < found.len() {
        Some(found[at])
    } else {
        None
    }
}

} // verus!

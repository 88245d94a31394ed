//! The dates on which a recurring event falls.

use crate::civil;
use crate::civil::Date;
use crate::exchange_graph::recurrence;
use crate::json;
use crate::json::{Json, Members, NumberVal, Val};
use crate::text;
use vstd::prelude::*;

verus! {

/// How many periods are looked at, at most.
pub const MAX_STEPS: u32 = 200_000;

/// The kinds of pattern.
#[derive(Clone, Copy, PartialEq, Eq, Structural, Debug)]
pub enum Kind {
    Daily,
    Weekly,
    AbsoluteMonthly,
    RelativeMonthly,
    AbsoluteYearly,
    RelativeYearly,
}

/// A recurrence, read.
#[derive(Debug)]
pub struct Series {
    pub kind: Kind,
    pub start: i32,
    pub limit: Option<i32>,
    pub count: Option<u64>,
    pub interval: i64,
    pub days: Vec<u32>,
    pub first: u32,
    pub day_of_month: Option<u64>,
    pub month: Option<u64>,
    pub index: String,
}

/// A recurrence as a mathematical value.
#[verifier::ext_equal]
pub struct SeriesVal {
    pub kind: Kind,
    pub start: int,
    pub limit: Option<int>,
    pub count: Option<nat>,
    pub interval: int,
    pub days: Seq<u32>,
    pub first: u32,
    pub day_of_month: Option<nat>,
    pub month: Option<nat>,
    pub index: Seq<char>,
}

pub open spec fn opt_int(n: Option<i32>) -> Option<int> {
    match n {
        Some(x) => Some(x as int),
        None => None,
    }
}

pub open spec fn opt_nat(n: Option<u64>) -> Option<nat> {
    match n {
        Some(x) => Some(x as nat),
        None => None,
    }
}

impl View for Series {
    type V = SeriesVal;

    open spec fn view(&self) -> SeriesVal {
        SeriesVal {
            kind: self.kind,
            start: self.start as int,
            limit: opt_int(self.limit),
            count: opt_nat(self.count),
            interval: self.interval as int,
            days: self.days@,
            first: self.first,
            day_of_month: opt_nat(self.day_of_month),
            month: opt_nat(self.month),
            index: self.index@,
        }
    }
}

/// The kind of pattern with a given name.
pub open spec fn kind_named(t: Seq<char>) -> Option<Kind> {
    if t == "daily"@ {
        Some(Kind::Daily)
    } else if t == "weekly"@ {
        Some(Kind::Weekly)
    } else if t == "absoluteMonthly"@ {
        Some(Kind::AbsoluteMonthly)
    } else if t == "relativeMonthly"@ {
        Some(Kind::RelativeMonthly)
    } else if t == "absoluteYearly"@ {
        Some(Kind::AbsoluteYearly)
    } else if t == "relativeYearly"@ {
        Some(Kind::RelativeYearly)
    } else {
        None
    }
}

/// The date at the start of a member's text, before any `T`.
pub open spec fn date_at(v: Val, key: Seq<char>) -> Option<int> {
    match v.text_at(key) {
        Some(t) => civil::parsed_date(text::split_by(t, 'T')[0]),
        None => None,
    }
}

/// The unsigned integer of a member.
pub open spec fn unsigned_at(v: Val, key: Seq<char>) -> Option<nat> {
    match v.get(key) {
        Some(x) => match x.as_u64() {
            Some(n) => Some(n as nat),
            None => None,
        },
        None => None,
    }
}

/// An unsigned 64-bit number with its highest bit read as a sign.
pub open spec fn signed_64(n: nat) -> int {
    if n <= i64::MAX {
        n as int
    } else {
        n - 0x1_0000_0000_0000_0000
    }
}

/// The step of a pattern: one, unless a positive number is given.
pub open spec fn interval_of(pattern: Val) -> int {
    match unsigned_at(pattern, "interval"@) {
        Some(n) => if n > 0 {
            signed_64(n)
        } else {
            1
        },
        None => 1,
    }
}

/// The positive number of events of a range, if it gives one.
pub open spec fn count_of(range: Val) -> Option<nat> {
    match unsigned_at(range, "numberOfOccurrences"@) {
        Some(n) => if n > 0 {
            Some(n)
        } else {
            None
        },
        None => None,
    }
}

/// The day on which a pattern's weeks start: Sunday, unless it names another.
pub open spec fn first_day_of(pattern: Val) -> u32 {
    match pattern.text_at("firstDayOfWeek"@) {
        Some(t) => match recurrence::day_named(t) {
            Some(d) => d,
            None => 0,
        },
        None => 0,
    }
}

/// The index of a pattern: the first, unless it gives another.
pub open spec fn index_of(pattern: Val) -> Seq<char> {
    match pattern.text_at("index"@) {
        Some(t) => t,
        None => "first"@,
    }
}

/// What a recurrence says, if it has a pattern of a known kind and a range
/// with a start date.
pub open spec fn series_of(rec: Val) -> Option<SeriesVal> {
    match (rec.get("pattern"@), rec.get("range"@)) {
        (Some(pattern), Some(range)) => match (
            date_at(range, "startDate"@),
            pattern.text_at("type"@),
        ) {
            (Some(start), Some(t)) => match kind_named(t) {
                Some(kind) => Some(
                    SeriesVal {
                        kind,
                        start,
                        limit: date_at(range, "endDate"@),
                        count: count_of(range),
                        interval: interval_of(pattern),
                        days: recurrence::pattern_days(pattern),
                        first: first_day_of(pattern),
                        day_of_month: unsigned_at(pattern, "dayOfMonth"@),
                        month: unsigned_at(pattern, "month"@),
                        index: index_of(pattern),
                    },
                ),
                None => None,
            },
            _ => None,
        },
        _ => None,
    }
}

/// The start of the week in which a day lies.
pub open spec fn week_start(s: SeriesVal, cursor: int) -> int {
    cursor - civil::offset_in_week(s.first as int, civil::weekday_of(cursor))
}

/// The dates that the days of a series name in the week that starts with a
/// given day.
pub open spec fn week_dates(s: SeriesVal, start: int) -> Seq<int> {
    Seq::new(
        s.days.len(),
        |i: int| start + civil::offset_in_week(s.first as int, s.days[i] as int),
    )
}

/// At most one date.
pub open spec fn date_if(d: Option<int>) -> Seq<int> {
    match d {
        Some(x) => seq![x],
        None => Seq::empty(),
    }
}

/// The lower 32 bits of a number.
pub open spec fn low_32(n: nat) -> int {
    n as int % 0x1_0000_0000
}

/// The dates that a series names in the period of a given day, or nothing if
/// it does not say enough or the period leaves the calendar.
pub open spec fn period_dates(s: SeriesVal, cursor: int) -> Option<Seq<int>> {
    let (y, m, _) = civil::civil_of(cursor);
    match s.kind {
        Kind::Daily => Some(seq![cursor]),
        Kind::Weekly => {
            let start = week_start(s, cursor);
            if s.days.len() > 0 && civil::in_calendar(start) && (forall|i: int|
                0 <= i < s.days.len() ==> civil::in_calendar(#[trigger] week_dates(s, start)[i])) {
                Some(week_dates(s, start))
            } else {
                None
            }
        },
        Kind::AbsoluteMonthly => match s.day_of_month {
            Some(d) => Some(date_if(civil::clamped(y, m, low_32(d)))),
            None => None,
        },
        Kind::RelativeMonthly => Some(date_if(civil::nth_weekday(y, m, s.days, s.index))),
        Kind::AbsoluteYearly => match (s.month, s.day_of_month) {
            (Some(month), Some(d)) => Some(date_if(civil::clamped(y, low_32(month), low_32(d)))),
            _ => None,
        },
        Kind::RelativeYearly => match s.month {
            Some(month) => Some(
                date_if(civil::nth_weekday(y, low_32(month), s.days, s.index)),
            ),
            None => None,
        },
    }
}

/// A day number, if it lies in the calendar's range.
pub open spec fn in_range(n: int) -> Option<int> {
    if civil::in_calendar(n) {
        Some(n)
    } else {
        None
    }
}

/// A day of the period that comes `interval` periods later.
pub open spec fn next_period(s: SeriesVal, cursor: int) -> Option<int> {
    let (y, m, _) = civil::civil_of(cursor);
    match s.kind {
        Kind::Daily => in_range(cursor + s.interval),
        Kind::Weekly => in_range(week_start(s, cursor) + 7 * s.interval),
        Kind::AbsoluteMonthly => civil::month_later(y, m, s.interval),
        Kind::RelativeMonthly => civil::month_later(y, m, s.interval),
        Kind::AbsoluteYearly => civil::day_of(y + civil::wrapped_i32(s.interval), 1, 1),
        Kind::RelativeYearly => civil::day_of(y + civil::wrapped_i32(s.interval), 1, 1),
    }
}

/// Whether a date lies between the start and the end of a series.
pub open spec fn within(s: SeriesVal, d: int) -> bool {
    s.start <= d && (s.limit matches Some(end) ==> d <= end)
}

/// The dates of a sequence that lie within a series.
pub open spec fn accepted(s: SeriesVal, dates: Seq<int>) -> Seq<int>
    decreases dates.len(),
{
    if dates.len() == 0 {
        Seq::empty()
    } else {
        let rest = accepted(s, dates.drop_last());
        if within(s, dates.last()) {
            rest.push(dates.last())
        } else {
            rest
        }
    }
}

/// Whether a series ends after `emitted` dates when its next period starts at
/// `cursor`, or the window does.
pub open spec fn finished(s: SeriesVal, window_end: int, emitted: nat, cursor: int) -> bool {
    ||| s.count matches Some(n) && emitted >= n
    ||| s.limit matches Some(end) && cursor > end
    ||| cursor > window_end
}

/// The dates of a series from the period of `cursor` on, for at most `steps`
/// periods, after those already found.
pub open spec fn walk(
    s: SeriesVal,
    window_end: int,
    cursor: int,
    found: Seq<int>,
    steps: nat,
) -> Option<Seq<int>>
    decreases steps,
{
    if steps == 0 {
        Some(found)
    } else {
        match (period_dates(s, cursor), next_period(s, cursor)) {
            (Some(dates), Some(next)) => {
                let more = found + accepted(s, dates);
                if finished(s, window_end, more.len(), next) {
                    Some(more)
                } else {
                    walk(s, window_end, next, more, (steps - 1) as nat)
                }
            },
            _ => None,
        }
    }
}

/// The dates of a recurrence up to the end of a window, in the order in which
/// its periods name them.
pub open spec fn series_dates(rec: Val, window_end: int) -> Option<Seq<int>> {
    match series_of(rec) {
        Some(s) => walk(s, window_end, s.start, Seq::empty(), MAX_STEPS as nat),
        None => None,
    }
}

/// Whether each number is greater than those before it.
pub open spec fn increasing(v: Seq<int>) -> bool {
    forall|i: int, j: int| 0 <= i < j < v.len() ==> v[i] < v[j]
}

fn date_of(v: &Json, key: &str) -> (r: Option<i32>)
    ensures
        opt_int(r) == date_at(v@, key@),
        r matches Some(n) ==> civil::in_calendar(n as int),
{
    match v.text_at(key) {
        Some(t) => {
            let parts: Vec<String> = text::split(t, 'T');
            assert(text::texts(parts@)[0] == parts@[0]@);
            match Date::parse(parts[0].as_str()) {
                Some(d) => Some(d.days),
                None => None,
            }
        },
        None => None,
    }
}

fn unsigned_member(v: &Json, key: &str) -> (r: Option<u64>)
    ensures
        opt_nat(r) == unsigned_at(v@, key@),
{
    match v.get(key) {
        Some(x) => x.as_u64(),
        None => None,
    }
}

fn as_signed(n: u64) -> (r: i64)
    ensures
        r == signed_64(n as nat),
{
    if n <= 0x7fff_ffff_ffff_ffff {
        n as i64
    } else {
        (n as i128 - 0x1_0000_0000_0000_0000) as i64
    }
}

fn kind_of(t: &str) -> (r: Option<Kind>)
    ensures
        r == kind_named(t@),
{
    if text::same(t, "daily") {
        Some(Kind::Daily)
    } else if text::same(t, "weekly") {
        Some(Kind::Weekly)
    } else if text::same(t, "absoluteMonthly") {
        Some(Kind::AbsoluteMonthly)
    } else if text::same(t, "relativeMonthly") {
        Some(Kind::RelativeMonthly)
    } else if text::same(t, "absoluteYearly") {
        Some(Kind::AbsoluteYearly)
    } else if text::same(t, "relativeYearly") {
        Some(Kind::RelativeYearly)
    } else {
        None
    }
}

fn first_day_of_week(pattern: &Json) -> (r: u32)
    ensures
        r == first_day_of(pattern@),
        r < 7,
{
    match pattern.text_at("firstDayOfWeek") {
        Some(t) => match recurrence::parse_weekday(t) {
            Some(d) => d,
            None => 0,
        },
        None => 0,
    }
}

/// Reads what a recurrence says.
pub fn read_series(rec: &Json) -> (r: Option<Series>)
    ensures
        match r {
            Some(s) => series_of(rec@) == Some(s@) && civil::in_calendar(s.start as int) && s.first
                < 7 && forall|i: int| 0 <= i < s.days@.len() ==> #[trigger] s.days@[i] < 7,
            None => series_of(rec@) is None,
        },
{
    let pattern: &Json = match rec.get("pattern") {
        Some(p) => p,
        None => {
            return None;
        },
    };
    let range: &Json = match rec.get("range") {
        Some(p) => p,
        None => {
            return None;
        },
    };
    let start: i32 = match date_of(range, "startDate") {
        Some(d) => d,
        None => {
            return None;
        },
    };
    let kind: Kind = match pattern.text_at("type") {
        Some(t) => match kind_of(t) {
            Some(k) => k,
            None => {
                return None;
            },
        },
        None => {
            return None;
        },
    };
    let count: Option<u64> = match unsigned_member(range, "numberOfOccurrences") {
        Some(n) => if n > 0 {
            Some(n)
        } else {
            None
        },
        None => None,
    };
    let interval: i64 = match unsigned_member(pattern, "interval") {
        Some(n) => if n > 0 {
            as_signed(n)
        } else {
            1
        },
        None => 1,
    };
    let index: String = match pattern.text_at("index") {
        Some(t) => t.to_owned(),
        None => "first".to_owned(),
    };
    let s: Series = Series {
        kind,
        start,
        limit: date_of(range, "endDate"),
        count,
        interval,
        days: recurrence::weekdays(pattern),
        first: first_day_of_week(pattern),
        day_of_month: unsigned_member(pattern, "dayOfMonth"),
        month: unsigned_member(pattern, "month"),
        index,
    };
    assert(s@ =~= series_of(rec@)->0);
    Some(s)
}

/// Adds a date to an increasing list, unless it is there.
fn insert_date(out: &mut Vec<Date>, d: Date)
    requires
        increasing(civil::day_seq(old(out)@)),
    ensures
        increasing(civil::day_seq(final(out)@)),
        forall|x: int|
            civil::day_seq(final(out)@).contains(x) <==> civil::day_seq(old(out)@).contains(x) || x
                == d.days,
{
    let ghost before = civil::day_seq(out@);
    let mut i: usize = out.len();
    while i > 0 && out[i - 1].days > d.days
        invariant
            i <= out@.len(),
            before == civil::day_seq(out@),
            increasing(before),
            forall|k: int| i <= k < before.len() ==> before[k] > d.days,
        decreases i,
    {
        i = i - 1;
    }
    if i > 0 && out[i - 1].days == d.days {
        assert(before[i as int - 1] == d.days);
        return;
    }
    out.insert(i, d);
    proof {
        let after = civil::day_seq(out@);
        assert(after =~= before.insert(i as int, d.days as int));
        if i > 0 {
            assert(before[i as int - 1] < d.days);
        }
        assert forall|a: int, b: int| 0 <= a < b < after.len() implies after[a] < after[b] by {
            let x = if a < i {
                a
            } else {
                a - 1
            };
            let y = if b < i {
                b
            } else {
                b - 1
            };
            if a == i {
                assert(after[b] == before[b - 1]);
            } else if b == i {
                assert(after[a] == before[a]);
                assert(before[a] <= before[i as int - 1]);
            } else {
                assert(after[a] == before[x] && after[b] == before[y]);
            }
        }
        assert forall|x: int| after.contains(x) <==> before.contains(x) || x == d.days by {
            if before.contains(x) {
                let k = choose|k: int| 0 <= k < before.len() && before[k] == x;
                if k < i {
                    assert(after[k] == x);
                } else {
                    assert(after[k + 1] == x);
                }
            }
            if x == d.days {
                assert(after[i as int] == x);
            }
            if after.contains(x) && x != d.days {
                let k = choose|k: int| 0 <= k < after.len() && after[k] == x;
                if k < i {
                    assert(before[k] == x);
                } else {
                    assert(before[k - 1] == x);
                }
            }
        }
    }
}

fn dates_in_period(s: &Series, cursor: Date) -> (r: Option<Vec<Date>>)
    requires
        cursor.wf(),
        s.first < 7,
        forall|i: int| 0 <= i < s.days@.len() ==> #[trigger] s.days@[i] < 7,
    ensures
        match r {
            Some(v) => period_dates(s@, cursor.days as int) == Some(civil::day_seq(v@)),
            None => period_dates(s@, cursor.days as int) is None,
        },
{
    let (y, m, _d) = cursor.ymd();
    let mut out: Vec<Date> = Vec::new();
    match s.kind {
        Kind::Daily => {
            out.push(cursor);
            assert(civil::day_seq(out@) =~= seq![cursor.days as int]);
            Some(out)
        },
        Kind::Weekly => {
            if s.days.len() == 0 {
                return None;
            }
            let back: u32 = civil::week_offset(s.first, cursor.weekday());
            let start: Date = match civil::plus_days(cursor.days, 0 - (back as i128)) {
                Some(d) => d,
                None => {
                    return None;
                },
            };
            let ghost dates = week_dates(s@, start.days as int);
            let mut i: usize = 0;
            while i < s.days.len()
                invariant
                    i <= s.days@.len(),
                    s.first < 7,
                    forall|k: int| 0 <= k < s.days@.len() ==> #[trigger] s.days@[k] < 7,
                    start.days == week_start(s@, cursor.days as int),
                    dates == week_dates(s@, start.days as int),
                    civil::day_seq(out@) == dates.take(i as int),
                    forall|k: int| 0 <= k < i ==> civil::in_calendar(#[trigger] dates[k]),
                    s.kind == Kind::Weekly,
                decreases s.days@.len() - i,
            {
                let offset: u32 = civil::week_offset(s.first, s.days[i]);
                assert(dates[i as int] == start.days + offset);
                match civil::plus_days(start.days, offset as i128) {
                    Some(d) => {
                        let ghost prev = civil::day_seq(out@);
                        out.push(d);
                        assert(civil::day_seq(out@) =~= prev.push(dates[i as int]));
                        assert(prev.push(dates[i as int]) =~= dates.take(i as int + 1));
                    },
                    None => {
                        return None;
                    },
                }
                i = i + 1;
            }
            assert(dates.take(i as int) =~= dates);
            Some(out)
        },
        Kind::AbsoluteMonthly => match s.day_of_month {
            Some(d) => {
                push_if(&mut out, civil::clamped_day(y, m, (d % 0x1_0000_0000) as u32));
                Some(out)
            },
            None => None,
        },
        Kind::RelativeMonthly => {
            push_if(
                &mut out,
                civil::nth_weekday_of_month(y, m, &s.days, s.index.as_str()),
            );
            Some(out)
        },
        Kind::AbsoluteYearly => match (s.month, s.day_of_month) {
            (Some(month), Some(d)) => {
                push_if(
                    &mut out,
                    civil::clamped_day(
                        y,
                        (month % 0x1_0000_0000) as u32,
                        (d % 0x1_0000_0000) as u32,
                    ),
                );
                Some(out)
            },
            _ => None,
        },
        Kind::RelativeYearly => match s.month {
            Some(month) => {
                push_if(
                    &mut out,
                    civil::nth_weekday_of_month(
                        y,
                        (month % 0x1_0000_0000) as u32,
                        &s.days,
                        s.index.as_str(),
                    ),
                );
                Some(out)
            },
            None => None,
        },
    }
}

fn push_if(out: &mut Vec<Date>, d: Option<Date>)
    requires
        old(out)@.len() == 0,
    ensures
        civil::day_seq(final(out)@) == date_if(
            match d {
                Some(x) => Some(x.days as int),
                None => None,
            },
        ),
{
    match d {
        Some(x) => {
            out.push(x);
            assert(civil::day_seq(out@) =~= seq![x.days as int]);
        },
        None => {
            assert(civil::day_seq(out@) =~= Seq::<int>::empty());
        },
    }
}

fn following_period(s: &Series, cursor: Date) -> (r: Option<Date>)
    requires
        cursor.wf(),
        s.first < 7,
    ensures
        match r {
            Some(d) => next_period(s@, cursor.days as int) == Some(d.days as int) && d.wf(),
            None => next_period(s@, cursor.days as int) is None,
        },
{
    let (y, m, _d) = cursor.ymd();
    match s.kind {
        Kind::Daily => civil::plus_days(cursor.days, s.interval as i128),
        Kind::Weekly => {
            let back: u32 = civil::week_offset(s.first, cursor.weekday());
            civil::plus_days(cursor.days, 7 * (s.interval as i128) - (back as i128))
        },
        Kind::AbsoluteMonthly => civil::add_months(y, m, s.interval),
        Kind::RelativeMonthly => civil::add_months(y, m, s.interval),
        Kind::AbsoluteYearly => next_year(y, s.interval),
        Kind::RelativeYearly => next_year(y, s.interval),
    }
}

fn next_year(y: i32, interval: i64) -> (r: Option<Date>)
    requires
        civil::MIN_YEAR <= y <= civil::MAX_YEAR,
    ensures
        match r {
            Some(d) => civil::day_of(y + civil::wrapped_i32(interval as int), 1, 1) == Some(
                d.days as int,
            ) && d.wf(),
            None => civil::day_of(y + civil::wrapped_i32(interval as int), 1, 1) is None,
        },
{
    let step: i32 = civil::wrap_i32(interval as i128);
    let year: i64 = y as i64 + step as i64;
    if year < civil::MIN_YEAR as i64 || year > civil::MAX_YEAR as i64 {
        None
    } else {
        Date::from_ymd(year as i32, 1, 1)
    }
}

proof fn lemma_accepted_push(s: SeriesVal, dates: Seq<int>, i: int)
    requires
        0 <= i < dates.len(),
    ensures
        accepted(s, dates.take(i + 1)) == (if within(s, dates[i]) {
            accepted(s, dates.take(i)).push(dates[i])
        } else {
            accepted(s, dates.take(i))
        }),
{
    assert(dates.take(i + 1).drop_last() == dates.take(i));
}

proof fn lemma_contains_push(v: Seq<int>, d: int, x: int)
    ensures
        v.push(d).contains(x) <==> v.contains(x) || x == d,
{
    let w = v.push(d);
    if v.contains(x) {
        let k = choose|k: int| 0 <= k < v.len() && v[k] == x;
        assert(w[k] == x);
    }
    assert(w[v.len() as int] == d);
    if w.contains(x) && x != d {
        let k = choose|k: int| 0 <= k < w.len() && w[k] == x;
        assert(v[k] == x);
    }
}

proof fn lemma_contains_concat(a: Seq<int>, b: Seq<int>, x: int)
    ensures
        (a + b).contains(x) <==> a.contains(x) || b.contains(x),
{
    if a.contains(x) {
        let k = choose|k: int| 0 <= k < a.len() && a[k] == x;
        assert((a + b)[k] == x);
    }
    if b.contains(x) {
        let k = choose|k: int| 0 <= k < b.len() && b[k] == x;
        assert((a + b)[a.len() + k] == x);
    }
    if (a + b).contains(x) {
        let k = choose|k: int| 0 <= k < (a + b).len() && (a + b)[k] == x;
        if k < a.len() {
            assert(a[k] == x);
        } else {
            assert(b[k - a.len()] == x);
        }
    }
}

/// Takes over those of a period's dates that lie within the series and the
/// window, and counts those within the series.
fn take_over(
    s: &Series,
    dates: &Vec<Date>,
    window_start: Date,
    window_end: Date,
    out: &mut Vec<Date>,
) -> (n: usize)
    requires
        increasing(civil::day_seq(old(out)@)),
    ensures
        increasing(civil::day_seq(final(out)@)),
        n == accepted(s@, civil::day_seq(dates@)).len(),
        forall|d: int|
            #[trigger] civil::day_seq(final(out)@).contains(d) <==> civil::day_seq(old(out)@).contains(d) || (
            accepted(s@, civil::day_seq(dates@)).contains(d) && window_start.days <= d
                <= window_end.days),
{
    let ghost named = civil::day_seq(dates@);
    let ghost start = civil::day_seq(out@);
    let mut n: usize = 0;
    let mut i: usize = 0;
    assert(accepted(s@, named.take(0)) =~= Seq::<int>::empty());
    while i < dates.len()
        invariant
            i <= dates@.len(),
            n <= i,
            named == civil::day_seq(dates@),
            n == accepted(s@, named.take(i as int)).len(),
            increasing(civil::day_seq(out@)),
            forall|d: int|
                #[trigger] civil::day_seq(out@).contains(d) <==> start.contains(d) || (accepted(
                    s@,
                    named.take(i as int),
                ).contains(d) && window_start.days <= d <= window_end.days),
        decreases dates@.len() - i,
    {
        let d: Date = dates[i];
        let ghost had = accepted(s@, named.take(i as int));
        assert(named[i as int] == d.days);
        proof {
            lemma_accepted_push(s@, named, i as int);
        }
        let ended: bool = match s.limit {
            Some(end) => d.days > end,
            None => false,
        };
        if d.days >= s.start && !ended {
            proof {
                assert forall|x: int| #[trigger]
                    had.push(d.days as int).contains(x) <==> had.contains(x) || x == d.days by {
                    lemma_contains_push(had, d.days as int, x);
                }
            }
            n = n + 1;
            if d.days >= window_start.days && d.days <= window_end.days {
                insert_date(out, d);
            }
        }
        i = i + 1;
    }
    assert(named.take(i as int) =~= named);
    n
}

/// The dates of a recurrence within a window, in increasing order; nothing if
/// the recurrence is of an unknown kind, does not say enough or leaves the
/// calendar.
pub fn expected_dates(recurrence: &Json, window_start: Date, window_end: Date) -> (r: Option<
    Vec<Date>,
>)
    ensures
        match r {
            Some(v) => series_dates(recurrence@, window_end.days as int) is Some && increasing(
                civil::day_seq(v@),
            ) && forall|d: int|
                #[trigger] civil::day_seq(v@).contains(d) <==> series_dates(
                    recurrence@,
                    window_end.days as int,
                )->0.contains(d) && window_start.days <= d <= window_end.days,
            None => series_dates(recurrence@, window_end.days as int) is None,
        },
{
    let s: Series = match read_series(recurrence) {
        Some(s) => s,
        None => {
            return None;
        },
    };
    let mut out: Vec<Date> = Vec::new();
    let mut emitted: u128 = 0;
    let mut steps: u32 = 0;
    let mut cursor: Date = Date { days: s.start };
    let ghost mut found: Seq<int> = Seq::empty();
    let ghost goal = series_dates(recurrence@, window_end.days as int);
    let ghost whole = recurrence@;
    while steps < MAX_STEPS
        invariant_except_break
            steps <= MAX_STEPS,
            cursor.wf(),
            goal == walk(
                s@,
                window_end.days as int,
                cursor.days as int,
                found,
                (MAX_STEPS - steps) as nat,
            ),
        invariant
            whole == recurrence@,
            goal == series_dates(whole, window_end.days as int),
            s.first < 7,
            forall|i: int| 0 <= i < s.days@.len() ==> #[trigger] s.days@[i] < 7,
            emitted == found.len(),
            emitted <= steps * 0x1_0000_0000_0000_0000,
            increasing(civil::day_seq(out@)),
            forall|d: int|
                #[trigger] civil::day_seq(out@).contains(d) <==> found.contains(d) && window_start.days <= d
                    <= window_end.days,
        ensures
            goal == Some(found),
        decreases MAX_STEPS - steps,
    {
        let dates: Vec<Date> = match dates_in_period(&s, cursor) {
            Some(v) => v,
            None => {
                return None;
            },
        };
        let next: Date = match following_period(&s, cursor) {
            Some(d) => d,
            None => {
                return None;
            },
        };
        let ghost more = accepted(s@, civil::day_seq(dates@));
        let ghost base = found;
        let n: usize = take_over(&s, &dates, window_start, window_end, &mut out);
        proof {
            found = base + more;
            assert forall|x: int| #[trigger] found.contains(x) <==> base.contains(x)
                || more.contains(x) by {
                lemma_contains_concat(base, more, x);
            }
        }
        emitted = emitted + n as u128;
        steps = steps + 1;
        cursor = next;
        let counted: bool = match s.count {
            Some(n) => emitted >= n as u128,
            None => false,
        };
        let ended: bool = match s.limit {
            Some(end) => cursor.days > end,
            None => false,
        };
        if counted || ended || cursor.days > window_end.days {
            assert(finished(s@, window_end.days as int, found.len(), cursor.days as int));
            break;
        }
    }
    Some(out)
}

/// The days of the week that a rule's list abbreviates, in order.
pub open spec fn abbreviated_days(v: Seq<Val>) -> Seq<u32>
    decreases v.len(),
{
    if v.len() == 0 {
        Seq::empty()
    } else {
        let rest = abbreviated_days(v.drop_last());
        match v.last().text_at("day"@) {
            Some(t) => match recurrence::day_abbreviated(t) {
                Some(d) => rest.push(d),
                None => rest,
            },
            None => rest,
        }
    }
}

/// The days of the week of a rule.
pub open spec fn rule_days(rule: Val) -> Seq<u32> {
    abbreviated_days(recurrence::items_at(rule, "byDay"@))
}

/// The first item of a member that is a list.
pub open spec fn first_at(v: Val, key: Seq<char>) -> Option<Val> {
    let items = recurrence::items_at(v, key);
    if items.len() > 0 {
        Some(items[0])
    } else {
        None
    }
}

/// The integer that a rule's list starts with.
pub open spec fn first_int_at(v: Val, key: Seq<char>) -> Option<i64> {
    match first_at(v, key) {
        Some(x) => x.as_i64(),
        None => None,
    }
}

/// The month that a rule's list starts with, a text or an integer.
pub open spec fn first_month(rule: Val) -> Option<i64> {
    match first_at(rule, "byMonth"@) {
        Some(x) => match x.as_text() {
            Some(t) => match text::parsed_i64(t) {
                Some(n) => Some(n as i64),
                None => None,
            },
            None => x.as_i64(),
        },
        None => None,
    }
}

/// The name of a place in a period.
pub open spec fn index_text(position: i64) -> Seq<char> {
    if position == 2 {
        "second"@
    } else if position == 3 {
        "third"@
    } else if position == 4 {
        "fourth"@
    } else if position == -1 {
        "last"@
    } else {
        "first"@
    }
}

/// The names of days of the week, as JSON texts.
pub open spec fn long_days(days: Seq<u32>) -> Val {
    Val::List(Seq::new(days.len(), |i: int| Val::Text(recurrence::long_day(days[i]))))
}

/// The integer given, or the one that stands in for it.
pub open spec fn or_int(n: Option<i64>, other: int) -> Val {
    match n {
        Some(x) => json::int_val(x),
        None => json::int_val(other as i64),
    }
}

/// The kind of pattern that a rule stands for, and the members that this kind
/// has, for a series that starts on the given day.
pub open spec fn kind_members(rule: Val, start: int) -> Option<(Seq<char>, Members)> {
    let days = rule_days(rule);
    let position = first_int_at(rule, "bySetPosition"@);
    let (_, m, d) = civil::civil_of(start);
    let relative = position is Some && days.len() > 0;
    let month = ("month"@, or_int(first_month(rule), m));
    let day = ("dayOfMonth"@, or_int(first_int_at(rule, "byMonthDay"@), d));
    match rule.text_at("frequency"@) {
        Some(f) => if f == "daily"@ {
            Some(("daily"@, Seq::empty()))
        } else if f == "weekly"@ {
            Some(("weekly"@, seq![("daysOfWeek"@, long_days(days))]))
        } else if f == "monthly"@ && relative {
            Some(
                (
                    "relativeMonthly"@,
                    seq![
                        ("daysOfWeek"@, long_days(days)),
                        ("index"@, Val::Text(index_text(position->0))),
                    ],
                ),
            )
        } else if f == "monthly"@ {
            Some(("absoluteMonthly"@, seq![day]))
        } else if f == "yearly"@ && relative {
            Some(
                (
                    "relativeYearly"@,
                    seq![
                        ("daysOfWeek"@, long_days(days)),
                        ("index"@, Val::Text(index_text(position->0))),
                        month,
                    ],
                ),
            )
        } else if f == "yearly"@ {
            Some(("absoluteYearly"@, seq![month, day]))
        } else {
            None
        },
        None => None,
    }
}

/// The step of a rule.
pub open spec fn interval_member(rule: Val) -> u64 {
    match rule.get("interval"@) {
        Some(v) => match v.as_u64() {
            Some(n) => n,
            None => 1,
        },
        None => 1,
    }
}

/// The name of the day on which a rule's weeks start, if it has one.
pub open spec fn first_day_member(rule: Val) -> Option<Val> {
    match rule.text_at("firstDayOfWeek"@) {
        Some(t) => match recurrence::day_abbreviated(t) {
            Some(d) => Some(Val::Text(recurrence::long_day(d))),
            None => None,
        },
        None => None,
    }
}

/// The range that a rule's count or last moment gives.
pub open spec fn range_members(rule: Val, start: int) -> Members {
    let head = seq![("startDate"@, Val::Text(civil::date_text(start)))];
    match unsigned_at(rule, "count"@) {
        Some(n) => head + seq![
            ("type"@, Val::Text("numbered"@)),
            ("numberOfOccurrences"@, Val::Number(NumberVal::Unsigned(n as u64))),
        ],
        None => match rule.text_at("until"@) {
            Some(u) => head + seq![
                ("type"@, Val::Text("endDate"@)),
                ("endDate"@, Val::Text(text::split_by(u, 'T')[0])),
            ],
            None => head + seq![("type"@, Val::Text("noEnd"@))],
        },
    }
}

/// The recurrence that a rule stands for, for a series that starts on the
/// given day.
pub open spec fn pattern_from_rule(rule: Val, start: int) -> Option<Val> {
    match kind_members(rule, start) {
        Some((kind, own)) => Some(
            json::obj2(
                "pattern"@,
                Val::Object(
                    seq![("interval"@, Val::Number(NumberVal::Unsigned(interval_member(rule))))]
                        + own + seq![("type"@, Val::Text(kind))] + json::member_if(
                        "firstDayOfWeek"@,
                        first_day_member(rule),
                    ),
                ),
                "range"@,
                Val::Object(range_members(rule, start)),
            ),
        ),
        None => None,
    }
}

fn read_rule_days(rule: &Json) -> (r: Vec<u32>)
    ensures
        r@ == rule_days(rule@),
{
    let mut out: Vec<u32> = Vec::new();
    match rule.list_at("byDay") {
        Some(v) => {
            let ghost all = json::list_view(v@);
            assert(out@ =~= abbreviated_days(all.take(0)));
            let mut i: usize = 0;
            while i < v.len()
                invariant
                    all == json::list_view(v@),
                    i <= v@.len(),
                    out@ == abbreviated_days(all.take(i as int)),
                decreases v@.len() - i,
            {
                proof {
                    assert(all.take(i as int + 1).drop_last() == all.take(i as int));
                    assert(all.take(i as int + 1).last() == v@[i as int]@);
                }
                match v[i].text_at("day") {
                    Some(t) => match recurrence::parse_short_weekday(t) {
                        Some(d) => {
                            out.push(d);
                        },
                        None => {},
                    },
                    None => {},
                }
                i = i + 1;
            }
            assert(all.take(i as int) == all);
        },
        None => {},
    }
    out
}

fn first_item<'a>(v: &'a Json, key: &str) -> (r: Option<&'a Json>)
    ensures
        json::ref_view(r) == first_at(v@, key@),
{
    match v.list_at(key) {
        Some(items) => if items.len() > 0 {
            Some(&items[0])
        } else {
            None
        },
        None => None,
    }
}

fn first_int(v: &Json, key: &str) -> (r: Option<i64>)
    ensures
        r == first_int_at(v@, key@),
{
    match first_item(v, key) {
        Some(x) => x.as_i64(),
        None => None,
    }
}

fn read_first_month(rule: &Json) -> (r: Option<i64>)
    ensures
        r == first_month(rule@),
{
    match first_item(rule, "byMonth") {
        Some(x) => match x.as_text() {
            Some(t) => text::parse_i64(t),
            None => x.as_i64(),
        },
        None => None,
    }
}

fn index_name(position: i64) -> (r: &'static str)
    ensures
        r@ == index_text(position),
{
    if position == 2 {
        "second"
    } else if position == 3 {
        "third"
    } else if position == 4 {
        "fourth"
    } else if position == -1 {
        "last"
    } else {
        "first"
    }
}

fn make_long_days(days: &Vec<u32>) -> (r: Json)
    ensures
        r@ == long_days(days@),
{
    let mut out: Vec<Json> = Vec::new();
    let mut i: usize = 0;
    while i < days.len()
        invariant
            i <= days@.len(),
            out@.len() == i,
            forall|k: int|
                0 <= k < i ==> (#[trigger] out@[k])@ == Val::Text(recurrence::long_day(days@[k])),
        decreases days@.len() - i,
    {
        out.push(json::text_json(recurrence::long_name(days[i])));
        i = i + 1;
    }
    assert(json::list_view(out@) =~= long_days(days@)->List_0);
    Json::List(out)
}

fn make_or_int(n: Option<i64>, other: u32) -> (r: Json)
    ensures
        r@ == or_int(n, other as int),
{
    match n {
        Some(x) => json::int_json(x),
        None => json::int_json(other as i64),
    }
}

fn make_kind_members(rule: &Json, start: Date) -> (r: Option<(&'static str, Vec<(String, Json)>)>)
    requires
        start.wf(),
    ensures
        match r {
            Some(p) => kind_members(rule@, start.days as int) == Some(
                (p.0@, json::members_view(p.1@)),
            ),
            None => kind_members(rule@, start.days as int) is None,
        },
{
    let days: Vec<u32> = read_rule_days(rule);
    let position: Option<i64> = first_int(rule, "bySetPosition");
    let (_y, m, d) = start.ymd();
    let f: &str = match rule.text_at("frequency") {
        Some(f) => f,
        None => {
            return None;
        },
    };
    let mut e: Vec<(String, Json)> = Vec::new();
    assert(json::members_view(e@) =~= Seq::<(Seq<char>, Val)>::empty());
    let relative: bool = position.is_some() && days.len() > 0;
    if text::same(f, "daily") {
        return Some(("daily", e));
    }
    if text::same(f, "weekly") {
        json::push_member(&mut e, "daysOfWeek", make_long_days(&days));
        assert(json::members_view(e@) =~= seq![("daysOfWeek"@, long_days(days@))]);
        return Some(("weekly", e));
    }
    let monthly: bool = text::same(f, "monthly");
    let yearly: bool = text::same(f, "yearly");
    if !monthly && !yearly {
        return None;
    }
    let ghost month = ("month"@, or_int(first_month(rule@), m as int));
    let ghost day = ("dayOfMonth"@, or_int(first_int_at(rule@, "byMonthDay"@), d as int));
    if relative {
        let p: i64 = match position {
            Some(p) => p,
            None => 0,
        };
        json::push_member(&mut e, "daysOfWeek", make_long_days(&days));
        json::push_member(&mut e, "index", json::text_json(index_name(p)));
        assert(json::members_view(e@) =~= seq![
            ("daysOfWeek"@, long_days(days@)),
            ("index"@, Val::Text(index_text(p))),
        ]);
        if monthly {
            return Some(("relativeMonthly", e));
        }
        json::push_member(&mut e, "month", make_or_int(read_first_month(rule), m));
        assert(json::members_view(e@) =~= seq![
            ("daysOfWeek"@, long_days(days@)),
            ("index"@, Val::Text(index_text(p))),
            month,
        ]);
        return Some(("relativeYearly", e));
    }
    if monthly {
        json::push_member(&mut e, "dayOfMonth", make_or_int(first_int(rule, "byMonthDay"), d));
        assert(json::members_view(e@) =~= seq![day]);
        return Some(("absoluteMonthly", e));
    }
    json::push_member(&mut e, "month", make_or_int(read_first_month(rule), m));
    json::push_member(&mut e, "dayOfMonth", make_or_int(first_int(rule, "byMonthDay"), d));
    assert(json::members_view(e@) =~= seq![month, day]);
    Some(("absoluteYearly", e))
}

fn make_range(rule: &Json, start: Date) -> (r: Vec<(String, Json)>)
    requires
        start.wf(),
    ensures
        json::members_view(r@) == range_members(rule@, start.days as int),
        reads_back(start.days as int),
{
    let written: String = start.format();
    let mut e: Vec<(String, Json)> = Vec::new();
    json::push_member(&mut e, "startDate", json::text_json(written.as_str()));
    let ghost head = seq![("startDate"@, Val::Text(civil::date_text(start.days as int)))];
    assert(json::members_view(e@) =~= head);
    match unsigned_member(rule, "count") {
        Some(n) => {
            json::push_member(&mut e, "type", json::text_json("numbered"));
            json::push_member(&mut e, "numberOfOccurrences", json::number_json(n));
            assert(json::members_view(e@) =~= head + seq![
                ("type"@, Val::Text("numbered"@)),
                ("numberOfOccurrences"@, Val::Number(NumberVal::Unsigned(n))),
            ]);
        },
        None => match rule.text_at("until") {
            Some(u) => {
                let parts: Vec<String> = text::split(u, 'T');
                assert(text::texts(parts@)[0] == parts@[0]@);
                json::push_member(&mut e, "type", json::text_json("endDate"));
                json::push_member(&mut e, "endDate", json::text_json(parts[0].as_str()));
                assert(json::members_view(e@) =~= head + seq![
                    ("type"@, Val::Text("endDate"@)),
                    ("endDate"@, Val::Text(text::split_by(u@, 'T')[0])),
                ]);
            },
            None => {
                json::push_member(&mut e, "type", json::text_json("noEnd"));
                assert(json::members_view(e@) =~= head + seq![("type"@, Val::Text("noEnd"@))]);
            },
        },
    }
    e
}

/// Whether a date reads back as itself from the text it is written as.
pub open spec fn reads_back(n: int) -> bool {
    civil::parsed_date(civil::date_text(n)) == Some(n) && !civil::date_text(n).contains('T')
}

/// The Graph recurrence that a stored rule stands for, for a series that
/// starts on the given date; nothing for a rule of an unknown frequency.
pub fn graph_pattern_from_jscalendar(rule: &Json, series_start: Date) -> (r: Option<Json>)
    requires
        series_start.wf(),
    ensures
        json::opt_view(r) == pattern_from_rule(rule@, series_start.days as int),
        r is Some ==> reads_back(series_start.days as int),
{
    let (kind, own) = match make_kind_members(rule, series_start) {
        Some(p) => p,
        None => {
            return None;
        },
    };
    let interval: u64 = match rule.get("interval") {
        Some(v) => match v.as_u64() {
            Some(n) => n,
            None => 1,
        },
        None => 1,
    };
    let ghost own_view = json::members_view(own@);
    let mut e: Vec<(String, Json)> = Vec::new();
    json::push_member(&mut e, "interval", json::number_json(interval));
    let ghost head = seq![("interval"@, Val::Number(NumberVal::Unsigned(interval)))];
    assert(json::members_view(e@) =~= head);
    let mut rest: Vec<(String, Json)> = own;
    let ghost left = e@;
    let ghost right = rest@;
    e.append(&mut rest);
    assert(e@ == left + right);
    assert(json::members_view(e@) =~= head + own_view);
    json::push_member(&mut e, "type", json::text_json(kind));
    assert(json::members_view(e@) =~= head + own_view + seq![("type"@, Val::Text(kind@))]);
    let first: Option<Json> = match rule.text_at("firstDayOfWeek") {
        Some(t) => match recurrence::parse_short_weekday(t) {
            Some(d) => Some(json::text_json(recurrence::long_name(d))),
            None => None,
        },
        None => None,
    };
    json::push_member_if(&mut e, "firstDayOfWeek", first);
    let range: Vec<(String, Json)> = make_range(rule, series_start);
    Some(json::object2("pattern", Json::Object(e), "range", Json::Object(range)))
}

} // verus!

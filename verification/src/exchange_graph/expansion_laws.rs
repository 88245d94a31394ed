//! What the dates of a recurrence are: those that its pattern names, and all
//! of them.

use crate::civil;
use crate::exchange_graph::expand;
use crate::exchange_graph::expand::{Kind, SeriesVal};
use crate::exchange_graph::recurrence;
use crate::json::Val;
use crate::text;
use vstd::prelude::*;

verus! {

/// The name of a day of the week, counted from Sunday.
pub open spec fn weekday_name(w: int) -> Seq<char> {
    if w == 0 {
        "sunday"@
    } else if w == 1 {
        "monday"@
    } else if w == 2 {
        "tuesday"@
    } else if w == 3 {
        "wednesday"@
    } else if w == 4 {
        "thursday"@
    } else if w == 5 {
        "friday"@
    } else {
        "saturday"@
    }
}

/// Whether a pattern names a day of the week.
pub open spec fn names_day(pattern: Val, w: int) -> bool {
    pattern.list_at("daysOfWeek"@) matches Some(l) && exists|i: int|
        0 <= i < l.len() && (#[trigger] l[i]).as_text() is Some && text::lowered(
            l[i].as_text()->0,
        ) == weekday_name(w)
}

/// Whether the weeks of a pattern begin with a day: the one that it names, else
/// Sunday.
pub open spec fn week_begins(pattern: Val, f: int) -> bool {
    0 <= f < 7 && match pattern.text_at("firstDayOfWeek"@) {
        Some(t) => text::lowered(t) == weekday_name(f) || (f == 0 && forall|w: int|
            0 <= w < 7 ==> text::lowered(t) != #[trigger] weekday_name(w)),
        None => f == 0,
    }
}

/// Whether a pattern repeats after so many periods: as many as it says, else
/// one.
pub open spec fn steps_by(pattern: Val, n: int) -> bool {
    match pattern.get("interval"@) {
        Some(v) => match v.as_u64() {
            Some(k) => if k > 0 {
                n == k && k <= i64::MAX
            } else {
                n == 1
            },
            None => n == 1,
        },
        None => n == 1,
    }
}

/// The day that the text of a member begins with.
pub open spec fn day_in(v: Val, key: Seq<char>) -> Option<int> {
    match v.text_at(key) {
        Some(t) => civil::parsed_date(text::split_by(t, 'T')[0]),
        None => None,
    }
}

/// Whether a recurrence has a pattern and a range, starts on a day of the
/// calendar, repeats after `n` periods and counts weeks from the day `f`.
pub open spec fn describes(rec: Val, start: int, n: int, f: int) -> bool {
    rec.get("pattern"@) matches Some(p) && rec.get("range"@) matches Some(r) && {
        &&& day_in(r, "startDate"@) == Some(start)
        &&& civil::in_calendar(start)
        &&& steps_by(p, n)
        &&& week_begins(p, f)
        &&& p.text_at("type"@) != Some("daily"@) && p.text_at("type"@) != Some("weekly"@) ==> n
            <= i32::MAX
    }
}

/// Whether a day lies in a range: from its start on, and up to its last day.
pub open spec fn in_span(range: Val, start: int, d: int) -> bool {
    start <= d && (day_in(range, "endDate"@) is Some ==> d <= day_in(range, "endDate"@)->0)
}

/// Whether a number of dates is as many as a range asks for.
pub open spec fn is_enough(range: Val, found: nat) -> bool {
    range.get("numberOfOccurrences"@) matches Some(v) && v.as_u64() matches Some(k) && 0 < k
        <= found
}

/// How many of the days from `lo` up to before `d` a pattern names.
pub open spec fn named_before(pattern: Val, lo: int, d: int) -> nat
    decreases d - lo,
{
    if d <= lo {
        0
    } else {
        named_before(pattern, lo, d - 1) + (if names_day(pattern, (d - 1) % 7) {
            1nat
        } else {
            0
        })
    }
}

/// Whether a day that a pattern names is the one of its month that the
/// pattern's index picks.
pub open spec fn is_picked(pattern: Val, d: int) -> bool {
    let (y, m, day) = civil::civil_of(d);
    let before = named_before(pattern, d - day + 1, d);
    let index = match pattern.text_at("index"@) {
        Some(t) => text::lowered(t),
        None => "first"@,
    };
    names_day(pattern, d % 7) && if index == "second"@ {
        before == 1
    } else if index == "third"@ {
        before == 2
    } else if index == "fourth"@ {
        before == 3
    } else if index == "last"@ {
        forall|x: int|
            d < x <= d - day + civil::month_days(y, m) ==> !names_day(pattern, #[trigger] (x % 7))
    } else {
        before == 0
    }
}

/// Whether a day is the one of its month with the number that a pattern gives,
/// or the last one where the month is shorter.
pub open spec fn is_day_given(pattern: Val, d: int) -> bool {
    let (y, m, day) = civil::civil_of(d);
    pattern.get("dayOfMonth"@) matches Some(v) && v.as_u64() matches Some(k) && {
        let given = k as int % 0x1_0000_0000;
        day == given || (day == civil::month_days(y, m) && given > day)
    }
}

/// Whether a day lies in the month that a pattern gives.
pub open spec fn is_month_given(pattern: Val, d: int) -> bool {
    pattern.get("month"@) matches Some(v) && v.as_u64() matches Some(k) && civil::civil_of(d).1
        == k as int % 0x1_0000_0000
}

/// How many days, weeks, months or years lie between the start of a series and
/// a day, by the kind of its pattern.
pub open spec fn distance(pattern: Val, start: int, f: int, d: int) -> int {
    let (y, m, _) = civil::civil_of(d);
    let (ys, ms, _) = civil::civil_of(start);
    let t = pattern.text_at("type"@);
    if t == Some("daily"@) {
        d - start
    } else if t == Some("weekly"@) {
        (d - f) / 7 - (start - f) / 7
    } else if t == Some("absoluteMonthly"@) || t == Some("relativeMonthly"@) {
        12 * (y - ys) + (m - ms)
    } else {
        y - ys
    }
}

/// Whether a series that starts on a day and repeats after `n` periods falls on
/// the day `d`.
pub open spec fn is_due(pattern: Val, start: int, n: int, f: int, d: int) -> bool {
    let t = pattern.text_at("type"@);
    &&& distance(pattern, start, f, d) % n == 0
    &&& t == Some("weekly"@) ==> names_day(pattern, d % 7)
    &&& t == Some("absoluteMonthly"@) ==> is_day_given(pattern, d)
    &&& t == Some("relativeMonthly"@) ==> is_picked(pattern, d)
    &&& t == Some("absoluteYearly"@) ==> is_month_given(pattern, d) && is_day_given(pattern, d)
    &&& t == Some("relativeYearly"@) ==> is_month_given(pattern, d) && is_picked(pattern, d)
}

spec fn monthly(s: SeriesVal) -> bool {
    s.kind == Kind::AbsoluteMonthly || s.kind == Kind::RelativeMonthly
}

spec fn yearly(s: SeriesVal) -> bool {
    s.kind == Kind::AbsoluteYearly || s.kind == Kind::RelativeYearly
}

/// The number of the period that a day lies in.
spec fn unit(s: SeriesVal, d: int) -> int {
    let (y, m, _) = civil::civil_of(d);
    match s.kind {
        Kind::Daily => d,
        Kind::Weekly => (d - s.first) / 7,
        Kind::AbsoluteMonthly => 12 * y + m,
        Kind::RelativeMonthly => 12 * y + m,
        Kind::AbsoluteYearly => y,
        Kind::RelativeYearly => y,
    }
}

spec fn listed(s: SeriesVal, d: int) -> bool {
    s.days.contains((d % 7) as u32)
}

spec fn listed_before(s: SeriesVal, lo: int, d: int) -> nat
    decreases d - lo,
{
    if d <= lo {
        0
    } else {
        listed_before(s, lo, d - 1) + (if listed(s, d - 1) {
            1nat
        } else {
            0
        })
    }
}

spec fn indexed(s: SeriesVal, d: int) -> bool {
    let (y, m, day) = civil::civil_of(d);
    let before = listed_before(s, d - day + 1, d);
    let index = text::lowered(s.index);
    listed(s, d) && if index == "second"@ {
        before == 1
    } else if index == "third"@ {
        before == 2
    } else if index == "fourth"@ {
        before == 3
    } else if index == "last"@ {
        forall|x: int| d < x <= d - day + civil::month_days(y, m) ==> !#[trigger] listed(s, x)
    } else {
        before == 0
    }
}

spec fn numbered(s: SeriesVal, d: int) -> bool {
    let (y, m, day) = civil::civil_of(d);
    s.day_of_month matches Some(k) && (day == expand::low_32(k) || (day == civil::month_days(y, m)
        && expand::low_32(k) > day))
}

spec fn in_month(s: SeriesVal, d: int) -> bool {
    s.month matches Some(k) && civil::civil_of(d).1 == expand::low_32(k)
}

spec fn placed(s: SeriesVal, d: int) -> bool {
    match s.kind {
        Kind::Daily => true,
        Kind::Weekly => listed(s, d),
        Kind::AbsoluteMonthly => numbered(s, d),
        Kind::RelativeMonthly => indexed(s, d),
        Kind::AbsoluteYearly => in_month(s, d) && numbered(s, d),
        Kind::RelativeYearly => in_month(s, d) && indexed(s, d),
    }
}

spec fn fine(s: SeriesVal) -> bool {
    &&& 0 < s.interval
    &&& s.first < 7
    &&& forall|i: int| 0 <= i < s.days.len() ==> #[trigger] s.days[i] < 7
    &&& monthly(s) || yearly(s) ==> s.interval <= i32::MAX
    &&& civil::in_calendar(s.start)
}

proof fn lemma_in_calendar(y: int, m: int, d: int)
    requires
        civil::valid_ymd(y, m, d),
    ensures
        civil::in_calendar(civil::day_number(y, m, d)),
{
    if 12 * civil::MIN_YEAR + 1 < 12 * y + m || d > 1 {
        civil::months_follow_one_another(civil::MIN_YEAR as int, 1, 1, y, m, d);
    }
    if 12 * y + m < 12 * civil::MAX_YEAR + 12 || d < 31 {
        civil::months_follow_one_another(y, m, d, civil::MAX_YEAR as int, 12, 31);
    }
}

proof fn lemma_units_follow(s: SeriesVal, a: int, b: int)
    requires
        civil::in_calendar(a),
        civil::in_calendar(b),
        unit(s, a) < unit(s, b),
    ensures
        a < b,
{
    civil::every_day_has_a_date(a);
    civil::every_day_has_a_date(b);
    let (y1, m1, d1) = civil::civil_of(a);
    let (y2, m2, d2) = civil::civil_of(b);
    if monthly(s) || yearly(s) {
        civil::months_follow_one_another(y1, m1, d1, y2, m2, d2);
    }
}

proof fn lemma_week_of(c: int, f: int)
    ensures
        (c % 7 - f) % 7 == (c - f) % 7,
        c - (c % 7 - f) % 7 == f + 7 * ((c - f) / 7),
{
    assert(c == 7 * (c / 7) + c % 7);
    assert((c % 7 - f) % 7 == (c - f) % 7);
}

proof fn lemma_day_of_week(f: int, u: int, day: int)
    requires
        0 <= f < 7,
        0 <= day < 7,
    ensures
        (f + 7 * u + (day - f) % 7 - f) / 7 == u,
        (f + 7 * u + (day - f) % 7) % 7 == day,
{
    assert(0 <= (day - f) % 7 < 7);
    assert((day - f) % 7 == if day >= f {
        day - f
    } else {
        day - f + 7
    });
}

proof fn lemma_next_week(s: SeriesVal, cursor: int)
    requires
        s.kind == Kind::Weekly,
        expand::next_period(s, cursor) is Some,
    ensures
        unit(s, expand::next_period(s, cursor)->0) == unit(s, cursor) + s.interval,
        expand::next_period(s, cursor)->0 == s.first + 7 * (unit(s, cursor) + s.interval),
{
    lemma_week_of(cursor, s.first as int);
    let u = (cursor - s.first) / 7 + s.interval;
    let next = expand::next_period(s, cursor)->0;
    assert(next == s.first + 7 * u);
    assert((7 * u) / 7 == u);
}

proof fn lemma_next(s: SeriesVal, cursor: int)
    requires
        fine(s),
        civil::in_calendar(cursor),
        expand::next_period(s, cursor) is Some,
    ensures
        civil::in_calendar(expand::next_period(s, cursor)->0),
        unit(s, expand::next_period(s, cursor)->0) == unit(s, cursor) + s.interval,
        forall|x: int|
            #![trigger unit(s, x)]
            civil::in_calendar(x) && unit(s, x) >= unit(s, expand::next_period(s, cursor)->0)
                ==> expand::next_period(s, cursor)->0 <= x,
{
    civil::every_day_has_a_date(cursor);
    let (y, m, d) = civil::civil_of(cursor);
    let next = expand::next_period(s, cursor)->0;
    if s.kind == Kind::Weekly {
        lemma_next_week(s, cursor);
    } else if monthly(s) {
        let total = 12 * y + (m - 1) + s.interval;
        assert(civil::wrapped_i32(total / 12) == total / 12);
        civil::days_have_one_date(total / 12, total % 12 + 1, 1);
        lemma_in_calendar(total / 12, total % 12 + 1, 1);
    } else if yearly(s) {
        assert(civil::wrapped_i32(s.interval) == s.interval);
        civil::days_have_one_date(y + s.interval, 1, 1);
        lemma_in_calendar(y + s.interval, 1, 1);
    }
    assert forall|x: int|
        #![trigger unit(s, x)]
        civil::in_calendar(x) && unit(s, x) >= unit(s, next) implies next <= x by {
        if unit(s, x) > unit(s, next) {
            lemma_units_follow(s, next, x);
        } else if s.kind == Kind::Weekly {
            assert(x >= s.first + 7 * ((x - s.first) / 7));
        } else if monthly(s) || yearly(s) {
            civil::every_day_has_a_date(x);
            let (yx, mx, dx) = civil::civil_of(x);
            let (yn, mn, dn) = civil::civil_of(next);
            assert(dn == 1);
            if x != next {
                if mx == mn && dx == 1 {
                    assert(x == next);
                }
                civil::months_follow_one_another(yn, mn, dn, yx, mx, dx);
            }
        }
    }
}

/// The days of a month's first `n` days that are listed, and how many come
/// before each.
proof fn lemma_matching(s: SeriesVal, first: int, n: nat)
    ensures
        ({
            let v = civil::matching_days(first, n, s.days);
            &&& v.len() == listed_before(s, first, first + n)
            &&& forall|j: int|
                0 <= j < v.len() ==> first <= #[trigger] v[j] < first + n && listed(s, v[j])
                    && listed_before(s, first, v[j]) == j
            &&& forall|x: int|
                first <= x < first + n && #[trigger] listed(s, x) ==> listed_before(s, first, x)
                    < v.len() && v[listed_before(s, first, x) as int] == x
        }),
    decreases n,
{
    let v = civil::matching_days(first, n, s.days);
    if n > 0 {
        let m = (n - 1) as nat;
        lemma_matching(s, first, m);
        let rest = civil::matching_days(first, m, s.days);
        let d = first + n - 1;
        assert(listed_before(s, first, first + n) == listed_before(s, first, d) + (if listed(s, d) {
            1nat
        } else {
            0
        }));
        assert forall|x: int| first <= x < first + n && #[trigger] listed(s, x) implies listed_before(
            s,
            first,
            x,
        ) < v.len() && v[listed_before(s, first, x) as int] == x by {
            if x < d {
                assert(rest[listed_before(s, first, x) as int] == x);
            }
        }
    }
}

proof fn lemma_nth(s: SeriesVal, y: int, m: int, last: int, x: int)
    requires
        civil::MIN_YEAR <= y <= civil::MAX_YEAR,
        1 <= m <= 12,
        civil::last_of_month(y, m) == Some(last),
        s.days.len() > 0,
    ensures
        civil::nth_weekday(y, m, s.days, s.index) == Some(x) <==> (civil::in_calendar(x)
            && civil::civil_of(x).0 == y && civil::civil_of(x).1 == m && indexed(s, x)),
{
    let first = civil::day_number(y, m, 1);
    let v = civil::matching_days(first, last as nat, s.days);
    lemma_matching(s, first, last as nat);
    lemma_index_names();
    let index = text::lowered(s.index);
    if civil::nth_weekday(y, m, s.days, s.index) == Some(x) {
        assert(exists|j: int| 0 <= j < v.len() && #[trigger] v[j] == x);
        let j = choose|j: int| 0 <= j < v.len() && #[trigger] v[j] == x;
        let day = x - first + 1;
        assert(civil::day_number(y, m, day) == x);
        civil::days_have_one_date(y, m, day);
        lemma_in_calendar(y, m, day);
        if index == "last"@ {
            assert forall|z: int| x < z <= x - day + civil::month_days(y, m) implies !#[trigger] listed(
                s,
                z,
            ) by {
                if listed(s, z) {
                    lemma_listed_grows(s, first, x, z);
                }
            }
        }
    }
    if civil::in_calendar(x) && civil::civil_of(x).0 == y && civil::civil_of(x).1 == m && indexed(
        s,
        x,
    ) {
        civil::every_day_has_a_date(x);
        let day = civil::civil_of(x).2;
        assert(x == first + day - 1);
        let j = listed_before(s, first, x) as int;
        assert(v[j] == x);
        if index == "last"@ && j < v.len() - 1 {
            let z = v[v.len() - 1];
            assert(listed(s, z));
            if z <= x {
                if z < x {
                    lemma_listed_grows(s, first, z, x);
                }
            }
        }
    }
}

proof fn lemma_listed_grows(s: SeriesVal, lo: int, a: int, b: int)
    requires
        lo <= a < b,
        listed(s, a),
    ensures
        listed_before(s, lo, a) < listed_before(s, lo, b),
    decreases b - a,
{
    if a < b - 1 {
        lemma_listed_grows(s, lo, a, b - 1);
    }
}

proof fn lemma_index_names()
    ensures
        "second"@ != "third"@,
        "second"@ != "fourth"@,
        "second"@ != "last"@,
        "third"@ != "fourth"@,
        "third"@ != "last"@,
        "fourth"@ != "last"@,
        "first"@ != "second"@,
        "first"@ != "third"@,
        "first"@ != "fourth"@,
        "first"@ != "last"@,
        text::lowered("first"@) == "first"@,
{
    reveal_strlit("first");
    reveal_strlit("second");
    reveal_strlit("third");
    reveal_strlit("fourth");
    reveal_strlit("last");
    assert("first"@[0] == 'f' && "second"@[0] == 's' && "third"@[0] == 't' && "last"@[0] == 'l');
    assert("first"@.len() == 5 && "fourth"@.len() == 6);
    assert(text::lowered("first"@) =~= "first"@);
}

proof fn lemma_clamped(y: int, m: int, last: int, k: int, x: int)
    requires
        civil::MIN_YEAR <= y <= civil::MAX_YEAR,
        1 <= m <= 12,
        civil::last_of_month(y, m) == Some(last),
        0 <= k,
    ensures
        civil::clamped(y, m, k) == Some(x) <==> (civil::in_calendar(x) && civil::civil_of(x).0 == y
            && civil::civil_of(x).1 == m && (civil::civil_of(x).2 == k || (civil::civil_of(x).2
            == last && k > last))),
{
    if civil::clamped(y, m, k) == Some(x) {
        let day = if k < last {
            k
        } else {
            last
        };
        civil::days_have_one_date(y, m, day);
        lemma_in_calendar(y, m, day);
    }
    if civil::in_calendar(x) && civil::civil_of(x).0 == y && civil::civil_of(x).1 == m {
        civil::every_day_has_a_date(x);
    }
}

proof fn lemma_month_ends(s: SeriesVal, cursor: int, m: int)
    requires
        fine(s),
        monthly(s) || yearly(s),
        civil::in_calendar(cursor),
        expand::next_period(s, cursor) is Some,
        1 <= m <= 12,
        monthly(s) ==> m == civil::civil_of(cursor).1,
    ensures
        civil::last_of_month(civil::civil_of(cursor).0, m) == Some(
            civil::month_days(civil::civil_of(cursor).0, m),
        ),
{
    civil::every_day_has_a_date(cursor);
    let (y, mc, d) = civil::civil_of(cursor);
    if monthly(s) {
        let total = 12 * y + (mc - 1) + s.interval;
        assert(civil::wrapped_i32(total / 12) == total / 12);
    } else {
        assert(civil::wrapped_i32(s.interval) == s.interval);
    }
}

/// The dates of a period are the days of the period that the series names.
proof fn lemma_period(s: SeriesVal, cursor: int, x: int)
    requires
        fine(s),
        civil::in_calendar(cursor),
        expand::next_period(s, cursor) is Some,
        expand::period_dates(s, cursor) is Some,
    ensures
        expand::period_dates(s, cursor)->0.contains(x) <==> (civil::in_calendar(x) && unit(s, x)
            == unit(s, cursor) && placed(s, x)),
{
    civil::every_day_has_a_date(cursor);
    let (y, m, d) = civil::civil_of(cursor);
    let dates = expand::period_dates(s, cursor)->0;
    if civil::in_calendar(x) {
        civil::every_day_has_a_date(x);
    }
    match s.kind {
        Kind::Daily => {
            assert(dates =~= seq![cursor]);
            assert(dates[0] == cursor);
        },
        Kind::Weekly => {
            lemma_week(s, cursor, x);
        },
        Kind::AbsoluteMonthly => {
            lemma_month_ends(s, cursor, m);
            lemma_clamped(y, m, civil::month_days(y, m), expand::low_32(s.day_of_month->0), x);
            lemma_one(civil::clamped(y, m, expand::low_32(s.day_of_month->0)), x);
        },
        Kind::RelativeMonthly => {
            lemma_month_ends(s, cursor, m);
            lemma_one(civil::nth_weekday(y, m, s.days, s.index), x);
            if s.days.len() > 0 {
                lemma_nth(s, y, m, civil::month_days(y, m), x);
            }
        },
        Kind::AbsoluteYearly => {
            let month = expand::low_32(s.month->0);
            lemma_one(civil::clamped(y, month, expand::low_32(s.day_of_month->0)), x);
            if 1 <= month <= 12 {
                lemma_month_ends(s, cursor, month);
                lemma_clamped(
                    y,
                    month,
                    civil::month_days(y, month),
                    expand::low_32(s.day_of_month->0),
                    x,
                );
            }
        },
        Kind::RelativeYearly => {
            let month = expand::low_32(s.month->0);
            lemma_one(civil::nth_weekday(y, month, s.days, s.index), x);
            if 1 <= month <= 12 && s.days.len() > 0 {
                lemma_month_ends(s, cursor, month);
                lemma_nth(s, y, month, civil::month_days(y, month), x);
            }
        },
    }
}

proof fn lemma_one(d: Option<int>, x: int)
    ensures
        expand::date_if(d).contains(x) <==> d == Some(x),
{
    if let Some(k) = d {
        assert(seq![k][0] == k);
    }
}

proof fn lemma_week(s: SeriesVal, cursor: int, x: int)
    requires
        fine(s),
        s.kind == Kind::Weekly,
        civil::in_calendar(cursor),
        expand::period_dates(s, cursor) is Some,
    ensures
        expand::period_dates(s, cursor)->0.contains(x) <==> (civil::in_calendar(x) && unit(s, x)
            == unit(s, cursor) && placed(s, x)),
{
    let dates = expand::period_dates(s, cursor)->0;
    let first = s.first as int;
    let start = expand::week_start(s, cursor);
    let u = (cursor - first) / 7;
    lemma_week_of(cursor, first);
    assert(start == first + 7 * u);
    if dates.contains(x) {
        let i = choose|i: int| 0 <= i < dates.len() && dates[i] == x;
        let day = s.days[i] as int;
        assert(s.days[i] < 7);
        assert(x == start + (day - first) % 7);
        lemma_day_of_week(first, u, day);
        assert(x % 7 == day);
        assert(s.days[i] == (x % 7) as u32);
        assert(civil::in_calendar(expand::week_dates(s, start)[i]));
    }
    if civil::in_calendar(x) && unit(s, x) == unit(s, cursor) && placed(s, x) {
        let w = (x % 7) as u32;
        let i = choose|i: int| 0 <= i < s.days.len() && s.days[i] == w;
        lemma_week_of(x, first);
        assert(dates[i] == start + (w as int - first) % 7);
        assert(dates[i] == x);
    }
}

proof fn lemma_accepted(s: SeriesVal, dates: Seq<int>, x: int)
    ensures
        expand::accepted(s, dates).contains(x) <==> dates.contains(x) && expand::within(s, x),
    decreases dates.len(),
{
    if dates.len() > 0 {
        let rest = dates.drop_last();
        lemma_accepted(s, rest, x);
        let last = dates.last();
        assert(dates =~= rest.push(last));
        lemma_pushed(rest, last, x);
        lemma_pushed(expand::accepted(s, rest), last, x);
    }
}

proof fn lemma_pushed(v: Seq<int>, d: int, x: int)
    ensures
        v.push(d).contains(x) <==> v.contains(x) || x == d,
{
    let w = v.push(d);
    if v.contains(x) {
        let k = choose|k: int| 0 <= k < v.len() && v[k] == x;
        assert(w[k] == x);
    }
    assert(w[v.len() as int] == d);
    if w.contains(x) && x != d {
        let k = choose|k: int| 0 <= k < w.len() && w[k] == x;
        assert(v[k] == x);
    }
}

proof fn lemma_joined(a: Seq<int>, b: Seq<int>, x: int)
    ensures
        (a + b).contains(x) <==> a.contains(x) || b.contains(x),
    decreases b.len(),
{
    if b.len() == 0 {
        assert(a + b =~= a);
    } else {
        lemma_joined(a, b.drop_last(), x);
        assert(a + b =~= (a + b.drop_last()).push(b.last()));
        assert(b =~= b.drop_last().push(b.last()));
        lemma_pushed(a + b.drop_last(), b.last(), x);
        lemma_pushed(b.drop_last(), b.last(), x);
    }
}

spec fn fits(s: SeriesVal, d: int) -> bool {
    civil::in_calendar(d) && (unit(s, d) - unit(s, s.start)) % s.interval == 0 && placed(s, d)
        && expand::within(s, d)
}

spec fn on_track(s: SeriesVal, cursor: int) -> bool {
    civil::in_calendar(cursor) && (unit(s, cursor) - unit(s, s.start)) % s.interval == 0
}

proof fn lemma_more(s: SeriesVal, cursor: int, found: Seq<int>)
    requires
        fine(s),
        on_track(s, cursor),
        expand::period_dates(s, cursor) is Some,
        expand::next_period(s, cursor) is Some,
        forall|x: int| #[trigger] found.contains(x) ==> fits(s, x) && unit(s, x) < unit(s, cursor),
    ensures
        on_track(s, expand::next_period(s, cursor)->0),
        ({
            let more = found + expand::accepted(s, expand::period_dates(s, cursor)->0);
            let next = expand::next_period(s, cursor)->0;
            forall|x: int|
                #[trigger] more.contains(x) <==> found.contains(x) || (fits(s, x) && unit(s, x)
                    == unit(s, cursor))
        }),
{
    let next = expand::next_period(s, cursor)->0;
    let dates = expand::period_dates(s, cursor)->0;
    let more = found + expand::accepted(s, dates);
    lemma_next(s, cursor);
    let gap = unit(s, cursor) - unit(s, s.start);
    vstd::arithmetic::div_mod::lemma_mod_add_multiples_vanish(gap, s.interval);
    assert((s.interval + gap) % s.interval == 0);
    assert forall|x: int| #[trigger] more.contains(x) <==> found.contains(x) || (fits(s, x) && unit(
        s,
        x,
    ) == unit(s, cursor)) by {
        lemma_joined(found, expand::accepted(s, dates), x);
        lemma_accepted(s, dates, x);
        lemma_period(s, cursor, x);
    }
}

proof fn lemma_walk_fits(s: SeriesVal, window_end: int, cursor: int, found: Seq<int>, steps: nat)
    requires
        fine(s),
        on_track(s, cursor),
        forall|x: int| #[trigger] found.contains(x) ==> fits(s, x) && unit(s, x) < unit(s, cursor),
    ensures
        expand::walk(s, window_end, cursor, found, steps) is Some ==> forall|x: int| #[trigger]
            expand::walk(s, window_end, cursor, found, steps)->0.contains(x) ==> fits(s, x),
    decreases steps,
{
    if steps > 0 {
        match (expand::period_dates(s, cursor), expand::next_period(s, cursor)) {
            (Some(dates), Some(next)) => {
                let more = found + expand::accepted(s, dates);
                lemma_next(s, cursor);
                lemma_more(s, cursor, found);
                if !expand::finished(s, window_end, more.len(), next) {
                    lemma_walk_fits(s, window_end, next, more, (steps - 1) as nat);
                }
            },
            _ => {},
        }
    }
}

proof fn lemma_walk_keeps(
    s: SeriesVal,
    window_end: int,
    cursor: int,
    found: Seq<int>,
    steps: nat,
    d: int,
)
    requires
        found.contains(d),
    ensures
        expand::walk(s, window_end, cursor, found, steps) is Some ==> expand::walk(
            s,
            window_end,
            cursor,
            found,
            steps,
        )->0.contains(d),
    decreases steps,
{
    if steps > 0 {
        match (expand::period_dates(s, cursor), expand::next_period(s, cursor)) {
            (Some(dates), Some(next)) => {
                let more = found + expand::accepted(s, dates);
                lemma_joined(found, expand::accepted(s, dates), d);
                if !expand::finished(s, window_end, more.len(), next) {
                    lemma_walk_keeps(s, window_end, next, more, (steps - 1) as nat, d);
                }
            },
            _ => {},
        }
    }
}

/// A date that fits is reached, unless the series has as many dates as it asks
/// for before.
proof fn lemma_walk_reaches(
    s: SeriesVal,
    window_end: int,
    cursor: int,
    found: Seq<int>,
    steps: nat,
    d: int,
)
    requires
        fine(s),
        on_track(s, cursor),
        forall|x: int| #[trigger] found.contains(x) ==> fits(s, x) && unit(s, x) < unit(s, cursor),
        fits(s, d),
        d <= window_end,
        unit(s, cursor) <= unit(s, d),
        unit(s, d) - unit(s, cursor) < steps * s.interval,
        expand::walk(s, window_end, cursor, found, steps) is Some,
    ensures
        ({
            let v = expand::walk(s, window_end, cursor, found, steps)->0;
            v.contains(d) || (s.count matches Some(n) && v.len() >= n && forall|x: int| #[trigger]
                v.contains(x) ==> x < d)
        }),
    decreases steps,
{
    assert(steps > 0) by (nonlinear_arith)
        requires
            0 <= unit(s, d) - unit(s, cursor) < steps * s.interval,
            0 < s.interval,
    ;
    let dates = expand::period_dates(s, cursor)->0;
    let next = expand::next_period(s, cursor)->0;
    let more = found + expand::accepted(s, dates);
    lemma_next(s, cursor);
    lemma_more(s, cursor, found);
    let gap = unit(s, d) - unit(s, cursor);
    if gap == 0 {
        assert(more.contains(d));
        if !expand::finished(s, window_end, more.len(), next) {
            lemma_walk_keeps(s, window_end, next, more, (steps - 1) as nat, d);
        }
    } else {
        let a = unit(s, d) - unit(s, s.start);
        let b = unit(s, cursor) - unit(s, s.start);
        vstd::arithmetic::div_mod::lemma_sub_mod_noop(a, b, s.interval);
        assert(gap == a - b);
        vstd::arithmetic::div_mod::lemma_small_mod(0, s.interval as nat);
        assert(gap % s.interval == 0);
        assert(gap >= s.interval) by {
            if gap < s.interval {
                vstd::arithmetic::div_mod::lemma_small_mod(gap as nat, s.interval as nat);
            }
        }
        assert((steps - 1) * s.interval == steps * s.interval - s.interval) by (nonlinear_arith);
        assert(next <= d);
        assert forall|x: int| #[trigger] more.contains(x) implies fits(s, x) && unit(s, x) < unit(
            s,
            next,
        ) by {}
        if expand::finished(s, window_end, more.len(), next) {
            assert forall|x: int| #[trigger] more.contains(x) implies x < d by {
                lemma_units_follow(s, x, d);
            }
        } else {
            lemma_walk_reaches(s, window_end, next, more, (steps - 1) as nat, d);
        }
    }
}

proof fn lemma_day_names()
    ensures
        forall|a: int, b: int|
            0 <= a < 7 && 0 <= b < 7 && a != b ==> #[trigger] weekday_name(a)
                != #[trigger] weekday_name(b),
{
    reveal_strlit("sunday");
    reveal_strlit("monday");
    reveal_strlit("tuesday");
    reveal_strlit("wednesday");
    reveal_strlit("thursday");
    reveal_strlit("friday");
    reveal_strlit("saturday");
    assert("sunday"@.len() == 6 && "monday"@.len() == 6 && "tuesday"@.len() == 7
        && "wednesday"@.len() == 9 && "thursday"@.len() == 8 && "friday"@.len() == 6
        && "saturday"@.len() == 8);
    assert("sunday"@[0] == 's' && "monday"@[0] == 'm' && "friday"@[0] == 'f' && "thursday"@[0] == 't'
        && "saturday"@[0] == 's');
}

proof fn lemma_day_named(t: Seq<char>, w: int)
    requires
        0 <= w < 7,
        text::lowered(t) == weekday_name(w),
    ensures
        recurrence::day_named(t) == Some(w as u32),
{
    lemma_day_names();
    assert(weekday_name(0) == "sunday"@ && weekday_name(1) == "monday"@ && weekday_name(2)
        == "tuesday"@ && weekday_name(3) == "wednesday"@ && weekday_name(4) == "thursday"@
        && weekday_name(5) == "friday"@ && weekday_name(6) == "saturday"@);
}

proof fn lemma_named(v: Seq<Val>, w: int)
    requires
        0 <= w < 7,
    ensures
        recurrence::named_days(v).contains(w as u32) <==> exists|i: int|
            0 <= i < v.len() && (#[trigger] v[i]).as_text() is Some && text::lowered(
                v[i].as_text()->0,
            ) == weekday_name(w),
        forall|i: int|
            0 <= i < recurrence::named_days(v).len() ==> #[trigger] recurrence::named_days(v)[i]
                < 7,
    decreases v.len(),
{
    lemma_day_names();
    if v.len() > 0 {
        let rest = v.drop_last();
        let last = v.last();
        lemma_named(rest, w);
        let days = recurrence::named_days(rest);
        let all = recurrence::named_days(v);
        let here = last.as_text() is Some && text::lowered(last.as_text()->0) == weekday_name(w);
        if here {
            lemma_day_named(last.as_text()->0, w);
            assert(v[v.len() - 1] == last);
            assert(all[all.len() - 1] == w as u32);
        }
        if days.contains(w as u32) {
            let i = choose|i: int| 0 <= i < days.len() && days[i] == w as u32;
            assert(all[i] == w as u32);
            let k = choose|k: int|
                0 <= k < rest.len() && (#[trigger] rest[k]).as_text() is Some && text::lowered(
                    rest[k].as_text()->0,
                ) == weekday_name(w);
            assert(v[k] == rest[k]);
        }
        if all.contains(w as u32) && !here {
            let i = choose|i: int| 0 <= i < all.len() && all[i] == w as u32;
            if i == days.len() {
                let e = recurrence::day_named(last.as_text()->0)->0;
                assert(text::lowered(last.as_text()->0) == weekday_name(e as int));
            }
            assert(days[i] == w as u32);
        }
        if exists|i: int|
            0 <= i < v.len() && (#[trigger] v[i]).as_text() is Some && text::lowered(
                v[i].as_text()->0,
            ) == weekday_name(w) {
            let k = choose|i: int|
                0 <= i < v.len() && (#[trigger] v[i]).as_text() is Some && text::lowered(
                    v[i].as_text()->0,
                ) == weekday_name(w);
            if k < rest.len() {
                assert(rest[k] == v[k]);
            }
        }
    }
}

proof fn lemma_names_day(pattern: Val, w: int)
    requires
        0 <= w < 7,
    ensures
        recurrence::pattern_days(pattern).contains(w as u32) <==> names_day(pattern, w),
{
    lemma_named(recurrence::items_at(pattern, "daysOfWeek"@), w);
}

proof fn lemma_before(pattern: Val, s: SeriesVal, lo: int, d: int)
    requires
        s.days == recurrence::pattern_days(pattern),
    ensures
        listed_before(s, lo, d) == named_before(pattern, lo, d),
    decreases d - lo,
{
    if d > lo {
        lemma_before(pattern, s, lo, d - 1);
        lemma_names_day(pattern, (d - 1) % 7);
    }
}

proof fn lemma_first_day(pattern: Val, f: int)
    requires
        week_begins(pattern, f),
    ensures
        expand::first_day_of(pattern) == f,
{
    lemma_day_names();
    if let Some(t) = pattern.text_at("firstDayOfWeek"@) {
        if let Some(e) = recurrence::day_named(t) {
            assert(text::lowered(t) == weekday_name(e as int));
        } else {
            if text::lowered(t) == weekday_name(f) {
                lemma_day_named(t, f);
            }
        }
    }
}

proof fn lemma_types()
    ensures
        "daily"@ != "weekly"@,
        "daily"@ != "absoluteMonthly"@,
        "daily"@ != "relativeMonthly"@,
        "daily"@ != "absoluteYearly"@,
        "daily"@ != "relativeYearly"@,
        "weekly"@ != "absoluteMonthly"@,
        "weekly"@ != "relativeMonthly"@,
        "weekly"@ != "absoluteYearly"@,
        "weekly"@ != "relativeYearly"@,
        "absoluteMonthly"@ != "relativeMonthly"@,
        "absoluteMonthly"@ != "absoluteYearly"@,
        "absoluteMonthly"@ != "relativeYearly"@,
        "relativeMonthly"@ != "absoluteYearly"@,
        "relativeMonthly"@ != "relativeYearly"@,
        "absoluteYearly"@ != "relativeYearly"@,
{
    reveal_strlit("daily");
    reveal_strlit("weekly");
    reveal_strlit("absoluteMonthly");
    reveal_strlit("relativeMonthly");
    reveal_strlit("absoluteYearly");
    reveal_strlit("relativeYearly");
    assert("daily"@.len() == 5 && "weekly"@.len() == 6);
    assert("absoluteMonthly"@[0] == 'a' && "relativeMonthly"@[0] == 'r' && "absoluteYearly"@[0]
        == 'a' && "relativeYearly"@[0] == 'r');
    assert("absoluteMonthly"@.len() == 15 && "relativeMonthly"@.len() == 15
        && "absoluteYearly"@.len() == 14 && "relativeYearly"@.len() == 14);
}

proof fn lemma_described(rec: Val, start: int, n: int, f: int, d: int)
    requires
        describes(rec, start, n, f),
        expand::series_of(rec) is Some,
    ensures
        ({
            let s = expand::series_of(rec)->0;
            let pattern = rec.get("pattern"@)->0;
            let range = rec.get("range"@)->0;
            &&& fine(s)
            &&& s.start == start
            &&& s.interval == n
            &&& expand::within(s, d) == in_span(range, start, d)
            &&& unit(s, d) - unit(s, start) == distance(pattern, start, f, d)
            &&& placed(s, d) && distance(pattern, start, f, d) % n == 0 <==> is_due(
                pattern,
                start,
                n,
                f,
                d,
            )
            &&& forall|k: nat|
                (s.count is Some && k >= s.count->0) <==> #[trigger] is_enough(range, k)
        }),
{
    let s = expand::series_of(rec)->0;
    let pattern = rec.get("pattern"@)->0;
    let range = rec.get("range"@)->0;
    lemma_types();
    lemma_index_names();
    lemma_first_day(pattern, f);
    lemma_named(recurrence::items_at(pattern, "daysOfWeek"@), 0);
    lemma_names_day(pattern, d % 7);
    let (y, m, day) = civil::civil_of(d);
    lemma_before(pattern, s, d - day + 1, d);
    assert(listed(s, d) == names_day(pattern, d % 7));
    assert forall|x: int| #[trigger] listed(s, x) == names_day(pattern, x % 7) by {
        lemma_names_day(pattern, x % 7);
    }
    if s.kind == Kind::RelativeMonthly || s.kind == Kind::RelativeYearly {
        if is_picked(pattern, d) {
            assert forall|x: int|
                d < x <= d - day + civil::month_days(y, m) && text::lowered(s.index)
                    == "last"@ implies !#[trigger] listed(s, x) by {
                assert(!names_day(pattern, x % 7));
            }
            assert(indexed(s, d));
        }
        if indexed(s, d) {
            assert forall|x: int|
                d < x <= d - day + civil::month_days(y, m) && text::lowered(s.index)
                    == "last"@ implies !names_day(pattern, #[trigger] (x % 7)) by {
                assert(!listed(s, x));
            }
            assert(is_picked(pattern, d));
        }
    }
}

/// Every date of a recurrence is due: it lies a whole number of intervals after
/// the start, in days, weeks, months or years, on a day that the pattern names,
/// and between the first and the last day of the range.
pub proof fn only_due_dates_are_expanded(
    rec: Val,
    window_end: int,
    start: int,
    n: int,
    f: int,
    d: int,
)
    requires
        describes(rec, start, n, f),
        expand::series_dates(rec, window_end) is Some,
        expand::series_dates(rec, window_end)->0.contains(d),
    ensures
        is_due(rec.get("pattern"@)->0, start, n, f, d),
        in_span(rec.get("range"@)->0, start, d),
{
    let s = expand::series_of(rec)->0;
    lemma_described(rec, start, n, f, d);
    vstd::arithmetic::div_mod::lemma_small_mod(0, n as nat);
    lemma_walk_fits(s, window_end, s.start, Seq::empty(), expand::MAX_STEPS as nat);
}

/// Every day that is due is a date of the recurrence, up to the end of the
/// window and for 200000 periods, unless the recurrence has as many dates as
/// its range asks for, and all of them lie before that day.
pub proof fn every_due_date_is_expanded(
    rec: Val,
    window_end: int,
    start: int,
    n: int,
    f: int,
    d: int,
)
    requires
        describes(rec, start, n, f),
        expand::series_dates(rec, window_end) is Some,
        civil::in_calendar(d),
        d <= window_end,
        is_due(rec.get("pattern"@)->0, start, n, f, d),
        in_span(rec.get("range"@)->0, start, d),
        distance(rec.get("pattern"@)->0, start, f, d) < 200_000 * n,
    ensures
        expand::series_dates(rec, window_end)->0.contains(d) || (is_enough(
            rec.get("range"@)->0,
            expand::series_dates(rec, window_end)->0.len(),
        ) && forall|x: int| #[trigger]
            expand::series_dates(rec, window_end)->0.contains(x) ==> x < d),
{
    let s = expand::series_of(rec)->0;
    lemma_described(rec, start, n, f, d);
    if unit(s, d) < unit(s, start) {
        lemma_units_follow(s, d, start);
    }
    vstd::arithmetic::div_mod::lemma_small_mod(0, n as nat);
    lemma_walk_reaches(s, window_end, s.start, Seq::empty(), expand::MAX_STEPS as nat, d);
}

} // verus!

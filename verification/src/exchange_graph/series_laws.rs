//! What holds of every expansion, and of rules that are stored and read back.

use crate::civil;
use crate::exchange::date;
use crate::exchange_graph::expand;
use crate::exchange_graph::expand::{Kind, SeriesVal};
use crate::exchange_graph::recurrence;
use crate::json;
use crate::json::{Members, NumberVal, Val};
use crate::text;
use vstd::prelude::*;

verus! {

proof fn lemma_accepted_within(s: SeriesVal, dates: Seq<int>)
    ensures
        forall|i: int|
            0 <= i < expand::accepted(s, dates).len() ==> expand::within(
                s,
                #[trigger] expand::accepted(s, dates)[i],
            ),
        expand::accepted(s, dates).len() <= dates.len(),
    decreases dates.len(),
{
    if dates.len() > 0 {
        lemma_accepted_within(s, dates.drop_last());
    }
}

proof fn lemma_walk_within(s: SeriesVal, window_end: int, cursor: int, found: Seq<int>, steps: nat)
    requires
        forall|i: int| 0 <= i < found.len() ==> expand::within(s, #[trigger] found[i]),
    ensures
        expand::walk(s, window_end, cursor, found, steps) matches Some(v) ==> forall|i: int|
            0 <= i < v.len() ==> expand::within(s, #[trigger] v[i]),
    decreases steps,
{
    if steps > 0 {
        match (expand::period_dates(s, cursor), expand::next_period(s, cursor)) {
            (Some(dates), Some(next)) => {
                let more = found + expand::accepted(s, dates);
                lemma_accepted_within(s, dates);
                assert forall|i: int| 0 <= i < more.len() implies expand::within(
                    s,
                    #[trigger] more[i],
                ) by {
                    if i < found.len() {
                        assert(more[i] == found[i]);
                    } else {
                        assert(more[i] == expand::accepted(s, dates)[i - found.len()]);
                    }
                }
                if !expand::finished(s, window_end, more.len(), next) {
                    lemma_walk_within(s, window_end, next, more, (steps - 1) as nat);
                }
            },
            _ => {},
        }
    }
}

/// No expansion goes back before the start of its series, nor beyond its end.
pub proof fn expansions_stay_within_their_series(rec: Val, window_end: int, d: int)
    requires
        expand::series_dates(rec, window_end) is Some,
        expand::series_dates(rec, window_end)->0.contains(d),
    ensures
        expand::within(expand::series_of(rec)->0, d),
{
    let s = expand::series_of(rec)->0;
    lemma_walk_within(s, window_end, s.start, Seq::empty(), expand::MAX_STEPS as nat);
    let v = expand::series_dates(rec, window_end)->0;
    let i = choose|i: int| 0 <= i < v.len() && v[i] == d;
    assert(expand::within(s, v[i]));
}

proof fn lemma_walk_counted(s: SeriesVal, window_end: int, cursor: int, found: Seq<int>, steps: nat)
    requires
        s.kind != Kind::Weekly,
        s.count matches Some(n) && found.len() < n,
    ensures
        expand::walk(s, window_end, cursor, found, steps) matches Some(v) ==> v.len() <= s.count->0,
    decreases steps,
{
    if steps > 0 {
        match (expand::period_dates(s, cursor), expand::next_period(s, cursor)) {
            (Some(dates), Some(next)) => {
                let more = found + expand::accepted(s, dates);
                lemma_accepted_within(s, dates);
                assert(dates.len() <= 1);
                if !expand::finished(s, window_end, more.len(), next) {
                    lemma_walk_counted(s, window_end, next, more, (steps - 1) as nat);
                }
            },
            _ => {},
        }
    }
}

/// A numbered series that names one day per period never has more dates than
/// its number.
pub proof fn numbered_series_stop_at_their_count(rec: Val, window_end: int)
    requires
        expand::series_of(rec) matches Some(s) && s.kind != Kind::Weekly && s.count is Some,
    ensures
        expand::series_dates(rec, window_end) matches Some(v) ==> v.len() <= expand::series_of(
            rec,
        )->0.count->0,
{
    let s = expand::series_of(rec)->0;
    let pattern = rec.get("pattern"@)->0;
    let range = rec.get("range"@)->0;
    assert(expand::count_of(range) == s.count);
    lemma_walk_counted(s, window_end, s.start, Seq::empty(), expand::MAX_STEPS as nat);
}

/// What a series says as far as its kind asks.
pub open spec fn essential(s: SeriesVal) -> SeriesVal {
    let relative = s.kind == Kind::RelativeMonthly || s.kind == Kind::RelativeYearly;
    let absolute = s.kind == Kind::AbsoluteMonthly || s.kind == Kind::AbsoluteYearly;
    let yearly = s.kind == Kind::AbsoluteYearly || s.kind == Kind::RelativeYearly;
    SeriesVal {
        kind: s.kind,
        start: s.start,
        limit: s.limit,
        count: s.count,
        interval: s.interval,
        days: if relative || s.kind == Kind::Weekly {
            s.days
        } else {
            Seq::empty()
        },
        first: if s.kind == Kind::Weekly {
            s.first
        } else {
            0
        },
        day_of_month: if absolute {
            s.day_of_month
        } else {
            None
        },
        month: if yearly {
            s.month
        } else {
            None
        },
        index: if relative {
            text::lowered(s.index)
        } else {
            Seq::empty()
        },
    }
}

proof fn lemma_lowered_twice(s: Seq<char>)
    ensures
        text::lowered(text::lowered(s)) == text::lowered(s),
{
    assert(text::lowered(text::lowered(s)) =~= text::lowered(s));
}

proof fn lemma_period_essential(s: SeriesVal, cursor: int)
    ensures
        expand::period_dates(s, cursor) == expand::period_dates(essential(s), cursor),
        expand::next_period(s, cursor) == expand::next_period(essential(s), cursor),
{
    let e = essential(s);
    lemma_lowered_twice(s.index);
    if s.kind == Kind::Weekly {
        let start = expand::week_start(s, cursor);
        assert(expand::week_dates(s, start) =~= expand::week_dates(e, start));
    }
}

proof fn lemma_accepted_essential(s: SeriesVal, dates: Seq<int>)
    ensures
        expand::accepted(s, dates) == expand::accepted(essential(s), dates),
    decreases dates.len(),
{
    if dates.len() > 0 {
        lemma_accepted_essential(s, dates.drop_last());
    }
}

proof fn lemma_walk_essential(
    s: SeriesVal,
    window_end: int,
    cursor: int,
    found: Seq<int>,
    steps: nat,
)
    ensures
        expand::walk(s, window_end, cursor, found, steps) == expand::walk(
            essential(s),
            window_end,
            cursor,
            found,
            steps,
        ),
    decreases steps,
{
    if steps > 0 {
        lemma_period_essential(s, cursor);
        match (expand::period_dates(s, cursor), expand::next_period(s, cursor)) {
            (Some(dates), Some(next)) => {
                lemma_accepted_essential(s, dates);
                let more = found + expand::accepted(s, dates);
                if !expand::finished(s, window_end, more.len(), next) {
                    lemma_walk_essential(s, window_end, next, more, (steps - 1) as nat);
                }
            },
            _ => {},
        }
    }
}

/// A value under a name, if it is the one looked for.
spec fn under(name: Seq<char>, value: Option<Val>, key: Seq<char>) -> Option<Val> {
    if name == key {
        value
    } else {
        None
    }
}

spec fn either(a: Option<Val>, b: Option<Val>) -> Option<Val> {
    if a is Some {
        a
    } else {
        b
    }
}

proof fn lemma_lookup_one(name: Seq<char>, value: Val, key: Seq<char>)
    ensures
        json::lookup(seq![(name, value)], key) == under(name, Some(value), key),
{
    let e = seq![(name, value)];
    assert(e.drop_first() =~= Seq::empty());
    assert(json::lookup(e.drop_first(), key) is None);
}

proof fn lemma_lookup_two(n1: Seq<char>, v1: Val, n2: Seq<char>, v2: Val, key: Seq<char>)
    ensures
        json::lookup(seq![(n1, v1), (n2, v2)], key) == either(
            under(n1, Some(v1), key),
            under(n2, Some(v2), key),
        ),
{
    let e = seq![(n1, v1), (n2, v2)];
    assert(e.drop_first() =~= seq![(n2, v2)]);
    lemma_lookup_one(n2, v2, key);
}

proof fn lemma_rule_lookup(p: Val, r: Val, key: Seq<char>)
    ensures
        json::lookup(recurrence::rule_members(p, r), key) == either(
            either(
                either(
                    either(
                        either(
                            either(
                                either(
                                    either(
                                        either(
                                            under(
                                                "@type"@,
                                                Some(Val::Text("RecurrenceRule"@)),
                                                key,
                                            ),
                                            under(
                                                "frequency"@,
                                                Some(Val::Text(recurrence::frequency_of(p))),
                                                key,
                                            ),
                                        ),
                                        under("interval"@, recurrence::rule_interval(p), key),
                                    ),
                                    under("firstDayOfWeek"@, recurrence::rule_first_day(p), key),
                                ),
                                under(
                                    "byDay"@,
                                    json::list_opt(recurrence::ndays(recurrence::pattern_days(p))),
                                    key,
                                ),
                            ),
                            under(
                                "byMonthDay"@,
                                recurrence::one_int(recurrence::nonzero_at(p, "dayOfMonth"@)),
                                key,
                            ),
                        ),
                        under(
                            "byMonth"@,
                            recurrence::one_int_text(recurrence::nonzero_at(p, "month"@)),
                            key,
                        ),
                    ),
                    under(
                        "bySetPosition"@,
                        recurrence::one_int(recurrence::pattern_position(p)),
                        key,
                    ),
                ),
                under("until"@, recurrence::rule_until(r), key),
            ),
            under("count"@, recurrence::rule_count(r), key),
        ),
{
    let m0 = seq![
        ("@type"@, Val::Text("RecurrenceRule"@)),
        ("frequency"@, Val::Text(recurrence::frequency_of(p))),
    ];
    lemma_lookup_two(
        "@type"@,
        Val::Text("RecurrenceRule"@),
        "frequency"@,
        Val::Text(recurrence::frequency_of(p)),
        key,
    );
    let v1 = recurrence::rule_interval(p);
    let v2 = recurrence::rule_first_day(p);
    let v3 = json::list_opt(recurrence::ndays(recurrence::pattern_days(p)));
    let v4 = recurrence::one_int(recurrence::nonzero_at(p, "dayOfMonth"@));
    let v5 = recurrence::one_int_text(recurrence::nonzero_at(p, "month"@));
    let v6 = recurrence::one_int(recurrence::pattern_position(p));
    let v7 = recurrence::rule_until(r);
    let v8 = recurrence::rule_count(r);
    let m1 = m0 + json::member_if("interval"@, v1);
    let m2 = m1 + json::member_if("firstDayOfWeek"@, v2);
    let m3 = m2 + json::member_if("byDay"@, v3);
    let m4 = m3 + json::member_if("byMonthDay"@, v4);
    let m5 = m4 + json::member_if("byMonth"@, v5);
    let m6 = m5 + json::member_if("bySetPosition"@, v6);
    let m7 = m6 + json::member_if("until"@, v7);
    json::lemma_lookup_member_if(m0, "interval"@, v1, key);
    json::lemma_lookup_member_if(m1, "firstDayOfWeek"@, v2, key);
    json::lemma_lookup_member_if(m2, "byDay"@, v3, key);
    json::lemma_lookup_member_if(m3, "byMonthDay"@, v4, key);
    json::lemma_lookup_member_if(m4, "byMonth"@, v5, key);
    json::lemma_lookup_member_if(m5, "bySetPosition"@, v6, key);
    json::lemma_lookup_member_if(m6, "until"@, v7, key);
    json::lemma_lookup_member_if(m7, "count"@, v8, key);
}

/// The names of a rule's members differ.
proof fn lemma_rule_names()
    ensures
        "@type"@.len() == 5,
        "frequency"@.len() == 9,
        "interval"@.len() == 8,
        "firstDayOfWeek"@.len() == 14,
        "byDay"@.len() == 5,
        "byMonthDay"@.len() == 10,
        "byMonth"@.len() == 7,
        "bySetPosition"@.len() == 13,
        "until"@.len() == 5,
        "count"@.len() == 5,
        "@type"@ != "byDay"@,
        "@type"@ != "until"@,
        "@type"@ != "count"@,
        "byDay"@ != "until"@,
        "byDay"@ != "count"@,
        "until"@ != "count"@,
{
    reveal_strlit("@type");
    reveal_strlit("frequency");
    reveal_strlit("interval");
    reveal_strlit("firstDayOfWeek");
    reveal_strlit("byDay");
    reveal_strlit("byMonthDay");
    reveal_strlit("byMonth");
    reveal_strlit("bySetPosition");
    reveal_strlit("until");
    reveal_strlit("count");
    assert("@type"@[0] == '@');
    assert("byDay"@[0] == 'b');
    assert("until"@[0] == 'u');
    assert("count"@[0] == 'c');
}

/// What a stored rule holds, by name.
proof fn lemma_rule_contents(p: Val, r: Val)
    ensures
        ({
            let e = recurrence::rule_members(p, r);
            &&& json::lookup(e, "frequency"@) == Some(Val::Text(recurrence::frequency_of(p)))
            &&& json::lookup(e, "interval"@) == recurrence::rule_interval(p)
            &&& json::lookup(e, "firstDayOfWeek"@) == recurrence::rule_first_day(p)
            &&& json::lookup(e, "byDay"@) == json::list_opt(
                recurrence::ndays(recurrence::pattern_days(p)),
            )
            &&& json::lookup(e, "byMonthDay"@) == recurrence::one_int(
                recurrence::nonzero_at(p, "dayOfMonth"@),
            )
            &&& json::lookup(e, "byMonth"@) == recurrence::one_int_text(
                recurrence::nonzero_at(p, "month"@),
            )
            &&& json::lookup(e, "bySetPosition"@) == recurrence::one_int(
                recurrence::pattern_position(p),
            )
            &&& json::lookup(e, "until"@) == recurrence::rule_until(r)
            &&& json::lookup(e, "count"@) == recurrence::rule_count(r)
        }),
{
    lemma_rule_names();
    lemma_rule_lookup(p, r, "frequency"@);
    lemma_rule_lookup(p, r, "interval"@);
    lemma_rule_lookup(p, r, "firstDayOfWeek"@);
    lemma_rule_lookup(p, r, "byDay"@);
    lemma_rule_lookup(p, r, "byMonthDay"@);
    lemma_rule_lookup(p, r, "byMonth"@);
    lemma_rule_lookup(p, r, "bySetPosition"@);
    lemma_rule_lookup(p, r, "until"@);
    lemma_rule_lookup(p, r, "count"@);
}

/// A text of small letters is its own lower case.
proof fn lemma_small_letters(s: Seq<char>)
    requires
        forall|i: int| 0 <= i < s.len() ==> !('A' <= #[trigger] s[i] <= 'Z'),
    ensures
        text::lowered(s) == s,
{
    assert(text::lowered(s) =~= s);
}

proof fn lemma_short_days(d: u32)
    requires
        d < 7,
    ensures
        recurrence::day_abbreviated(recurrence::short_day(d)) == Some(d),
{
    reveal_strlit("su");
    reveal_strlit("mo");
    reveal_strlit("tu");
    reveal_strlit("we");
    reveal_strlit("th");
    reveal_strlit("fr");
    reveal_strlit("sa");
    lemma_small_letters("su"@);
    lemma_small_letters("mo"@);
    lemma_small_letters("tu"@);
    lemma_small_letters("we"@);
    lemma_small_letters("th"@);
    lemma_small_letters("fr"@);
    lemma_small_letters("sa"@);
    assert("su"@[0] == 's' && "su"@[1] == 'u');
    assert("mo"@[0] == 'm');
    assert("tu"@[0] == 't' && "tu"@[1] == 'u');
    assert("we"@[0] == 'w');
    assert("th"@[0] == 't' && "th"@[1] == 'h');
    assert("fr"@[0] == 'f');
    assert("sa"@[0] == 's' && "sa"@[1] == 'a');
}

proof fn lemma_long_days(d: u32)
    requires
        d < 7,
    ensures
        recurrence::day_named(recurrence::long_day(d)) == Some(d),
{
    reveal_strlit("sunday");
    reveal_strlit("monday");
    reveal_strlit("tuesday");
    reveal_strlit("wednesday");
    reveal_strlit("thursday");
    reveal_strlit("friday");
    reveal_strlit("saturday");
    lemma_small_letters("sunday"@);
    lemma_small_letters("monday"@);
    lemma_small_letters("tuesday"@);
    lemma_small_letters("wednesday"@);
    lemma_small_letters("thursday"@);
    lemma_small_letters("friday"@);
    lemma_small_letters("saturday"@);
    assert("sunday"@[0] == 's');
    assert("monday"@[0] == 'm');
    assert("friday"@[0] == 'f');
    assert("tuesday"@[0] == 't');
    assert("thursday"@[0] == 't');
    assert("saturday"@[0] == 's');
    assert("sunday"@.len() == 6 && "monday"@.len() == 6 && "tuesday"@.len() == 7
        && "wednesday"@.len() == 9 && "thursday"@.len() == 8 && "friday"@.len() == 6
        && "saturday"@.len() == 8);
}

proof fn lemma_named_days_small(v: Seq<Val>)
    ensures
        forall|i: int|
            0 <= i < recurrence::named_days(v).len() ==> #[trigger] recurrence::named_days(v)[i]
                < 7,
    decreases v.len(),
{
    if v.len() > 0 {
        let rest = recurrence::named_days(v.drop_last());
        lemma_named_days_small(v.drop_last());
        let all = recurrence::named_days(v);
        assert forall|i: int| 0 <= i < all.len() implies #[trigger] all[i] < 7 by {
            if i < rest.len() {
                assert(all[i] == rest[i]);
            }
        }
    }
}

proof fn lemma_abbreviations_read_back(days: Seq<u32>)
    requires
        forall|i: int| 0 <= i < days.len() ==> #[trigger] days[i] < 7,
    ensures
        expand::abbreviated_days(recurrence::ndays(days)) == days,
    decreases days.len(),
{
    let v = recurrence::ndays(days);
    if days.len() > 0 {
        let d = days.last();
        assert(days[days.len() - 1] < 7);
        assert(v.drop_last() =~= recurrence::ndays(days.drop_last()));
        assert forall|i: int| 0 <= i < days.drop_last().len() implies #[trigger] days.drop_last()[i]
            < 7 by {
            assert(days[i] < 7);
        }
        lemma_abbreviations_read_back(days.drop_last());
        assert(v.last() == recurrence::nday(d));
        reveal_strlit("@type");
        reveal_strlit("day");
        assert("@type"@.len() == 5 && "day"@.len() == 3);
        lemma_lookup_two(
            "@type"@,
            Val::Text("NDay"@),
            "day"@,
            Val::Text(recurrence::short_day(d)),
            "day"@,
        );
        lemma_short_days(d);
        assert(days.drop_last().push(d) =~= days);
    } else {
        assert(days =~= Seq::<u32>::empty());
    }
}

proof fn lemma_names_read_back(days: Seq<u32>)
    requires
        forall|i: int| 0 <= i < days.len() ==> #[trigger] days[i] < 7,
    ensures
        recurrence::named_days(expand::long_days(days)->List_0) == days,
    decreases days.len(),
{
    let v = expand::long_days(days)->List_0;
    if days.len() > 0 {
        let d = days.last();
        assert(days[days.len() - 1] < 7);
        assert(v.drop_last() =~= expand::long_days(days.drop_last())->List_0);
        assert forall|i: int| 0 <= i < days.drop_last().len() implies #[trigger] days.drop_last()[i]
            < 7 by {
            assert(days[i] < 7);
        }
        lemma_names_read_back(days.drop_last());
        lemma_long_days(d);
        assert(days.drop_last().push(d) =~= days);
    } else {
        assert(days =~= Seq::<u32>::empty());
    }
}

proof fn lemma_index_reads_back(index: Seq<char>)
    requires
        recurrence::position_named(index) is Some,
    ensures
        text::lowered(expand::index_text(recurrence::position_named(index)->0)) == text::lowered(
            index,
        ),
{
    reveal_strlit("first");
    reveal_strlit("second");
    reveal_strlit("third");
    reveal_strlit("fourth");
    reveal_strlit("last");
    lemma_small_letters("first"@);
    lemma_small_letters("second"@);
    lemma_small_letters("third"@);
    lemma_small_letters("fourth"@);
    lemma_small_letters("last"@);
}

/// The names of a pattern's members, of a range's and of the whole differ.
proof fn lemma_pattern_names()
    ensures
        "interval"@.len() == 8,
        "daysOfWeek"@.len() == 10,
        "index"@.len() == 5,
        "dayOfMonth"@.len() == 10,
        "month"@.len() == 5,
        "type"@.len() == 4,
        "firstDayOfWeek"@.len() == 14,
        "daysOfWeek"@ != "dayOfMonth"@,
        "index"@ != "month"@,
        "startDate"@.len() == 9,
        "numberOfOccurrences"@.len() == 19,
        "endDate"@.len() == 7,
        "pattern"@.len() == 7,
        "range"@.len() == 5,
{
    reveal_strlit("interval");
    reveal_strlit("daysOfWeek");
    reveal_strlit("index");
    reveal_strlit("dayOfMonth");
    reveal_strlit("month");
    reveal_strlit("type");
    reveal_strlit("firstDayOfWeek");
    reveal_strlit("startDate");
    reveal_strlit("numberOfOccurrences");
    reveal_strlit("endDate");
    reveal_strlit("pattern");
    reveal_strlit("range");
    assert("daysOfWeek"@[3] == 's' && "dayOfMonth"@[3] == 'O');
    assert("index"@[0] == 'i' && "month"@[0] == 'm');
}

/// What the pattern made from a rule holds under a name.
proof fn lemma_pattern_lookup(
    interval: Val,
    own: Members,
    kind: Seq<char>,
    first: Option<Val>,
    key: Seq<char>,
)
    ensures
        json::lookup(
            seq![("interval"@, interval)] + own + seq![("type"@, Val::Text(kind))]
                + json::member_if("firstDayOfWeek"@, first),
            key,
        ) == either(
            either(
                either(under("interval"@, Some(interval), key), json::lookup(own, key)),
                under("type"@, Some(Val::Text(kind)), key),
            ),
            under("firstDayOfWeek"@, first, key),
        ),
{
    let head = seq![("interval"@, interval)];
    let tail = seq![("type"@, Val::Text(kind))];
    lemma_lookup_one("interval"@, interval, key);
    lemma_lookup_one("type"@, Val::Text(kind), key);
    json::lemma_lookup_concat(head, own, key);
    json::lemma_lookup_concat(head + own, tail, key);
    json::lemma_lookup_member_if(head + own + tail, "firstDayOfWeek"@, first, key);
}

/// The end date that a range of the type `endDate` announces: the date with
/// which its end starts.
pub open spec fn announced_limit(range: Val) -> Option<int> {
    if recurrence::range_is(range, "endDate"@) {
        match range.text_at("endDate"@) {
            Some(t) => if date::until_text(t) is Some {
                civil::parsed_date(text::trimmed(t).take(10))
            } else {
                None
            },
            None => None,
        }
    } else {
        None
    }
}

/// The number of events that a range of the type `numbered` announces.
pub open spec fn announced_count(range: Val) -> Option<nat> {
    if recurrence::range_is(range, "numbered"@) {
        expand::count_of(range)
    } else {
        None
    }
}

/// Whether a number can be stored as the day or the month of a rule.
pub open spec fn storable(n: Option<nat>) -> bool {
    n matches Some(x) && 1 <= x <= i64::MAX
}

/// Whether a pattern says what its kind asks for and nothing that would make
/// its rule one of another kind.
pub open spec fn says_its_kind(pattern: Val, kind: Kind) -> bool {
    let by_position = recurrence::pattern_position(pattern) is Some && recurrence::pattern_days(
        pattern,
    ).len() > 0;
    match kind {
        Kind::Daily => true,
        Kind::Weekly => true,
        Kind::AbsoluteMonthly => !by_position && storable(
            expand::unsigned_at(pattern, "dayOfMonth"@),
        ),
        Kind::RelativeMonthly => by_position,
        Kind::AbsoluteYearly => !by_position && storable(
            expand::unsigned_at(pattern, "dayOfMonth"@),
        ) && storable(expand::unsigned_at(pattern, "month"@)),
        Kind::RelativeYearly => by_position && storable(expand::unsigned_at(pattern, "month"@)),
    }
}

/// Whether a recurrence can be stored as a rule without loss: its pattern says
/// what its kind asks for, and its range ends as its type announces.
pub open spec fn stored_faithfully(rec: Val) -> bool {
    expand::series_of(rec) matches Some(s) && says_its_kind(rec.get("pattern"@)->0, s.kind)
        && s.limit == announced_limit(rec.get("range"@)->0) && s.count == announced_count(
        rec.get("range"@)->0,
    )
}

proof fn lemma_no_split(s: Seq<char>, c: char)
    requires
        !s.contains(c),
    ensures
        text::split_by(s, c)[0] == s,
{
    text::lemma_first_index_bounds(s, c);
}

proof fn lemma_until_date(t: Seq<char>)
    requires
        date::until_text(t) is Some,
    ensures
        text::split_by(date::until_text(t)->0, 'T')[0] == text::trimmed(t).take(10),
        !text::trimmed(t).take(10).contains('T'),
{
    let d = text::trimmed(t).take(10);
    let u = date::until_text(t)->0;
    reveal_strlit("T");
    assert(u[10] == 'T');
    assert forall|k: int| 0 <= k < 10 implies d[k] != 'T' by {
        if k < 4 {
            assert(d.subrange(0, 4)[k] == d[k]);
        } else if 5 <= k < 7 {
            assert(d.subrange(5, 7)[k - 5] == d[k]);
        } else if 8 <= k {
            assert(d.subrange(8, 10)[k - 8] == d[k]);
        }
    }
    assert forall|k: int| 0 <= k < 10 implies u[k] != 'T' by {
        assert(u[k] == d[k]);
    }
    text::lemma_first_index(u, 'T', 10);
    assert(u.take(10) =~= d);
}

proof fn lemma_range_reads_back(range: Val, rule: Val, start: int)
    requires
        rule.get("until"@) == recurrence::rule_until(range),
        rule.get("count"@) == recurrence::rule_count(range),
        expand::reads_back(start),
    ensures
        ({
            let back = Val::Object(expand::range_members(rule, start));
            &&& expand::date_at(back, "startDate"@) == Some(start)
            &&& expand::count_of(back) == announced_count(range)
            &&& expand::date_at(back, "endDate"@) == announced_limit(range)
        }),
{
    lemma_pattern_names();
    let text_start = Val::Text(civil::date_text(start));
    lemma_no_split(civil::date_text(start), 'T');
    let head = seq![("startDate"@, text_start)];
    let e = expand::range_members(rule, start);
    lemma_lookup_one("startDate"@, text_start, "startDate"@);
    lemma_lookup_one("startDate"@, text_start, "numberOfOccurrences"@);
    lemma_lookup_one("startDate"@, text_start, "endDate"@);
    reveal_strlit("numbered");
    assert("numbered"@.len() == 8 && "endDate"@.len() == 7);
    match expand::unsigned_at(rule, "count"@) {
        Some(n) => {
            let num = Val::Number(NumberVal::Unsigned(n as u64));
            let tail = seq![("type"@, Val::Text("numbered"@)), ("numberOfOccurrences"@, num)];
            json::lemma_lookup_concat(head, tail, "startDate"@);
            json::lemma_lookup_concat(head, tail, "numberOfOccurrences"@);
            json::lemma_lookup_concat(head, tail, "endDate"@);
            lemma_lookup_two(
                "type"@,
                Val::Text("numbered"@),
                "numberOfOccurrences"@,
                num,
                "numberOfOccurrences"@,
            );
            lemma_lookup_two(
                "type"@,
                Val::Text("numbered"@),
                "numberOfOccurrences"@,
                num,
                "endDate"@,
            );
        },
        None => match rule.text_at("until"@) {
            Some(u) => {
                let d = Val::Text(text::split_by(u, 'T')[0]);
                let tail = seq![("type"@, Val::Text("endDate"@)), ("endDate"@, d)];
                json::lemma_lookup_concat(head, tail, "startDate"@);
                json::lemma_lookup_concat(head, tail, "numberOfOccurrences"@);
                json::lemma_lookup_concat(head, tail, "endDate"@);
                lemma_lookup_two(
                    "type"@,
                    Val::Text("endDate"@),
                    "endDate"@,
                    d,
                    "numberOfOccurrences"@,
                );
                lemma_lookup_two("type"@, Val::Text("endDate"@), "endDate"@, d, "endDate"@);
                let raw = range.text_at("endDate"@)->0;
                lemma_until_date(raw);
                lemma_no_split(text::trimmed(raw).take(10), 'T');
            },
            None => {
                let tail = seq![("type"@, Val::Text("noEnd"@))];
                json::lemma_lookup_concat(head, tail, "startDate"@);
                json::lemma_lookup_concat(head, tail, "numberOfOccurrences"@);
                json::lemma_lookup_concat(head, tail, "endDate"@);
                lemma_lookup_one("type"@, Val::Text("noEnd"@), "numberOfOccurrences"@);
                lemma_lookup_one("type"@, Val::Text("noEnd"@), "endDate"@);
            },
        },
    }
}

/// The frequencies and kinds of pattern have different names.
proof fn lemma_kind_names()
    ensures
        "daily"@.len() == 5,
        "weekly"@.len() == 6,
        "monthly"@.len() == 7,
        "yearly"@.len() == 6,
        "weekly"@ != "yearly"@,
        "absoluteMonthly"@.len() == 15,
        "relativeMonthly"@.len() == 15,
        "absoluteYearly"@.len() == 14,
        "relativeYearly"@.len() == 14,
        "absoluteMonthly"@ != "relativeMonthly"@,
        "absoluteYearly"@ != "relativeYearly"@,
{
    reveal_strlit("daily");
    reveal_strlit("weekly");
    reveal_strlit("monthly");
    reveal_strlit("yearly");
    reveal_strlit("absoluteMonthly");
    reveal_strlit("relativeMonthly");
    reveal_strlit("absoluteYearly");
    reveal_strlit("relativeYearly");
    assert("weekly"@[0] == 'w' && "yearly"@[0] == 'y');
    assert("absoluteMonthly"@[0] == 'a' && "relativeMonthly"@[0] == 'r');
    assert("absoluteYearly"@[0] == 'a' && "relativeYearly"@[0] == 'r');
}

/// What a rule says reads back from the rule as the pattern said it.
proof fn lemma_rule_reads_back(p: Val, r: Val)
    ensures
        ({
            let rule = Val::Object(recurrence::rule_members(p, r));
            &&& expand::rule_days(rule) == recurrence::pattern_days(p)
            &&& expand::first_int_at(rule, "bySetPosition"@) == recurrence::pattern_position(p)
            &&& expand::first_int_at(rule, "byMonthDay"@) == recurrence::nonzero_at(
                p,
                "dayOfMonth"@,
            )
            &&& expand::first_month(rule) == recurrence::nonzero_at(p, "month"@)
            &&& rule.text_at("frequency"@) == Some(recurrence::frequency_of(p))
        }),
{
    lemma_rule_contents(p, r);
    let days = recurrence::pattern_days(p);
    lemma_named_days_small(recurrence::items_at(p, "daysOfWeek"@));
    lemma_abbreviations_read_back(days);
    let rule = Val::Object(recurrence::rule_members(p, r));
    if days.len() == 0 {
        assert(recurrence::items_at(rule, "byDay"@) =~= Seq::<Val>::empty());
        assert(expand::rule_days(rule) =~= days);
    } else {
        assert(recurrence::ndays(days).len() > 0);
    }
    match recurrence::nonzero_at(p, "month"@) {
        Some(m) => {
            text::decimals_read_back(m as int);
        },
        None => {},
    }
}

/// A recurrence that can be stored without loss expands, from its stored rule,
/// to the dates to which it expands itself.
pub proof fn stored_rules_expand_like_their_patterns(rec: Val, window_end: int)
    requires
        stored_faithfully(rec),
        expand::reads_back(expand::series_of(rec)->0.start),
    ensures
        ({
            let start = expand::series_of(rec)->0.start;
            let rule = Val::Object(
                recurrence::rule_members(rec.get("pattern"@)->0, rec.get("range"@)->0),
            );
            &&& expand::pattern_from_rule(rule, start) is Some
            &&& expand::series_dates(expand::pattern_from_rule(rule, start)->0, window_end)
                == expand::series_dates(rec, window_end)
        }),
{
    let s = expand::series_of(rec)->0;
    let p = rec.get("pattern"@)->0;
    let r = rec.get("range"@)->0;
    let rule = Val::Object(recurrence::rule_members(p, r));
    lemma_kind_names();
    lemma_pattern_names();
    lemma_rule_contents(p, r);
    lemma_rule_reads_back(p, r);
    let back = expand::pattern_from_rule(rule, s.start)->0;
    let (kind, own) = expand::kind_members(rule, s.start)->0;
    let interval = Val::Number(NumberVal::Unsigned(expand::interval_member(rule)));
    let first = expand::first_day_member(rule);
    let pb = Val::Object(
        seq![("interval"@, interval)] + own + seq![("type"@, Val::Text(kind))] + json::member_if(
            "firstDayOfWeek"@,
            first,
        ),
    );
    let rb = Val::Object(expand::range_members(rule, s.start));
    lemma_lookup_two("pattern"@, pb, "range"@, rb, "pattern"@);
    lemma_lookup_two("pattern"@, pb, "range"@, rb, "range"@);
    lemma_range_reads_back(r, rule, s.start);
    lemma_own_members(p, r, s.start, s.kind);
    lemma_pattern_lookup(interval, own, kind, first, "interval"@);
    lemma_pattern_lookup(interval, own, kind, first, "type"@);
    lemma_pattern_lookup(interval, own, kind, first, "firstDayOfWeek"@);
    lemma_pattern_lookup(interval, own, kind, first, "daysOfWeek"@);
    lemma_pattern_lookup(interval, own, kind, first, "index"@);
    lemma_pattern_lookup(interval, own, kind, first, "dayOfMonth"@);
    lemma_pattern_lookup(interval, own, kind, first, "month"@);
    let days = recurrence::pattern_days(p);
    lemma_named_days_small(recurrence::items_at(p, "daysOfWeek"@));
    lemma_names_read_back(days);
    if p.text_at("firstDayOfWeek"@) is Some {
        let t = p.text_at("firstDayOfWeek"@)->0;
        if recurrence::day_named(t) is Some {
            lemma_short_days(recurrence::day_named(t)->0);
            lemma_long_days(recurrence::day_named(t)->0);
        }
    }
    let sb = expand::series_of(back)->0;
    assert(expand::series_of(back) is Some);
    assert(sb.kind == s.kind);
    assert(sb.interval == s.interval);
    if recurrence::pattern_position(p) is Some {
        lemma_index_reads_back(p.text_at("index"@)->0);
    }
    assert(essential(sb) =~= essential(s));
    lemma_walk_essential(s, window_end, s.start, Seq::empty(), expand::MAX_STEPS as nat);
    lemma_walk_essential(sb, window_end, s.start, Seq::empty(), expand::MAX_STEPS as nat);
}

/// The members that a stored rule's kind of pattern has.
proof fn lemma_own_members(p: Val, r: Val, start: int, kind: Kind)
    requires
        p.text_at("type"@) is Some,
        expand::kind_named(p.text_at("type"@)->0) == Some(kind),
        says_its_kind(p, kind),
    ensures
        ({
            let rule = Val::Object(recurrence::rule_members(p, r));
            let days = expand::long_days(recurrence::pattern_days(p));
            let index = Val::Text(expand::index_text(recurrence::pattern_position(p)->0));
            let dom = Val::Number(
                NumberVal::Unsigned(expand::unsigned_at(p, "dayOfMonth"@)->0 as u64),
            );
            let month = Val::Number(NumberVal::Unsigned(expand::unsigned_at(p, "month"@)->0 as u64));
            let own = expand::kind_members(rule, start);
            &&& own is Some
            &&& (own->0).0 == p.text_at("type"@)->0
            &&& forall|key: Seq<char>| #[trigger]
                json::lookup((own->0).1, key) == (match kind {
                    Kind::Daily => None,
                    Kind::Weekly => under("daysOfWeek"@, Some(days), key),
                    Kind::AbsoluteMonthly => under("dayOfMonth"@, Some(dom), key),
                    Kind::RelativeMonthly => either(
                        under("daysOfWeek"@, Some(days), key),
                        under("index"@, Some(index), key),
                    ),
                    Kind::AbsoluteYearly => either(
                        under("month"@, Some(month), key),
                        under("dayOfMonth"@, Some(dom), key),
                    ),
                    Kind::RelativeYearly => either(
                        either(
                            under("daysOfWeek"@, Some(days), key),
                            under("index"@, Some(index), key),
                        ),
                        under("month"@, Some(month), key),
                    ),
                })
        }),
{
    lemma_kind_names();
    lemma_rule_reads_back(p, r);
    let rule = Val::Object(recurrence::rule_members(p, r));
    let own = expand::kind_members(rule, start)->0;
    let days = expand::long_days(recurrence::pattern_days(p));
    let index = Val::Text(expand::index_text(recurrence::pattern_position(p)->0));
    let dom = Val::Number(NumberVal::Unsigned(expand::unsigned_at(p, "dayOfMonth"@)->0 as u64));
    let month = Val::Number(NumberVal::Unsigned(expand::unsigned_at(p, "month"@)->0 as u64));
    assert forall|key: Seq<char>| #[trigger]
        json::lookup(own.1, key) == (match kind {
            Kind::Daily => None,
            Kind::Weekly => under("daysOfWeek"@, Some(days), key),
            Kind::AbsoluteMonthly => under("dayOfMonth"@, Some(dom), key),
            Kind::RelativeMonthly => either(
                under("daysOfWeek"@, Some(days), key),
                under("index"@, Some(index), key),
            ),
            Kind::AbsoluteYearly => either(
                under("month"@, Some(month), key),
                under("dayOfMonth"@, Some(dom), key),
            ),
            Kind::RelativeYearly => either(
                either(under("daysOfWeek"@, Some(days), key), under("index"@, Some(index), key)),
                under("month"@, Some(month), key),
            ),
        }) by {
        match kind {
            Kind::Daily => {},
            Kind::Weekly => {
                lemma_lookup_one("daysOfWeek"@, days, key);
            },
            Kind::AbsoluteMonthly => {
                lemma_lookup_one("dayOfMonth"@, dom, key);
            },
            Kind::RelativeMonthly => {
                lemma_lookup_two("daysOfWeek"@, days, "index"@, index, key);
            },
            Kind::AbsoluteYearly => {
                lemma_lookup_two("month"@, month, "dayOfMonth"@, dom, key);
            },
            Kind::RelativeYearly => {
                let two = seq![("daysOfWeek"@, days), ("index"@, index)];
                assert(own.1 =~= two + seq![("month"@, month)]);
                lemma_lookup_two("daysOfWeek"@, days, "index"@, index, key);
                lemma_lookup_one("month"@, month, key);
                json::lemma_lookup_concat(two, seq![("month"@, month)], key);
            },
        }
    }
}

} // verus!

//! An Exchange recurrence as a JSCalendar rule.

use crate::exchange::date;
use crate::exchange_ews::parse::{RawRecurrence, RecurrencePattern, RecurrenceRange};
use crate::exchange_graph::recurrence;
use crate::json;
use crate::json::{Json, Members, NumberVal, Val};
use crate::text;
use vstd::prelude::*;

verus! {

/// The days of the week that a name stands for, in whatever case: one day, or
/// one of the groups of days. Days count from Sunday.
pub open spec fn day_group(name: Seq<char>) -> Option<Seq<u32>> {
    let n = text::lowered(name);
    if n == "monday"@ || n == "mo"@ {
        Some(seq![1u32])
    } else if n == "tuesday"@ || n == "tu"@ {
        Some(seq![2u32])
    } else if n == "wednesday"@ || n == "we"@ {
        Some(seq![3u32])
    } else if n == "thursday"@ || n == "th"@ {
        Some(seq![4u32])
    } else if n == "friday"@ || n == "fr"@ {
        Some(seq![5u32])
    } else if n == "saturday"@ || n == "sa"@ {
        Some(seq![6u32])
    } else if n == "sunday"@ || n == "su"@ {
        Some(seq![0u32])
    } else if n == "day"@ {
        Some(seq![1u32, 2u32, 3u32, 4u32, 5u32, 6u32, 0u32])
    } else if n == "weekday"@ {
        Some(seq![1u32, 2u32, 3u32, 4u32, 5u32])
    } else if n == "weekendday"@ {
        Some(seq![6u32, 0u32])
    } else {
        None
    }
}

/// The days of a group, or none for a name that stands for none.
pub open spec fn group_days(name: Seq<char>) -> Seq<u32> {
    match day_group(name) {
        Some(g) => g,
        None => Seq::empty(),
    }
}

/// The days that several names stand for, one after the other.
pub open spec fn all_days(names: Seq<Seq<char>>) -> Seq<u32>
    decreases names.len(),
{
    if names.len() == 0 {
        Seq::empty()
    } else {
        all_days(names.drop_last()) + group_days(names.last())
    }
}

/// Days with further ones added that are not among them yet.
pub open spec fn with_new_days(days: Seq<u32>, more: Seq<u32>) -> Seq<u32>
    decreases more.len(),
{
    if more.len() == 0 {
        days
    } else {
        let d = with_new_days(days, more.drop_last());
        if d.contains(more.last()) {
            d
        } else {
            d.push(more.last())
        }
    }
}

/// The different days that several names stand for, in the order in which
/// they first come up.
pub open spec fn different_days(names: Seq<Seq<char>>) -> Seq<u32>
    decreases names.len(),
{
    if names.len() == 0 {
        Seq::empty()
    } else {
        with_new_days(different_days(names.drop_last()), group_days(names.last()))
    }
}

/// Whether one of several names stands for more than one day.
pub open spec fn names_a_group(names: Seq<Seq<char>>) -> bool {
    exists|i: int| 0 <= i < names.len() && group_days(#[trigger] names[i]).len() > 1
}

/// Which one of a period an index names; the last is -1.
pub open spec fn nth_named(index: Seq<char>) -> Option<i64> {
    if index == "First"@ {
        Some(1)
    } else if index == "Second"@ {
        Some(2)
    } else if index == "Third"@ {
        Some(3)
    } else if index == "Fourth"@ {
        Some(4)
    } else if index == "Last"@ {
        Some(-1i64 as i64)
    } else {
        None
    }
}

/// The number of a month.
pub open spec fn month_named(m: Seq<char>) -> Option<nat> {
    if m == "January"@ {
        Some(1)
    } else if m == "February"@ {
        Some(2)
    } else if m == "March"@ {
        Some(3)
    } else if m == "April"@ {
        Some(4)
    } else if m == "May"@ {
        Some(5)
    } else if m == "June"@ {
        Some(6)
    } else if m == "July"@ {
        Some(7)
    } else if m == "August"@ {
        Some(8)
    } else if m == "September"@ {
        Some(9)
    } else if m == "October"@ {
        Some(10)
    } else if m == "November"@ {
        Some(11)
    } else if m == "December"@ {
        Some(12)
    } else {
        None
    }
}

/// A day of the week in a rule.
pub open spec fn day_entry(d: u32) -> Val {
    json::obj1("day"@, Val::Text(recurrence::short_day(d)))
}

/// A day of the week in a rule, and which one of the period.
pub open spec fn nth_day_entry(d: u32, nth: Option<i64>) -> Val {
    Val::Object(
        seq![("day"@, Val::Text(recurrence::short_day(d)))] + json::member_if(
            "nthOfPeriod"@,
            match nth {
                Some(n) => Some(json::int_val(n)),
                None => None,
            },
        ),
    )
}

pub open spec fn day_entries(days: Seq<u32>) -> Seq<Val> {
    Seq::new(days.len(), |i: int| day_entry(days[i]))
}

pub open spec fn nth_day_entries(days: Seq<u32>, nth: Option<i64>) -> Seq<Val> {
    Seq::new(days.len(), |i: int| nth_day_entry(days[i], nth))
}

/// The members by which a rule picks days within its period.
pub open spec fn relative_members(names: Seq<Seq<char>>, index: Seq<char>) -> Members {
    let days = different_days(names);
    let nth = nth_named(index);
    if days.len() == 0 {
        Seq::empty()
    } else if names_a_group(names) {
        seq![("byDay"@, Val::List(day_entries(days)))] + json::member_if(
            "bySetPosition"@,
            recurrence::one_int(nth),
        )
    } else {
        seq![("byDay"@, Val::List(nth_day_entries(days, nth)))]
    }
}

/// A rule's step, unless it is one.
pub open spec fn step_member(interval: u32) -> Members {
    json::member_if(
        "interval"@,
        if interval > 1 {
            Some(Val::Number(NumberVal::Unsigned(interval as u64)))
        } else {
            None
        },
    )
}

pub open spec fn frequency_member(f: Seq<char>) -> Members {
    seq![("frequency"@, Val::Text(f))]
}

pub open spec fn month_day_member(day: u32) -> Members {
    seq![("byMonthDay"@, Val::List(seq![Val::Number(NumberVal::Unsigned(day as u64))]))]
}

pub open spec fn month_member(month: Seq<char>) -> Members {
    json::member_if(
        "byMonth"@,
        match month_named(month) {
            Some(n) => Some(Val::List(seq![Val::Text(text::dec(n))])),
            None => None,
        },
    )
}

/// The members by which a pattern is written down in a rule.
pub open spec fn pattern_members(p: RecurrencePattern) -> Members {
    match p {
        RecurrencePattern::Daily { interval } => frequency_member("daily"@) + step_member(interval),
        RecurrencePattern::Weekly { interval, days_of_week } => frequency_member("weekly"@)
            + step_member(interval) + json::member_if(
            "byDay"@,
            json::list_opt(day_entries(all_days(text::texts(days_of_week@)))),
        ),
        RecurrencePattern::AbsoluteMonthly { interval, day_of_month } => frequency_member(
            "monthly"@,
        ) + step_member(interval) + month_day_member(day_of_month),
        RecurrencePattern::RelativeMonthly { interval, day_of_week_index, days_of_week } =>
            frequency_member("monthly"@) + step_member(interval) + relative_members(
            text::texts(days_of_week@),
            day_of_week_index@,
        ),
        RecurrencePattern::AbsoluteYearly { month, day_of_month } => frequency_member("yearly"@)
            + month_member(month@) + month_day_member(day_of_month),
        RecurrencePattern::RelativeYearly { month, day_of_week_index, days_of_week } =>
            frequency_member("yearly"@) + month_member(month@) + relative_members(
            text::texts(days_of_week@),
            day_of_week_index@,
        ),
    }
}

/// The member by which a range is written down in a rule.
pub open spec fn range_member(r: Option<RecurrenceRange>) -> Members {
    match r {
        Some(RecurrenceRange::EndDate { start_date, end_date }) => json::member_if(
            "until"@,
            json::text_opt(date::until_text(end_date@)),
        ),
        Some(RecurrenceRange::Numbered { start_date, number_of_occurrences }) => seq![
            ("count"@, Val::Number(NumberVal::Unsigned(number_of_occurrences as u64))),
        ],
        _ => Seq::empty(),
    }
}

/// The rule that stands for a recurrence, if it has a pattern.
pub open spec fn rule_of(raw: RawRecurrence) -> Option<Val> {
    match raw.pattern {
        Some(p) => Some(Val::Object(pattern_members(p) + range_member(raw.range))),
        None => None,
    }
}

fn expand_day(name: &str) -> (r: Vec<u32>)
    ensures
        r@ == group_days(name@),
{
    let lowered: String = text::to_lower(name);
    let n: &str = lowered.as_str();
    if text::same(n, "monday") || text::same(n, "mo") {
        vec![1]
    } else if text::same(n, "tuesday") || text::same(n, "tu") {
        vec![2]
    } else if text::same(n, "wednesday") || text::same(n, "we") {
        vec![3]
    } else if text::same(n, "thursday") || text::same(n, "th") {
        vec![4]
    } else if text::same(n, "friday") || text::same(n, "fr") {
        vec![5]
    } else if text::same(n, "saturday") || text::same(n, "sa") {
        vec![6]
    } else if text::same(n, "sunday") || text::same(n, "su") {
        vec![0]
    } else if text::same(n, "day") {
        vec![1, 2, 3, 4, 5, 6, 0]
    } else if text::same(n, "weekday") {
        vec![1, 2, 3, 4, 5]
    } else if text::same(n, "weekendday") {
        vec![6, 0]
    } else {
        Vec::new()
    }
}

fn nth_of_period(index: &str) -> (r: Option<i64>)
    ensures
        r == nth_named(index@),
{
    if text::same(index, "First") {
        Some(1)
    } else if text::same(index, "Second") {
        Some(2)
    } else if text::same(index, "Third") {
        Some(3)
    } else if text::same(index, "Fourth") {
        Some(4)
    } else if text::same(index, "Last") {
        Some(-1)
    } else {
        None
    }
}

fn month_number(m: &str) -> (r: Option<u64>)
    ensures
        match r {
            Some(n) => month_named(m@) == Some(n as nat),
            None => month_named(m@) is None,
        },
{
    if text::same(m, "January") {
        Some(1)
    } else if text::same(m, "February") {
        Some(2)
    } else if text::same(m, "March") {
        Some(3)
    } else if text::same(m, "April") {
        Some(4)
    } else if text::same(m, "May") {
        Some(5)
    } else if text::same(m, "June") {
        Some(6)
    } else if text::same(m, "July") {
        Some(7)
    } else if text::same(m, "August") {
        Some(8)
    } else if text::same(m, "September") {
        Some(9)
    } else if text::same(m, "October") {
        Some(10)
    } else if text::same(m, "November") {
        Some(11)
    } else if text::same(m, "December") {
        Some(12)
    } else {
        None
    }
}

fn collect_days(names: &Vec<String>) -> (r: Vec<u32>)
    ensures
        r@ == all_days(text::texts(names@)),
{
    let mut out: Vec<u32> = Vec::new();
    let ghost all = text::texts(names@);
    assert(out@ =~= all_days(all.take(0)));
    let mut i: usize = 0;
    while i < names.len()
        invariant
            all == text::texts(names@),
            i <= names@.len(),
            out@ == all_days(all.take(i as int)),
        decreases names@.len() - i,
    {
        proof {
            assert(all.take(i as int + 1).drop_last() == all.take(i as int));
        }
        let mut group: Vec<u32> = expand_day(names[i].as_str());
        out.append(&mut group);
        i = i + 1;
    }
    assert(all.take(i as int) == all);
    out
}

fn among(days: &Vec<u32>, d: u32) -> (r: bool)
    ensures
        r == days@.contains(d),
{
    let mut i: usize = 0;
    while i < days.len()
        invariant
            i <= days@.len(),
            forall|k: int| 0 <= k < i ==> days@[k] != d,
        decreases days@.len() - i,
    {
        if days[i] == d {
            return true;
        }
        i = i + 1;
    }
    false
}

fn add_new_days(days: &mut Vec<u32>, more: &Vec<u32>)
    ensures
        final(days)@ == with_new_days(old(days)@, more@),
{
    let ghost start = days@;
    let mut i: usize = 0;
    assert(more@.take(0).len() == 0);
    while i < more.len()
        invariant
            i <= more@.len(),
            days@ == with_new_days(start, more@.take(i as int)),
        decreases more@.len() - i,
    {
        assert(more@.take(i as int + 1).drop_last() == more@.take(i as int));
        if !among(days, more[i]) {
            days.push(more[i]);
        }
        i = i + 1;
    }
    assert(more@.take(i as int) == more@);
}

fn make_day_entries(days: &Vec<u32>) -> (r: Vec<Json>)
    ensures
        json::list_view(r@) == day_entries(days@),
{
    let mut out: Vec<Json> = Vec::new();
    let mut i: usize = 0;
    while i < days.len()
        invariant
            i <= days@.len(),
            out@.len() == i,
            forall|k: int| 0 <= k < i ==> (#[trigger] out@[k])@ == day_entry(days@[k]),
        decreases days@.len() - i,
    {
        out.push(json::object1("day", json::text_json(recurrence::short_name(days[i]))));
        i = i + 1;
    }
    assert(json::list_view(out@) =~= day_entries(days@));
    out
}

fn make_nth_day(d: u32, nth: Option<i64>) -> (r: Json)
    ensures
        r@ == nth_day_entry(d, nth),
{
    let mut e: Vec<(String, Json)> = Vec::new();
    json::push_member(&mut e, "day", json::text_json(recurrence::short_name(d)));
    assert(json::members_view(e@) =~= seq![("day"@, Val::Text(recurrence::short_day(d)))]);
    let n: Option<Json> = match nth {
        Some(n) => Some(json::int_json(n)),
        None => None,
    };
    json::push_member_if(&mut e, "nthOfPeriod", n);
    Json::Object(e)
}

fn make_nth_day_entries(days: &Vec<u32>, nth: Option<i64>) -> (r: Vec<Json>)
    ensures
        json::list_view(r@) == nth_day_entries(days@, nth),
{
    let mut out: Vec<Json> = Vec::new();
    let mut i: usize = 0;
    while i < days.len()
        invariant
            i <= days@.len(),
            out@.len() == i,
            forall|k: int| 0 <= k < i ==> (#[trigger] out@[k])@ == nth_day_entry(days@[k], nth),
        decreases days@.len() - i,
    {
        out.push(make_nth_day(days[i], nth));
        i = i + 1;
    }
    assert(json::list_view(out@) =~= nth_day_entries(days@, nth));
    out
}

fn one_json(j: Json) -> (r: Json)
    ensures
        r@ == Val::List(seq![j@]),
{
    let mut v: Vec<Json> = Vec::new();
    let ghost w = j@;
    v.push(j);
    assert(json::list_view(v@) =~= seq![w]);
    Json::List(v)
}

fn insert_relative_by_day(rule: &mut Vec<(String, Json)>, names: &Vec<String>, index: &str)
    ensures
        json::members_view(final(rule)@) == json::members_view(old(rule)@) + relative_members(
            text::texts(names@),
            index@,
        ),
{
    let ghost before = json::members_view(rule@);
    let ghost all = text::texts(names@);
    let nth: Option<i64> = nth_of_period(index);
    let mut days: Vec<u32> = Vec::new();
    let mut is_set: bool = false;
    let mut i: usize = 0;
    assert(days@ =~= different_days(all.take(0)));
    while i < names.len()
        invariant
            all == text::texts(names@),
            i <= names@.len(),
            days@ == different_days(all.take(i as int)),
            is_set == exists|k: int| 0 <= k < i && group_days(#[trigger] all[k]).len() > 1,
        decreases names@.len() - i,
    {
        assert(all.take(i as int + 1).drop_last() == all.take(i as int));
        assert(all[i as int] == names@[i as int]@);
        let group: Vec<u32> = expand_day(names[i].as_str());
        if group.len() > 1 {
            is_set = true;
            assert(group_days(all[i as int]).len() > 1);
        }
        add_new_days(&mut days, &group);
        i = i + 1;
    }
    assert(all.take(i as int) == all);
    assert(is_set == names_a_group(all));
    if days.len() == 0 {
        assert(before =~= before + Seq::<(Seq<char>, Val)>::empty());
        return;
    }
    if is_set {
        json::push_member(rule, "byDay", Json::List(make_day_entries(&days)));
        let ghost first = seq![("byDay"@, Val::List(day_entries(days@)))];
        assert(json::members_view(rule@) =~= before + first);
        let position: Option<Json> = match nth {
            Some(n) => Some(one_json(json::int_json(n))),
            None => None,
        };
        assert(json::opt_view(position) == recurrence::one_int(nth));
        let ghost second = json::member_if("bySetPosition"@, json::opt_view(position));
        json::push_member_if(rule, "bySetPosition", position);
        assert(before + first + second =~= before + (first + second));
    } else {
        json::push_member(rule, "byDay", Json::List(make_nth_day_entries(&days, nth)));
        assert(json::members_view(rule@) =~= before + relative_members(all, index@));
    }
}

fn push_step(rule: &mut Vec<(String, Json)>, interval: u32)
    ensures
        json::members_view(final(rule)@) == json::members_view(old(rule)@) + step_member(interval),
{
    let step: Option<Json> = if interval > 1 {
        Some(json::number_json(interval as u64))
    } else {
        None
    };
    json::push_member_if(rule, "interval", step);
}

fn push_month(rule: &mut Vec<(String, Json)>, month: &str)
    ensures
        json::members_view(final(rule)@) == json::members_view(old(rule)@) + month_member(month@),
{
    let m: Option<Json> = match month_number(month) {
        Some(n) => {
            let t: String = text::decimal(n);
            Some(one_json(Json::Text(t)))
        },
        None => None,
    };
    json::push_member_if(rule, "byMonth", m);
}

fn push_month_day(rule: &mut Vec<(String, Json)>, day: u32)
    ensures
        json::members_view(final(rule)@) == json::members_view(old(rule)@) + month_day_member(day),
{
    let ghost before = json::members_view(rule@);
    json::push_member(rule, "byMonthDay", one_json(json::number_json(day as u64)));
    assert(json::members_view(rule@) =~= before + month_day_member(day));
}

fn start_rule(frequency: &str) -> (r: Vec<(String, Json)>)
    ensures
        json::members_view(r@) == frequency_member(frequency@),
{
    let mut rule: Vec<(String, Json)> = Vec::new();
    json::push_member(&mut rule, "frequency", json::text_json(frequency));
    assert(json::members_view(rule@) =~= frequency_member(frequency@));
    rule
}

fn make_pattern(p: &RecurrencePattern) -> (r: Vec<(String, Json)>)
    ensures
        json::members_view(r@) == pattern_members(*p),
{
    match p {
        RecurrencePattern::Daily { interval } => {
            let mut rule: Vec<(String, Json)> = start_rule("daily");
            push_step(&mut rule, *interval);
            rule
        },
        RecurrencePattern::Weekly { interval, days_of_week } => {
            let mut rule: Vec<(String, Json)> = start_rule("weekly");
            push_step(&mut rule, *interval);
            let days: Vec<u32> = collect_days(days_of_week);
            json::push_member_if(
                &mut rule,
                "byDay",
                json::list_json_opt(make_day_entries(&days)),
            );
            rule
        },
        RecurrencePattern::AbsoluteMonthly { interval, day_of_month } => {
            let mut rule: Vec<(String, Json)> = start_rule("monthly");
            push_step(&mut rule, *interval);
            push_month_day(&mut rule, *day_of_month);
            rule
        },
        RecurrencePattern::RelativeMonthly { interval, day_of_week_index, days_of_week } => {
            let mut rule: Vec<(String, Json)> = start_rule("monthly");
            push_step(&mut rule, *interval);
            insert_relative_by_day(&mut rule, days_of_week, day_of_week_index.as_str());
            rule
        },
        RecurrencePattern::AbsoluteYearly { month, day_of_month } => {
            let mut rule: Vec<(String, Json)> = start_rule("yearly");
            push_month(&mut rule, month.as_str());
            push_month_day(&mut rule, *day_of_month);
            rule
        },
        RecurrencePattern::RelativeYearly { month, day_of_week_index, days_of_week } => {
            let mut rule: Vec<(String, Json)> = start_rule("yearly");
            push_month(&mut rule, month.as_str());
            insert_relative_by_day(&mut rule, days_of_week, day_of_week_index.as_str());
            rule
        },
    }
}

/// The rule that stands for an Exchange recurrence; nothing for one without a
/// pattern.
pub fn to_jscalendar_rule(raw: &RawRecurrence) -> (r: Option<Json>)
    ensures
        json::opt_view(r) == rule_of(*raw),
{
    let mut rule: Vec<(String, Json)> = match &raw.pattern {
        Some(p) => make_pattern(p),
        None => {
            return None;
        },
    };
    let ghost head = json::members_view(rule@);
    match &raw.range {
        Some(RecurrenceRange::EndDate { start_date, end_date }) => {
            let until: Option<Json> = match date::recurrence_until(end_date.as_str()) {
                Some(u) => Some(Json::Text(u)),
                None => None,
            };
            json::push_member_if(&mut rule, "until", until);
        },
        Some(RecurrenceRange::Numbered { start_date, number_of_occurrences }) => {
            json::push_member(
                &mut rule,
                "count",
                json::number_json(*number_of_occurrences as u64),
            );
            assert(json::members_view(rule@) =~= head + range_member(raw.range));
        },
        _ => {
            assert(head =~= head + Seq::<(Seq<char>, Val)>::empty());
        },
    }
    Some(Json::Object(rule))
}

} // verus!

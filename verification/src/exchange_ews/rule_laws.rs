//! What a rule says of the recurrence that it stands for.

use crate::exchange::date;
use crate::exchange_ews::parse::{RawRecurrence, RecurrencePattern, RecurrenceRange};
use crate::exchange_ews::recurrence;
use crate::json;
use crate::json::{NumberVal, Val};
use crate::text;
use vstd::prelude::*;

verus! {

spec fn stepped(interval: u32) -> Option<Val> {
    if interval > 1 {
        Some(Val::Number(NumberVal::Unsigned(interval as u64)))
    } else {
        None
    }
}

spec fn in_month(month: Seq<char>) -> Option<Val> {
    match recurrence::month_named(month) {
        Some(n) => Some(Val::List(seq![Val::Text(text::dec(n))])),
        None => None,
    }
}

spec fn ends(r: Option<RecurrenceRange>) -> Option<Val> {
    match r {
        Some(RecurrenceRange::EndDate { start_date, end_date }) => json::text_opt(
            date::until_text(end_date@),
        ),
        _ => None,
    }
}

spec fn counted(r: Option<RecurrenceRange>) -> Option<Val> {
    match r {
        Some(RecurrenceRange::Numbered { start_date, number_of_occurrences }) => Some(
            Val::Number(NumberVal::Unsigned(number_of_occurrences as u64)),
        ),
        _ => None,
    }
}

spec fn picked(names: Seq<Seq<char>>, index: Seq<char>) -> Option<Val> {
    let days = recurrence::different_days(names);
    if days.len() == 0 {
        None
    } else if recurrence::names_a_group(names) {
        Some(Val::List(recurrence::day_entries(days)))
    } else {
        Some(Val::List(recurrence::nth_day_entries(days, recurrence::nth_named(index))))
    }
}

spec fn placed(names: Seq<Seq<char>>, index: Seq<char>) -> Option<Val> {
    if recurrence::different_days(names).len() > 0 && recurrence::names_a_group(names) {
        match recurrence::nth_named(index) {
            Some(n) => Some(Val::List(seq![json::int_val(n)])),
            None => None,
        }
    } else {
        None
    }
}

proof fn lemma_range(r: Option<RecurrenceRange>, key: Seq<char>)
    ensures
        json::lookup(recurrence::range_member(r), key) == (if key == "until"@ {
            ends(r)
        } else if key == "count"@ {
            counted(r)
        } else {
            None
        }),
{
    lemma_names();
    let none = Seq::<(Seq<char>, Val)>::empty();
    assert(json::lookup(none, key) is None);
    json::lemma_lookup_member_if(none, "until"@, ends(r), key);
    assert(none + json::member_if("until"@, ends(r)) =~= json::member_if("until"@, ends(r)));
    if counted(r) is Some {
        json::lemma_find1("count"@, counted(r)->0, key);
    }
}

proof fn lemma_relative(names: Seq<Seq<char>>, index: Seq<char>, key: Seq<char>)
    ensures
        json::lookup(recurrence::relative_members(names, index), key) == (if key == "byDay"@ {
            picked(names, index)
        } else if key == "bySetPosition"@ {
            placed(names, index)
        } else {
            None
        }),
{
    lemma_names();
    let none = Seq::<(Seq<char>, Val)>::empty();
    assert(json::lookup(none, key) is None);
    if let Some(v) = picked(names, index) {
        let first = seq![("byDay"@, v)];
        json::lemma_find1("byDay"@, v, key);
        json::lemma_lookup_member_if(first, "bySetPosition"@, placed(names, index), key);
    }
}

proof fn lemma_names()
    ensures
        "frequency"@ != "interval"@,
        "frequency"@ != "byDay"@,
        "frequency"@ != "bySetPosition"@,
        "frequency"@ != "byMonthDay"@,
        "frequency"@ != "byMonth"@,
        "frequency"@ != "until"@,
        "frequency"@ != "count"@,
        "interval"@ != "byDay"@,
        "interval"@ != "bySetPosition"@,
        "interval"@ != "byMonthDay"@,
        "interval"@ != "byMonth"@,
        "interval"@ != "until"@,
        "interval"@ != "count"@,
        "byDay"@ != "bySetPosition"@,
        "byDay"@ != "byMonthDay"@,
        "byDay"@ != "byMonth"@,
        "byDay"@ != "until"@,
        "byDay"@ != "count"@,
        "bySetPosition"@ != "byMonthDay"@,
        "bySetPosition"@ != "byMonth"@,
        "bySetPosition"@ != "until"@,
        "bySetPosition"@ != "count"@,
        "byMonthDay"@ != "byMonth"@,
        "byMonthDay"@ != "until"@,
        "byMonthDay"@ != "count"@,
        "byMonth"@ != "until"@,
        "byMonth"@ != "count"@,
        "until"@ != "count"@,
{
    reveal_strlit("frequency");
    reveal_strlit("interval");
    reveal_strlit("byDay");
    reveal_strlit("bySetPosition");
    reveal_strlit("byMonthDay");
    reveal_strlit("byMonth");
    reveal_strlit("until");
    reveal_strlit("count");
    assert("frequency"@.len() == 9);
    assert("interval"@.len() == 8);
    assert("byDay"@.len() == 5);
    assert("bySetPosition"@.len() == 13);
    assert("byMonthDay"@.len() == 10);
    assert("byMonth"@.len() == 7);
    assert("until"@.len() == 5);
    assert("count"@.len() == 5);
    assert("byDay"@[0] == 'b');
    assert("until"@[0] == 'u');
    assert("count"@[0] == 'c');
}

proof fn lemma_daily(interval: u32, r: Option<RecurrenceRange>, key: Seq<char>)
    ensures
        json::lookup(recurrence::pattern_members(RecurrencePattern::Daily { interval }) + recurrence::range_member(r), key) == (if key == "frequency"@ {
            Some(Val::Text("daily"@))
        } else if key == "interval"@ {
            stepped(interval)
        } else if key == "until"@ {
            ends(r)
        } else if key == "count"@ {
            counted(r)
        } else {
            None
        }),
{
    lemma_names();
    let b0 = seq![("frequency"@, Val::Text("daily"@))];
    json::lemma_find1("frequency"@, Val::Text("daily"@), key);
    let m0 = b0;
    let m1 = m0 + json::member_if("interval"@, stepped(interval));
    json::lemma_lookup_member_if(m0, "interval"@, stepped(interval), key);
    let b2 = recurrence::range_member(r);
    lemma_range(r, key);
    let m2 = m1 + b2;
    json::lemma_lookup_concat(m1, b2, key);
    assert(recurrence::pattern_members(RecurrencePattern::Daily { interval }) + recurrence::range_member(r) =~= m2);
}

proof fn lemma_weekly(interval: u32, days_of_week: Vec<String>, r: Option<RecurrenceRange>, key: Seq<char>)
    ensures
        json::lookup(recurrence::pattern_members(RecurrencePattern::Weekly { interval, days_of_week }) + recurrence::range_member(r), key) == (if key == "frequency"@ {
            Some(Val::Text("weekly"@))
        } else if key == "interval"@ {
            stepped(interval)
        } else if key == "byDay"@ {
            json::list_opt(recurrence::day_entries(recurrence::all_days(text::texts(days_of_week@))))
        } else if key == "until"@ {
            ends(r)
        } else if key == "count"@ {
            counted(r)
        } else {
            None
        }),
{
    lemma_names();
    let b0 = seq![("frequency"@, Val::Text("weekly"@))];
    json::lemma_find1("frequency"@, Val::Text("weekly"@), key);
    let m0 = b0;
    let m1 = m0 + json::member_if("interval"@, stepped(interval));
    json::lemma_lookup_member_if(m0, "interval"@, stepped(interval), key);
    let m2 = m1 + json::member_if("byDay"@, json::list_opt(recurrence::day_entries(recurrence::all_days(text::texts(days_of_week@)))));
    json::lemma_lookup_member_if(m1, "byDay"@, json::list_opt(recurrence::day_entries(recurrence::all_days(text::texts(days_of_week@)))), key);
    let b3 = recurrence::range_member(r);
    lemma_range(r, key);
    let m3 = m2 + b3;
    json::lemma_lookup_concat(m2, b3, key);
    assert(recurrence::pattern_members(RecurrencePattern::Weekly { interval, days_of_week }) + recurrence::range_member(r) =~= m3);
}

proof fn lemma_monthly(interval: u32, day_of_month: u32, r: Option<RecurrenceRange>, key: Seq<char>)
    ensures
        json::lookup(recurrence::pattern_members(RecurrencePattern::AbsoluteMonthly { interval, day_of_month }) + recurrence::range_member(r), key) == (if key == "frequency"@ {
            Some(Val::Text("monthly"@))
        } else if key == "interval"@ {
            stepped(interval)
        } else if key == "byMonthDay"@ {
            Some(Val::List(seq![Val::Number(NumberVal::Unsigned(day_of_month as u64))]))
        } else if key == "until"@ {
            ends(r)
        } else if key == "count"@ {
            counted(r)
        } else {
            None
        }),
{
    lemma_names();
    let b0 = seq![("frequency"@, Val::Text("monthly"@))];
    json::lemma_find1("frequency"@, Val::Text("monthly"@), key);
    let m0 = b0;
    let m1 = m0 + json::member_if("interval"@, stepped(interval));
    json::lemma_lookup_member_if(m0, "interval"@, stepped(interval), key);
    let b2 = seq![("byMonthDay"@, Val::List(seq![Val::Number(NumberVal::Unsigned(day_of_month as u64))]))];
    json::lemma_find1("byMonthDay"@, Val::List(seq![Val::Number(NumberVal::Unsigned(day_of_month as u64))]), key);
    let m2 = m1 + b2;
    json::lemma_lookup_concat(m1, b2, key);
    let b3 = recurrence::range_member(r);
    lemma_range(r, key);
    let m3 = m2 + b3;
    json::lemma_lookup_concat(m2, b3, key);
    assert(recurrence::pattern_members(RecurrencePattern::AbsoluteMonthly { interval, day_of_month }) + recurrence::range_member(r) =~= m3);
}

proof fn lemma_rel_monthly(interval: u32, day_of_week_index: String, days_of_week: Vec<String>, r: Option<RecurrenceRange>, key: Seq<char>)
    ensures
        json::lookup(recurrence::pattern_members(RecurrencePattern::RelativeMonthly { interval, day_of_week_index, days_of_week }) + recurrence::range_member(r), key) == (if key == "frequency"@ {
            Some(Val::Text("monthly"@))
        } else if key == "interval"@ {
            stepped(interval)
        } else if key == "byDay"@ {
            picked(text::texts(days_of_week@), day_of_week_index@)
        } else if key == "bySetPosition"@ {
            placed(text::texts(days_of_week@), day_of_week_index@)
        } else if key == "until"@ {
            ends(r)
        } else if key == "count"@ {
            counted(r)
        } else {
            None
        }),
{
    lemma_names();
    let b0 = seq![("frequency"@, Val::Text("monthly"@))];
    json::lemma_find1("frequency"@, Val::Text("monthly"@), key);
    let m0 = b0;
    let m1 = m0 + json::member_if("interval"@, stepped(interval));
    json::lemma_lookup_member_if(m0, "interval"@, stepped(interval), key);
    let b2 = recurrence::relative_members(text::texts(days_of_week@), day_of_week_index@);
    lemma_relative(text::texts(days_of_week@), day_of_week_index@, key);
    let m2 = m1 + b2;
    json::lemma_lookup_concat(m1, b2, key);
    let b3 = recurrence::range_member(r);
    lemma_range(r, key);
    let m3 = m2 + b3;
    json::lemma_lookup_concat(m2, b3, key);
    assert(recurrence::pattern_members(RecurrencePattern::RelativeMonthly { interval, day_of_week_index, days_of_week }) + recurrence::range_member(r) =~= m3);
}

proof fn lemma_yearly(month: String, day_of_month: u32, r: Option<RecurrenceRange>, key: Seq<char>)
    ensures
        json::lookup(recurrence::pattern_members(RecurrencePattern::AbsoluteYearly { month, day_of_month }) + recurrence::range_member(r), key) == (if key == "frequency"@ {
            Some(Val::Text("yearly"@))
        } else if key == "byMonth"@ {
            in_month(month@)
        } else if key == "byMonthDay"@ {
            Some(Val::List(seq![Val::Number(NumberVal::Unsigned(day_of_month as u64))]))
        } else if key == "until"@ {
            ends(r)
        } else if key == "count"@ {
            counted(r)
        } else {
            None
        }),
{
    lemma_names();
    let b0 = seq![("frequency"@, Val::Text("yearly"@))];
    json::lemma_find1("frequency"@, Val::Text("yearly"@), key);
    let m0 = b0;
    let m1 = m0 + json::member_if("byMonth"@, in_month(month@));
    json::lemma_lookup_member_if(m0, "byMonth"@, in_month(month@), key);
    let b2 = seq![("byMonthDay"@, Val::List(seq![Val::Number(NumberVal::Unsigned(day_of_month as u64))]))];
    json::lemma_find1("byMonthDay"@, Val::List(seq![Val::Number(NumberVal::Unsigned(day_of_month as u64))]), key);
    let m2 = m1 + b2;
    json::lemma_lookup_concat(m1, b2, key);
    let b3 = recurrence::range_member(r);
    lemma_range(r, key);
    let m3 = m2 + b3;
    json::lemma_lookup_concat(m2, b3, key);
    assert(recurrence::pattern_members(RecurrencePattern::AbsoluteYearly { month, day_of_month }) + recurrence::range_member(r) =~= m3);
}

proof fn lemma_rel_yearly(month: String, day_of_week_index: String, days_of_week: Vec<String>, r: Option<RecurrenceRange>, key: Seq<char>)
    ensures
        json::lookup(recurrence::pattern_members(RecurrencePattern::RelativeYearly { month, day_of_week_index, days_of_week }) + recurrence::range_member(r), key) == (if key == "frequency"@ {
            Some(Val::Text("yearly"@))
        } else if key == "byMonth"@ {
            in_month(month@)
        } else if key == "byDay"@ {
            picked(text::texts(days_of_week@), day_of_week_index@)
        } else if key == "bySetPosition"@ {
            placed(text::texts(days_of_week@), day_of_week_index@)
        } else if key == "until"@ {
            ends(r)
        } else if key == "count"@ {
            counted(r)
        } else {
            None
        }),
{
    lemma_names();
    let b0 = seq![("frequency"@, Val::Text("yearly"@))];
    json::lemma_find1("frequency"@, Val::Text("yearly"@), key);
    let m0 = b0;
    let m1 = m0 + json::member_if("byMonth"@, in_month(month@));
    json::lemma_lookup_member_if(m0, "byMonth"@, in_month(month@), key);
    let b2 = recurrence::relative_members(text::texts(days_of_week@), day_of_week_index@);
    lemma_relative(text::texts(days_of_week@), day_of_week_index@, key);
    let m2 = m1 + b2;
    json::lemma_lookup_concat(m1, b2, key);
    let b3 = recurrence::range_member(r);
    lemma_range(r, key);
    let m3 = m2 + b3;
    json::lemma_lookup_concat(m2, b3, key);
    assert(recurrence::pattern_members(RecurrencePattern::RelativeYearly { month, day_of_week_index, days_of_week }) + recurrence::range_member(r) =~= m3);
}

/// The name of a month.
pub open spec fn month_name(k: nat) -> Seq<char> {
    seq![
        "January"@,
        "February"@,
        "March"@,
        "April"@,
        "May"@,
        "June"@,
        "July"@,
        "August"@,
        "September"@,
        "October"@,
        "November"@,
        "December"@,
    ][k - 1]
}

/// A day of the week in two letters, from Sunday.
pub open spec fn two_letters(d: u32) -> Seq<char> {
    seq!["su"@, "mo"@, "tu"@, "we"@, "th"@, "fr"@, "sa"@][d as int]
}

/// The name of a day of the week, from Sunday.
pub open spec fn whole_name(d: u32) -> Seq<char> {
    seq![
        "sunday"@,
        "monday"@,
        "tuesday"@,
        "wednesday"@,
        "thursday"@,
        "friday"@,
        "saturday"@,
    ][d as int]
}

/// Whether a name stands for several days of the week.
pub open spec fn is_group(name: Seq<char>) -> bool {
    let n = text::lowered(name);
    n == "day"@ || n == "weekday"@ || n == "weekendday"@
}

/// Whether a day of the week is one of those that a name stands for.
pub open spec fn is_meant(name: Seq<char>, d: u32) -> bool {
    let n = text::lowered(name);
    ||| n == whole_name(d)
    ||| n == two_letters(d)
    ||| n == "day"@
    ||| n == "weekday"@ && 1 <= d <= 5
    ||| n == "weekendday"@ && (d == 0 || d == 6)
}

/// Whether a day of the week is one of those that names stand for.
pub open spec fn is_wanted(names: Seq<String>, d: u32) -> bool {
    exists|i: int| 0 <= i < names.len() && is_meant((#[trigger] names[i])@, d)
}

/// Whether one of several names stands for several days of the week.
pub open spec fn has_group(names: Seq<String>) -> bool {
    exists|i: int| 0 <= i < names.len() && is_group((#[trigger] names[i])@)
}

/// The word for a place.
pub open spec fn ordinal(k: int) -> Seq<char> {
    seq!["First"@, "Second"@, "Third"@, "Fourth"@][k - 1]
}

/// Whether an index names a place; the last is -1.
pub open spec fn is_place(index: Seq<char>, k: int) -> bool {
    (1 <= k <= 4 && index == ordinal(k)) || (k == -1 && index == "Last"@)
}

/// How often the occurrences of a pattern come.
pub open spec fn pace(p: RecurrencePattern) -> Seq<char> {
    match p {
        RecurrencePattern::Daily { .. } => "daily"@,
        RecurrencePattern::Weekly { .. } => "weekly"@,
        RecurrencePattern::AbsoluteMonthly { .. } => "monthly"@,
        RecurrencePattern::RelativeMonthly { .. } => "monthly"@,
        RecurrencePattern::AbsoluteYearly { .. } => "yearly"@,
        RecurrencePattern::RelativeYearly { .. } => "yearly"@,
    }
}

/// The step of a pattern; those of whole years have none.
pub open spec fn step(p: RecurrencePattern) -> int {
    match p {
        RecurrencePattern::Daily { interval } => interval as int,
        RecurrencePattern::Weekly { interval, .. } => interval as int,
        RecurrencePattern::AbsoluteMonthly { interval, .. } => interval as int,
        RecurrencePattern::RelativeMonthly { interval, .. } => interval as int,
        _ => 1,
    }
}

/// The day of the month that a pattern is for.
pub open spec fn month_day(p: RecurrencePattern) -> Option<u32> {
    match p {
        RecurrencePattern::AbsoluteMonthly { day_of_month, .. } => Some(day_of_month),
        RecurrencePattern::AbsoluteYearly { day_of_month, .. } => Some(day_of_month),
        _ => None,
    }
}

/// The month that a pattern is for.
pub open spec fn month_of(p: RecurrencePattern) -> Option<Seq<char>> {
    match p {
        RecurrencePattern::AbsoluteYearly { month, .. } => Some(month@),
        RecurrencePattern::RelativeYearly { month, .. } => Some(month@),
        _ => None,
    }
}

/// The days of the week of a pattern.
pub open spec fn week_days(p: RecurrencePattern) -> Seq<String> {
    match p {
        RecurrencePattern::Weekly { days_of_week, .. } => days_of_week@,
        RecurrencePattern::RelativeMonthly { days_of_week, .. } => days_of_week@,
        RecurrencePattern::RelativeYearly { days_of_week, .. } => days_of_week@,
        _ => Seq::empty(),
    }
}

/// Which one of a period a pattern is for.
pub open spec fn index_of(p: RecurrencePattern) -> Option<Seq<char>> {
    match p {
        RecurrencePattern::RelativeMonthly { day_of_week_index, .. } => Some(day_of_week_index@),
        RecurrencePattern::RelativeYearly { day_of_week_index, .. } => Some(day_of_week_index@),
        _ => None,
    }
}

/// What a rule's member is a list of one of.
pub open spec fn only(v: Option<Val>) -> Option<Val> {
    match v {
        Some(Val::List(l)) => if l.len() == 1 {
            Some(l[0])
        } else {
            None
        },
        _ => None,
    }
}

proof fn lemma_rule(p: RecurrencePattern, r: Option<RecurrenceRange>, key: Seq<char>)
    ensures
        json::lookup(recurrence::pattern_members(p) + recurrence::range_member(r), key) == (
        if key == "frequency"@ {
            Some(Val::Text(pace(p)))
        } else if key == "interval"@ {
            if step(p) > 1 {
                Some(Val::Number(NumberVal::Unsigned(step(p) as u64)))
            } else {
                None
            }
        } else if key == "byMonthDay"@ {
            match month_day(p) {
                Some(d) => Some(Val::List(seq![Val::Number(NumberVal::Unsigned(d as u64))])),
                None => None,
            }
        } else if key == "byMonth"@ {
            match month_of(p) {
                Some(m) => in_month(m),
                None => None,
            }
        } else if key == "byDay"@ {
            match index_of(p) {
                Some(i) => picked(text::texts(week_days(p)), i),
                None => json::list_opt(
                    recurrence::day_entries(recurrence::all_days(text::texts(week_days(p)))),
                ),
            }
        } else if key == "bySetPosition"@ {
            match index_of(p) {
                Some(i) => placed(text::texts(week_days(p)), i),
                None => None,
            }
        } else if key == "until"@ {
            ends(r)
        } else if key == "count"@ {
            counted(r)
        } else {
            None
        }),
{
    lemma_names();
    match p {
        RecurrencePattern::Daily { interval } => lemma_daily(interval, r, key),
        RecurrencePattern::Weekly { interval, days_of_week } => lemma_weekly(
            interval,
            days_of_week,
            r,
            key,
        ),
        RecurrencePattern::AbsoluteMonthly { interval, day_of_month } => lemma_monthly(
            interval,
            day_of_month,
            r,
            key,
        ),
        RecurrencePattern::RelativeMonthly { interval, day_of_week_index, days_of_week } =>
            lemma_rel_monthly(interval, day_of_week_index, days_of_week, r, key),
        RecurrencePattern::AbsoluteYearly { month, day_of_month } => lemma_yearly(
            month,
            day_of_month,
            r,
            key,
        ),
        RecurrencePattern::RelativeYearly { month, day_of_week_index, days_of_week } =>
            lemma_rel_yearly(month, day_of_week_index, days_of_week, r, key),
    }
    assert(recurrence::all_days(text::texts(Seq::<String>::empty())) =~= Seq::empty());
}

/// A recurrence has a rule exactly where it has a pattern. The rule comes as
/// often as the pattern, with its step where that is more than one, on its day
/// of the month and in its month.
pub proof fn rules_come_as_often_as_their_patterns(raw: RawRecurrence, p: RecurrencePattern, k: nat)
    requires
        raw.pattern == Some(p),
        1 <= k <= 12,
    ensures
        recurrence::rule_of(raw) matches Some(rule) && {
            &&& rule.text_at("frequency"@) == Some(pace(p))
            &&& step(p) > 1 ==> (rule.get("interval"@) matches Some(n) && n.as_u64() == Some(
                step(p) as u64,
            ))
            &&& step(p) <= 1 ==> rule.get("interval"@) is None
            &&& month_day(p) matches Some(d) ==> (only(rule.get("byMonthDay"@)) matches Some(n)
                && n.as_u64() == Some(d as u64))
            &&& month_day(p) is None ==> rule.get("byMonthDay"@) is None
            &&& month_of(p) == Some(month_name(k)) ==> (only(rule.get("byMonth"@)) matches Some(n)
                && n.as_text() == Some(text::dec(k)))
            &&& month_of(p) is None ==> rule.get("byMonth"@) is None
        },
{
    lemma_names();
    lemma_rule(p, raw.range, "frequency"@);
    lemma_rule(p, raw.range, "interval"@);
    lemma_rule(p, raw.range, "byMonthDay"@);
    lemma_rule(p, raw.range, "byMonth"@);
    lemma_months();
}

/// A rule ends where its recurrence does: with the end date, after the number
/// of occurrences, or never.
pub proof fn rules_end_with_their_recurrence(raw: RawRecurrence, p: RecurrencePattern)
    requires
        raw.pattern == Some(p),
    ensures
        recurrence::rule_of(raw) matches Some(rule) && {
            &&& match raw.range {
                Some(RecurrenceRange::EndDate { start_date, end_date }) => {
                    &&& rule.text_at("until"@) == date::until_text(end_date@)
                    &&& rule.get("count"@) is None
                },
                Some(RecurrenceRange::Numbered { start_date, number_of_occurrences }) => {
                    &&& rule.get("until"@) is None
                    &&& rule.get("count"@) matches Some(n) && n.as_u64() == Some(
                        number_of_occurrences as u64,
                    )
                },
                _ => rule.get("until"@) is None && rule.get("count"@) is None,
            }
        },
{
    lemma_names();
    lemma_rule(p, raw.range, "until"@);
    lemma_rule(p, raw.range, "count"@);
}

proof fn lemma_months()
    ensures
        "January"@ != "February"@,
        "January"@ != "March"@,
        "January"@ != "April"@,
        "January"@ != "May"@,
        "January"@ != "June"@,
        "January"@ != "July"@,
        "January"@ != "August"@,
        "January"@ != "September"@,
        "January"@ != "October"@,
        "January"@ != "November"@,
        "January"@ != "December"@,
        "February"@ != "March"@,
        "February"@ != "April"@,
        "February"@ != "May"@,
        "February"@ != "June"@,
        "February"@ != "July"@,
        "February"@ != "August"@,
        "February"@ != "September"@,
        "February"@ != "October"@,
        "February"@ != "November"@,
        "February"@ != "December"@,
        "March"@ != "April"@,
        "March"@ != "May"@,
        "March"@ != "June"@,
        "March"@ != "July"@,
        "March"@ != "August"@,
        "March"@ != "September"@,
        "March"@ != "October"@,
        "March"@ != "November"@,
        "March"@ != "December"@,
        "April"@ != "May"@,
        "April"@ != "June"@,
        "April"@ != "July"@,
        "April"@ != "August"@,
        "April"@ != "September"@,
        "April"@ != "October"@,
        "April"@ != "November"@,
        "April"@ != "December"@,
        "May"@ != "June"@,
        "May"@ != "July"@,
        "May"@ != "August"@,
        "May"@ != "September"@,
        "May"@ != "October"@,
        "May"@ != "November"@,
        "May"@ != "December"@,
        "June"@ != "July"@,
        "June"@ != "August"@,
        "June"@ != "September"@,
        "June"@ != "October"@,
        "June"@ != "November"@,
        "June"@ != "December"@,
        "July"@ != "August"@,
        "July"@ != "September"@,
        "July"@ != "October"@,
        "July"@ != "November"@,
        "July"@ != "December"@,
        "August"@ != "September"@,
        "August"@ != "October"@,
        "August"@ != "November"@,
        "August"@ != "December"@,
        "September"@ != "October"@,
        "September"@ != "November"@,
        "September"@ != "December"@,
        "October"@ != "November"@,
        "October"@ != "December"@,
        "November"@ != "December"@,
{
    reveal_strlit("January");
    reveal_strlit("February");
    reveal_strlit("March");
    reveal_strlit("April");
    reveal_strlit("May");
    reveal_strlit("June");
    reveal_strlit("July");
    reveal_strlit("August");
    reveal_strlit("September");
    reveal_strlit("October");
    reveal_strlit("November");
    reveal_strlit("December");
    assert("January"@.len() == 7);
    assert("February"@.len() == 8);
    assert("March"@.len() == 5);
    assert("April"@.len() == 5);
    assert("May"@.len() == 3);
    assert("June"@.len() == 4);
    assert("July"@.len() == 4);
    assert("August"@.len() == 6);
    assert("September"@.len() == 9);
    assert("October"@.len() == 7);
    assert("November"@.len() == 8);
    assert("December"@.len() == 8);
    assert("January"@[0] == 'J');
    assert("October"@[0] == 'O');
    assert("February"@[0] == 'F');
    assert("November"@[0] == 'N');
    assert("December"@[0] == 'D');
    assert("March"@[0] == 'M');
    assert("April"@[0] == 'A');
    assert("June"@[2] == 'n');
    assert("July"@[2] == 'l');
}

proof fn lemma_days()
    ensures
        "monday"@ != "tuesday"@,
        "monday"@ != "wednesday"@,
        "monday"@ != "thursday"@,
        "monday"@ != "friday"@,
        "monday"@ != "saturday"@,
        "monday"@ != "sunday"@,
        "monday"@ != "mo"@,
        "monday"@ != "tu"@,
        "monday"@ != "we"@,
        "monday"@ != "th"@,
        "monday"@ != "fr"@,
        "monday"@ != "sa"@,
        "monday"@ != "su"@,
        "monday"@ != "day"@,
        "monday"@ != "weekday"@,
        "monday"@ != "weekendday"@,
        "tuesday"@ != "wednesday"@,
        "tuesday"@ != "thursday"@,
        "tuesday"@ != "friday"@,
        "tuesday"@ != "saturday"@,
        "tuesday"@ != "sunday"@,
        "tuesday"@ != "mo"@,
        "tuesday"@ != "tu"@,
        "tuesday"@ != "we"@,
        "tuesday"@ != "th"@,
        "tuesday"@ != "fr"@,
        "tuesday"@ != "sa"@,
        "tuesday"@ != "su"@,
        "tuesday"@ != "day"@,
        "tuesday"@ != "weekday"@,
        "tuesday"@ != "weekendday"@,
        "wednesday"@ != "thursday"@,
        "wednesday"@ != "friday"@,
        "wednesday"@ != "saturday"@,
        "wednesday"@ != "sunday"@,
        "wednesday"@ != "mo"@,
        "wednesday"@ != "tu"@,
        "wednesday"@ != "we"@,
        "wednesday"@ != "th"@,
        "wednesday"@ != "fr"@,
        "wednesday"@ != "sa"@,
        "wednesday"@ != "su"@,
        "wednesday"@ != "day"@,
        "wednesday"@ != "weekday"@,
        "wednesday"@ != "weekendday"@,
        "thursday"@ != "friday"@,
        "thursday"@ != "saturday"@,
        "thursday"@ != "sunday"@,
        "thursday"@ != "mo"@,
        "thursday"@ != "tu"@,
        "thursday"@ != "we"@,
        "thursday"@ != "th"@,
        "thursday"@ != "fr"@,
        "thursday"@ != "sa"@,
        "thursday"@ != "su"@,
        "thursday"@ != "day"@,
        "thursday"@ != "weekday"@,
        "thursday"@ != "weekendday"@,
        "friday"@ != "saturday"@,
        "friday"@ != "sunday"@,
        "friday"@ != "mo"@,
        "friday"@ != "tu"@,
        "friday"@ != "we"@,
        "friday"@ != "th"@,
        "friday"@ != "fr"@,
        "friday"@ != "sa"@,
        "friday"@ != "su"@,
        "friday"@ != "day"@,
        "friday"@ != "weekday"@,
        "friday"@ != "weekendday"@,
        "saturday"@ != "sunday"@,
        "saturday"@ != "mo"@,
        "saturday"@ != "tu"@,
        "saturday"@ != "we"@,
        "saturday"@ != "th"@,
        "saturday"@ != "fr"@,
        "saturday"@ != "sa"@,
        "saturday"@ != "su"@,
        "saturday"@ != "day"@,
        "saturday"@ != "weekday"@,
        "saturday"@ != "weekendday"@,
        "sunday"@ != "mo"@,
        "sunday"@ != "tu"@,
        "sunday"@ != "we"@,
        "sunday"@ != "th"@,
        "sunday"@ != "fr"@,
        "sunday"@ != "sa"@,
        "sunday"@ != "su"@,
        "sunday"@ != "day"@,
        "sunday"@ != "weekday"@,
        "sunday"@ != "weekendday"@,
        "mo"@ != "tu"@,
        "mo"@ != "we"@,
        "mo"@ != "th"@,
        "mo"@ != "fr"@,
        "mo"@ != "sa"@,
        "mo"@ != "su"@,
        "mo"@ != "day"@,
        "mo"@ != "weekday"@,
        "mo"@ != "weekendday"@,
        "tu"@ != "we"@,
        "tu"@ != "th"@,
        "tu"@ != "fr"@,
        "tu"@ != "sa"@,
        "tu"@ != "su"@,
        "tu"@ != "day"@,
        "tu"@ != "weekday"@,
        "tu"@ != "weekendday"@,
        "we"@ != "th"@,
        "we"@ != "fr"@,
        "we"@ != "sa"@,
        "we"@ != "su"@,
        "we"@ != "day"@,
        "we"@ != "weekday"@,
        "we"@ != "weekendday"@,
        "th"@ != "fr"@,
        "th"@ != "sa"@,
        "th"@ != "su"@,
        "th"@ != "day"@,
        "th"@ != "weekday"@,
        "th"@ != "weekendday"@,
        "fr"@ != "sa"@,
        "fr"@ != "su"@,
        "fr"@ != "day"@,
        "fr"@ != "weekday"@,
        "fr"@ != "weekendday"@,
        "sa"@ != "su"@,
        "sa"@ != "day"@,
        "sa"@ != "weekday"@,
        "sa"@ != "weekendday"@,
        "su"@ != "day"@,
        "su"@ != "weekday"@,
        "su"@ != "weekendday"@,
        "day"@ != "weekday"@,
        "day"@ != "weekendday"@,
        "weekday"@ != "weekendday"@,
{
    reveal_strlit("monday");
    reveal_strlit("tuesday");
    reveal_strlit("wednesday");
    reveal_strlit("thursday");
    reveal_strlit("friday");
    reveal_strlit("saturday");
    reveal_strlit("sunday");
    reveal_strlit("mo");
    reveal_strlit("tu");
    reveal_strlit("we");
    reveal_strlit("th");
    reveal_strlit("fr");
    reveal_strlit("sa");
    reveal_strlit("su");
    reveal_strlit("day");
    reveal_strlit("weekday");
    reveal_strlit("weekendday");
    assert("monday"@.len() == 6);
    assert("tuesday"@.len() == 7);
    assert("wednesday"@.len() == 9);
    assert("thursday"@.len() == 8);
    assert("friday"@.len() == 6);
    assert("saturday"@.len() == 8);
    assert("sunday"@.len() == 6);
    assert("mo"@.len() == 2);
    assert("tu"@.len() == 2);
    assert("we"@.len() == 2);
    assert("th"@.len() == 2);
    assert("fr"@.len() == 2);
    assert("sa"@.len() == 2);
    assert("su"@.len() == 2);
    assert("day"@.len() == 3);
    assert("weekday"@.len() == 7);
    assert("weekendday"@.len() == 10);
    assert("monday"@[0] == 'm');
    assert("friday"@[0] == 'f');
    assert("sunday"@[0] == 's');
    assert("tuesday"@[0] == 't');
    assert("weekday"@[0] == 'w');
    assert("thursday"@[0] == 't');
    assert("saturday"@[0] == 's');
    assert("mo"@[0] == 'm');
    assert("tu"@[0] == 't');
    assert("we"@[0] == 'w');
    assert("th"@[0] == 't');
    assert("fr"@[0] == 'f');
    assert("sa"@[0] == 's');
    assert("su"@[0] == 's');
    assert("tu"@[1] == 'u');
    assert("th"@[1] == 'h');
    assert("sa"@[1] == 'a');
    assert("su"@[1] == 'u');
}

proof fn lemma_places()
    ensures
        "First"@ != "Second"@,
        "First"@ != "Third"@,
        "First"@ != "Fourth"@,
        "First"@ != "Last"@,
        "Second"@ != "Third"@,
        "Second"@ != "Fourth"@,
        "Second"@ != "Last"@,
        "Third"@ != "Fourth"@,
        "Third"@ != "Last"@,
        "Fourth"@ != "Last"@,
{
    reveal_strlit("First");
    reveal_strlit("Second");
    reveal_strlit("Third");
    reveal_strlit("Fourth");
    reveal_strlit("Last");
    assert("First"@.len() == 5);
    assert("Second"@.len() == 6);
    assert("Third"@.len() == 5);
    assert("Fourth"@.len() == 6);
    assert("Last"@.len() == 4);
    assert("First"@[0] == 'F');
    assert("Third"@[0] == 'T');
    assert("Second"@[0] == 'S');
    assert("Fourth"@[0] == 'F');
}

proof fn lemma_short(d: u32, e: u32)
    requires
        d < 7,
        e < 7,
    ensures
        crate::exchange_graph::recurrence::short_day(e) == two_letters(d) <==> d == e,
{
    lemma_days();
}

proof fn lemma_group(name: Seq<char>, d: u32)
    requires
        d < 7,
    ensures
        recurrence::group_days(name).contains(d) <==> is_meant(name, d),
        recurrence::group_days(name).len() > 1 <==> is_group(name),
        forall|i: int|
            0 <= i < recurrence::group_days(name).len() ==> #[trigger] recurrence::group_days(
                name,
            )[i] < 7,
{
    lemma_days();
    let g = recurrence::group_days(name);
    let n = text::lowered(name);
    if n == "day"@ {
        assert(g[0] == 1 && g[1] == 2 && g[2] == 3 && g[3] == 4 && g[4] == 5 && g[5] == 6 && g[6]
            == 0);
    } else if n == "weekday"@ {
        assert(g[0] == 1 && g[1] == 2 && g[2] == 3 && g[3] == 4 && g[4] == 5);
    } else if n == "weekendday"@ {
        assert(g[0] == 6 && g[1] == 0);
    } else if g.len() > 0 {
        assert(g.len() == 1);
        assert(g.contains(g[0]));
        assert(g.contains(d) <==> d == g[0]);
    }
}

proof fn lemma_all_days(names: Seq<String>, d: u32)
    requires
        d < 7,
    ensures
        recurrence::all_days(text::texts(names)).contains(d) <==> is_wanted(names, d),
        forall|i: int|
            0 <= i < recurrence::all_days(text::texts(names)).len()
                ==> #[trigger] recurrence::all_days(text::texts(names))[i] < 7,
    decreases names.len(),
{
    let v = text::texts(names);
    if names.len() > 0 {
        let rest = names.drop_last();
        assert(v.drop_last() =~= text::texts(rest));
        lemma_all_days(rest, d);
        lemma_group(names.last()@, d);
        let a = recurrence::all_days(text::texts(rest));
        let g = recurrence::group_days(names.last()@);
        let b = recurrence::all_days(v);
        assert(b == a + g);
        lemma_joined(a, g, d);
        lemma_wanted(names, d);
    }
}

proof fn lemma_joined(a: Seq<u32>, b: Seq<u32>, d: u32)
    ensures
        (a + b).contains(d) <==> a.contains(d) || b.contains(d),
{
    let c = a + b;
    if a.contains(d) {
        let i = choose|i: int| 0 <= i < a.len() && a[i] == d;
        assert(c[i] == d);
    }
    if b.contains(d) {
        let i = choose|i: int| 0 <= i < b.len() && b[i] == d;
        assert(c[i + a.len()] == d);
    }
    if c.contains(d) {
        let i = choose|i: int| 0 <= i < c.len() && c[i] == d;
        if i < a.len() {
            assert(a[i] == d);
        } else {
            assert(b[i - a.len()] == d);
        }
    }
}

proof fn lemma_wanted(names: Seq<String>, d: u32)
    requires
        names.len() > 0,
    ensures
        is_wanted(names, d) <==> is_wanted(names.drop_last(), d) || is_meant(names.last()@, d),
        has_group(names) <==> has_group(names.drop_last()) || is_group(names.last()@),
{
    let rest = names.drop_last();
    assert(names[names.len() - 1] == names.last());
    assert(forall|i: int| 0 <= i < rest.len() ==> #[trigger] rest[i] == names[i]);
    if is_wanted(rest, d) {
        let i = choose|i: int| 0 <= i < rest.len() && is_meant((#[trigger] rest[i])@, d);
        assert(is_meant(names[i]@, d));
    }
    if is_wanted(names, d) && !is_meant(names.last()@, d) {
        let i = choose|i: int| 0 <= i < names.len() && is_meant((#[trigger] names[i])@, d);
        assert(is_meant(rest[i]@, d));
    }
    if has_group(rest) {
        let i = choose|i: int| 0 <= i < rest.len() && is_group((#[trigger] rest[i])@);
        assert(is_group(names[i]@));
    }
    if has_group(names) && !is_group(names.last()@) {
        let i = choose|i: int| 0 <= i < names.len() && is_group((#[trigger] names[i])@);
        assert(is_group(rest[i]@));
    }
}

proof fn lemma_new_days(days: Seq<u32>, more: Seq<u32>, d: u32)
    requires
        forall|i: int| 0 <= i < days.len() ==> #[trigger] days[i] < 7,
        forall|i: int| 0 <= i < more.len() ==> #[trigger] more[i] < 7,
    ensures
        recurrence::with_new_days(days, more).contains(d) <==> days.contains(d) || more.contains(d),
        forall|i: int|
            0 <= i < recurrence::with_new_days(days, more).len()
                ==> #[trigger] recurrence::with_new_days(days, more)[i] < 7,
        days.no_duplicates() ==> recurrence::with_new_days(days, more).no_duplicates(),
    decreases more.len(),
{
    if more.len() > 0 {
        let rest = more.drop_last();
        lemma_new_days(days, rest, d);
        let a = recurrence::with_new_days(days, rest);
        assert(more =~= rest + seq![more.last()]);
        lemma_joined(rest, seq![more.last()], d);
        assert(seq![more.last()].contains(d) <==> d == more.last()) by {
            assert(seq![more.last()][0] == more.last());
        }
        assert(a.push(more.last()) =~= a + seq![more.last()]);
        lemma_joined(a, seq![more.last()], d);
        assert(more[more.len() - 1] < 7);
    }
}

proof fn lemma_different_days(names: Seq<String>, d: u32)
    requires
        d < 7,
    ensures
        recurrence::different_days(text::texts(names)).contains(d) <==> is_wanted(names, d),
        forall|i: int|
            0 <= i < recurrence::different_days(text::texts(names)).len()
                ==> #[trigger] recurrence::different_days(text::texts(names))[i] < 7,
        recurrence::different_days(text::texts(names)).no_duplicates(),
        recurrence::names_a_group(text::texts(names)) <==> has_group(names),
    decreases names.len(),
{
    let v = text::texts(names);
    if names.len() > 0 {
        let rest = names.drop_last();
        let w = text::texts(rest);
        assert(v.drop_last() =~= w);
        lemma_different_days(rest, d);
        lemma_group(names.last()@, d);
        lemma_new_days(recurrence::different_days(w), recurrence::group_days(names.last()@), d);
        lemma_wanted(names, d);
        assert(v[v.len() - 1] == names.last()@);
        assert(forall|i: int| 0 <= i < w.len() ==> #[trigger] w[i] == v[i]);
        if recurrence::names_a_group(w) {
            let i = choose|i: int|
                0 <= i < w.len() && recurrence::group_days(#[trigger] w[i]).len() > 1;
            assert(recurrence::group_days(v[i]).len() > 1);
        }
        if recurrence::names_a_group(v) {
            let i = choose|i: int|
                0 <= i < v.len() && recurrence::group_days(#[trigger] v[i]).len() > 1;
            if i < w.len() {
                assert(recurrence::group_days(w[i]).len() > 1);
            }
        }
        if is_group(names.last()@) {
            assert(recurrence::group_days(v[v.len() - 1]).len() > 1);
        }
    }
}

/// Whether an entry of a rule is for a day of the week and, if a place is
/// given, for that one of the period.
pub open spec fn is_entry(v: Val, d: u32, nth: Option<int>) -> bool {
    &&& v.text_at("day"@) == Some(two_letters(d))
    &&& match nth {
        Some(k) => v.get("nthOfPeriod"@) matches Some(n) && n.as_i64() == Some(k as i64),
        None => v.get("nthOfPeriod"@) is None,
    }
}

proof fn lemma_entry(d: u32, nth: Option<i64>)
    requires
        d < 7,
    ensures
        is_entry(
            recurrence::nth_day_entry(d, nth),
            d,
            match nth {
                Some(k) => Some(k as int),
                None => None,
            },
        ),
        is_entry(recurrence::day_entry(d), d, None),
{
    reveal_strlit("day");
    reveal_strlit("nthOfPeriod");
    assert("day"@.len() == 3);
    assert("nthOfPeriod"@.len() == 11);
    lemma_short(d, d);
    let v = Val::Text(crate::exchange_graph::recurrence::short_day(d));
    let n = match nth {
        Some(k) => Some(json::int_val(k)),
        None => None,
    };
    json::lemma_find1("day"@, v, "day"@);
    json::lemma_find1("day"@, v, "nthOfPeriod"@);
    json::lemma_lookup_member_if(seq![("day"@, v)], "nthOfPeriod"@, n, "day"@);
    json::lemma_lookup_member_if(seq![("day"@, v)], "nthOfPeriod"@, n, "nthOfPeriod"@);
}

/// Whether an entry of a rule is for some day of the week.
pub open spec fn is_for_some_day(v: Val, nth: Option<int>) -> bool {
    exists|e: u32| e < 7 && #[trigger] is_entry(v, e, nth)
}

/// Whether entries are for days of the week only, and for one of them exactly
/// where names stand for it.
pub open spec fn is_for(l: Seq<Val>, names: Seq<String>, d: u32, nth: Option<int>) -> bool {
    &&& (exists|i: int| 0 <= i < l.len() && is_entry(#[trigger] l[i], d, nth)) <==> is_wanted(
        names,
        d,
    )
    &&& forall|i: int| 0 <= i < l.len() ==> is_for_some_day(#[trigger] l[i], nth)
}

proof fn lemma_is_for(days: Seq<u32>, names: Seq<String>, d: u32, nth: Option<i64>, l: Seq<Val>)
    requires
        d < 7,
        days.contains(d) <==> is_wanted(names, d),
        forall|i: int| 0 <= i < days.len() ==> #[trigger] days[i] < 7,
        l == recurrence::nth_day_entries(days, nth) || (nth is None && l
            == recurrence::day_entries(days)),
    ensures
        is_for(
            l,
            names,
            d,
            match nth {
                Some(k) => Some(k as int),
                None => None,
            },
        ),
{
    let n = match nth {
        Some(k) => Some(k as int),
        None => None,
    };
    assert forall|i: int| 0 <= i < l.len() implies is_entry(#[trigger] l[i], days[i], n)
        && days[i] < 7 by {
        lemma_entry(days[i], nth);
    }
    if days.contains(d) {
        let i = choose|i: int| 0 <= i < days.len() && days[i] == d;
        assert(is_entry(l[i], d, n));
    }
    if exists|i: int| 0 <= i < l.len() && is_entry(#[trigger] l[i], d, n) {
        let i = choose|i: int| 0 <= i < l.len() && is_entry(#[trigger] l[i], d, n);
        lemma_short(d, days[i]);
        lemma_short(days[i], days[i]);
        assert(is_entry(l[i], days[i], n));
        assert(days[i] == d);
    }
    assert forall|i: int| 0 <= i < l.len() implies is_for_some_day(#[trigger] l[i], n) by {
        assert(is_entry(l[i], days[i], n));
    }
}

/// A weekly rule is for exactly the days of the week that the pattern names;
/// where it names none the rule lists no days.
pub proof fn weekly_rules_are_for_their_days(
    raw: RawRecurrence,
    interval: u32,
    days_of_week: Vec<String>,
    d: u32,
)
    requires
        raw.pattern == Some(RecurrencePattern::Weekly { interval, days_of_week }),
        d < 7,
    ensures
        recurrence::rule_of(raw) matches Some(rule) && {
            &&& rule.get("bySetPosition"@) is None
            &&& match rule.get("byDay"@) {
                Some(Val::List(l)) => is_for(l, days_of_week@, d, None),
                Some(_) => false,
                None => !is_wanted(days_of_week@, d),
            }
        },
{
    lemma_names();
    let p = RecurrencePattern::Weekly { interval, days_of_week };
    lemma_rule(p, raw.range, "byDay"@);
    lemma_rule(p, raw.range, "bySetPosition"@);
    lemma_all_days(days_of_week@, d);
    let days = recurrence::all_days(text::texts(days_of_week@));
    lemma_is_for(days, days_of_week@, d, None, recurrence::day_entries(days));
}

/// A rule for some days within its period is for exactly those that the pattern
/// names. The place counts among all of them where a name stands for several
/// days, and else for each of them by itself.
pub proof fn relative_rules_pick_their_days(
    raw: RawRecurrence,
    p: RecurrencePattern,
    index: Seq<char>,
    k: int,
    d: u32,
)
    requires
        raw.pattern == Some(p),
        index_of(p) == Some(index),
        is_place(index, k),
        d < 7,
    ensures
        recurrence::rule_of(raw) matches Some(rule) && {
            match rule.get("byDay"@) {
                Some(Val::List(l)) => if has_group(week_days(p)) {
                    &&& is_for(l, week_days(p), d, None)
                    &&& only(rule.get("bySetPosition"@)) matches Some(n) && n.as_i64() == Some(
                        k as i64,
                    )
                } else {
                    &&& is_for(l, week_days(p), d, Some(k))
                    &&& rule.get("bySetPosition"@) is None
                },
                Some(_) => false,
                None => !is_wanted(week_days(p), d) && rule.get("bySetPosition"@) is None,
            }
        },
{
    lemma_names();
    lemma_places();
    lemma_rule(p, raw.range, "byDay"@);
    lemma_rule(p, raw.range, "bySetPosition"@);
    lemma_different_days(week_days(p), d);
    let days = recurrence::different_days(text::texts(week_days(p)));
    let nth = recurrence::nth_named(index);
    assert(nth == Some(k as i64));
    lemma_is_for(days, week_days(p), d, None, recurrence::day_entries(days));
    lemma_is_for(days, week_days(p), d, nth, recurrence::nth_day_entries(days, nth));
}

} // verus!

//! A Graph recurrence as a JSCalendar rule.

use crate::exchange::date;
use crate::exchange_graph::error::GraphError;
use crate::json;
use crate::json::{Json, Members, NumberVal, Val};
use crate::text;
use vstd::prelude::*;

verus! {

/// The days of the week, from Sunday.
pub open spec fn long_day(d: u32) -> Seq<char> {
    if d == 0 {
        "sunday"@
    } else if d == 1 {
        "monday"@
    } else if d == 2 {
        "tuesday"@
    } else if d == 3 {
        "wednesday"@
    } else if d == 4 {
        "thursday"@
    } else if d == 5 {
        "friday"@
    } else {
        "saturday"@
    }
}

/// The days of the week in two letters, from Sunday.
pub open spec fn short_day(d: u32) -> Seq<char> {
    if d == 0 {
        "su"@
    } else if d == 1 {
        "mo"@
    } else if d == 2 {
        "tu"@
    } else if d == 3 {
        "we"@
    } else if d == 4 {
        "th"@
    } else if d == 5 {
        "fr"@
    } else {
        "sa"@
    }
}

/// The day of the week with the given name, in whatever case.
pub open spec fn day_named(name: Seq<char>) -> Option<u32> {
    let n = text::lowered(name);
    if n == "sunday"@ {
        Some(0)
    } else if n == "monday"@ {
        Some(1)
    } else if n == "tuesday"@ {
        Some(2)
    } else if n == "wednesday"@ {
        Some(3)
    } else if n == "thursday"@ {
        Some(4)
    } else if n == "friday"@ {
        Some(5)
    } else if n == "saturday"@ {
        Some(6)
    } else {
        None
    }
}

/// The day of the week with the given two letters, in whatever case.
pub open spec fn day_abbreviated(name: Seq<char>) -> Option<u32> {
    let n = text::lowered(name);
    if n == "su"@ {
        Some(0)
    } else if n == "mo"@ {
        Some(1)
    } else if n == "tu"@ {
        Some(2)
    } else if n == "we"@ {
        Some(3)
    } else if n == "th"@ {
        Some(4)
    } else if n == "fr"@ {
        Some(5)
    } else if n == "sa"@ {
        Some(6)
    } else {
        None
    }
}

/// The place in a period that an index names; the last is -1.
pub open spec fn position_named(index: Seq<char>) -> Option<i64> {
    let n = text::lowered(index);
    if n == "first"@ {
        Some(1)
    } else if n == "second"@ {
        Some(2)
    } else if n == "third"@ {
        Some(3)
    } else if n == "fourth"@ {
        Some(4)
    } else if n == "last"@ {
        Some(-1i64 as i64)
    } else {
        None
    }
}

/// How often the events of a pattern come.
pub open spec fn frequency_of(pattern: Val) -> Seq<char> {
    match pattern.text_at("type"@) {
        Some(t) => if t == "weekly"@ {
            "weekly"@
        } else if t == "absoluteMonthly"@ || t == "relativeMonthly"@ {
            "monthly"@
        } else if t == "absoluteYearly"@ || t == "relativeYearly"@ {
            "yearly"@
        } else {
            "daily"@
        },
        None => "daily"@,
    }
}

/// The days of the week that a list names, in order; what names none is left
/// out.
pub open spec fn named_days(v: Seq<Val>) -> Seq<u32>
    decreases v.len(),
{
    if v.len() == 0 {
        Seq::empty()
    } else {
        let rest = named_days(v.drop_last());
        match v.last().as_text() {
            Some(t) => match day_named(t) {
                Some(d) => rest.push(d),
                None => rest,
            },
            None => rest,
        }
    }
}

/// The items of a member that is a list, or none.
pub open spec fn items_at(v: Val, key: Seq<char>) -> Seq<Val> {
    match v.list_at(key) {
        Some(s) => s,
        None => Seq::empty(),
    }
}

/// The days of the week of a pattern.
pub open spec fn pattern_days(pattern: Val) -> Seq<u32> {
    named_days(items_at(pattern, "daysOfWeek"@))
}

/// A day of the week in a rule.
pub open spec fn nday(d: u32) -> Val {
    json::obj2("@type"@, Val::Text("NDay"@), "day"@, Val::Text(short_day(d)))
}

/// Days of the week in a rule.
pub open spec fn ndays(days: Seq<u32>) -> Seq<Val> {
    Seq::new(days.len(), |i: int| nday(days[i]))
}

/// The step between periods, where it is written down.
pub open spec fn rule_interval(pattern: Val) -> Option<Val> {
    match pattern.get("interval"@) {
        Some(v) => match v.as_u64() {
            Some(n) => if n != 1 {
                Some(Val::Number(NumberVal::Unsigned(n)))
            } else {
                None
            },
            None => None,
        },
        None => None,
    }
}

/// The day on which a pattern's weeks start, where it names one.
pub open spec fn rule_first_day(pattern: Val) -> Option<Val> {
    match pattern.text_at("firstDayOfWeek"@) {
        Some(t) => match day_named(t) {
            Some(d) => Some(Val::Text(short_day(d))),
            None => None,
        },
        None => None,
    }
}

/// The integer of a member, unless it is zero.
pub open spec fn nonzero_at(v: Val, key: Seq<char>) -> Option<i64> {
    match v.get(key) {
        Some(x) => match x.as_i64() {
            Some(n) => if n != 0 {
                Some(n)
            } else {
                None
            },
            None => None,
        },
        None => None,
    }
}

/// A list of one integer.
pub open spec fn one_int(n: Option<i64>) -> Option<Val> {
    match n {
        Some(x) => Some(Val::List(seq![json::int_val(x)])),
        None => None,
    }
}

/// A list of one integer written as a text.
pub open spec fn one_int_text(n: Option<i64>) -> Option<Val> {
    match n {
        Some(x) => Some(Val::List(seq![Val::Text(text::signed_dec(x as int))])),
        None => None,
    }
}

/// The place that a pattern's index names.
pub open spec fn pattern_position(pattern: Val) -> Option<i64> {
    match pattern.text_at("index"@) {
        Some(t) => position_named(t),
        None => None,
    }
}

/// Whether a range is of the given type.
pub open spec fn range_is(range: Val, kind: Seq<char>) -> bool {
    range.text_at("type"@) == Some(kind)
}

/// The last moment of a range that has an end date.
pub open spec fn rule_until(range: Val) -> Option<Val> {
    if range_is(range, "endDate"@) {
        match range.text_at("endDate"@) {
            Some(t) => json::text_opt(date::until_text(t)),
            None => None,
        }
    } else {
        None
    }
}

/// How many events a numbered range has.
pub open spec fn rule_count(range: Val) -> Option<Val> {
    if range_is(range, "numbered"@) {
        match range.get("numberOfOccurrences"@) {
            Some(v) => match v.as_u64() {
                Some(n) => Some(Val::Number(NumberVal::Unsigned(n))),
                None => None,
            },
            None => None,
        }
    } else {
        None
    }
}

/// The members of the rule that stands for a pattern and its range.
pub open spec fn rule_members(pattern: Val, range: Val) -> Members {
    seq![
        ("@type"@, Val::Text("RecurrenceRule"@)),
        ("frequency"@, Val::Text(frequency_of(pattern))),
    ] + json::member_if("interval"@, rule_interval(pattern)) + json::member_if(
        "firstDayOfWeek"@,
        rule_first_day(pattern),
    ) + json::member_if("byDay"@, json::list_opt(ndays(pattern_days(pattern)))) + json::member_if(
        "byMonthDay"@,
        one_int(nonzero_at(pattern, "dayOfMonth"@)),
    ) + json::member_if("byMonth"@, one_int_text(nonzero_at(pattern, "month"@))) + json::member_if(
        "bySetPosition"@,
        one_int(pattern_position(pattern)),
    ) + json::member_if("until"@, rule_until(range)) + json::member_if("count"@, rule_count(range))
}

/// Reads the name of a day of the week.
pub fn parse_weekday(name: &str) -> (r: Option<u32>)
    ensures
        r == day_named(name@),
        r matches Some(d) ==> d < 7,
{
    let n: String = text::to_lower(name);
    let s: &str = n.as_str();
    if text::same(s, "sunday") {
        Some(0)
    } else if text::same(s, "monday") {
        Some(1)
    } else if text::same(s, "tuesday") {
        Some(2)
    } else if text::same(s, "wednesday") {
        Some(3)
    } else if text::same(s, "thursday") {
        Some(4)
    } else if text::same(s, "friday") {
        Some(5)
    } else if text::same(s, "saturday") {
        Some(6)
    } else {
        None
    }
}

/// Reads the two letters of a day of the week.
pub fn parse_short_weekday(name: &str) -> (r: Option<u32>)
    ensures
        r == day_abbreviated(name@),
        r matches Some(d) ==> d < 7,
{
    let n: String = text::to_lower(name);
    let s: &str = n.as_str();
    if text::same(s, "su") {
        Some(0)
    } else if text::same(s, "mo") {
        Some(1)
    } else if text::same(s, "tu") {
        Some(2)
    } else if text::same(s, "we") {
        Some(3)
    } else if text::same(s, "th") {
        Some(4)
    } else if text::same(s, "fr") {
        Some(5)
    } else if text::same(s, "sa") {
        Some(6)
    } else {
        None
    }
}

/// The two letters of a day of the week.
pub fn short_name(d: u32) -> (r: &'static str)
    ensures
        r@ == short_day(d),
{
    if d == 0 {
        "su"
    } else if d == 1 {
        "mo"
    } else if d == 2 {
        "tu"
    } else if d == 3 {
        "we"
    } else if d == 4 {
        "th"
    } else if d == 5 {
        "fr"
    } else {
        "sa"
    }
}

/// The name of a day of the week.
pub fn long_name(d: u32) -> (r: &'static str)
    ensures
        r@ == long_day(d),
{
    if d == 0 {
        "sunday"
    } else if d == 1 {
        "monday"
    } else if d == 2 {
        "tuesday"
    } else if d == 3 {
        "wednesday"
    } else if d == 4 {
        "thursday"
    } else if d == 5 {
        "friday"
    } else {
        "saturday"
    }
}

fn day_short(name: &str) -> (r: Option<&'static str>)
    ensures
        json::str_view(r) == (match day_named(name@) {
            Some(d) => Some(short_day(d)),
            None => None,
        }),
{
    match parse_weekday(name) {
        Some(d) => Some(short_name(d)),
        None => None,
    }
}

fn set_position_for(index: &str) -> (r: Option<i64>)
    ensures
        r == position_named(index@),
{
    let n: String = text::to_lower(index);
    let s: &str = n.as_str();
    if text::same(s, "first") {
        Some(1)
    } else if text::same(s, "second") {
        Some(2)
    } else if text::same(s, "third") {
        Some(3)
    } else if text::same(s, "fourth") {
        Some(4)
    } else if text::same(s, "last") {
        Some(-1)
    } else {
        None
    }
}

fn frequency_for(pattern: &Json) -> (r: &'static str)
    ensures
        r@ == frequency_of(pattern@),
{
    match pattern.text_at("type") {
        Some(t) => if text::same(t, "weekly") {
            "weekly"
        } else if text::same(t, "absoluteMonthly") || text::same(t, "relativeMonthly") {
            "monthly"
        } else if text::same(t, "absoluteYearly") || text::same(t, "relativeYearly") {
            "yearly"
        } else {
            "daily"
        },
        None => "daily",
    }
}

/// The days of the week of a pattern.
pub fn weekdays(pattern: &Json) -> (r: Vec<u32>)
    ensures
        r@ == pattern_days(pattern@),
        forall|i: int| 0 <= i < r@.len() ==> #[trigger] r@[i] < 7,
{
    let mut out: Vec<u32> = Vec::new();
    match pattern.list_at("daysOfWeek") {
        Some(v) => {
            let ghost all = json::list_view(v@);
            assert(out@ =~= named_days(all.take(0)));
            let mut i: usize = 0;
            while i < v.len()
                invariant
                    all == json::list_view(v@),
                    i <= v@.len(),
                    out@ == named_days(all.take(i as int)),
                    forall|k: int| 0 <= k < out@.len() ==> #[trigger] out@[k] < 7,
                decreases v@.len() - i,
            {
                proof {
                    assert(all.take(i as int + 1).drop_last() == all.take(i as int));
                    assert(all.take(i as int + 1).last() == v@[i as int]@);
                }
                match v[i].as_text() {
                    Some(t) => match parse_weekday(t) {
                        Some(d) => {
                            out.push(d);
                        },
                        None => {},
                    },
                    None => {},
                }
                i = i + 1;
            }
            assert(all.take(i as int) == all);
        },
        None => {},
    }
    out
}

fn make_ndays(days: &Vec<u32>) -> (r: Vec<Json>)
    ensures
        json::list_view(r@) == ndays(days@),
{
    let mut out: Vec<Json> = Vec::new();
    let mut i: usize = 0;
    while i < days.len()
        invariant
            i <= days@.len(),
            out@.len() == i,
            forall|k: int| 0 <= k < i ==> (#[trigger] out@[k])@ == nday(days@[k]),
        decreases days@.len() - i,
    {
        out.push(
            json::object2(
                "@type",
                json::text_json("NDay"),
                "day",
                json::text_json(short_name(days[i])),
            ),
        );
        i = i + 1;
    }
    assert(json::list_view(out@) =~= ndays(days@));
    out
}

fn nonzero_member(v: &Json, key: &str) -> (r: Option<i64>)
    ensures
        r == nonzero_at(v@, key@),
{
    match v.get(key) {
        Some(x) => match x.as_i64() {
            Some(n) => if n != 0 {
                Some(n)
            } else {
                None
            },
            None => None,
        },
        None => None,
    }
}

fn single(j: Json) -> (r: Json)
    ensures
        r@ == Val::List(seq![j@]),
{
    let mut v: Vec<Json> = Vec::new();
    let ghost w = j@;
    v.push(j);
    assert(json::list_view(v@) =~= seq![w]);
    Json::List(v)
}

fn make_one_int(n: Option<i64>) -> (r: Option<Json>)
    ensures
        json::opt_view(r) == one_int(n),
{
    match n {
        Some(x) => Some(single(json::int_json(x))),
        None => None,
    }
}

fn make_one_int_text(n: Option<i64>) -> (r: Option<Json>)
    ensures
        json::opt_view(r) == one_int_text(n),
{
    match n {
        Some(x) => {
            let t: String = text::signed_decimal(x);
            Some(single(Json::Text(t)))
        },
        None => None,
    }
}

fn make_interval(pattern: &Json) -> (r: Option<Json>)
    ensures
        json::opt_view(r) == rule_interval(pattern@),
{
    match pattern.get("interval") {
        Some(v) => match v.as_u64() {
            Some(n) => if n != 1 {
                Some(json::number_json(n))
            } else {
                None
            },
            None => None,
        },
        None => None,
    }
}

fn make_first_day(pattern: &Json) -> (r: Option<Json>)
    ensures
        json::opt_view(r) == rule_first_day(pattern@),
{
    match pattern.text_at("firstDayOfWeek") {
        Some(t) => match day_short(t) {
            Some(d) => Some(json::text_json(d)),
            None => None,
        },
        None => None,
    }
}

fn make_until(range: &Json) -> (r: Option<Json>)
    ensures
        json::opt_view(r) == rule_until(range@),
{
    match range.text_at("type") {
        Some(k) => if text::same(k, "endDate") {
            match range.text_at("endDate") {
                Some(t) => match date::recurrence_until(t) {
                    Some(u) => Some(Json::Text(u)),
                    None => None,
                },
                None => None,
            }
        } else {
            None
        },
        None => None,
    }
}

fn make_count(range: &Json) -> (r: Option<Json>)
    ensures
        json::opt_view(r) == rule_count(range@),
{
    match range.text_at("type") {
        Some(k) => if text::same(k, "numbered") {
            match range.get("numberOfOccurrences") {
                Some(v) => match v.as_u64() {
                    Some(n) => Some(json::number_json(n)),
                    None => None,
                },
                None => None,
            }
        } else {
            None
        },
        None => None,
    }
}

/// Turns a Graph recurrence into the members of a rule. It fails on a
/// recurrence without a pattern or without a range, and on no other.
pub fn convert_patterned_recurrence_rule(pr: &Json) -> (r: Result<Vec<(String, Json)>, GraphError>)
    ensures
        match r {
            Ok(e) => pr@.get("pattern"@) is Some && pr@.get("range"@) is Some
                && json::members_view(e@) == rule_members(
                pr@.get("pattern"@)->0,
                pr@.get("range"@)->0,
            ),
            Err(e) => if pr@.get("pattern"@) is None {
                e matches GraphError::Malformed(m) && m@ == "recurrence.pattern missing"@
            } else {
                pr@.get("range"@) is None && (e matches GraphError::Malformed(m) && m@
                    == "recurrence.range missing"@)
            },
        },
{
    let pattern: &Json = match pr.get("pattern") {
        Some(p) => p,
        None => {
            return Err(GraphError::Malformed("recurrence.pattern missing".to_owned()));
        },
    };
    let range: &Json = match pr.get("range") {
        Some(p) => p,
        None => {
            return Err(GraphError::Malformed("recurrence.range missing".to_owned()));
        },
    };
    let mut rule: Vec<(String, Json)> = Vec::new();
    json::push_member(&mut rule, "@type", json::text_json("RecurrenceRule"));
    json::push_member(&mut rule, "frequency", json::text_json(frequency_for(pattern)));
    assert(json::members_view(rule@) =~= seq![
        ("@type"@, Val::Text("RecurrenceRule"@)),
        ("frequency"@, Val::Text(frequency_of(pattern@))),
    ]);
    json::push_member_if(&mut rule, "interval", make_interval(pattern));
    json::push_member_if(&mut rule, "firstDayOfWeek", make_first_day(pattern));
    let days: Vec<u32> = weekdays(pattern);
    json::push_member_if(&mut rule, "byDay", json::list_json_opt(make_ndays(&days)));
    json::push_member_if(
        &mut rule,
        "byMonthDay",
        make_one_int(nonzero_member(pattern, "dayOfMonth")),
    );
    json::push_member_if(
        &mut rule,
        "byMonth",
        make_one_int_text(nonzero_member(pattern, "month")),
    );
    let position: Option<i64> = match pattern.text_at("index") {
        Some(t) => set_position_for(t),
        None => None,
    };
    json::push_member_if(&mut rule, "bySetPosition", make_one_int(position));
    json::push_member_if(&mut rule, "until", make_until(range));
    json::push_member_if(&mut rule, "count", make_count(range));
    Ok(rule)
}

/// The rule that stands for a Graph recurrence.
pub fn convert_patterned_recurrence(pr: &Json) -> (r: Result<Json, GraphError>)
    ensures
        match r {
            Ok(j) => pr@.get("pattern"@) is Some && pr@.get("range"@) is Some && j@ == Val::Object(
                rule_members(pr@.get("pattern"@)->0, pr@.get("range"@)->0),
            ),
            Err(e) => if pr@.get("pattern"@) is None {
                e matches GraphError::Malformed(m) && m@ == "recurrence.pattern missing"@
            } else {
                pr@.get("range"@) is None && (e matches GraphError::Malformed(m) && m@
                    == "recurrence.range missing"@)
            },
        },
{
    match convert_patterned_recurrence_rule(pr) {
        Ok(e) => Ok(Json::Object(e)),
        Err(e) => Err(e),
    }
}

} // verus!

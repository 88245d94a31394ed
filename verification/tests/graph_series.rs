use serde_json::Value;
use vandelay::civil::Date;
use vandelay::exchange_graph::expand::{expected_dates, graph_pattern_from_jscalendar};
use vandelay::exchange_graph::recurrence::convert_patterned_recurrence;
use vandelay::json;
use vandelay::json::Json;

fn j(text: &str) -> Json {
    json::parse(text.as_bytes()).expect("JSON")
}

fn value(v: &Json) -> Value {
    serde_json::from_str(&json::write(v)).expect("JSON")
}

#[test]
fn daily_with_interval() {
    let pr = j(r#"{"pattern": {"type": "daily", "interval": 3}, "range": {"type": "noEnd"}}"#);
    let out = value(&convert_patterned_recurrence(&pr).unwrap());
    let rule = &out;
    assert_eq!(rule["frequency"], "daily");
    assert_eq!(rule["interval"], 3);
    assert!(rule.get("until").is_none());
    assert!(rule.get("count").is_none());
}

#[test]
fn weekly_with_days_of_week() {
    let pr = j(r#"{"pattern": {"type": "weekly", "interval": 1, "daysOfWeek": ["monday", "wednesday", "friday"], "firstDayOfWeek": "monday"}, "range": {"type": "noEnd"}}"#);
    let out = value(&convert_patterned_recurrence(&pr).unwrap());
    let rule = &out;
    assert_eq!(rule["frequency"], "weekly");
    assert_eq!(rule["firstDayOfWeek"], "mo");
    let by_day = rule["byDay"].as_array().unwrap();
    assert_eq!(by_day.len(), 3);
    assert_eq!(by_day[0]["day"], "mo");
    assert_eq!(by_day[1]["day"], "we");
    assert_eq!(by_day[2]["day"], "fr");
}

#[test]
fn absolute_monthly_uses_by_month_day() {
    let pr = j(r#"{"pattern": {"type": "absoluteMonthly", "interval": 1, "dayOfMonth": 15}, "range": {"type": "noEnd"}}"#);
    let out = value(&convert_patterned_recurrence(&pr).unwrap());
    let rule = &out;
    assert_eq!(rule["frequency"], "monthly");
    assert_eq!(rule["byMonthDay"][0], 15);
}

#[test]
fn relative_monthly_emits_by_set_position() {
    let pr = j(r#"{"pattern": {"type": "relativeMonthly", "interval": 1, "daysOfWeek": ["thursday"], "index": "third"}, "range": {"type": "noEnd"}}"#);
    let out = value(&convert_patterned_recurrence(&pr).unwrap());
    let rule = &out;
    assert_eq!(rule["frequency"], "monthly");
    assert_eq!(rule["bySetPosition"][0], 3);
    assert_eq!(rule["byDay"][0]["day"], "th");
}

#[test]
fn absolute_yearly_with_month_and_day() {
    let pr = j(r#"{"pattern": {"type": "absoluteYearly", "interval": 1, "month": 7, "dayOfMonth": 4}, "range": {"type": "noEnd"}}"#);
    let out = value(&convert_patterned_recurrence(&pr).unwrap());
    let rule = &out;
    assert_eq!(rule["frequency"], "yearly");
    assert_eq!(rule["byMonth"][0], "7");
    assert_eq!(rule["byMonthDay"][0], 4);
}

#[test]
fn relative_yearly_uses_setpos_and_byday() {
    let pr = j(r#"{"pattern": {"type": "relativeYearly", "interval": 1, "daysOfWeek": ["monday"], "index": "last", "month": 5}, "range": {"type": "noEnd"}}"#);
    let out = value(&convert_patterned_recurrence(&pr).unwrap());
    let rule = &out;
    assert_eq!(rule["frequency"], "yearly");
    assert_eq!(rule["bySetPosition"][0], -1);
    assert_eq!(rule["byMonth"][0], "5");
}

#[test]
fn range_end_date_maps_to_until_local_datetime() {
    let pr = j(r#"{"pattern": {"type": "daily", "interval": 1}, "range": {"type": "endDate", "endDate": "2026-12-31"}}"#);
    let out = value(&convert_patterned_recurrence(&pr).unwrap());
    assert_eq!(out["until"], "2026-12-31T23:59:59");
}

#[test]
fn range_end_datetime_preserved() {
    let pr = j(r#"{"pattern": {"type": "daily", "interval": 1}, "range": {"type": "endDate", "endDate": "2026-12-31T23:59:59"}}"#);
    let out = value(&convert_patterned_recurrence(&pr).unwrap());
    assert_eq!(out["until"], "2026-12-31T23:59:59");
}

#[test]
fn range_numbered_maps_to_count() {
    let pr = j(r#"{"pattern": {"type": "weekly", "interval": 1, "daysOfWeek": ["monday"]}, "range": {"type": "numbered", "numberOfOccurrences": 10}}"#);
    let out = value(&convert_patterned_recurrence(&pr).unwrap());
    assert_eq!(out["count"], 10);
}

#[test]
fn no_end_range_omits_until_and_count() {
    let pr = j(r#"{"pattern": {"type": "daily", "interval": 1}, "range": {"type": "noEnd"}}"#);
    let out = value(&convert_patterned_recurrence(&pr).unwrap());
    assert!(out.get("until").is_none());
    assert!(out.get("count").is_none());
}

fn day(s: &str) -> Date {
    Date::parse(s).unwrap()
}

fn expand(recurrence: Json, from: &str, to: &str) -> Vec<String> {
    expected_dates(&recurrence, day(from), day(to))
        .expect("pattern is supported")
        .into_iter()
        .map(|d| d.format())
        .collect()
}

#[test]
fn daily_numbered_stops_at_the_count() {
    let dates = expand(
        j(r#"{"pattern": {"type": "daily", "interval": 1}, "range": {"type": "numbered", "startDate": "2026-09-21", "numberOfOccurrences": 6}}"#),
        "2026-01-01",
        "2027-01-01",
    );
    assert_eq!(
        dates,
        [
            "2026-09-21",
            "2026-09-22",
            "2026-09-23",
            "2026-09-24",
            "2026-09-25",
            "2026-09-26"
        ]
    );
}

#[test]
fn weekly_interval_two_keeps_all_three_weekdays() {
    let dates = expand(
        j(r#"{"pattern": {"type": "weekly", "interval": 2, "daysOfWeek": ["monday", "wednesday", "friday"], "firstDayOfWeek": "monday"}, "range": {"type": "endDate", "startDate": "2026-09-16", "endDate": "2026-10-03"}}"#),
        "2026-01-01",
        "2027-01-01",
    );
    assert_eq!(
        dates,
        [
            "2026-09-16",
            "2026-09-18",
            "2026-09-28",
            "2026-09-30",
            "2026-10-02"
        ],
        "interval 2 skips the week of the 21st entirely"
    );
}

#[test]
fn relative_monthly_third_thursday() {
    let dates = expand(
        j(r#"{"pattern": {"type": "relativeMonthly", "interval": 1, "daysOfWeek": ["thursday"], "index": "third"}, "range": {"type": "numbered", "startDate": "2026-09-17", "numberOfOccurrences": 3}}"#),
        "2026-01-01",
        "2027-06-01",
    );
    assert_eq!(dates, ["2026-09-17", "2026-10-15", "2026-11-19"]);
}

#[test]
fn relative_monthly_last_weekday() {
    let dates = expand(
        j(r#"{"pattern": {"type": "relativeMonthly", "interval": 1, "daysOfWeek": ["friday"], "index": "last"}, "range": {"type": "numbered", "startDate": "2026-01-30", "numberOfOccurrences": 3}}"#),
        "2026-01-01",
        "2027-01-01",
    );
    assert_eq!(dates, ["2026-01-30", "2026-02-27", "2026-03-27"]);
}

#[test]
fn absolute_monthly_clamps_to_a_short_month() {
    let dates = expand(
        j(r#"{"pattern": {"type": "absoluteMonthly", "interval": 1, "dayOfMonth": 31}, "range": {"type": "numbered", "startDate": "2026-01-31", "numberOfOccurrences": 3}}"#),
        "2026-01-01",
        "2027-01-01",
    );
    assert_eq!(
        dates,
        ["2026-01-31", "2026-02-28", "2026-03-31"],
        "day 31 clamps to the last day of February"
    );
}

#[test]
fn absolute_yearly_keeps_a_leap_day_series_on_the_28th_in_common_years() {
    let dates = expand(
        j(r#"{"pattern": {"type": "absoluteYearly", "interval": 1, "month": 2, "dayOfMonth": 29}, "range": {"type": "numbered", "startDate": "2024-02-29", "numberOfOccurrences": 3}}"#),
        "2020-01-01",
        "2030-01-01",
    );
    assert_eq!(dates, ["2024-02-29", "2025-02-28", "2026-02-28"]);
}

#[test]
fn window_clips_output_but_the_count_still_tracks_the_whole_series() {
    let dates = expand(
        j(r#"{"pattern": {"type": "daily", "interval": 1}, "range": {"type": "numbered", "startDate": "2026-09-21", "numberOfOccurrences": 6}}"#),
        "2026-09-24",
        "2026-09-25",
    );
    assert_eq!(
        dates,
        ["2026-09-24", "2026-09-25"],
        "only in-window dates are returned, but occurrences 1-3 still counted \
         toward the numbered range"
    );
}

#[test]
fn no_end_series_stops_at_the_window() {
    let dates = expand(
        j(r#"{"pattern": {"type": "daily", "interval": 1}, "range": {"type": "noEnd", "startDate": "2026-09-21"}}"#),
        "2026-09-21",
        "2026-09-24",
    );
    assert_eq!(
        dates,
        ["2026-09-21", "2026-09-22", "2026-09-23", "2026-09-24"]
    );
}

#[test]
fn unknown_pattern_is_reported_rather_than_guessed() {
    assert!(
        expected_dates(
            &j(r#"{"pattern": {"type": "somethingNew", "interval": 1}, "range": {"type": "noEnd", "startDate": "2026-01-01"}}"#),
            day("2026-01-01"),
            day("2027-01-01"),
        )
        .is_none()
    );
}

fn roundtrip(graph: Json, start: &str, from: &str, to: &str) {
    let direct = expected_dates(&graph, day(from), day(to)).expect("graph pattern expands");
    let rule = convert_patterned_recurrence(&graph).expect("converts to jscalendar");
    let back = graph_pattern_from_jscalendar(&rule, day(start))
        .expect("jscalendar rule maps back to a graph pattern");
    let viarule = expected_dates(&back, day(from), day(to)).expect("mapped pattern expands");
    assert_eq!(
        direct, viarule,
        "a stored rule must expand to the same dates as the Graph pattern it came from"
    );
}

#[test]
fn stored_rules_expand_identically_to_their_graph_patterns() {
    roundtrip(
        j(r#"{"pattern": {"type": "daily", "interval": 2}, "range": {"type": "numbered", "startDate": "2026-09-21", "numberOfOccurrences": 5}}"#),
        "2026-09-21",
        "2026-01-01",
        "2027-01-01",
    );
    roundtrip(
        j(r#"{"pattern": {"type": "weekly", "interval": 2, "daysOfWeek": ["monday", "wednesday", "friday"], "firstDayOfWeek": "monday"}, "range": {"type": "endDate", "startDate": "2026-09-16", "endDate": "2026-12-31"}}"#),
        "2026-09-16",
        "2026-01-01",
        "2027-01-01",
    );
    roundtrip(
        j(r#"{"pattern": {"type": "relativeMonthly", "interval": 1, "daysOfWeek": ["thursday"], "index": "third"}, "range": {"type": "numbered", "startDate": "2026-09-17", "numberOfOccurrences": 6}}"#),
        "2026-09-17",
        "2026-01-01",
        "2028-01-01",
    );
    roundtrip(
        j(r#"{"pattern": {"type": "absoluteMonthly", "interval": 1, "dayOfMonth": 31}, "range": {"type": "numbered", "startDate": "2026-01-31", "numberOfOccurrences": 4}}"#),
        "2026-01-31",
        "2026-01-01",
        "2027-01-01",
    );
    roundtrip(
        j(r#"{"pattern": {"type": "absoluteYearly", "interval": 1, "month": 11, "dayOfMonth": 29}, "range": {"type": "noEnd", "startDate": "2026-11-29"}}"#),
        "2026-11-29",
        "2026-01-01",
        "2031-01-01",
    );
    roundtrip(
        j(r#"{"pattern": {"type": "relativeYearly", "interval": 1, "daysOfWeek": ["monday"], "index": "last", "month": 5}, "range": {"type": "noEnd", "startDate": "2026-05-25"}}"#),
        "2026-05-25",
        "2026-01-01",
        "2031-01-01",
    );
}

#[test]
fn a_recurrence_without_its_parts_is_refused() {
    let e = convert_patterned_recurrence(&j(r#"{"range": {"type": "noEnd"}}"#)).unwrap_err();
    assert!(e.message().contains("recurrence.pattern missing"));
    let e = convert_patterned_recurrence(&j(r#"{"pattern": {"type": "daily"}}"#)).unwrap_err();
    assert!(e.message().contains("recurrence.range missing"));
}

use serde_json::Value;
use vandelay::exchange_ews::parse::{RawRecurrence, RecurrencePattern, RecurrenceRange};
use vandelay::exchange_ews::recurrence::to_jscalendar_rule;
use vandelay::json;
use vandelay::json::Json;

fn value(v: &Json) -> Value {
    serde_json::from_str(&json::write(v)).expect("JSON")
}

fn j(text: &str) -> Value {
    serde_json::from_str(text).expect("JSON")
}

#[test]
fn daily_interval_round_trips() {
    let raw = RawRecurrence {
        pattern: Some(RecurrencePattern::Daily { interval: 3 }),
        range: Some(RecurrenceRange::Numbered {
            start_date: "2025-01-01".to_owned(),
            number_of_occurrences: 5,
        }),
    };
    let rule = value(&to_jscalendar_rule(&raw).unwrap());
    assert_eq!(rule["frequency"], "daily");
    assert_eq!(rule["interval"], 3);
    assert_eq!(rule["count"], 5);
}

#[test]
fn relative_monthly_nth_of_period() {
    let raw = RawRecurrence {
        pattern: Some(RecurrencePattern::RelativeMonthly {
            interval: 1,
            day_of_week_index: "First".to_owned(),
            days_of_week: vec!["Monday".to_owned()],
        }),
        range: Some(RecurrenceRange::NoEnd {
            start_date: "2025-01-01".to_owned(),
        }),
    };
    let rule = value(&to_jscalendar_rule(&raw).unwrap());
    assert_eq!(rule["frequency"], "monthly");
    let by_day = rule["byDay"].as_array().unwrap();
    assert_eq!(by_day[0]["day"], "mo");
    assert_eq!(by_day[0]["nthOfPeriod"], 1);
}

#[test]
fn relative_yearly_last_friday_in_june() {
    let raw = RawRecurrence {
        pattern: Some(RecurrencePattern::RelativeYearly {
            month: "June".to_owned(),
            day_of_week_index: "Last".to_owned(),
            days_of_week: vec!["Friday".to_owned()],
        }),
        range: Some(RecurrenceRange::NoEnd {
            start_date: "2020-01-01".to_owned(),
        }),
    };
    let rule = value(&to_jscalendar_rule(&raw).unwrap());
    assert_eq!(rule["frequency"], "yearly");
    assert_eq!(rule["byMonth"][0], "6");
    assert_eq!(rule["byDay"][0]["day"], "fr");
    assert_eq!(rule["byDay"][0]["nthOfPeriod"], -1);
}

#[test]
fn absolute_monthly_translates_to_by_month_day() {
    let raw = RawRecurrence {
        pattern: Some(RecurrencePattern::AbsoluteMonthly {
            interval: 2,
            day_of_month: 15,
        }),
        range: Some(RecurrenceRange::NoEnd {
            start_date: "2025-01-15".to_owned(),
        }),
    };
    let rule = value(&to_jscalendar_rule(&raw).unwrap());
    assert_eq!(rule["frequency"], "monthly");
    assert_eq!(rule["interval"], 2);
    assert_eq!(rule["byMonthDay"][0], 15);
}

#[test]
fn absolute_yearly_translates_to_by_month_and_day() {
    let raw = RawRecurrence {
        pattern: Some(RecurrencePattern::AbsoluteYearly {
            month: "January".to_owned(),
            day_of_month: 1,
        }),
        range: Some(RecurrenceRange::NoEnd {
            start_date: "2025-01-01".to_owned(),
        }),
    };
    let rule = value(&to_jscalendar_rule(&raw).unwrap());
    assert_eq!(rule["frequency"], "yearly");
    assert_eq!(rule["byMonth"][0], "1");
    assert_eq!(rule["byMonthDay"][0], 1);
}

#[test]
fn end_date_with_numeric_offset_yields_valid_local_until() {
    let raw = RawRecurrence {
        pattern: Some(RecurrencePattern::Weekly {
            interval: 2,
            days_of_week: vec!["Wednesday".to_owned()],
        }),
        range: Some(RecurrenceRange::EndDate {
            start_date: "2021-08-04-06:00".to_owned(),
            end_date: "2021-09-30-06:00".to_owned(),
        }),
    };
    let rule = value(&to_jscalendar_rule(&raw).expect("rule"));
    assert_eq!(rule["until"], "2021-09-30T23:59:59");
}

#[test]
fn unusable_end_date_omits_until_rather_than_emitting_garbage() {
    let raw = RawRecurrence {
        pattern: Some(RecurrencePattern::Daily { interval: 1 }),
        range: Some(RecurrenceRange::EndDate {
            start_date: String::new(),
            end_date: "not-a-date".to_owned(),
        }),
    };
    let rule = value(&to_jscalendar_rule(&raw).expect("rule"));
    assert!(rule.get("until").is_none());
}

#[test]
fn no_end_range_emits_no_until_or_count() {
    let raw = RawRecurrence {
        pattern: Some(RecurrencePattern::Daily { interval: 1 }),
        range: Some(RecurrenceRange::NoEnd {
            start_date: "2025-01-01".to_owned(),
        }),
    };
    let rule = value(&to_jscalendar_rule(&raw).unwrap());
    assert!(rule.get("until").is_none());
    assert!(rule.get("count").is_none());
}

#[test]
fn relative_monthly_first_weekday_expands_with_set_position() {
    let raw = RawRecurrence {
        pattern: Some(RecurrencePattern::RelativeMonthly {
            interval: 1,
            day_of_week_index: "First".to_owned(),
            days_of_week: vec!["Weekday".to_owned()],
        }),
        range: Some(RecurrenceRange::NoEnd {
            start_date: "2025-01-01".to_owned(),
        }),
    };
    let rule = value(&to_jscalendar_rule(&raw).unwrap());
    let by_day = rule["byDay"].as_array().unwrap();
    let days: Vec<&str> = by_day.iter().map(|d| d["day"].as_str().unwrap()).collect();
    assert_eq!(days, ["mo", "tu", "we", "th", "fr"]);
    assert!(
        by_day.iter().all(|d| d.get("nthOfPeriod").is_none()),
        "set-based byDay must not carry per-day nthOfPeriod"
    );
    assert_eq!(rule["bySetPosition"], j(r#"[1]"#));
}

#[test]
fn relative_monthly_last_weekendday_uses_negative_set_position() {
    let raw = RawRecurrence {
        pattern: Some(RecurrencePattern::RelativeMonthly {
            interval: 1,
            day_of_week_index: "Last".to_owned(),
            days_of_week: vec!["WeekendDay".to_owned()],
        }),
        range: Some(RecurrenceRange::NoEnd {
            start_date: "2025-01-01".to_owned(),
        }),
    };
    let rule = value(&to_jscalendar_rule(&raw).unwrap());
    let days: Vec<&str> = rule["byDay"]
        .as_array()
        .unwrap()
        .iter()
        .map(|d| d["day"].as_str().unwrap())
        .collect();
    assert_eq!(days, ["sa", "su"]);
    assert_eq!(rule["bySetPosition"], j(r#"[-1]"#));
}

#[test]
fn end_date_with_trailing_z_yields_valid_local_until() {
    let raw = RawRecurrence {
        pattern: Some(RecurrencePattern::Daily { interval: 2 }),
        range: Some(RecurrenceRange::EndDate {
            start_date: "2026-07-01Z".to_owned(),
            end_date: "2026-08-01Z".to_owned(),
        }),
    };
    let rule = value(&to_jscalendar_rule(&raw).unwrap());
    assert_eq!(rule["until"], "2026-08-01T23:59:59");
}

#[test]
fn weekly_every_weekday_expands() {
    let raw = RawRecurrence {
        pattern: Some(RecurrencePattern::Weekly {
            interval: 1,
            days_of_week: vec!["Weekday".to_owned()],
        }),
        range: Some(RecurrenceRange::NoEnd {
            start_date: "2025-01-06".to_owned(),
        }),
    };
    let rule = value(&to_jscalendar_rule(&raw).unwrap());
    let days: Vec<&str> = rule["byDay"]
        .as_array()
        .unwrap()
        .iter()
        .map(|d| d["day"].as_str().unwrap())
        .collect();
    assert_eq!(days, ["mo", "tu", "we", "th", "fr"]);
    assert!(rule.get("bySetPosition").is_none());
}

#[test]
fn weekly_two_days() {
    let raw = RawRecurrence {
        pattern: Some(RecurrencePattern::Weekly {
            interval: 1,
            days_of_week: vec!["Monday".to_owned(), "Wednesday".to_owned()],
        }),
        range: Some(RecurrenceRange::EndDate {
            start_date: "2025-01-06".to_owned(),
            end_date: "2025-06-30".to_owned(),
        }),
    };
    let rule = value(&to_jscalendar_rule(&raw).unwrap());
    assert_eq!(rule["frequency"], "weekly");
    assert_eq!(rule["until"], "2025-06-30T23:59:59");
    let by_day = rule["byDay"].as_array().unwrap();
    assert_eq!(by_day.len(), 2);
    assert_eq!(by_day[0]["day"], "mo");
    assert_eq!(by_day[1]["day"], "we");
}

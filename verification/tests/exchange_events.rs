use serde_json::Value;
use vandelay::exchange::jscalendar::synthetic_attendee_address;
use vandelay::exchange_ews::calendar_map::{
    all_day_span_days, override_patch, to_jscalendar, to_jscalendar_with_exceptions,
};
use vandelay::exchange_ews::parse::{
    CalendarItemRaw, RawAttendee, RawOccurrence, RawRecurrence, RecurrencePattern,
    RecurrenceRange,
};
use vandelay::exchange_ews::types::ItemId;
use vandelay::json;
use vandelay::json::Json;

fn value(v: &Json) -> Value {
    serde_json::from_str(&json::write(v)).expect("JSON")
}

#[test]
fn simple_event_round_trip_converts_utc_to_local_wall_clock() {
    let raw = CalendarItemRaw {
        uid: Some("uid-1".to_owned()),
        subject: Some("Meeting".to_owned()),
        start: Some("2025-06-15T14:00:00Z".to_owned()),
        end: Some("2025-06-15T15:00:00Z".to_owned()),
        location: Some("HQ".to_owned()),
        start_tz: Some("Pacific Standard Time".to_owned()),
        ..CalendarItemRaw::default()
    };
    let v = value(&to_jscalendar(&raw, Some("America/Los_Angeles")).data);
    assert_eq!(v["@type"], "Event");
    assert_eq!(v["uid"], "uid-1");
    assert_eq!(v["title"], "Meeting");
    assert_eq!(v["start"], "2025-06-15T07:00:00");
    assert_eq!(v["duration"], "PT1H");
    assert_eq!(v["timeZone"], "America/Los_Angeles");
    assert_eq!(v["locations"]["1"]["name"], "HQ");
}

#[test]
fn naive_start_without_timezone_stays_floating() {
    let raw = CalendarItemRaw {
        uid: Some("uid-naive".to_owned()),
        start: Some("2025-06-15T14:00:00".to_owned()),
        end: Some("2025-06-15T15:00:00".to_owned()),
        ..CalendarItemRaw::default()
    };
    let v = value(&to_jscalendar(&raw, None).data);
    assert_eq!(v["start"], "2025-06-15T14:00:00");
    assert!(v.get("timeZone").is_none());
}

#[test]
fn unknown_windows_timezone_falls_back_to_utc() {
    let raw = CalendarItemRaw {
        uid: Some("uid-x".to_owned()),
        start: Some("2025-06-15T14:00:00Z".to_owned()),
        end: Some("2025-06-15T15:00:00Z".to_owned()),
        start_tz: Some("Made Up Time".to_owned()),
        ..CalendarItemRaw::default()
    };
    let v = value(&to_jscalendar(&raw, None).data);
    assert_eq!(v["start"], "2025-06-15T14:00:00");
    assert_eq!(v["timeZone"], "Etc/UTC");
}

#[test]
fn recurrence_override_key_uses_local_time_in_event_timezone() {
    let raw = CalendarItemRaw {
        uid: Some("uid-tz".to_owned()),
        start: Some("2025-06-15T21:00:00Z".to_owned()),
        end: Some("2025-06-15T22:00:00Z".to_owned()),
        start_tz: Some("Pacific Standard Time".to_owned()),
        recurrence: Some(RawRecurrence {
            pattern: Some(RecurrencePattern::Daily { interval: 1 }),
            range: Some(RecurrenceRange::Numbered {
                start_date: "2025-06-15".to_owned(),
                number_of_occurrences: 3,
            }),
        }),
        deleted_occurrences: vec![RawOccurrence {
            item_id: Default::default(),
            start: Some("2025-06-16T21:00:00Z".to_owned()),
            end: None,
            original_start: None,
        }],
        ..CalendarItemRaw::default()
    };
    let v = value(&to_jscalendar(&raw, Some("America/Los_Angeles")).data);
    let over = v["recurrenceOverrides"].as_object().unwrap();
    assert!(over.contains_key("2025-06-16T14:00:00"));
}

#[test]
fn all_day_event_uses_date_only_start() {
    let raw = CalendarItemRaw {
        uid: Some("uid-2".to_owned()),
        subject: Some("Holiday".to_owned()),
        is_all_day_event: Some(true),
        start: Some("2025-12-25T00:00:00".to_owned()),
        end: Some("2025-12-26T00:00:00".to_owned()),
        ..CalendarItemRaw::default()
    };
    let v = value(&to_jscalendar(&raw, None).data);
    assert_eq!(v["start"], "2025-12-25T00:00:00");
    assert_eq!(v["showWithoutTime"], true);
    assert_eq!(v["duration"], "P1D");
    assert!(v.get("timeZone").is_none());
}

#[test]
fn recurring_master_with_overrides() {
    let raw = CalendarItemRaw {
        uid: Some("uid-3".to_owned()),
        start: Some("2025-06-15T14:00:00Z".to_owned()),
        end: Some("2025-06-15T15:00:00Z".to_owned()),
        recurrence: Some(RawRecurrence {
            pattern: Some(RecurrencePattern::Daily { interval: 1 }),
            range: Some(RecurrenceRange::Numbered {
                start_date: "2025-06-15".to_owned(),
                number_of_occurrences: 3,
            }),
        }),
        modified_occurrences: vec![RawOccurrence {
            item_id: Default::default(),
            start: Some("2025-06-16T15:00:00Z".to_owned()),
            end: Some("2025-06-16T16:30:00Z".to_owned()),
            original_start: Some("2025-06-16T14:00:00Z".to_owned()),
        }],
        deleted_occurrences: vec![RawOccurrence {
            item_id: Default::default(),
            start: Some("2025-06-17T14:00:00Z".to_owned()),
            end: None,
            original_start: None,
        }],
        ..CalendarItemRaw::default()
    };
    let v = value(&to_jscalendar(&raw, None).data);
    assert!(v.get("recurrenceRules").is_none());
    assert_eq!(v["recurrenceRule"]["frequency"], "daily");
    assert_eq!(v["recurrenceRule"]["count"], 3);
    let over = v["recurrenceOverrides"].as_object().unwrap();
    assert!(over.contains_key("2025-06-16T14:00:00"));
    assert_eq!(over["2025-06-17T14:00:00"]["excluded"], true);
}

#[test]
fn updated_backfills_from_created_when_last_modified_absent() {
    let raw = CalendarItemRaw {
        uid: Some("u".to_owned()),
        start: Some("2025-06-15T14:00:00Z".to_owned()),
        end: Some("2025-06-15T15:00:00Z".to_owned()),
        created: Some("2025-06-01T09:00:00Z".to_owned()),
        last_modified: None,
        ..CalendarItemRaw::default()
    };
    let v = value(&to_jscalendar(&raw, None).data);
    assert_eq!(
        v["updated"], "2025-06-01T09:00:00Z",
        "updated is mandatory (jscalendarbis 3.1.6); backfill from created"
    );
}

#[test]
fn address_less_attendee_keeps_rsvp_via_synthetic_non_mailto_calendar_address() {
    let raw = CalendarItemRaw {
        uid: Some("u".to_owned()),
        start: Some("2025-06-15T14:00:00Z".to_owned()),
        end: Some("2025-06-15T15:00:00Z".to_owned()),
        organizer_smtp: Some("alice@example.com".to_owned()),
        required_attendees: vec![RawAttendee {
            email: None,
            routing_type: None,
            name: Some("No Address Person".to_owned()),
            response_type: Some("Accept".to_owned()),
        }],
        ..CalendarItemRaw::default()
    };
    let v = value(&to_jscalendar(&raw, None).data);
    let p = v["participants"]
        .as_object()
        .unwrap()
        .values()
        .find(|p| p["name"] == "No Address Person")
        .unwrap();
    let addr = p["calendarAddress"].as_str().unwrap();
    assert!(
        addr.starts_with("urn:x-vandelay:attendee:"),
        "a name-only attendee gets a stable synthetic calendarAddress, got {addr}"
    );
    assert!(
        !addr.starts_with("mailto:"),
        "synthetic address MUST NOT be a mailto: (export must not invite a fabricated address)"
    );
    assert_eq!(
        p["participationStatus"], "accepted",
        "the RSVP is preserved now that a calendarAddress is present (jscalendarbis 3.4.6)"
    );
    assert!(p.get("email").is_none(), "no real email is invented");
    assert_eq!(p["roles"]["required"], true);
}

#[test]
fn legacy_ex_routing_type_does_not_produce_a_mailto() {
    let dn = "/o=ExchangeLabs/ou=Exchange Administrative Group/cn=Recipients/cn=abc123";
    let raw = CalendarItemRaw {
        uid: Some("u".to_owned()),
        start: Some("2025-06-15T14:00:00Z".to_owned()),
        end: Some("2025-06-15T15:00:00Z".to_owned()),
        organizer_smtp: Some(dn.to_owned()),
        organizer_routing_type: Some("EX".to_owned()),
        organizer_name: Some("Legacy Organizer".to_owned()),
        required_attendees: vec![RawAttendee {
            email: Some(dn.to_owned()),
            routing_type: Some("EX".to_owned()),
            name: Some("Legacy Attendee".to_owned()),
            response_type: Some("Accept".to_owned()),
        }],
        ..CalendarItemRaw::default()
    };
    let v = value(&to_jscalendar(&raw, None).data);
    let org_addr = v["organizerCalendarAddress"].as_str().unwrap();
    assert!(
        org_addr.starts_with("urn:x-vandelay:attendee:") && !org_addr.contains("mailto:"),
        "an EX organizer must not become mailto:/o=.../cn=...; got {org_addr}"
    );
    let att = v["participants"]
        .as_object()
        .unwrap()
        .values()
        .find(|p| p["name"] == "Legacy Attendee")
        .unwrap();
    let att_addr = att["calendarAddress"].as_str().unwrap();
    assert!(!att_addr.starts_with("mailto:"), "got {att_addr}");
    assert!(att.get("email").is_none(), "an X500 DN is not an email");
    assert_eq!(att["participationStatus"], "accepted");
}

#[test]
fn smtp_routing_type_still_yields_mailto() {
    let raw = CalendarItemRaw {
        uid: Some("u".to_owned()),
        start: Some("2025-06-15T14:00:00Z".to_owned()),
        end: Some("2025-06-15T15:00:00Z".to_owned()),
        organizer_smtp: Some("alice@example.com".to_owned()),
        required_attendees: vec![RawAttendee {
            email: Some("bob@example.com".to_owned()),
            routing_type: Some("SMTP".to_owned()),
            name: None,
            response_type: Some("Accept".to_owned()),
        }],
        ..CalendarItemRaw::default()
    };
    let v = value(&to_jscalendar(&raw, None).data);
    let att = v["participants"]
        .as_object()
        .unwrap()
        .values()
        .find(|p| p["email"] == "bob@example.com")
        .unwrap();
    assert_eq!(att["calendarAddress"], "mailto:bob@example.com");
    assert_eq!(att["email"], "bob@example.com");
}

#[test]
fn modified_occurrence_override_captures_title_and_location_not_just_time() {
    let master = CalendarItemRaw {
        uid: Some("uid-series".to_owned()),
        subject: Some("Standup".to_owned()),
        start: Some("2025-06-16T14:00:00Z".to_owned()),
        end: Some("2025-06-16T14:30:00Z".to_owned()),
        recurrence: Some(RawRecurrence {
            pattern: Some(RecurrencePattern::Daily { interval: 1 }),
            range: Some(RecurrenceRange::Numbered {
                start_date: "2025-06-16".to_owned(),
                number_of_occurrences: 5,
            }),
        }),
        modified_occurrences: vec![RawOccurrence {
            item_id: ItemId::new("EXC1", ""),
            start: Some("2025-06-18T14:00:00Z".to_owned()),
            end: Some("2025-06-18T14:30:00Z".to_owned()),
            original_start: Some("2025-06-18T14:00:00Z".to_owned()),
        }],
        ..CalendarItemRaw::default()
    };
    let full_occ = CalendarItemRaw {
        id: ItemId::new("EXC1", ""),
        uid: Some("uid-series".to_owned()),
        subject: Some("Sprint Retro".to_owned()),
        location: Some("Big Room".to_owned()),
        start: Some("2025-06-18T14:00:00Z".to_owned()),
        end: Some("2025-06-18T14:30:00Z".to_owned()),
        ..CalendarItemRaw::default()
    };
    let v = value(&to_jscalendar_with_exceptions(&master, &vec![full_occ], None).data);
    let ov = &v["recurrenceOverrides"]["2025-06-18T14:00:00"];
    assert_eq!(
        ov["title"], "Sprint Retro",
        "changed subject must be in the override"
    );
    assert_eq!(ov["locations"]["1"]["name"], "Big Room");
    assert!(
        ov.get("start").is_none(),
        "an unchanged occurrence time must not emit a redundant start patch"
    );
    assert!(
        ov.get("uid").is_none() && ov.get("recurrenceRule").is_none(),
        "ignored pointers must never appear in a PatchObject"
    );
}

#[test]
fn multi_day_all_day_spans_correct_number_of_days() {
    let raw = CalendarItemRaw {
        uid: Some("uid-multi".to_owned()),
        is_all_day_event: Some(true),
        start: Some("2025-07-04T00:00:00".to_owned()),
        end: Some("2025-07-07T00:00:00".to_owned()),
        ..CalendarItemRaw::default()
    };
    let v = value(&to_jscalendar(&raw, None).data);
    assert_eq!(v["duration"], "P3D");
    assert_eq!(v["showWithoutTime"], true);
}

#[test]
fn attendees_get_required_or_optional_role() {
    let raw = CalendarItemRaw {
        uid: Some("uid-att".to_owned()),
        start: Some("2025-06-15T14:00:00Z".to_owned()),
        end: Some("2025-06-15T15:00:00Z".to_owned()),
        organizer_smtp: Some("alice@x".to_owned()),
        required_attendees: vec![RawAttendee {
            email: Some("bob@x".to_owned()),
            routing_type: None,
            name: None,
            response_type: Some("Accept".to_owned()),
        }],
        optional_attendees: vec![RawAttendee {
            email: Some("eve@x".to_owned()),
            routing_type: None,
            name: None,
            response_type: None,
        }],
        ..CalendarItemRaw::default()
    };
    let v = value(&to_jscalendar(&raw, None).data);
    assert_eq!(v["organizerCalendarAddress"], "mailto:alice@x");
    let participants = v["participants"].as_object().unwrap();
    let required = participants
        .values()
        .find(|p| p["email"] == "bob@x")
        .unwrap();
    assert_eq!(required["roles"]["required"], true);
    assert!(required["roles"].get("optional").is_none());
    let optional = participants
        .values()
        .find(|p| p["email"] == "eve@x")
        .unwrap();
    assert_eq!(optional["roles"]["optional"], true);
}

#[test]
fn reminder_becomes_offset_trigger_alert() {
    let raw = CalendarItemRaw {
        uid: Some("uid-alarm".to_owned()),
        start: Some("2025-06-15T14:00:00Z".to_owned()),
        end: Some("2025-06-15T15:00:00Z".to_owned()),
        reminder_is_set: Some(true),
        reminder_minutes_before_start: Some(15),
        ..CalendarItemRaw::default()
    };
    let v = value(&to_jscalendar(&raw, None).data);
    let alert = &v["alerts"]["1"];
    assert_eq!(alert["@type"], "Alert");
    assert_eq!(alert["action"], "display");
    assert_eq!(alert["trigger"]["@type"], "OffsetTrigger");
    assert_eq!(alert["trigger"]["offset"], "-PT15M");
    assert_eq!(alert["trigger"]["relativeTo"], "start");
}

#[test]
fn reminder_not_set_emits_no_alerts() {
    let raw = CalendarItemRaw {
        uid: Some("uid-noalarm".to_owned()),
        start: Some("2025-06-15T14:00:00Z".to_owned()),
        end: Some("2025-06-15T15:00:00Z".to_owned()),
        reminder_is_set: Some(false),
        reminder_minutes_before_start: Some(15),
        ..CalendarItemRaw::default()
    };
    let v = value(&to_jscalendar(&raw, None).data);
    assert!(v.get("alerts").is_none());
}

#[test]
fn online_meeting_becomes_virtual_location() {
    let raw = CalendarItemRaw {
        uid: Some("uid-online".to_owned()),
        start: Some("2025-06-15T14:00:00Z".to_owned()),
        end: Some("2025-06-15T15:00:00Z".to_owned()),
        is_online_meeting: Some(true),
        net_show_url: Some("https://teams.example/join/abc".to_owned()),
        ..CalendarItemRaw::default()
    };
    let v = value(&to_jscalendar(&raw, None).data);
    let vl = &v["virtualLocations"]["1"];
    assert_eq!(vl["@type"], "VirtualLocation");
    assert_eq!(vl["uri"], "https://teams.example/join/abc");
    assert_eq!(vl["features"]["video"], true);
}

#[test]
fn join_url_preferred_over_workspace_url() {
    let raw = CalendarItemRaw {
        uid: Some("uid-join".to_owned()),
        start: Some("2025-06-15T14:00:00Z".to_owned()),
        end: Some("2025-06-15T15:00:00Z".to_owned()),
        join_online_meeting_url: Some("https://join/primary".to_owned()),
        meeting_workspace_url: Some("https://workspace/secondary".to_owned()),
        ..CalendarItemRaw::default()
    };
    let v = value(&to_jscalendar(&raw, None).data);
    assert_eq!(v["virtualLocations"]["1"]["uri"], "https://join/primary");
}

#[test]
fn resources_get_resource_kind_and_no_expect_reply() {
    let raw = CalendarItemRaw {
        uid: Some("uid-res".to_owned()),
        start: Some("2025-06-15T14:00:00Z".to_owned()),
        end: Some("2025-06-15T15:00:00Z".to_owned()),
        organizer_smtp: Some("alice@example.com".to_owned()),
        resources: vec![RawAttendee {
            email: Some("room-7@x".to_owned()),
            routing_type: None,
            name: Some("Room 7".to_owned()),
            response_type: Some("Accept".to_owned()),
        }],
        ..CalendarItemRaw::default()
    };
    let v = value(&to_jscalendar(&raw, None).data);
    let res = v["participants"]
        .as_object()
        .unwrap()
        .values()
        .find(|p| p["email"] == "room-7@x")
        .unwrap();
    assert_eq!(res["kind"], "resource");
    assert_eq!(res["roles"]["required"], true);
    assert_eq!(res["participationStatus"], "accepted");
    assert!(res.get("expectReply").is_none());
}

#[test]
fn attendees_carry_expect_reply_and_participation_status() {
    let raw = CalendarItemRaw {
        uid: Some("uid-rsvp".to_owned()),
        start: Some("2025-06-15T14:00:00Z".to_owned()),
        end: Some("2025-06-15T15:00:00Z".to_owned()),
        organizer_smtp: Some("alice@example.com".to_owned()),
        required_attendees: vec![RawAttendee {
            email: Some("bob@x".to_owned()),
            routing_type: None,
            name: None,
            response_type: Some("Tentative".to_owned()),
        }],
        ..CalendarItemRaw::default()
    };
    let v = value(&to_jscalendar(&raw, None).data);
    let bob = v["participants"]
        .as_object()
        .unwrap()
        .values()
        .find(|p| p["email"] == "bob@x")
        .unwrap();
    assert_eq!(bob["expectReply"], true);
    assert_eq!(bob["participationStatus"], "tentative");
    assert_eq!(bob["roles"]["required"], true);
}

#[test]
fn attendees_lose_calendar_addresses_when_no_organizer_is_known() {
    let raw = CalendarItemRaw {
        uid: Some("uid-no-organizer".to_owned()),
        start: Some("2025-06-15T14:00:00Z".to_owned()),
        end: Some("2025-06-15T15:00:00Z".to_owned()),
        required_attendees: vec![RawAttendee {
            email: Some("bob@x".to_owned()),
            routing_type: None,
            name: Some("Bob".to_owned()),
            response_type: Some("Accept".to_owned()),
        }],
        ..CalendarItemRaw::default()
    };
    let v = value(&to_jscalendar(&raw, None).data);
    assert!(v.get("organizerCalendarAddress").is_none());
    let bob = v["participants"]
        .as_object()
        .unwrap()
        .values()
        .find(|p| p["name"] == "Bob")
        .unwrap();
    for key in ["calendarAddress", "email", "roles", "participationStatus"] {
        assert!(
            bob.get(key).is_none(),
            "{key} requires calendarAddress, which requires organizerCalendarAddress"
        );
    }
}

#[test]
fn all_day_span_helper_is_inclusive_of_start() {
    assert_eq!(all_day_span_days("2025-07-04", "2025-07-04"), 1);
    assert_eq!(all_day_span_days("2025-07-04", "2025-07-05"), 1);
    assert_eq!(all_day_span_days("2025-07-04", "2025-07-07"), 3);
    assert_eq!(all_day_span_days("bad", "input"), 1);
}

#[test]
fn spans_across_month_ends_count_calendar_days() {
    assert_eq!(all_day_span_days("2025-03-30", "2025-04-02"), 3);
    assert_eq!(all_day_span_days("2025-04-29", "2025-05-02"), 3);
    assert_eq!(all_day_span_days("2025-01-31", "2025-02-01"), 1);
    assert_eq!(all_day_span_days("2025-02-27", "2025-03-02"), 3);
    assert_eq!(all_day_span_days("2024-02-27", "2024-03-02"), 4);
    assert_eq!(all_day_span_days("2025-12-30", "2026-01-02"), 3);
    assert_eq!(all_day_span_days("2024-01-01", "2025-01-01"), 366);
    assert_eq!(all_day_span_days("2025-05-02", "2025-04-29"), 1);
    let raw = CalendarItemRaw {
        uid: Some("uid-month".to_owned()),
        is_all_day_event: Some(true),
        start: Some("2025-03-30T00:00:00".to_owned()),
        end: Some("2025-04-02T00:00:00".to_owned()),
        ..CalendarItemRaw::default()
    };
    assert_eq!(value(&to_jscalendar(&raw, None).data)["duration"], "P3D");
}

#[test]
fn synthetic_attendee_address_is_stable_per_name() {
    assert_eq!(synthetic_attendee_address("Jane Doe"), synthetic_attendee_address("Jane Doe"));
    assert_ne!(synthetic_attendee_address("Jane Doe"), synthetic_attendee_address("John Doe"));
}

fn text(t: &str) -> Json {
    Json::Text(t.to_owned())
}

#[test]
fn a_patch_gives_back_the_occurrence() {
    let base = vec![
        ("title".to_owned(), text("Weekly")),
        ("start".to_owned(), text("2025-06-04T14:00:00")),
        ("duration".to_owned(), text("PT1H")),
        ("description".to_owned(), text("Bring notes")),
        ("updated".to_owned(), text("2025-01-01T00:00:00Z")),
    ];
    let occurrence = vec![
        ("title".to_owned(), text("Special")),
        ("start".to_owned(), text("2025-06-18T14:00:00")),
        ("duration".to_owned(), text("PT1H")),
        ("priority".to_owned(), Json::Bool(true)),
        ("updated".to_owned(), text("2025-06-01T00:00:00Z")),
    ];
    let patch = override_patch(&occurrence, &base, "2025-06-18T14:00:00");
    let v = value(&Json::Object(patch));
    assert_eq!(
        v,
        serde_json::from_str::<Value>(
            r#"{"title": "Special", "priority": true, "description": null}"#
        )
        .unwrap()
    );
}

use serde_json::Value;
use vandelay::exchange::jscalendar::{
    drop_calendar_address_dependents, is_override_ignored, override_patch_from_event,
    synthetic_attendee_address,
};
use vandelay::json;
use vandelay::json::Json;

const DEPENDENTS: [&str; 11] = [
    "calendarAddress", "delegatedFrom", "delegatedTo", "email", "expectReply", "kind", "memberOf",
    "participationStatus", "progress", "roles", "sentBy",
];

fn j(text: &str) -> Json {
    json::parse(text.as_bytes()).expect("JSON")
}

fn value(v: &Json) -> Value {
    serde_json::from_str(&json::write(v)).expect("JSON")
}

#[test]
fn exact_pointers_are_ignored() {
    for pointer in [
        "@type",
        "method",
        "organizerCalendarAddress",
        "privacy",
        "prodId",
        "recurrenceId",
        "recurrenceIdTimeZone",
        "sentBy",
        "uid",
    ] {
        assert!(is_override_ignored(pointer), "{pointer} must be ignored");
    }
}

#[test]
fn first_token_pointers_are_ignored_at_any_depth() {
    assert!(is_override_ignored("recurrenceRule"));
    assert!(is_override_ignored("recurrenceRule/frequency"));
    assert!(is_override_ignored(
        "recurrenceOverrides/2026-01-01T09:00:00"
    ));
    assert!(is_override_ignored("relatedTo/uid-1/relation"));
}

#[test]
fn participant_calendar_address_is_ignored_only_at_its_own_depth() {
    assert!(is_override_ignored("participants/att-1/calendarAddress"));
    assert!(!is_override_ignored("participants"));
    assert!(!is_override_ignored("participants/att-1"));
    assert!(!is_override_ignored(
        "participants/att-1/participationStatus"
    ));
    assert!(!is_override_ignored(
        "participants/att-1/calendarAddress/extra"
    ));
}

#[test]
fn patchable_pointers_survive() {
    for pointer in [
        "start",
        "duration",
        "title",
        "excluded",
        "participants",
        "created",
        "updated",
        "status",
    ] {
        assert!(!is_override_ignored(pointer), "{pointer} must survive");
    }
}

#[test]
fn an_event_is_reduced_to_a_patch() {
    let event = j(r#"{"@type": "Event", "uid": "uid-1", "prodId": "vandelay", "privacy": "public", "organizerCalendarAddress": "mailto:alice@example.com", "recurrenceRule": {"frequency": "daily"}, "start": "2026-03-04T09:00:00", "duration": "PT1H", "title": "Moved"}"#);
    let patch = value(&override_patch_from_event(&event));
    let patch = patch.as_object().expect("patch object");
    assert_eq!(patch.len(), 3);
    assert_eq!(patch["start"], "2026-03-04T09:00:00");
    assert_eq!(patch["duration"], "PT1H");
    assert_eq!(patch["title"], "Moved");
}

#[test]
fn an_exclusion_patch_is_preserved() {
    let patch = override_patch_from_event(&j(r#"{"excluded": true}"#));
    assert_eq!(value(&patch), value(&j(r#"{"excluded": true}"#)));
}

#[test]
fn a_synthetic_address_is_stable_per_identifier_and_never_a_mailto() {
    let addr = synthetic_attendee_address("Jane Doe");
    assert_eq!(addr, synthetic_attendee_address("Jane Doe"));
    assert_ne!(addr, synthetic_attendee_address("John Doe"));
    assert!(addr.starts_with("urn:x-vandelay:attendee:"));
    assert!(
        !addr.starts_with("mailto:"),
        "export must never invite a fabricated address"
    );
}

#[test]
fn calendar_address_dependents_are_dropped_and_identity_is_kept() {
    let participants = j(r#"{"1": {"@type": "Participant", "name": "Room 4", "calendarAddress": "urn:x-vandelay:attendee:abc", "email": "room4@example.com", "roles": {"required": true}, "kind": "resource", "participationStatus": "accepted", "expectReply": true, "description": "Third floor"}}"#);
    let Json::Object(mut participants) = participants else {
        panic!("participants object");
    };
    drop_calendar_address_dependents(&mut participants);
    let participants = value(&Json::Object(participants));
    let p = &participants["1"];
    assert_eq!(p["@type"], "Participant");
    assert_eq!(p["name"], "Room 4");
    assert_eq!(p["description"], "Third floor");
    for key in DEPENDENTS {
        assert!(p.get(key).is_none(), "{key} must be dropped");
    }
}

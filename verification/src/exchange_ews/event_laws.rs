//! What an event says of the item that it stands for.

use crate::civil;
use crate::exchange_ews::calendar_map;
use crate::exchange_ews::calendar_map::AttendeeRole;
use crate::exchange_ews::parse::{CalendarItemRaw, RawAttendee, RawOccurrence};
use crate::instant;
use crate::instant::Moment;
use crate::json;
use crate::json::{Members, Val};
use crate::text;
use vstd::prelude::*;

verus! {

proof fn lemma_event_names()
    ensures
        "@type"@ != "uid"@,
        "@type"@ != "title"@,
        "@type"@ != "locations"@,
        "@type"@ != "description"@,
        "@type"@ != "descriptionContentType"@,
        "@type"@ != "created"@,
        "@type"@ != "updated"@,
        "@type"@ != "keywords"@,
        "@type"@ != "start"@,
        "@type"@ != "showWithoutTime"@,
        "@type"@ != "duration"@,
        "@type"@ != "timeZone"@,
        "@type"@ != "freeBusyStatus"@,
        "@type"@ != "organizerCalendarAddress"@,
        "@type"@ != "participants"@,
        "@type"@ != "recurrenceRule"@,
        "@type"@ != "alerts"@,
        "@type"@ != "virtualLocations"@,
        "@type"@ != "recurrenceOverrides"@,
        "uid"@ != "title"@,
        "uid"@ != "locations"@,
        "uid"@ != "description"@,
        "uid"@ != "descriptionContentType"@,
        "uid"@ != "created"@,
        "uid"@ != "updated"@,
        "uid"@ != "keywords"@,
        "uid"@ != "start"@,
        "uid"@ != "showWithoutTime"@,
        "uid"@ != "duration"@,
        "uid"@ != "timeZone"@,
        "uid"@ != "freeBusyStatus"@,
        "uid"@ != "organizerCalendarAddress"@,
        "uid"@ != "participants"@,
        "uid"@ != "recurrenceRule"@,
        "uid"@ != "alerts"@,
        "uid"@ != "virtualLocations"@,
        "uid"@ != "recurrenceOverrides"@,
        "title"@ != "locations"@,
        "title"@ != "description"@,
        "title"@ != "descriptionContentType"@,
        "title"@ != "created"@,
        "title"@ != "updated"@,
        "title"@ != "keywords"@,
        "title"@ != "start"@,
        "title"@ != "showWithoutTime"@,
        "title"@ != "duration"@,
        "title"@ != "timeZone"@,
        "title"@ != "freeBusyStatus"@,
        "title"@ != "organizerCalendarAddress"@,
        "title"@ != "participants"@,
        "title"@ != "recurrenceRule"@,
        "title"@ != "alerts"@,
        "title"@ != "virtualLocations"@,
        "title"@ != "recurrenceOverrides"@,
        "locations"@ != "description"@,
        "locations"@ != "descriptionContentType"@,
        "locations"@ != "created"@,
        "locations"@ != "updated"@,
        "locations"@ != "keywords"@,
        "locations"@ != "start"@,
        "locations"@ != "showWithoutTime"@,
        "locations"@ != "duration"@,
        "locations"@ != "timeZone"@,
        "locations"@ != "freeBusyStatus"@,
        "locations"@ != "organizerCalendarAddress"@,
        "locations"@ != "participants"@,
        "locations"@ != "recurrenceRule"@,
        "locations"@ != "alerts"@,
        "locations"@ != "virtualLocations"@,
        "locations"@ != "recurrenceOverrides"@,
        "description"@ != "descriptionContentType"@,
        "description"@ != "created"@,
        "description"@ != "updated"@,
        "description"@ != "keywords"@,
        "description"@ != "start"@,
        "description"@ != "showWithoutTime"@,
        "description"@ != "duration"@,
        "description"@ != "timeZone"@,
        "description"@ != "freeBusyStatus"@,
        "description"@ != "organizerCalendarAddress"@,
        "description"@ != "participants"@,
        "description"@ != "recurrenceRule"@,
        "description"@ != "alerts"@,
        "description"@ != "virtualLocations"@,
        "description"@ != "recurrenceOverrides"@,
        "descriptionContentType"@ != "created"@,
        "descriptionContentType"@ != "updated"@,
        "descriptionContentType"@ != "keywords"@,
        "descriptionContentType"@ != "start"@,
        "descriptionContentType"@ != "showWithoutTime"@,
        "descriptionContentType"@ != "duration"@,
        "descriptionContentType"@ != "timeZone"@,
        "descriptionContentType"@ != "freeBusyStatus"@,
        "descriptionContentType"@ != "organizerCalendarAddress"@,
        "descriptionContentType"@ != "participants"@,
        "descriptionContentType"@ != "recurrenceRule"@,
        "descriptionContentType"@ != "alerts"@,
        "descriptionContentType"@ != "virtualLocations"@,
        "descriptionContentType"@ != "recurrenceOverrides"@,
        "created"@ != "updated"@,
        "created"@ != "keywords"@,
        "created"@ != "start"@,
        "created"@ != "showWithoutTime"@,
        "created"@ != "duration"@,
        "created"@ != "timeZone"@,
        "created"@ != "freeBusyStatus"@,
        "created"@ != "organizerCalendarAddress"@,
        "created"@ != "participants"@,
        "created"@ != "recurrenceRule"@,
        "created"@ != "alerts"@,
        "created"@ != "virtualLocations"@,
        "created"@ != "recurrenceOverrides"@,
        "updated"@ != "keywords"@,
        "updated"@ != "start"@,
        "updated"@ != "showWithoutTime"@,
        "updated"@ != "duration"@,
        "updated"@ != "timeZone"@,
        "updated"@ != "freeBusyStatus"@,
        "updated"@ != "organizerCalendarAddress"@,
        "updated"@ != "participants"@,
        "updated"@ != "recurrenceRule"@,
        "updated"@ != "alerts"@,
        "updated"@ != "virtualLocations"@,
        "updated"@ != "recurrenceOverrides"@,
        "keywords"@ != "start"@,
        "keywords"@ != "showWithoutTime"@,
        "keywords"@ != "duration"@,
        "keywords"@ != "timeZone"@,
        "keywords"@ != "freeBusyStatus"@,
        "keywords"@ != "organizerCalendarAddress"@,
        "keywords"@ != "participants"@,
        "keywords"@ != "recurrenceRule"@,
        "keywords"@ != "alerts"@,
        "keywords"@ != "virtualLocations"@,
        "keywords"@ != "recurrenceOverrides"@,
        "start"@ != "showWithoutTime"@,
        "start"@ != "duration"@,
        "start"@ != "timeZone"@,
        "start"@ != "freeBusyStatus"@,
        "start"@ != "organizerCalendarAddress"@,
        "start"@ != "participants"@,
        "start"@ != "recurrenceRule"@,
        "start"@ != "alerts"@,
        "start"@ != "virtualLocations"@,
        "start"@ != "recurrenceOverrides"@,
        "showWithoutTime"@ != "duration"@,
        "showWithoutTime"@ != "timeZone"@,
        "showWithoutTime"@ != "freeBusyStatus"@,
        "showWithoutTime"@ != "organizerCalendarAddress"@,
        "showWithoutTime"@ != "participants"@,
        "showWithoutTime"@ != "recurrenceRule"@,
        "showWithoutTime"@ != "alerts"@,
        "showWithoutTime"@ != "virtualLocations"@,
        "showWithoutTime"@ != "recurrenceOverrides"@,
        "duration"@ != "timeZone"@,
        "duration"@ != "freeBusyStatus"@,
        "duration"@ != "organizerCalendarAddress"@,
        "duration"@ != "participants"@,
        "duration"@ != "recurrenceRule"@,
        "duration"@ != "alerts"@,
        "duration"@ != "virtualLocations"@,
        "duration"@ != "recurrenceOverrides"@,
        "timeZone"@ != "freeBusyStatus"@,
        "timeZone"@ != "organizerCalendarAddress"@,
        "timeZone"@ != "participants"@,
        "timeZone"@ != "recurrenceRule"@,
        "timeZone"@ != "alerts"@,
        "timeZone"@ != "virtualLocations"@,
        "timeZone"@ != "recurrenceOverrides"@,
        "freeBusyStatus"@ != "organizerCalendarAddress"@,
        "freeBusyStatus"@ != "participants"@,
        "freeBusyStatus"@ != "recurrenceRule"@,
        "freeBusyStatus"@ != "alerts"@,
        "freeBusyStatus"@ != "virtualLocations"@,
        "freeBusyStatus"@ != "recurrenceOverrides"@,
        "organizerCalendarAddress"@ != "participants"@,
        "organizerCalendarAddress"@ != "recurrenceRule"@,
        "organizerCalendarAddress"@ != "alerts"@,
        "organizerCalendarAddress"@ != "virtualLocations"@,
        "organizerCalendarAddress"@ != "recurrenceOverrides"@,
        "participants"@ != "recurrenceRule"@,
        "participants"@ != "alerts"@,
        "participants"@ != "virtualLocations"@,
        "participants"@ != "recurrenceOverrides"@,
        "recurrenceRule"@ != "alerts"@,
        "recurrenceRule"@ != "virtualLocations"@,
        "recurrenceRule"@ != "recurrenceOverrides"@,
        "alerts"@ != "virtualLocations"@,
        "alerts"@ != "recurrenceOverrides"@,
        "virtualLocations"@ != "recurrenceOverrides"@,
{
    reveal_strlit("@type");
    reveal_strlit("uid");
    reveal_strlit("title");
    reveal_strlit("locations");
    reveal_strlit("description");
    reveal_strlit("descriptionContentType");
    reveal_strlit("created");
    reveal_strlit("updated");
    reveal_strlit("keywords");
    reveal_strlit("start");
    reveal_strlit("showWithoutTime");
    reveal_strlit("duration");
    reveal_strlit("timeZone");
    reveal_strlit("freeBusyStatus");
    reveal_strlit("organizerCalendarAddress");
    reveal_strlit("participants");
    reveal_strlit("recurrenceRule");
    reveal_strlit("alerts");
    reveal_strlit("virtualLocations");
    reveal_strlit("recurrenceOverrides");
    assert("@type"@.len() == 5);
    assert("uid"@.len() == 3);
    assert("title"@.len() == 5);
    assert("locations"@.len() == 9);
    assert("description"@.len() == 11);
    assert("descriptionContentType"@.len() == 22);
    assert("created"@.len() == 7);
    assert("updated"@.len() == 7);
    assert("keywords"@.len() == 8);
    assert("start"@.len() == 5);
    assert("showWithoutTime"@.len() == 15);
    assert("duration"@.len() == 8);
    assert("timeZone"@.len() == 8);
    assert("freeBusyStatus"@.len() == 14);
    assert("organizerCalendarAddress"@.len() == 24);
    assert("participants"@.len() == 12);
    assert("recurrenceRule"@.len() == 14);
    assert("alerts"@.len() == 6);
    assert("virtualLocations"@.len() == 16);
    assert("recurrenceOverrides"@.len() == 19);
    assert("@type"@[0] == '@');
    assert("title"@[0] == 't');
    assert("start"@[0] == 's');
    assert("created"@[0] == 'c');
    assert("updated"@[0] == 'u');
    assert("keywords"@[0] == 'k');
    assert("duration"@[0] == 'd');
    assert("timeZone"@[0] == 't');
    assert("freeBusyStatus"@[0] == 'f');
    assert("recurrenceRule"@[0] == 'r');
}

spec fn described(raw: CalendarItemRaw) -> Option<Val> {
    json::lookup(calendar_map::description_members(raw), "description"@)
}

spec fn described_as(raw: CalendarItemRaw) -> Option<Val> {
    json::lookup(calendar_map::description_members(raw), "descriptionContentType"@)
}

spec fn starts(raw: CalendarItemRaw, zone: Option<Seq<char>>) -> Option<Val> {
    json::lookup(calendar_map::time_members(raw, zone), "start"@)
}

spec fn without_time(raw: CalendarItemRaw) -> Option<Val> {
    if raw.is_all_day_event == Some(true) {
        Some(Val::Bool(true))
    } else {
        None
    }
}

spec fn lasting(raw: CalendarItemRaw, zone: Option<Seq<char>>) -> Option<Val> {
    json::lookup(calendar_map::time_members(raw, zone), "duration"@)
}

spec fn zoned(raw: CalendarItemRaw, zone: Option<Seq<char>>) -> Option<Val> {
    json::lookup(calendar_map::time_members(raw, zone), "timeZone"@)
}

proof fn lemma_description(raw: CalendarItemRaw, key: Seq<char>)
    ensures
        json::lookup(calendar_map::description_members(raw), key) == (if key == "description"@ {
            described(raw)
        } else if key == "descriptionContentType"@ {
            described_as(raw)
        } else {
            None
        }),
        described(raw) == (match raw.body_text {
            Some(b) => Some(Val::Text(b@)),
            None => match raw.body_html {
                Some(b) => Some(Val::Text(b@)),
                None => None,
            },
        }),
        described_as(raw) == (if raw.body_text is None && raw.body_html is Some {
            Some(Val::Text("text/html"@))
        } else {
            None
        }),
{
    lemma_event_names();
    match raw.body_text {
        Some(b) => {
            json::lemma_find1("description"@, Val::Text(b@), key);
            json::lemma_find1("description"@, Val::Text(b@), "description"@);
            json::lemma_find1("description"@, Val::Text(b@), "descriptionContentType"@);
        },
        None => match raw.body_html {
            Some(b) => {
                let t = Val::Text("text/html"@);
                let d = Val::Text(b@);
                json::lemma_find2("description"@, d, "descriptionContentType"@, t, key);
                json::lemma_find2("description"@, d, "descriptionContentType"@, t, "description"@);
                json::lemma_find2(
                    "description"@,
                    d,
                    "descriptionContentType"@,
                    t,
                    "descriptionContentType"@,
                );
            },
            None => {},
        },
    }
}

proof fn lemma_time_at(raw: CalendarItemRaw, zone: Option<Seq<char>>, key: Seq<char>)
    ensures
        raw.is_all_day_event == Some(true) ==> json::lookup(
            calendar_map::time_members(raw, zone),
            key,
        ) == (if key == "start"@ {
            match raw.start {
                Some(s) => Some(Val::Text(text::split_by(s@, 'T')[0] + "T00:00:00"@)),
                None => None,
            }
        } else if key == "showWithoutTime"@ {
            Some(Val::Bool(true))
        } else if key == "duration"@ {
            Some(Val::Text("P"@ + text::dec(spanned(raw)) + "D"@))
        } else {
            None
        }),
        raw.is_all_day_event != Some(true) ==> json::lookup(
            calendar_map::time_members(raw, zone),
            key,
        ) == (if key == "start"@ {
            match raw.start {
                Some(s) => Some(Val::Text(calendar_map::local_text(s@, zone))),
                None => None,
            }
        } else if key == "duration"@ {
            match (raw.start, raw.end) {
                (Some(s), Some(e)) => json::text_opt(calendar_map::duration_text(s@, e@)),
                _ => None,
            }
        } else if key == "timeZone"@ {
            json::text_opt(zone)
        } else {
            None
        }),
{
    lemma_event_names();
    let none = Seq::<(Seq<char>, Val)>::empty();
    assert(json::lookup(none, key) is None);
    if raw.is_all_day_event == Some(true) {
        let s = match raw.start {
            Some(s) => Some(Val::Text(text::split_by(s@, 'T')[0] + "T00:00:00"@)),
            None => None,
        };
        let d = Val::Text("P"@ + text::dec(spanned(raw)) + "D"@);
        let b = seq![("showWithoutTime"@, Val::Bool(true)), ("duration"@, d)];
        json::lemma_lookup_member_if(none, "start"@, s, key);
        assert(none + json::member_if("start"@, s) =~= json::member_if("start"@, s));
        json::lemma_find2("showWithoutTime"@, Val::Bool(true), "duration"@, d, key);
        json::lemma_lookup_concat(json::member_if("start"@, s), b, key);
        assert(calendar_map::time_members(raw, zone) =~= json::member_if("start"@, s) + b);
    } else {
        let s = match raw.start {
            Some(s) => Some(Val::Text(calendar_map::local_text(s@, zone))),
            None => None,
        };
        let d = match (raw.start, raw.end) {
            (Some(s), Some(e)) => json::text_opt(calendar_map::duration_text(s@, e@)),
            _ => None,
        };
        let m1 = json::member_if("start"@, s);
        let m2 = m1 + json::member_if("duration"@, d);
        json::lemma_lookup_member_if(none, "start"@, s, key);
        assert(none + m1 =~= m1);
        json::lemma_lookup_member_if(m1, "duration"@, d, key);
        json::lemma_lookup_member_if(m2, "timeZone"@, json::text_opt(zone), key);
        assert(calendar_map::time_members(raw, zone) =~= m2 + json::member_if(
            "timeZone"@,
            json::text_opt(zone),
        ));
    }
}

spec fn spanned(raw: CalendarItemRaw) -> nat {
    let span = match (raw.start, raw.end) {
        (Some(s), Some(e)) => calendar_map::span_days(s@, e@),
        _ => 1,
    };
    if span < 1 {
        1
    } else {
        span as nat
    }
}

proof fn lemma_time(raw: CalendarItemRaw, zone: Option<Seq<char>>, key: Seq<char>)
    ensures
        json::lookup(calendar_map::time_members(raw, zone), key) == (if key == "start"@ {
            starts(raw, zone)
        } else if key == "showWithoutTime"@ {
            without_time(raw)
        } else if key == "duration"@ {
            lasting(raw, zone)
        } else if key == "timeZone"@ {
            zoned(raw, zone)
        } else {
            None
        }),
{
    lemma_event_names();
    lemma_time_at(raw, zone, key);
    lemma_time_at(raw, zone, "start"@);
    lemma_time_at(raw, zone, "duration"@);
    lemma_time_at(raw, zone, "timeZone"@);
}

proof fn lemma_event_members(raw: CalendarItemRaw, zone: Option<Seq<char>>, key: Seq<char>)
    ensures
        json::lookup(calendar_map::event_members(raw, zone), key) == (if key == "@type"@ {
            Some(Val::Text("Event"@))
        } else if key == "uid"@ {
            Some(Val::Text(calendar_map::event_uid(raw)))
        } else if key == "title"@ {
            json::text_opt(json::text_view(raw.subject))
        } else if key == "locations"@ {
            calendar_map::locations_of(raw)
        } else if key == "description"@ {
            described(raw)
        } else if key == "descriptionContentType"@ {
            described_as(raw)
        } else if key == "created"@ {
            calendar_map::stamp(json::text_view(raw.created))
        } else if key == "updated"@ {
            calendar_map::stamp(calendar_map::or_else(json::text_view(raw.last_modified), json::text_view(raw.created)))
        } else if key == "keywords"@ {
            json::object_opt(calendar_map::keyword_members(text::texts(raw.categories@)))
        } else if key == "start"@ {
            starts(raw, zone)
        } else if key == "showWithoutTime"@ {
            without_time(raw)
        } else if key == "duration"@ {
            lasting(raw, zone)
        } else if key == "timeZone"@ {
            zoned(raw, zone)
        } else if key == "freeBusyStatus"@ {
            calendar_map::free_busy(raw)
        } else if key == "organizerCalendarAddress"@ {
            (match calendar_map::organizer_address(raw) {
                Some((addr, _)) => Some(Val::Text(addr)),
                None => None,
            })
        } else if key == "participants"@ {
            calendar_map::participants_of(raw)
        } else if key == "recurrenceRule"@ {
            calendar_map::recurrence_of(raw)
        } else if key == "alerts"@ {
            calendar_map::alerts_of(raw)
        } else if key == "virtualLocations"@ {
            calendar_map::virtual_locations_of(raw)
        } else {
            None
        }),
{
    lemma_event_names();
    let b0 = seq![("@type"@, Val::Text("Event"@)), ("uid"@, Val::Text(calendar_map::event_uid(raw)))];
    json::lemma_find2("@type"@, Val::Text("Event"@), "uid"@, Val::Text(calendar_map::event_uid(raw)), key);
    let m0 = b0;
    let m1 = m0 + json::member_if("title"@, json::text_opt(json::text_view(raw.subject)));
    json::lemma_lookup_member_if(m0, "title"@, json::text_opt(json::text_view(raw.subject)), key);
    let m2 = m1 + json::member_if("locations"@, calendar_map::locations_of(raw));
    json::lemma_lookup_member_if(m1, "locations"@, calendar_map::locations_of(raw), key);
    let b3 = calendar_map::description_members(raw);
    lemma_description(raw, key);
    let m3 = m2 + b3;
    json::lemma_lookup_concat(m2, b3, key);
    let m4 = m3 + json::member_if("created"@, calendar_map::stamp(json::text_view(raw.created)));
    json::lemma_lookup_member_if(m3, "created"@, calendar_map::stamp(json::text_view(raw.created)), key);
    let m5 = m4 + json::member_if("updated"@, calendar_map::stamp(calendar_map::or_else(json::text_view(raw.last_modified), json::text_view(raw.created))));
    json::lemma_lookup_member_if(m4, "updated"@, calendar_map::stamp(calendar_map::or_else(json::text_view(raw.last_modified), json::text_view(raw.created))), key);
    let m6 = m5 + json::member_if("keywords"@, json::object_opt(calendar_map::keyword_members(text::texts(raw.categories@))));
    json::lemma_lookup_member_if(m5, "keywords"@, json::object_opt(calendar_map::keyword_members(text::texts(raw.categories@))), key);
    let b7 = calendar_map::time_members(raw, zone);
    lemma_time(raw, zone, key);
    let m7 = m6 + b7;
    json::lemma_lookup_concat(m6, b7, key);
    let m8 = m7 + json::member_if("freeBusyStatus"@, calendar_map::free_busy(raw));
    json::lemma_lookup_member_if(m7, "freeBusyStatus"@, calendar_map::free_busy(raw), key);
    let m9 = m8 + json::member_if("organizerCalendarAddress"@, (match calendar_map::organizer_address(raw) {
                Some((addr, _)) => Some(Val::Text(addr)),
                None => None,
            }));
    json::lemma_lookup_member_if(m8, "organizerCalendarAddress"@, (match calendar_map::organizer_address(raw) {
                Some((addr, _)) => Some(Val::Text(addr)),
                None => None,
            }), key);
    let m10 = m9 + json::member_if("participants"@, calendar_map::participants_of(raw));
    json::lemma_lookup_member_if(m9, "participants"@, calendar_map::participants_of(raw), key);
    let m11 = m10 + json::member_if("recurrenceRule"@, calendar_map::recurrence_of(raw));
    json::lemma_lookup_member_if(m10, "recurrenceRule"@, calendar_map::recurrence_of(raw), key);
    let m12 = m11 + json::member_if("alerts"@, calendar_map::alerts_of(raw));
    json::lemma_lookup_member_if(m11, "alerts"@, calendar_map::alerts_of(raw), key);
    let m13 = m12 + json::member_if("virtualLocations"@, calendar_map::virtual_locations_of(raw));
    json::lemma_lookup_member_if(m12, "virtualLocations"@, calendar_map::virtual_locations_of(raw), key);
    assert(calendar_map::event_members(raw, zone) =~= m13);
}
proof fn lemma_name_names()
    ensures
        "@type"@ != "name"@,
{
    reveal_strlit("@type");
    reveal_strlit("name");
    assert("@type"@.len() == 5);
    assert("name"@.len() == 4);
}

proof fn lemma_alert_names()
    ensures
        "@type"@ != "trigger"@,
        "@type"@ != "action"@,
        "@type"@ != "offset"@,
        "@type"@ != "relativeTo"@,
        "trigger"@ != "action"@,
        "trigger"@ != "offset"@,
        "trigger"@ != "relativeTo"@,
        "action"@ != "offset"@,
        "action"@ != "relativeTo"@,
        "offset"@ != "relativeTo"@,
{
    reveal_strlit("@type");
    reveal_strlit("trigger");
    reveal_strlit("action");
    reveal_strlit("offset");
    reveal_strlit("relativeTo");
    assert("@type"@.len() == 5);
    assert("trigger"@.len() == 7);
    assert("action"@.len() == 6);
    assert("offset"@.len() == 6);
    assert("relativeTo"@.len() == 10);
    assert("action"@[0] == 'a');
    assert("offset"@[0] == 'o');
}

proof fn lemma_person_names()
    ensures
        "@type"@ != "name"@,
        "@type"@ != "calendarAddress"@,
        "@type"@ != "email"@,
        "@type"@ != "roles"@,
        "@type"@ != "kind"@,
        "@type"@ != "expectReply"@,
        "@type"@ != "participationStatus"@,
        "@type"@ != "owner"@,
        "@type"@ != "chair"@,
        "@type"@ != "optional"@,
        "@type"@ != "required"@,
        "name"@ != "calendarAddress"@,
        "name"@ != "email"@,
        "name"@ != "roles"@,
        "name"@ != "kind"@,
        "name"@ != "expectReply"@,
        "name"@ != "participationStatus"@,
        "name"@ != "owner"@,
        "name"@ != "chair"@,
        "name"@ != "optional"@,
        "name"@ != "required"@,
        "calendarAddress"@ != "email"@,
        "calendarAddress"@ != "roles"@,
        "calendarAddress"@ != "kind"@,
        "calendarAddress"@ != "expectReply"@,
        "calendarAddress"@ != "participationStatus"@,
        "calendarAddress"@ != "owner"@,
        "calendarAddress"@ != "chair"@,
        "calendarAddress"@ != "optional"@,
        "calendarAddress"@ != "required"@,
        "email"@ != "roles"@,
        "email"@ != "kind"@,
        "email"@ != "expectReply"@,
        "email"@ != "participationStatus"@,
        "email"@ != "owner"@,
        "email"@ != "chair"@,
        "email"@ != "optional"@,
        "email"@ != "required"@,
        "roles"@ != "kind"@,
        "roles"@ != "expectReply"@,
        "roles"@ != "participationStatus"@,
        "roles"@ != "owner"@,
        "roles"@ != "chair"@,
        "roles"@ != "optional"@,
        "roles"@ != "required"@,
        "kind"@ != "expectReply"@,
        "kind"@ != "participationStatus"@,
        "kind"@ != "owner"@,
        "kind"@ != "chair"@,
        "kind"@ != "optional"@,
        "kind"@ != "required"@,
        "expectReply"@ != "participationStatus"@,
        "expectReply"@ != "owner"@,
        "expectReply"@ != "chair"@,
        "expectReply"@ != "optional"@,
        "expectReply"@ != "required"@,
        "participationStatus"@ != "owner"@,
        "participationStatus"@ != "chair"@,
        "participationStatus"@ != "optional"@,
        "participationStatus"@ != "required"@,
        "owner"@ != "chair"@,
        "owner"@ != "optional"@,
        "owner"@ != "required"@,
        "chair"@ != "optional"@,
        "chair"@ != "required"@,
        "optional"@ != "required"@,
{
    reveal_strlit("@type");
    reveal_strlit("name");
    reveal_strlit("calendarAddress");
    reveal_strlit("email");
    reveal_strlit("roles");
    reveal_strlit("kind");
    reveal_strlit("expectReply");
    reveal_strlit("participationStatus");
    reveal_strlit("owner");
    reveal_strlit("chair");
    reveal_strlit("optional");
    reveal_strlit("required");
    assert("@type"@.len() == 5);
    assert("name"@.len() == 4);
    assert("calendarAddress"@.len() == 15);
    assert("email"@.len() == 5);
    assert("roles"@.len() == 5);
    assert("kind"@.len() == 4);
    assert("expectReply"@.len() == 11);
    assert("participationStatus"@.len() == 19);
    assert("owner"@.len() == 5);
    assert("chair"@.len() == 5);
    assert("optional"@.len() == 8);
    assert("required"@.len() == 8);
    assert("@type"@[0] == '@');
    assert("email"@[0] == 'e');
    assert("roles"@[0] == 'r');
    assert("owner"@[0] == 'o');
    assert("chair"@[0] == 'c');
    assert("name"@[0] == 'n');
    assert("kind"@[0] == 'k');
    assert("optional"@[0] == 'o');
    assert("required"@[0] == 'r');
}

proof fn lemma_answers()
    ensures
        "Accept"@ != "Organizer"@,
        "Accept"@ != "Tentative"@,
        "Accept"@ != "Decline"@,
        "Organizer"@ != "Tentative"@,
        "Organizer"@ != "Decline"@,
        "Tentative"@ != "Decline"@,
{
    reveal_strlit("Accept");
    reveal_strlit("Organizer");
    reveal_strlit("Tentative");
    reveal_strlit("Decline");
    assert("Accept"@.len() == 6);
    assert("Organizer"@.len() == 9);
    assert("Tentative"@.len() == 9);
    assert("Decline"@.len() == 7);
    assert("Organizer"@[0] == 'O');
    assert("Tentative"@[0] == 'T');
}

/// What an event has under a name.
pub open spec fn event_at(
    raw: CalendarItemRaw,
    full: Seq<CalendarItemRaw>,
    resolved: Option<Seq<char>>,
    key: Seq<char>,
) -> Option<Val> {
    calendar_map::event_value(raw, full, resolved).get(key)
}

proof fn lemma_event(
    raw: CalendarItemRaw,
    full: Seq<CalendarItemRaw>,
    resolved: Option<Seq<char>>,
    key: Seq<char>,
)
    ensures
        key != "recurrenceOverrides"@ ==> event_at(raw, full, resolved, key) == json::lookup(
            calendar_map::event_members(raw, calendar_map::shown_zone(raw, resolved)),
            key,
        ),
        event_at(raw, full, resolved, "recurrenceOverrides"@) == calendar_map::overrides_of(
            raw,
            full,
            calendar_map::shown_zone(raw, resolved),
        ),
{
    let zone = calendar_map::shown_zone(raw, resolved);
    let e = calendar_map::event_members(raw, zone);
    let o = calendar_map::overrides_of(raw, full, zone);
    json::lemma_lookup_member_if(e, "recurrenceOverrides"@, o, key);
    json::lemma_lookup_member_if(e, "recurrenceOverrides"@, o, "recurrenceOverrides"@);
    lemma_event_names();
    lemma_event_members(raw, zone, "recurrenceOverrides"@);
}

/// What a duration amounts to when its text is read: the seconds of the units
/// that are complete, and the number that is being read.
pub open spec fn read_units(t: Seq<char>) -> (nat, nat)
    decreases t.len(),
{
    if t.len() == 0 {
        (0, 0)
    } else {
        let (seconds, n) = read_units(t.drop_last());
        let c = t.last();
        if text::is_digit(c) {
            (seconds, n * 10 + (c as u32 - '0' as u32) as nat)
        } else if c == 'D' {
            (seconds + 86400 * n, 0)
        } else if c == 'H' {
            (seconds + 3600 * n, 0)
        } else if c == 'M' {
            (seconds + 60 * n, 0)
        } else if c == 'S' {
            (seconds + n, 0)
        } else {
            (seconds, n)
        }
    }
}

/// Whether a text is an ISO 8601 duration of so many seconds: its days, hours,
/// minutes and seconds add up to it, and no more than 59 minutes and 59 seconds
/// are written apart from whole hours.
pub open spec fn lasts(t: Seq<char>, seconds: int) -> bool {
    &&& t.len() > 1 && t[0] == 'P' && !text::is_digit(t.last())
    &&& read_units(t).0 == seconds
    &&& exists|h: nat, m: nat, s: nat|
        #![trigger timed(h, m, s)]
        m < 60 && s < 60 && 3600 * h + 60 * m + s == seconds && t == timed(h, m, s)
}

/// Hours, minutes and seconds as an ISO 8601 duration, without those that are
/// zero, unless all are.
pub open spec fn timed(h: nat, m: nat, s: nat) -> Seq<char> {
    let hours = if h == 0 {
        Seq::empty()
    } else {
        text::dec(h) + seq!['H']
    };
    let minutes = if m == 0 {
        Seq::empty()
    } else {
        text::dec(m) + seq!['M']
    };
    let seconds = if s == 0 && (h != 0 || m != 0) {
        Seq::empty()
    } else {
        text::dec(s) + seq!['S']
    };
    seq!['P', 'T'] + hours + minutes + seconds
}

proof fn lemma_read_number(a: Seq<char>, n: nat, unit: char)
    requires
        read_units(a).1 == 0,
        unit == 'H' || unit == 'M' || unit == 'S' || unit == 'D',
    ensures
        read_units(a + text::dec(n)) == (read_units(a).0, n),
        unit == 'D' ==> read_units(a + (text::dec(n) + seq![unit])) == (
            read_units(a).0 + 86400 * n,
            0nat,
        ),
        unit == 'H' ==> read_units(a + (text::dec(n) + seq![unit])) == (
            read_units(a).0 + 3600 * n,
            0nat,
        ),
        unit == 'M' ==> read_units(a + (text::dec(n) + seq![unit])) == (
            read_units(a).0 + 60 * n,
            0nat,
        ),
        unit == 'S' ==> read_units(a + (text::dec(n) + seq![unit])) == (read_units(a).0 + n, 0nat),
    decreases n,
{
    let d = text::dec(n);
    if n < 10 {
        assert((a + d).drop_last() =~= a);
        assert((a + d).last() == text::digit_char(n));
    } else {
        lemma_read_number(a, n / 10, unit);
        assert((a + d).drop_last() =~= a + text::dec(n / 10));
        assert((a + d).last() == text::digit_char(n % 10));
    }
    let b = a + (d + seq![unit]);
    assert(b.drop_last() =~= a + d);
    assert(b.last() == unit);
    assert(b.len() > 0 && !text::is_digit(unit));
    let (x, k) = read_units(b.drop_last());
    assert(x == read_units(a).0 && k == n);
    if unit == 'D' {
        assert(read_units(b) == ((x + 86400 * k) as nat, 0nat));
    } else if unit == 'H' {
        assert(read_units(b) == ((x + 3600 * k) as nat, 0nat));
    } else if unit == 'M' {
        assert(read_units(b) == ((x + 60 * k) as nat, 0nat));
    }
}

proof fn lemma_read_heads()
    ensures
        read_units(seq!['P', 'T']) == (0nat, 0nat),
        read_units(seq!['-', 'P', 'T']) == (0nat, 0nat),
        read_units(seq!['P', 'T', '0', 'S']) == (0nat, 0nat),
{
    let none = Seq::<char>::empty();
    assert(read_units(none) == (0nat, 0nat));
    assert(seq!['P'].drop_last() =~= none);
    assert(read_units(seq!['P']) == (0nat, 0nat));
    assert(seq!['P', 'T'].drop_last() =~= seq!['P']);
    assert(read_units(seq!['P', 'T']) == (0nat, 0nat));
    assert(seq!['-'].drop_last() =~= none);
    assert(read_units(seq!['-']) == (0nat, 0nat));
    assert(seq!['-', 'P'].drop_last() =~= seq!['-']);
    assert(read_units(seq!['-', 'P']) == (0nat, 0nat));
    assert(seq!['-', 'P', 'T'].drop_last() =~= seq!['-', 'P']);
    assert(seq!['P', 'T', '0'].drop_last() =~= seq!['P', 'T']);
    assert(read_units(seq!['P', 'T', '0']) == (0nat, 0nat));
    assert(seq!['P', 'T', '0', 'S'].drop_last() =~= seq!['P', 'T', '0']);
}

proof fn lemma_duration_lasts(total: int)
    requires
        0 <= total,
    ensures
        lasts(calendar_map::iso_duration(total), total),
{
    reveal_strlit("PT");
    reveal_strlit("H");
    reveal_strlit("M");
    reveal_strlit("S");
    assert("PT"@ =~= seq!['P', 'T']);
    assert("H"@ =~= seq!['H']);
    assert("M"@ =~= seq!['M']);
    assert("S"@ =~= seq!['S']);
    let h = (total / 3600) as nat;
    let m = ((total % 3600) / 60) as nat;
    let s = (total % 60) as nat;
    assert(3600 * h + 60 * m + s == total);
    let t = calendar_map::iso_duration(total);
    assert(t =~= timed(h, m, s));
    let head = seq!['P', 'T'];
    lemma_read_heads();
    let hours = if h == 0 {
        Seq::empty()
    } else {
        text::dec(h) + seq!['H']
    };
    let minutes = if m == 0 {
        Seq::empty()
    } else {
        text::dec(m) + seq!['M']
    };
    let seconds = if s == 0 && (h != 0 || m != 0) {
        Seq::empty()
    } else {
        text::dec(s) + seq!['S']
    };
    if h > 0 {
        lemma_read_number(head, h, 'H');
    } else {
        assert(head + hours =~= head);
    }
    if m > 0 {
        lemma_read_number(head + hours, m, 'M');
    } else {
        assert(head + hours + minutes =~= head + hours);
    }
    if seconds.len() > 0 {
        lemma_read_number(head + hours + minutes, s, 'S');
    } else {
        assert(head + hours + minutes + seconds =~= head + hours + minutes);
    }
    assert(t =~= head + hours + minutes + seconds);
    assert(t.len() > 2 && !text::is_digit(t.last()));
    assert(t[0] == 'P');
}

/// The nanoseconds between two moments.
pub open spec fn nanos_between(a: Moment, b: Moment) -> int {
    (b.secs - a.secs) * 1_000_000_000 + (b.nanos - a.nanos)
}

/// An event with a clock time lasts as many whole seconds as lie between the
/// item's start and its end; one that ends a second or more before it starts
/// has no duration.
pub proof fn timed_events_last_from_start_to_end(
    raw: CalendarItemRaw,
    full: Seq<CalendarItemRaw>,
    resolved: Option<Seq<char>>,
    a: Moment,
    b: Moment,
)
    requires
        raw.is_all_day_event != Some(true),
        raw.start is Some,
        raw.end is Some,
        instant::rfc3339_moment((raw.start->0)@) == Ok::<Moment, Seq<char>>(a),
        instant::rfc3339_moment((raw.end->0)@) == Ok::<Moment, Seq<char>>(b),
    ensures
        ({
            let d = event_at(raw, full, resolved, "duration"@);
            let nanos = nanos_between(a, b);
            &&& nanos >= 0 ==> (d matches Some(Val::Text(t)) && lasts(t, nanos / 1_000_000_000))
            &&& -1_000_000_000 < nanos < 0 ==> (d matches Some(Val::Text(t)) && lasts(t, 0))
            &&& nanos <= -1_000_000_000 ==> d is None
        }),
        event_at(raw, full, resolved, "showWithoutTime"@) is None,
{
    let zone = calendar_map::shown_zone(raw, resolved);
    lemma_event_names();
    lemma_event(raw, full, resolved, "duration"@);
    lemma_event(raw, full, resolved, "showWithoutTime"@);
    lemma_event_members(raw, zone, "duration"@);
    lemma_event_members(raw, zone, "showWithoutTime"@);
    lemma_time_at(raw, zone, "duration"@);
    let nanos = nanos_between(a, b);
    if nanos >= 0 {
        lemma_duration_lasts(nanos / 1_000_000_000);
    } else {
        lemma_duration_lasts(0);
    }
}

/// An all-day event has no clock time: it starts at the midnight of the item's
/// first day and lasts as many days as lie between its first and its last date,
/// at least one.
pub proof fn all_day_events_last_whole_days(
    raw: CalendarItemRaw,
    full: Seq<CalendarItemRaw>,
    resolved: Option<Seq<char>>,
    s: (int, nat, nat),
    e: (int, nat, nat),
    days: nat,
)
    requires
        raw.is_all_day_event == Some(true),
        raw.start is Some,
        raw.end is Some,
        calendar_map::dashed_date(text::split_by((raw.start->0)@, 'T')[0]) == Some(s),
        calendar_map::dashed_date(text::split_by((raw.end->0)@, 'T')[0]) == Some(e),
        civil::valid_ymd(s.0, s.1 as int, s.2 as int),
        civil::valid_ymd(e.0, e.1 as int, e.2 as int),
        days >= 1,
        civil::day_number(e.0, e.1 as int, e.2 as int) - civil::day_number(
            s.0,
            s.1 as int,
            s.2 as int,
        ) == days || (days == 1 && civil::day_number(e.0, e.1 as int, e.2 as int)
            <= civil::day_number(s.0, s.1 as int, s.2 as int)),
    ensures
        event_at(raw, full, resolved, "showWithoutTime"@) == Some(Val::Bool(true)),
        event_at(raw, full, resolved, "duration"@) == Some(
            Val::Text(seq!['P'] + text::dec(days) + seq!['D']),
        ),
        event_at(raw, full, resolved, "start"@) == Some(
            Val::Text(text::split_by((raw.start->0)@, 'T')[0] + "T00:00:00"@),
        ),
        event_at(raw, full, resolved, "timeZone"@) is None,
{
    let zone = calendar_map::shown_zone(raw, resolved);
    lemma_event_names();
    lemma_event(raw, full, resolved, "duration"@);
    lemma_event(raw, full, resolved, "showWithoutTime"@);
    lemma_event(raw, full, resolved, "start"@);
    lemma_event(raw, full, resolved, "timeZone"@);
    lemma_event_members(raw, zone, "duration"@);
    lemma_event_members(raw, zone, "showWithoutTime"@);
    lemma_event_members(raw, zone, "start"@);
    lemma_event_members(raw, zone, "timeZone"@);
    lemma_time_at(raw, zone, "duration"@);
    lemma_time_at(raw, zone, "start"@);
    lemma_time_at(raw, zone, "timeZone"@);
    calendar_map::spans_count_the_days_of_the_calendar((raw.start->0)@, (raw.end->0)@, s, e);
    reveal_strlit("P");
    reveal_strlit("D");
    assert("P"@ =~= seq!['P']);
    assert("D"@ =~= seq!['D']);
}

/// An event says the item's subject, place and body, its identifier, when it
/// was made and changed, and whether the time is free, each under its own name.
pub proof fn events_say_what_their_items_say(
    raw: CalendarItemRaw,
    full: Seq<CalendarItemRaw>,
    resolved: Option<Seq<char>>,
)
    ensures
        event_at(raw, full, resolved, "@type"@) == Some(Val::Text("Event"@)),
        raw.uid is Some ==> event_at(raw, full, resolved, "uid"@) == Some(
            Val::Text((raw.uid->0)@),
        ),
        event_at(raw, full, resolved, "title"@) == (match raw.subject {
            Some(t) => Some(Val::Text(t@)),
            None => None,
        }),
        match raw.location {
            Some(l) => event_at(raw, full, resolved, "locations"@) matches Some(o) && o.get(
                "1"@,
            ) matches Some(p) && p.text_at("name"@) == Some(l@),
            None => event_at(raw, full, resolved, "locations"@) is None,
        },
        raw.body_text is Some ==> event_at(raw, full, resolved, "description"@) == Some(
            Val::Text((raw.body_text->0)@),
        ) && event_at(raw, full, resolved, "descriptionContentType"@) is None,
        raw.body_text is None && raw.body_html is Some ==> event_at(
            raw,
            full,
            resolved,
            "description"@,
        ) == Some(Val::Text((raw.body_html->0)@)) && event_at(
            raw,
            full,
            resolved,
            "descriptionContentType"@,
        ) == Some(Val::Text("text/html"@)),
        raw.body_text is None && raw.body_html is None ==> event_at(
            raw,
            full,
            resolved,
            "description"@,
        ) is None,
        match raw.legacy_free_busy_status {
            Some(f) => event_at(raw, full, resolved, "freeBusyStatus"@) == Some(
                Val::Text(
                    if f@ == "Free"@ {
                        "free"@
                    } else {
                        "busy"@
                    },
                ),
            ),
            None => event_at(raw, full, resolved, "freeBusyStatus"@) is None,
        },
        match raw.created {
            Some(t) => event_at(raw, full, resolved, "created"@) == Some(
                Val::Text(calendar_map::utc_text(t@)),
            ),
            None => event_at(raw, full, resolved, "created"@) is None,
        },
        match raw.last_modified {
            Some(t) => event_at(raw, full, resolved, "updated"@) == Some(
                Val::Text(calendar_map::utc_text(t@)),
            ),
            None => event_at(raw, full, resolved, "updated"@) == event_at(
                raw,
                full,
                resolved,
                "created"@,
            ),
        },
        raw.is_all_day_event != Some(true) && raw.start_tz is None ==> event_at(
            raw,
            full,
            resolved,
            "timeZone"@,
        ) is None,
        raw.is_all_day_event != Some(true) && raw.start_tz is Some ==> event_at(
            raw,
            full,
            resolved,
            "timeZone"@,
        ) == Some(
            Val::Text(
                match resolved {
                    Some(z) => z,
                    None => "Etc/UTC"@,
                },
            ),
        ),
{
    let zone = calendar_map::shown_zone(raw, resolved);
    lemma_event_names();
    lemma_event(raw, full, resolved, "@type"@);
    lemma_event(raw, full, resolved, "uid"@);
    lemma_event(raw, full, resolved, "title"@);
    lemma_event(raw, full, resolved, "locations"@);
    lemma_event(raw, full, resolved, "description"@);
    lemma_event(raw, full, resolved, "descriptionContentType"@);
    lemma_event(raw, full, resolved, "freeBusyStatus"@);
    lemma_event(raw, full, resolved, "created"@);
    lemma_event(raw, full, resolved, "updated"@);
    lemma_event(raw, full, resolved, "timeZone"@);
    lemma_event_members(raw, zone, "@type"@);
    lemma_event_members(raw, zone, "uid"@);
    lemma_event_members(raw, zone, "title"@);
    lemma_event_members(raw, zone, "locations"@);
    lemma_event_members(raw, zone, "description"@);
    lemma_event_members(raw, zone, "descriptionContentType"@);
    lemma_event_members(raw, zone, "freeBusyStatus"@);
    lemma_event_members(raw, zone, "created"@);
    lemma_event_members(raw, zone, "updated"@);
    lemma_event_members(raw, zone, "timeZone"@);
    lemma_description(raw, "description"@);
    lemma_time_at(raw, zone, "timeZone"@);
    if let Some(l) = raw.location {
        let p = json::obj2("@type"@, Val::Text("Location"@), "name"@, Val::Text(l@));
        json::lemma_find1("1"@, p, "1"@);
        lemma_name_names();
        json::lemma_find2("@type"@, Val::Text("Location"@), "name"@, Val::Text(l@), "name"@);
    }
}

proof fn lemma_flagged(v: Seq<Seq<char>>, key: Seq<char>)
    ensures
        json::lookup(calendar_map::keyword_members(v), key) == (if exists|i: int|
            0 <= i < v.len() && text::lowered(#[trigger] v[i]) == key {
            Some(Val::Bool(true))
        } else {
            None
        }),
    decreases v.len(),
{
    if v.len() > 0 {
        let rest = v.drop_last();
        lemma_flagged(rest, key);
        json::lemma_with_member(
            calendar_map::keyword_members(rest),
            text::lowered(v.last()),
            Val::Bool(true),
            key,
        );
        if exists|i: int| 0 <= i < rest.len() && text::lowered(#[trigger] rest[i]) == key {
            let i = choose|i: int| 0 <= i < rest.len() && text::lowered(#[trigger] rest[i]) == key;
            assert(text::lowered(v[i]) == key);
        }
        if exists|i: int| 0 <= i < v.len() && text::lowered(#[trigger] v[i]) == key {
            let i = choose|i: int| 0 <= i < v.len() && text::lowered(#[trigger] v[i]) == key;
            if i < rest.len() {
                assert(rest[i] == v[i]);
            }
        }
        assert(v[v.len() - 1] == v.last());
    }
}

/// A keyword is set on an event where a category of the item is that keyword in
/// lower case, and nowhere else.
pub proof fn events_have_their_categories_as_keywords(
    raw: CalendarItemRaw,
    full: Seq<CalendarItemRaw>,
    resolved: Option<Seq<char>>,
    key: Seq<char>,
)
    ensures
        (event_at(raw, full, resolved, "keywords"@) is Some && event_at(
            raw,
            full,
            resolved,
            "keywords"@,
        )->0.get(key) == Some(Val::Bool(true))) <==> exists|i: int|
            0 <= i < raw.categories@.len() && text::lowered((#[trigger] raw.categories@[i])@)
                == key,
{
    let zone = calendar_map::shown_zone(raw, resolved);
    let v = text::texts(raw.categories@);
    lemma_event_names();
    lemma_event(raw, full, resolved, "keywords"@);
    lemma_event_members(raw, zone, "keywords"@);
    lemma_flagged(v, key);
    let e = calendar_map::keyword_members(v);
    if exists|i: int| 0 <= i < v.len() && text::lowered(#[trigger] v[i]) == key {
        let i = choose|i: int| 0 <= i < v.len() && text::lowered(#[trigger] v[i]) == key;
        assert(text::lowered(raw.categories@[i]@) == key);
        assert(e.len() > 0);
    }
    if exists|i: int|
        0 <= i < raw.categories@.len() && text::lowered((#[trigger] raw.categories@[i])@) == key {
        let i = choose|i: int|
            0 <= i < raw.categories@.len() && text::lowered((#[trigger] raw.categories@[i])@) == key;
        assert(text::lowered(v[i]) == key);
    }
}

/// The reminder of an event comes as many minutes before its start as the item
/// says.
pub proof fn reminders_come_before_the_start(
    raw: CalendarItemRaw,
    full: Seq<CalendarItemRaw>,
    resolved: Option<Seq<char>>,
    minutes: nat,
)
    requires
        raw.reminder_is_set == Some(true),
        match raw.reminder_minutes_before_start {
            Some(n) => minutes == (if n < 0 {
                0
            } else {
                n as int
            }),
            None => minutes == 0,
        },
    ensures
        event_at(raw, full, resolved, "alerts"@) matches Some(o) && o.get("1"@) matches Some(a)
            && {
            &&& a.text_at("action"@) == Some("display"@)
            &&& a.get("trigger"@) matches Some(t) && {
                &&& t.text_at("relativeTo"@) == Some("start"@)
                &&& t.text_at("offset"@) matches Some(w) && w.len() > 1 && read_units(w).0 == 60
                    * minutes && (if minutes == 0 {
                    w[0] == 'P'
                } else {
                    w[0] == '-' && w[1] == 'P'
                })
            }
        },
{
    let zone = calendar_map::shown_zone(raw, resolved);
    lemma_event_names();
    lemma_event(raw, full, resolved, "alerts"@);
    lemma_event_members(raw, zone, "alerts"@);
    lemma_alert_names();
    reveal_strlit("PT0S");
    reveal_strlit("-PT");
    reveal_strlit("M");
    let w = if minutes == 0 {
        "PT0S"@
    } else {
        "-PT"@ + text::dec(minutes) + "M"@
    };
    lemma_read_heads();
    assert("-PT"@ =~= seq!['-', 'P', 'T']);
    assert("M"@ =~= seq!['M']);
    lemma_read_number("-PT"@, minutes, 'M');
    assert("-PT"@ + text::dec(minutes) + "M"@ =~= "-PT"@ + (text::dec(minutes) + seq!['M']));
    assert("PT0S"@ =~= seq!['P', 'T', '0', 'S']);
    assert(w.len() > 1 && read_units(w).0 == 60 * minutes);
    lemma_alert(raw, minutes, w);
}

proof fn lemma_alert(raw: CalendarItemRaw, minutes: nat, w: Seq<char>)
    requires
        raw.reminder_is_set == Some(true),
        match raw.reminder_minutes_before_start {
            Some(n) => minutes == (if n < 0 {
                0
            } else {
                n as int
            }),
            None => minutes == 0,
        },
        w == (if minutes == 0 {
            "PT0S"@
        } else {
            "-PT"@ + text::dec(minutes) + "M"@
        }),
    ensures
        calendar_map::alerts_of(raw) matches Some(o) && o.get("1"@) matches Some(a) && {
            &&& a.text_at("action"@) == Some("display"@)
            &&& a.get("trigger"@) matches Some(t) && t.text_at("relativeTo"@) == Some("start"@)
                && t.text_at("offset"@) == Some(w)
        },
{
    lemma_alert_names();
    let trigger = json::obj3(
        "@type"@,
        Val::Text("OffsetTrigger"@),
        "offset"@,
        Val::Text(w),
        "relativeTo"@,
        Val::Text("start"@),
    );
    let alert = json::obj3(
        "@type"@,
        Val::Text("Alert"@),
        "trigger"@,
        trigger,
        "action"@,
        Val::Text("display"@),
    );
    json::lemma_find1("1"@, alert, "1"@);
    let c = Val::Text("Alert"@);
    let d = Val::Text("display"@);
    json::lemma_find3("@type"@, c, "trigger"@, trigger, "action"@, d, "action"@);
    json::lemma_find3("@type"@, c, "trigger"@, trigger, "action"@, d, "trigger"@);
    let o = Val::Text("OffsetTrigger"@);
    let st = Val::Text("start"@);
    json::lemma_find3("@type"@, o, "offset"@, Val::Text(w), "relativeTo"@, st, "offset"@);
    json::lemma_find3("@type"@, o, "offset"@, Val::Text(w), "relativeTo"@, st, "relativeTo"@);
}

/// Only an item with a reminder has an alert.
pub proof fn no_reminder_no_alert(
    raw: CalendarItemRaw,
    full: Seq<CalendarItemRaw>,
    resolved: Option<Seq<char>>,
)
    requires
        raw.reminder_is_set != Some(true),
    ensures
        event_at(raw, full, resolved, "alerts"@) is None,
{
    lemma_event_names();
    lemma_event(raw, full, resolved, "alerts"@);
    lemma_event_members(raw, calendar_map::shown_zone(raw, resolved), "alerts"@);
}

/// Whether someone can be reached by mail at an address.
pub open spec fn has_mail(address: Option<String>, routing: Option<String>, mail: Seq<char>) -> bool {
    &&& address is Some && (address->0)@ == mail
    &&& text::trimmed(mail).len() > 0
    &&& routing is Some ==> text::lowered((routing->0)@) == "smtp"@
}

/// Those who are invited in a role.
pub open spec fn invited(raw: CalendarItemRaw, role: AttendeeRole) -> Seq<RawAttendee> {
    match role {
        AttendeeRole::Required => raw.required_attendees@,
        AttendeeRole::Optional => raw.optional_attendees@,
        AttendeeRole::Resource => raw.resources@,
    }
}

/// How many participants come before those who are invited in a role: the
/// organizer, then those who are required, then those who are optional.
pub open spec fn ahead(raw: CalendarItemRaw, role: AttendeeRole) -> nat {
    match role {
        AttendeeRole::Required => 1,
        AttendeeRole::Optional => 1 + raw.required_attendees@.len(),
        AttendeeRole::Resource => 1 + raw.required_attendees@.len()
            + raw.optional_attendees@.len(),
    }
}

/// The status of a participant, by what they answered.
pub open spec fn status_of(response: Seq<char>, status: Seq<char>) -> bool {
    &&& response == "Accept"@ || response == "Organizer"@ ==> status == "accepted"@
    &&& response == "Tentative"@ ==> status == "tentative"@
    &&& response == "Decline"@ ==> status == "declined"@
    &&& response != "Accept"@ && response != "Organizer"@ && response != "Tentative"@ && response
        != "Decline"@ ==> status == "needs-action"@
}

proof fn lemma_attendees(acc: Members, v: Seq<RawAttendee>, role: AttendeeRole)
    ensures
        calendar_map::attendees_after(acc, v, role).len() == acc.len() + v.len(),
        forall|i: int|
            0 <= i < acc.len() ==> calendar_map::attendees_after(acc, v, role)[i]
                == #[trigger] acc[i],
        forall|i: int|
            0 <= i < v.len() ==> #[trigger] calendar_map::attendees_after(acc, v, role)[acc.len()
                + i] == (
                text::dec((acc.len() + i + 1) as nat),
                calendar_map::attendee_value(v[i], role),
            ),
    decreases v.len(),
{
    if v.len() > 0 {
        let rest = v.drop_last();
        lemma_attendees(acc, rest, role);
        let a = calendar_map::attendees_after(acc, rest, role);
        let b = calendar_map::attendees_after(acc, v, role);
        assert forall|i: int| 0 <= i < v.len() implies #[trigger] b[acc.len() + i] == (
            text::dec((acc.len() + i + 1) as nat),
            calendar_map::attendee_value(v[i], role),
        ) by {
            if i < rest.len() {
                assert(b[acc.len() + i] == a[acc.len() + i]);
                assert(rest[i] == v[i]);
            }
        }
    }
}

proof fn lemma_numbered(e: Members, i: int)
    requires
        0 <= i < e.len(),
        forall|k: int| 0 <= k < e.len() ==> (#[trigger] e[k]).0 == text::dec((k + 1) as nat),
    ensures
        json::lookup(e, text::dec((i + 1) as nat)) == Some(e[i].1),
{
    assert forall|k: int| 0 <= k < i implies (#[trigger] e[k]).0 != text::dec((i + 1) as nat) by {
        text::decimals_tell_numbers_apart((k + 1) as nat, (i + 1) as nat);
    }
    json::lemma_position(e, text::dec((i + 1) as nat), i);
}

proof fn lemma_all_participants(raw: CalendarItemRaw, role: AttendeeRole, i: int)
    requires
        calendar_map::organizer_address(raw) is Some,
        0 <= i < invited(raw, role).len(),
    ensures
        ({
            let e = calendar_map::participant_members(raw);
            let o = calendar_map::organizer_address(raw)->0;
            &&& json::lookup(e, text::dec((ahead(raw, role) + i + 1) as nat)) == Some(
                calendar_map::attendee_value(invited(raw, role)[i], role),
            )
            &&& e.len() > 0
        }),
{
    let o = calendar_map::organizer_address(raw)->0;
    let a0 = seq![
        (
            text::dec(1),
            calendar_map::organizer_value(o.0, o.1, json::text_view(raw.organizer_name)),
        ),
    ];
    let a1 = calendar_map::attendees_after(a0, raw.required_attendees@, AttendeeRole::Required);
    let a2 = calendar_map::attendees_after(a1, raw.optional_attendees@, AttendeeRole::Optional);
    let a3 = calendar_map::attendees_after(a2, raw.resources@, AttendeeRole::Resource);
    lemma_attendees(a0, raw.required_attendees@, AttendeeRole::Required);
    lemma_attendees(a1, raw.optional_attendees@, AttendeeRole::Optional);
    lemma_attendees(a2, raw.resources@, AttendeeRole::Resource);
    assert(calendar_map::participant_members(raw) == a3);
    assert forall|k: int| 0 <= k < a3.len() implies (#[trigger] a3[k]).0 == text::dec(
        (k + 1) as nat,
    ) by {
        if k >= a2.len() {
            assert(a3[a2.len() + (k - a2.len())].0 == text::dec((k + 1) as nat));
        } else {
            assert(a3[k] == a2[k]);
            if k >= a1.len() {
                assert(a2[a1.len() + (k - a1.len())].0 == text::dec((k + 1) as nat));
            } else {
                assert(a2[k] == a1[k]);
                if k >= a0.len() {
                    assert(a1[a0.len() + (k - a0.len())].0 == text::dec((k + 1) as nat));
                } else {
                    assert(a1[k] == a0[k]);
                }
            }
        }
    }
    let at = ahead(raw, role) + i;
    lemma_numbered(a3, at);
    match role {
        AttendeeRole::Required => {
            assert(a1[a0.len() + i].1 == calendar_map::attendee_value(
                raw.required_attendees@[i],
                role,
            ));
            assert(a2[at] == a1[at] && a3[at] == a2[at]);
        },
        AttendeeRole::Optional => {
            assert(a2[a1.len() + i].1 == calendar_map::attendee_value(
                raw.optional_attendees@[i],
                role,
            ));
            assert(a3[at] == a2[at]);
        },
        AttendeeRole::Resource => {
            assert(a3[a2.len() + i].1 == calendar_map::attendee_value(raw.resources@[i], role));
        },
    }
}

proof fn lemma_mail(address: Option<String>, routing: Option<String>, mail: Seq<char>, name: Option<
    Seq<char>,
>)
    requires
        has_mail(address, routing, mail),
    ensures
        calendar_map::calendar_address(json::text_view(address), json::text_view(routing), name)
            == Some(("mailto:"@ + mail, Some(mail))),
{
    reveal_strlit("SMTP");
    reveal_strlit("smtp");
    assert(text::lowered("SMTP"@) =~= "smtp"@);
}

/// Where the organizer can be reached by mail, everyone who is invited and can
/// be reached by mail is a participant: with their address and name, in the role
/// in which they are invited, and with the status of their answer. Rooms and
/// things are resources, from whom no reply is expected.
pub proof fn the_invited_take_part(
    raw: CalendarItemRaw,
    full: Seq<CalendarItemRaw>,
    resolved: Option<Seq<char>>,
    host: Seq<char>,
    role: AttendeeRole,
    i: int,
    mail: Seq<char>,
)
    requires
        has_mail(raw.organizer_smtp, raw.organizer_routing_type, host),
        0 <= i < invited(raw, role).len(),
        has_mail(invited(raw, role)[i].email, invited(raw, role)[i].routing_type, mail),
    ensures
        event_at(raw, full, resolved, "participants"@) matches Some(all) && all.get(
            text::dec((ahead(raw, role) + i + 1) as nat),
        ) matches Some(p) && {
            let att = invited(raw, role)[i];
            &&& p.text_at("calendarAddress"@) == Some("mailto:"@ + mail)
            &&& p.text_at("email"@) == Some(mail)
            &&& p.text_at("name"@) == json::text_view(att.name)
            &&& p.get("roles"@) matches Some(r) && (r.get("optional"@) == Some(Val::Bool(true))
                <==> role == AttendeeRole::Optional) && (r.get("required"@) == Some(
                Val::Bool(true),
            ) <==> role != AttendeeRole::Optional) && r.get("owner"@) is None
            &&& p.text_at("kind"@) == Some("resource"@) <==> role == AttendeeRole::Resource
            &&& p.get("expectReply"@) == Some(Val::Bool(true)) <==> role != AttendeeRole::Resource
            &&& match att.response_type {
                Some(a) => p.text_at("participationStatus"@) matches Some(t) && status_of(a@, t),
                None => p.get("participationStatus"@) is None,
            }
        },
{
    let zone = calendar_map::shown_zone(raw, resolved);
    lemma_event_names();
    lemma_event(raw, full, resolved, "participants"@);
    lemma_event_members(raw, zone, "participants"@);
    lemma_mail(
        raw.organizer_smtp,
        raw.organizer_routing_type,
        host,
        json::text_view(raw.organizer_name),
    );
    lemma_all_participants(raw, role, i);
    let att = invited(raw, role)[i];
    lemma_mail(att.email, att.routing_type, mail, json::text_view(att.name));
    let who = json::text_view(att.name);
    let said = json::text_view(att.response_type);
    lemma_attendee(att, role, mail, "calendarAddress"@);
    lemma_attendee(att, role, mail, "email"@);
    lemma_attendee(att, role, mail, "name"@);
    lemma_attendee(att, role, mail, "roles"@);
    lemma_attendee(att, role, mail, "kind"@);
    lemma_attendee(att, role, mail, "expectReply"@);
    lemma_attendee(att, role, mail, "participationStatus"@);
    lemma_person_names();
    lemma_answers();
    json::lemma_find1("optional"@, Val::Bool(true), "optional"@);
    json::lemma_find1("optional"@, Val::Bool(true), "required"@);
    json::lemma_find1("optional"@, Val::Bool(true), "owner"@);
    json::lemma_find1("required"@, Val::Bool(true), "optional"@);
    json::lemma_find1("required"@, Val::Bool(true), "required"@);
    json::lemma_find1("required"@, Val::Bool(true), "owner"@);
}

proof fn lemma_attendee(att: RawAttendee, role: AttendeeRole, mail: Seq<char>, key: Seq<char>)
    requires
        has_mail(att.email, att.routing_type, mail),
    ensures
        calendar_map::attendee_value(att, role).get(key) == (if key == "@type"@ {
            Some(Val::Text("Participant"@))
        } else if key == "name"@ {
            json::text_opt(json::text_view(att.name))
        } else if key == "calendarAddress"@ {
            Some(Val::Text("mailto:"@ + mail))
        } else if key == "email"@ {
            Some(Val::Text(mail))
        } else if key == "roles"@ {
            Some(
                json::obj1(
                    if role == AttendeeRole::Optional {
                        "optional"@
                    } else {
                        "required"@
                    },
                    Val::Bool(true),
                ),
            )
        } else if key == "kind"@ && role == AttendeeRole::Resource {
            Some(Val::Text("resource"@))
        } else if key == "expectReply"@ && role != AttendeeRole::Resource {
            Some(Val::Bool(true))
        } else if key == "participationStatus"@ {
            match att.response_type {
                Some(r) => Some(Val::Text(calendar_map::answer(r@))),
                None => None,
            }
        } else {
            None
        }),
{
    lemma_person_names();
    lemma_mail(att.email, att.routing_type, mail, json::text_view(att.name));
    let m0 = seq![("@type"@, Val::Text("Participant"@))];
    let name = json::text_opt(json::text_view(att.name));
    json::lemma_find1("@type"@, Val::Text("Participant"@), key);
    json::lemma_lookup_member_if(m0, "name"@, name, key);
    let m1 = m0 + json::member_if("name"@, name);
    let c = Val::Text("mailto:"@ + mail);
    let n0 = seq![("calendarAddress"@, c)];
    json::lemma_find1("calendarAddress"@, c, key);
    let n1 = n0 + json::member_if("email"@, json::text_opt(Some(mail)));
    json::lemma_lookup_member_if(n0, "email"@, json::text_opt(Some(mail)), key);
    let roles = json::obj1(
        if role == AttendeeRole::Optional {
            "optional"@
        } else {
            "required"@
        },
        Val::Bool(true),
    );
    let last = if role == AttendeeRole::Resource {
        ("kind"@, Val::Text("resource"@))
    } else {
        ("expectReply"@, Val::Bool(true))
    };
    let two = seq![("roles"@, roles), last];
    json::lemma_find2("roles"@, roles, last.0, last.1, key);
    json::lemma_lookup_concat(n1, two, key);
    let n2 = n1 + two;
    let status = match json::text_view(att.response_type) {
        Some(r) => Some(Val::Text(calendar_map::answer(r))),
        None => None,
    };
    json::lemma_lookup_member_if(n2, "participationStatus"@, status, key);
    let n3 = n2 + json::member_if("participationStatus"@, status);
    json::lemma_lookup_concat(m1, n3, key);
    assert(calendar_map::addressed_members(
        "mailto:"@ + mail,
        Some(mail),
        json::text_view(att.response_type),
        role,
    ) =~= n3);
    assert(calendar_map::attendee_value(att, role) == Val::Object(m1 + n3));
}

/// An organizer who can be reached by mail is named as such, and is the first
/// participant, the owner and the chair.
pub proof fn the_organizer_leads(
    raw: CalendarItemRaw,
    full: Seq<CalendarItemRaw>,
    resolved: Option<Seq<char>>,
    host: Seq<char>,
)
    requires
        has_mail(raw.organizer_smtp, raw.organizer_routing_type, host),
    ensures
        event_at(raw, full, resolved, "organizerCalendarAddress"@) == Some(
            Val::Text("mailto:"@ + host),
        ),
        event_at(raw, full, resolved, "participants"@) matches Some(all) && all.get(
            text::dec(1),
        ) matches Some(p) && {
            &&& p.text_at("calendarAddress"@) == Some("mailto:"@ + host)
            &&& p.text_at("email"@) == Some(host)
            &&& p.text_at("name"@) == json::text_view(raw.organizer_name)
            &&& p.get("roles"@) matches Some(r) && r.get("owner"@) == Some(Val::Bool(true))
                && r.get("chair"@) == Some(Val::Bool(true))
        },
{
    let zone = calendar_map::shown_zone(raw, resolved);
    lemma_event_names();
    lemma_person_names();
    lemma_event(raw, full, resolved, "participants"@);
    lemma_event(raw, full, resolved, "organizerCalendarAddress"@);
    lemma_event_members(raw, zone, "participants"@);
    lemma_event_members(raw, zone, "organizerCalendarAddress"@);
    let name = json::text_view(raw.organizer_name);
    lemma_mail(raw.organizer_smtp, raw.organizer_routing_type, host, name);
    let v = calendar_map::organizer_value("mailto:"@ + host, Some(host), name);
    let a0 = seq![(text::dec(1), v)];
    let a1 = calendar_map::attendees_after(a0, raw.required_attendees@, AttendeeRole::Required);
    let a2 = calendar_map::attendees_after(a1, raw.optional_attendees@, AttendeeRole::Optional);
    let a3 = calendar_map::attendees_after(a2, raw.resources@, AttendeeRole::Resource);
    lemma_attendees(a0, raw.required_attendees@, AttendeeRole::Required);
    lemma_attendees(a1, raw.optional_attendees@, AttendeeRole::Optional);
    lemma_attendees(a2, raw.resources@, AttendeeRole::Resource);
    assert(a1[0] == a0[0] && a2[0] == a1[0] && a3[0] == a2[0]);
    json::lemma_position(a3, text::dec(1), 0);
    assert(calendar_map::participants_of(raw) == Some(Val::Object(a3)));
    let c = Val::Text("mailto:"@ + host);
    let part = Val::Text("Participant"@);
    let roles = json::obj2("owner"@, Val::Bool(true), "chair"@, Val::Bool(true));
    let m0 = seq![("@type"@, part), ("calendarAddress"@, c)];
    let mail = json::text_opt(Some(host));
    let m1 = m0 + json::member_if("email"@, mail);
    let m2 = m1 + seq![("roles"@, roles)];
    let m3 = m2 + json::member_if("name"@, json::text_opt(name));
    assert forall|key: Seq<char>| #[trigger]
        json::lookup(m3, key) == (if key == "@type"@ {
            Some(part)
        } else if key == "calendarAddress"@ {
            Some(c)
        } else if key == "email"@ {
            Some(Val::Text(host))
        } else if key == "roles"@ {
            Some(roles)
        } else if key == "name"@ {
            json::text_opt(name)
        } else {
            None
        }) by {
        json::lemma_find2("@type"@, part, "calendarAddress"@, c, key);
        json::lemma_lookup_member_if(m0, "email"@, mail, key);
        json::lemma_find1("roles"@, roles, key);
        json::lemma_lookup_concat(m1, seq![("roles"@, roles)], key);
        json::lemma_lookup_member_if(m2, "name"@, json::text_opt(name), key);
    }
    assert(v == Val::Object(m3));
    assert(json::lookup(m3, "calendarAddress"@) == Some(c));
    assert(json::lookup(m3, "email"@) == Some(Val::Text(host)));
    assert(json::lookup(m3, "name"@) == json::text_opt(name));
    assert(json::lookup(m3, "roles"@) == Some(roles));
    json::lemma_find2("owner"@, Val::Bool(true), "chair"@, Val::Bool(true), "owner"@);
    json::lemma_find2("owner"@, Val::Bool(true), "chair"@, Val::Bool(true), "chair"@);
}

proof fn lemma_deleted(
    acc: Members,
    v: Seq<RawOccurrence>,
    zone: Option<Seq<char>>,
    i: int,
    s: Seq<char>,
)
    requires
        0 <= i < v.len(),
        json::text_view(v[i].start) == Some(s),
    ensures
        json::lookup(
            calendar_map::deleted_members(acc, v, zone),
            calendar_map::local_text(s, zone),
        ) == Some(json::obj1("excluded"@, Val::Bool(true))),
    decreases v.len(),
{
    let rest = v.drop_last();
    let a = calendar_map::deleted_members(acc, rest, zone);
    let key = calendar_map::local_text(s, zone);
    let gone = json::obj1("excluded"@, Val::Bool(true));
    if i < rest.len() {
        assert(rest[i] == v[i]);
        lemma_deleted(acc, rest, zone, i, s);
    }
    if let Some(t) = v.last().start {
        json::lemma_with_member(a, calendar_map::local_text(t@, zone), gone, key);
    }
}

/// An occurrence that was deleted is excluded from its series.
pub proof fn deleted_occurrences_are_excluded(
    raw: CalendarItemRaw,
    full: Seq<CalendarItemRaw>,
    resolved: Option<Seq<char>>,
    i: int,
    s: Seq<char>,
)
    requires
        0 <= i < raw.deleted_occurrences@.len(),
        json::text_view(raw.deleted_occurrences@[i].start) == Some(s),
    ensures
        event_at(raw, full, resolved, "recurrenceOverrides"@) matches Some(o) && o.get(
            calendar_map::local_text(s, calendar_map::shown_zone(raw, resolved)),
        ) matches Some(p) && p.get("excluded"@) == Some(Val::Bool(true)),
{
    let zone = calendar_map::shown_zone(raw, resolved);
    lemma_event(raw, full, resolved, "recurrenceOverrides"@);
    let acc = calendar_map::modified_members(
        raw.modified_occurrences@,
        calendar_map::event_members(raw, zone),
        full,
        zone,
    );
    lemma_deleted(acc, raw.deleted_occurrences@, zone, i, s);
    json::lemma_find1("excluded"@, Val::Bool(true), "excluded"@);
}

} // verus!

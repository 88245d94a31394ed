//! An Exchange calendar item as a JSCalendar event.

use crate::civil;
use crate::exchange::jscalendar;
use crate::exchange_ews::parse::{CalendarItemRaw, RawAttendee, RawOccurrence};
use crate::exchange_ews::recurrence;
use crate::instant;
use crate::json;
use crate::json::{Json, Members, Val};
use crate::text;
use vstd::prelude::*;

verus! {

/// An event and how the archive keeps it.
#[derive(Debug)]
pub struct EventValue {
    pub data: Json,
    pub is_draft: bool,
    pub use_default_alerts: bool,
}

/// Where `+` or `-` last stands; -1 if neither does.
pub open spec fn last_sign(s: Seq<char>) -> int
    decreases s.len(),
{
    if s.len() == 0 {
        -1
    } else if s.last() == '+' || s.last() == '-' {
        s.len() - 1
    } else {
        last_sign(s.drop_last())
    }
}

/// Where the offset of a date-time starts: at its last sign, if at least ten
/// bytes come before it.
pub open spec fn offset_start(s: Seq<char>) -> Option<int> {
    let i = last_sign(s);
    if i >= 0 && text::byte_len(s.take(i)) >= 10 {
        Some(i)
    } else {
        None
    }
}

/// A date-time without `Z` or offset.
pub open spec fn without_zone(s: Seq<char>) -> Seq<char> {
    if s.len() > 0 && s.last() == 'Z' {
        s.drop_last()
    } else {
        match offset_start(s) {
            Some(i) => s.take(i),
            None => s,
        }
    }
}

/// Date and clock time of a date-time, without zone and fractions; midnight
/// where it has no clock time.
pub open spec fn plain_text(t: Seq<char>) -> Seq<char> {
    let s = without_zone(t);
    let i = text::first_index(s, 'T');
    if i < s.len() {
        let time = s.skip(i + 1);
        s.take(i) + "T"@ + time.take(text::first_index(time, '.'))
    } else {
        s + "T00:00:00"@
    }
}

/// A date-time as a UTC date-time.
pub open spec fn utc_text(s: Seq<char>) -> Seq<char> {
    plain_text(text::trimmed(s)) + "Z"@
}

/// A date-time as the wall clock of a zone shows it, where it names a moment
/// and a zone is known; else as it stands.
pub open spec fn local_text(s: Seq<char>, zone: Option<Seq<char>>) -> Seq<char> {
    let t = text::trimmed(s);
    let anchored = (t.len() > 0 && t.last() == 'Z') || offset_start(t) is Some;
    match zone {
        Some(z) => if anchored && instant::rfc3339_in_zone(t, z) is Some {
            instant::rfc3339_in_zone(t, z)->0
        } else {
            plain_text(t)
        },
        None => plain_text(t),
    }
}

/// Division that rounds towards zero.
pub open spec fn quotient(a: int, b: int) -> int {
    if a >= 0 {
        a / b
    } else {
        -((-a) / b)
    }
}

/// Year, month and day at the start of a text between dashes.
pub open spec fn dashed_date(s: Seq<char>) -> Option<(int, nat, nat)> {
    let p = text::split_by(s, '-');
    if p.len() >= 3 {
        match (
            text::parsed_i64(p[0]),
            text::parsed_unsigned(p[1], u32::MAX as nat),
            text::parsed_unsigned(p[2], u32::MAX as nat),
        ) {
            (Some(y), Some(m), Some(d)) => Some((y, m, d)),
            _ => None,
        }
    } else {
        None
    }
}

/// The number by which the days of a span are counted: the calendar's own. A
/// month that the calendar does not have is counted at the pace of the months
/// of a year that starts in March.
pub open spec fn span_number(y: int, m: int, d: int) -> int {
    if 1 <= m <= 12 {
        civil::day_number(y, m, d)
    } else {
        march_number(y, m, d)
    }
}

/// The number of a day, with January and February taken as the last months of
/// the year before.
pub open spec fn march_number(y: int, m: int, d: int) -> int {
    let yy = if m <= 2 {
        y - 1
    } else {
        y
    };
    let mm = (if m <= 2 {
        m + 12
    } else {
        m
    }) + 1;
    365 * yy + yy / 4 - yy / 100 + yy / 400 + 30 * mm + 3 * mm / 5 + d - 428
}

/// How many days an all-day event spans: at least one.
pub open spec fn span_days(start: Seq<char>, end: Seq<char>) -> int {
    match (
        dashed_date(text::split_by(start, 'T')[0]),
        dashed_date(text::split_by(end, 'T')[0]),
    ) {
        (Some(s), Some(e)) => {
            let diff = span_number(e.0, e.1 as int, e.2 as int) - span_number(
                s.0,
                s.1 as int,
                s.2 as int,
            );
            if diff <= 0 {
                1
            } else {
                diff % 0x1_0000_0000
            }
        },
        _ => 1,
    }
}

/// A number and a unit, unless the number is zero.
pub open spec fn unit_if(n: int, unit: Seq<char>) -> Seq<char> {
    if n > 0 {
        text::dec(n as nat) + unit
    } else {
        Seq::empty()
    }
}

/// A number of seconds as an ISO 8601 duration.
pub open spec fn iso_duration(total: int) -> Seq<char> {
    let h = total / 3600;
    let m = (total % 3600) / 60;
    let s = total % 60;
    "PT"@ + unit_if(h, "H"@) + unit_if(m, "M"@) + (if s > 0 || (h == 0 && m == 0) {
        text::dec(s as nat) + "S"@
    } else {
        Seq::empty()
    })
}

/// The time between two moments as an ISO 8601 duration of whole seconds;
/// nothing if one is no moment or the second lies a second or more before the
/// first.
pub open spec fn duration_text(start: Seq<char>, end: Seq<char>) -> Option<Seq<char>> {
    match (instant::rfc3339_moment(start), instant::rfc3339_moment(end)) {
        (Ok(s), Ok(e)) => {
            let nanos = (e.secs - s.secs) * 1_000_000_000 + (e.nanos - s.nanos);
            let total = quotient(nanos, 1_000_000_000);
            if total < 0 {
                None
            } else {
                Some(iso_duration(total))
            }
        },
        _ => None,
    }
}

/// An optional text of an item.
pub open spec fn opt(s: Option<String>) -> Option<Seq<char>> {
    json::text_view(s)
}

/// The first of two texts that is there.
pub open spec fn or_else(a: Option<Seq<char>>, b: Option<Seq<char>>) -> Option<Seq<char>> {
    match a {
        Some(x) => Some(x),
        None => b,
    }
}

/// The identifier of an event: its own, or one made from the item's.
pub open spec fn event_uid(raw: CalendarItemRaw) -> Seq<char> {
    match raw.uid {
        Some(u) => u@,
        None => crate::digest::digest_name("vandelay-ews-event-"@, raw.id.id@),
    }
}

/// An optional date-time as a UTC date-time.
pub open spec fn stamp(s: Option<Seq<char>>) -> Option<Val> {
    match s {
        Some(t) => Some(Val::Text(utc_text(t))),
        None => None,
    }
}

pub open spec fn locations_of(raw: CalendarItemRaw) -> Option<Val> {
    match raw.location {
        Some(l) => Some(
            json::obj1(
                "1"@,
                json::obj2("@type"@, Val::Text("Location"@), "name"@, Val::Text(l@)),
            ),
        ),
        None => None,
    }
}

/// The description of an event: plain text, or else HTML and its type.
pub open spec fn description_members(raw: CalendarItemRaw) -> Members {
    match raw.body_text {
        Some(b) => seq![("description"@, Val::Text(b@))],
        None => match raw.body_html {
            Some(b) => seq![
                ("description"@, Val::Text(b@)),
                ("descriptionContentType"@, Val::Text("text/html"@)),
            ],
            None => Seq::empty(),
        },
    }
}

/// The keywords that a list of categories gives: each in lower case, once.
pub open spec fn keyword_members(v: Seq<Seq<char>>) -> Members
    decreases v.len(),
{
    if v.len() == 0 {
        Seq::empty()
    } else {
        json::with_member(
            keyword_members(v.drop_last()),
            text::lowered(v.last()),
            Val::Bool(true),
        )
    }
}

/// When an event takes place.
pub open spec fn time_members(raw: CalendarItemRaw, zone: Option<Seq<char>>) -> Members {
    if raw.is_all_day_event == Some(true) {
        let span = match (raw.start, raw.end) {
            (Some(s), Some(e)) => span_days(s@, e@),
            _ => 1,
        };
        json::member_if(
            "start"@,
            match raw.start {
                Some(s) => Some(Val::Text(text::split_by(s@, 'T')[0] + "T00:00:00"@)),
                None => None,
            },
        ) + seq![
            ("showWithoutTime"@, Val::Bool(true)),
            (
                "duration"@,
                Val::Text(
                    "P"@ + text::dec(
                        if span < 1 {
                            1
                        } else {
                            span as nat
                        },
                    ) + "D"@,
                ),
            ),
        ]
    } else {
        json::member_if(
            "start"@,
            match raw.start {
                Some(s) => Some(Val::Text(local_text(s@, zone))),
                None => None,
            },
        ) + json::member_if(
            "duration"@,
            match (raw.start, raw.end) {
                (Some(s), Some(e)) => json::text_opt(duration_text(s@, e@)),
                _ => None,
            },
        ) + json::member_if("timeZone"@, json::text_opt(zone))
    }
}

pub open spec fn free_busy(raw: CalendarItemRaw) -> Option<Val> {
    match raw.legacy_free_busy_status {
        Some(s) => Some(
            Val::Text(
                if s@ == "Free"@ {
                    "free"@
                } else {
                    "busy"@
                },
            ),
        ),
        None => None,
    }
}

/// Whether an address is routed by SMTP: where nothing says otherwise.
pub open spec fn smtp_routed(routing: Option<Seq<char>>) -> bool {
    match routing {
        Some(r) => text::lowered(r) == text::lowered("SMTP"@),
        None => true,
    }
}

/// Whether a text is there and not blank.
pub open spec fn present(s: Option<Seq<char>>) -> bool {
    s matches Some(t) && text::trimmed(t).len() > 0
}

/// The calendar address of someone, and the mail address where they have one.
pub open spec fn calendar_address(
    address: Option<Seq<char>>,
    routing: Option<Seq<char>>,
    name: Option<Seq<char>>,
) -> Option<(Seq<char>, Option<Seq<char>>)> {
    if present(address) {
        if smtp_routed(routing) {
            Some(("mailto:"@ + address->0, Some(address->0)))
        } else {
            Some((jscalendar::synthetic_address(address->0), None))
        }
    } else if present(name) {
        Some((jscalendar::synthetic_address(name->0), None))
    } else {
        None
    }
}

pub open spec fn organizer_address(raw: CalendarItemRaw) -> Option<
    (Seq<char>, Option<Seq<char>>),
> {
    calendar_address(
        opt(raw.organizer_smtp),
        opt(raw.organizer_routing_type),
        opt(raw.organizer_name),
    )
}

/// The organizer as a participant.
pub open spec fn organizer_value(
    addr: Seq<char>,
    email: Option<Seq<char>>,
    name: Option<Seq<char>>,
) -> Val {
    Val::Object(
        seq![("@type"@, Val::Text("Participant"@)), ("calendarAddress"@, Val::Text(addr))]
            + json::member_if("email"@, json::text_opt(email)) + seq![
            ("roles"@, json::obj2("owner"@, Val::Bool(true), "chair"@, Val::Bool(true))),
        ] + json::member_if("name"@, json::text_opt(name)),
    )
}

/// How someone is invited.
#[derive(Clone, Copy, PartialEq, Eq, Structural, Debug)]
pub enum AttendeeRole {
    Required,
    Optional,
    Resource,
}

/// What an attendee answered.
pub open spec fn answer(response: Seq<char>) -> Seq<char> {
    if response == "Accept"@ || response == "Organizer"@ {
        "accepted"@
    } else if response == "Tentative"@ {
        "tentative"@
    } else if response == "Decline"@ {
        "declined"@
    } else {
        "needs-action"@
    }
}

/// What an attendee has by their calendar address.
pub open spec fn addressed_members(
    addr: Seq<char>,
    email: Option<Seq<char>>,
    response: Option<Seq<char>>,
    role: AttendeeRole,
) -> Members {
    seq![("calendarAddress"@, Val::Text(addr))] + json::member_if("email"@, json::text_opt(email))
        + seq![
        (
            "roles"@,
            json::obj1(
                if role == AttendeeRole::Optional {
                    "optional"@
                } else {
                    "required"@
                },
                Val::Bool(true),
            ),
        ),
        if role == AttendeeRole::Resource {
            ("kind"@, Val::Text("resource"@))
        } else {
            ("expectReply"@, Val::Bool(true))
        },
    ] + json::member_if(
        "participationStatus"@,
        match response {
            Some(r) => Some(Val::Text(answer(r))),
            None => None,
        },
    )
}

/// An attendee as a participant.
pub open spec fn attendee_value(att: RawAttendee, role: AttendeeRole) -> Val {
    Val::Object(
        seq![("@type"@, Val::Text("Participant"@))] + json::member_if(
            "name"@,
            json::text_opt(opt(att.name)),
        ) + (match calendar_address(opt(att.email), opt(att.routing_type), opt(att.name)) {
            Some((addr, email)) => addressed_members(addr, email, opt(att.response_type), role),
            None => Seq::empty(),
        }),
    )
}

/// The participants after those of a list have been added, numbered on.
pub open spec fn attendees_after(acc: Members, v: Seq<RawAttendee>, role: AttendeeRole) -> Members
    decreases v.len(),
{
    if v.len() == 0 {
        acc
    } else {
        let a = attendees_after(acc, v.drop_last(), role);
        a.push((text::dec(a.len() + 1), attendee_value(v.last(), role)))
    }
}

/// All participants of an event.
pub open spec fn participant_members(raw: CalendarItemRaw) -> Members {
    let organizer = match organizer_address(raw) {
        Some((addr, email)) => seq![
            (text::dec(1), organizer_value(addr, email, opt(raw.organizer_name))),
        ],
        None => Seq::empty(),
    };
    attendees_after(
        attendees_after(
            attendees_after(organizer, raw.required_attendees@, AttendeeRole::Required),
            raw.optional_attendees@,
            AttendeeRole::Optional,
        ),
        raw.resources@,
        AttendeeRole::Resource,
    )
}

/// The participants as an event shows them: without what they have by their
/// addresses where no organizer is known.
pub open spec fn participants_of(raw: CalendarItemRaw) -> Option<Val> {
    let all = participant_members(raw);
    json::object_opt(
        if organizer_address(raw) is Some {
            all
        } else {
            jscalendar::all_unaddressed(all)
        },
    )
}

pub open spec fn recurrence_of(raw: CalendarItemRaw) -> Option<Val> {
    match raw.recurrence {
        Some(r) => recurrence::rule_of(r),
        None => None,
    }
}

/// The reminder of an event.
pub open spec fn alerts_of(raw: CalendarItemRaw) -> Option<Val> {
    if raw.reminder_is_set == Some(true) {
        let minutes = match raw.reminder_minutes_before_start {
            Some(m) => if m > 0 {
                m as int
            } else {
                0
            },
            None => 0,
        };
        let offset = if minutes == 0 {
            "PT0S"@
        } else {
            "-PT"@ + text::dec(minutes as nat) + "M"@
        };
        Some(
            json::obj1(
                "1"@,
                json::obj3(
                    "@type"@,
                    Val::Text("Alert"@),
                    "trigger"@,
                    json::obj3(
                        "@type"@,
                        Val::Text("OffsetTrigger"@),
                        "offset"@,
                        Val::Text(offset),
                        "relativeTo"@,
                        Val::Text("start"@),
                    ),
                    "action"@,
                    Val::Text("display"@),
                ),
            ),
        )
    } else {
        None
    }
}

/// Where an event is held online.
pub open spec fn virtual_locations_of(raw: CalendarItemRaw) -> Option<Val> {
    match json::filled(
        or_else(
            or_else(opt(raw.join_online_meeting_url), opt(raw.net_show_url)),
            opt(raw.meeting_workspace_url),
        ),
    ) {
        Some(url) => Some(
            json::obj1(
                "1"@,
                Val::Object(
                    seq![("@type"@, Val::Text("VirtualLocation"@)), ("uri"@, Val::Text(url))]
                        + json::member_if(
                        "features"@,
                        if raw.is_online_meeting == Some(true) {
                            Some(json::obj1("video"@, Val::Bool(true)))
                        } else {
                            None
                        },
                    ),
                ),
            ),
        ),
        None => None,
    }
}

/// The members of the event that stands for an item, in a time zone.
pub open spec fn event_members(raw: CalendarItemRaw, zone: Option<Seq<char>>) -> Members {
    seq![("@type"@, Val::Text("Event"@)), ("uid"@, Val::Text(event_uid(raw)))] + json::member_if(
        "title"@,
        json::text_opt(opt(raw.subject)),
    ) + json::member_if("locations"@, locations_of(raw)) + description_members(raw)
        + json::member_if("created"@, stamp(opt(raw.created))) + json::member_if(
        "updated"@,
        stamp(or_else(opt(raw.last_modified), opt(raw.created))),
    ) + json::member_if("keywords"@, json::object_opt(keyword_members(text::texts(raw.categories@))))
        + time_members(raw, zone) + json::member_if("freeBusyStatus"@, free_busy(raw))
        + json::member_if(
        "organizerCalendarAddress"@,
        match organizer_address(raw) {
            Some((addr, _)) => Some(Val::Text(addr)),
            None => None,
        },
    ) + json::member_if("participants"@, participants_of(raw)) + json::member_if(
        "recurrenceRule"@,
        recurrence_of(raw),
    ) + json::member_if("alerts"@, alerts_of(raw)) + json::member_if(
        "virtualLocations"@,
        virtual_locations_of(raw),
    )
}

/// Whether an override never patches a member.
pub open spec fn override_excluded(key: Seq<char>) -> bool {
    jscalendar::override_ignored(key) || key == "created"@ || key == "updated"@
}

/// What an occurrence would have under a name if nothing had been changed.
pub open spec fn inherited(base: Members, key: Seq<char>, recurrence_id: Seq<char>) -> Option<Val> {
    if key == "start"@ {
        Some(Val::Text(recurrence_id))
    } else {
        json::lookup(base, key)
    }
}

/// Whether an occurrence's member differs from what it would inherit.
pub open spec fn changed(m: (Seq<char>, Val), base: Members, recurrence_id: Seq<char>) -> bool {
    !override_excluded(m.0) && !(inherited(base, m.0, recurrence_id) matches Some(b)
        && json::same_value(b, m.1))
}

/// The changed members of an occurrence.
pub open spec fn changed_members(occ: Members, base: Members, recurrence_id: Seq<char>) -> Members
    decreases occ.len(),
{
    if occ.len() == 0 {
        Seq::empty()
    } else {
        let rest = changed_members(occ.drop_last(), base, recurrence_id);
        if changed(occ.last(), base, recurrence_id) {
            rest.push(occ.last())
        } else {
            rest
        }
    }
}

/// Nulls for the members that an occurrence lacks.
pub open spec fn removed_members(base: Members, occ: Members) -> Members
    decreases base.len(),
{
    if base.len() == 0 {
        Seq::empty()
    } else {
        let rest = removed_members(base.drop_last(), occ);
        let key = base.last().0;
        if key != "start"@ && !override_excluded(key) && json::lookup(occ, key) is None {
            rest.push((key, Val::Null))
        } else {
            rest
        }
    }
}

/// The patch that turns the inherited occurrence into the changed one.
pub open spec fn patch_members(occ: Members, base: Members, recurrence_id: Seq<char>) -> Members {
    changed_members(occ, base, recurrence_id) + removed_members(base, occ)
}

/// The patch for an occurrence of which only the times are known.
pub open spec fn time_patch(occ: RawOccurrence, zone: Option<Seq<char>>) -> Members {
    json::member_if(
        "start"@,
        match occ.start {
            Some(s) => Some(Val::Text(local_text(s@, zone))),
            None => None,
        },
    ) + json::member_if(
        "duration"@,
        match (occ.start, occ.end) {
            (Some(s), Some(e)) => json::text_opt(duration_text(s@, e@)),
            _ => None,
        },
    )
}

/// The first item with the given identifier, if the identifier is not empty.
pub open spec fn full_item(v: Seq<CalendarItemRaw>, id: Seq<char>) -> Option<CalendarItemRaw>
    decreases v.len(),
{
    if v.len() == 0 || id.len() == 0 {
        None
    } else if v[0].id.id@ == id {
        Some(v[0])
    } else {
        full_item(v.drop_first(), id)
    }
}

/// The patch for a changed occurrence.
pub open spec fn occurrence_patch(
    occ: RawOccurrence,
    key: Seq<char>,
    base: Members,
    full: Seq<CalendarItemRaw>,
    zone: Option<Seq<char>>,
) -> Members {
    match full_item(full, occ.item_id.id@) {
        Some(item) => patch_members(event_members(item, zone), base, key),
        None => time_patch(occ, zone),
    }
}

/// The overrides for changed occurrences.
pub open spec fn modified_members(
    v: Seq<RawOccurrence>,
    base: Members,
    full: Seq<CalendarItemRaw>,
    zone: Option<Seq<char>>,
) -> Members
    decreases v.len(),
{
    if v.len() == 0 {
        Seq::empty()
    } else {
        let a = modified_members(v.drop_last(), base, full, zone);
        let occ = v.last();
        match or_else(opt(occ.original_start), opt(occ.start)) {
            Some(s) => {
                let key = local_text(s, zone);
                json::with_member(
                    a,
                    key,
                    Val::Object(occurrence_patch(occ, key, base, full, zone)),
                )
            },
            None => a,
        }
    }
}

/// The overrides with those for deleted occurrences added.
pub open spec fn deleted_members(
    acc: Members,
    v: Seq<RawOccurrence>,
    zone: Option<Seq<char>>,
) -> Members
    decreases v.len(),
{
    if v.len() == 0 {
        acc
    } else {
        let a = deleted_members(acc, v.drop_last(), zone);
        match v.last().start {
            Some(s) => json::with_member(
                a,
                local_text(s@, zone),
                json::obj1("excluded"@, Val::Bool(true)),
            ),
            None => a,
        }
    }
}

/// The overrides of a series.
pub open spec fn overrides_of(
    raw: CalendarItemRaw,
    full: Seq<CalendarItemRaw>,
    zone: Option<Seq<char>>,
) -> Option<Val> {
    json::object_opt(
        deleted_members(
            modified_members(raw.modified_occurrences@, event_members(raw, zone), full, zone),
            raw.deleted_occurrences@,
            zone,
        ),
    )
}

/// The zone in which an item's times are shown: none where the item names
/// none, else the resolved one, else UTC.
pub open spec fn shown_zone(raw: CalendarItemRaw, resolved: Option<Seq<char>>) -> Option<Seq<char>> {
    match raw.start_tz {
        Some(_) => Some(
            match resolved {
                Some(z) => z,
                None => "Etc/UTC"@,
            },
        ),
        None => None,
    }
}

/// The event that stands for an item, with its overrides.
pub open spec fn event_value(
    raw: CalendarItemRaw,
    full: Seq<CalendarItemRaw>,
    resolved: Option<Seq<char>>,
) -> Val {
    let zone = shown_zone(raw, resolved);
    Val::Object(
        event_members(raw, zone) + json::member_if(
            "recurrenceOverrides"@,
            overrides_of(raw, full, zone),
        ),
    )
}

fn opt_str(s: &Option<String>) -> (r: Option<&str>)
    ensures
        json::str_view(r) == opt(*s),
{
    match s {
        Some(t) => Some(t.as_str()),
        None => None,
    }
}

fn first_of<'a>(a: Option<&'a str>, b: Option<&'a str>) -> (r: Option<&'a str>)
    ensures
        json::str_view(r) == or_else(json::str_view(a), json::str_view(b)),
{
    match a {
        Some(x) => Some(x),
        None => b,
    }
}

fn find_last_sign(v: &Vec<char>) -> (r: Option<usize>)
    ensures
        match r {
            Some(i) => i < v@.len() && last_sign(v@) == i,
            None => last_sign(v@) == -1,
        },
{
    let mut n: usize = v.len();
    assert(v@ == v@.take(n as int));
    while n > 0
        invariant
            n <= v@.len(),
            last_sign(v@) == last_sign(v@.take(n as int)),
        decreases n,
    {
        assert(v@.take(n as int).drop_last() == v@.take(n as int - 1));
        if v[n - 1] == '+' || v[n - 1] == '-' {
            return Some(n - 1);
        }
        n = n - 1;
    }
    None
}

fn find_offset(v: &Vec<char>) -> (r: Option<usize>)
    ensures
        match r {
            Some(i) => i < v@.len() && offset_start(v@) == Some(i as int),
            None => offset_start(v@) is None,
        },
{
    match find_last_sign(v) {
        Some(i) => {
            let head: String = text::string_of(v, 0, i);
            let c: Vec<char> = text::chars_of(head.as_str());
            assert(c@ == v@.take(i as int));
            if text::byte_len_at_most(&c, 9) {
                None
            } else {
                Some(i)
            }
        },
        None => None,
    }
}

fn plain(t: &str) -> (r: String)
    ensures
        r@ == plain_text(t@),
{
    let v: Vec<char> = text::chars_of(t);
    let n: usize = if v.len() > 0 && v[v.len() - 1] == 'Z' {
        v.len() - 1
    } else {
        match find_offset(&v) {
            Some(i) => i,
            None => v.len(),
        }
    };
    let stem: String = text::string_of(&v, 0, n);
    assert(stem@ =~= without_zone(t@));
    let s: Vec<char> = text::chars_of(stem.as_str());
    let i: usize = text::find_char(&s, 'T');
    if i < s.len() {
        let date: String = text::string_of(&s, 0, i);
        let rest: String = text::string_of(&s, i + 1, s.len());
        assert(date@ =~= s@.take(i as int));
        assert(rest@ =~= s@.skip(i + 1));
        let c: Vec<char> = text::chars_of(rest.as_str());
        let dot: usize = text::find_char(&c, '.');
        let time: String = text::string_of(&c, 0, dot);
        assert(time@ =~= c@.take(dot as int));
        let mut out: String = date;
        out.append("T");
        out.append(time.as_str());
        out
    } else {
        text::joined(stem.as_str(), "T00:00:00")
    }
}

fn normalise_utc_datetime(s: &str) -> (r: String)
    ensures
        r@ == utc_text(s@),
{
    let t: String = text::trim(s);
    let p: String = plain(t.as_str());
    text::joined(p.as_str(), "Z")
}

fn to_local_datetime_in(s: &str, zone: Option<&str>) -> (r: String)
    ensures
        r@ == local_text(s@, json::str_view(zone)),
{
    let t: String = text::trim(s);
    let v: Vec<char> = text::chars_of(t.as_str());
    let anchored: bool = (v.len() > 0 && v[v.len() - 1] == 'Z') || find_offset(&v).is_some();
    if anchored {
        match zone {
            Some(z) => match instant::wall_clock(t.as_str(), z) {
                Some(out) => {
                    return out;
                },
                None => {},
            },
            None => {},
        }
    }
    plain(t.as_str())
}

fn divide(a: i128, b: i128) -> (r: i128)
    requires
        b > 0,
        a > i128::MIN,
    ensures
        r == quotient(a as int, b as int),
{
    if a >= 0 {
        assert(a / b <= a) by (nonlinear_arith)
            requires
                a >= 0,
                b > 0,
        ;
        a / b
    } else {
        let up: i128 = 0 - a;
        assert(0 <= up / b <= up) by (nonlinear_arith)
            requires
                up >= 0,
                b > 0,
        ;
        0 - up / b
    }
}

fn read_dashed_date(s: &str) -> (r: Option<(i64, u64, u64)>)
    ensures
        match r {
            Some(p) => dashed_date(s@) == Some((p.0 as int, p.1 as nat, p.2 as nat)) && p.1
                <= u32::MAX && p.2 <= u32::MAX,
            None => dashed_date(s@) is None,
        },
{
    let p: Vec<String> = text::split(s, '-');
    let ghost q = text::split_by(s@, '-');
    assert(q.len() == p@.len());
    assert(forall|k: int| 0 <= k < q.len() ==> q[k] == p@[k]@);
    if p.len() < 3 {
        return None;
    }
    match (
        text::parse_i64(p[0].as_str()),
        text::parse_unsigned(p[1].as_str(), 0xffff_ffff),
        text::parse_unsigned(p[2].as_str(), 0xffff_ffff),
    ) {
        (Some(y), Some(m), Some(d)) => Some((y, m, d)),
        _ => None,
    }
}

fn floored(a: i128, b: i128) -> (r: i128)
    requires
        0 < b <= 400,
        i64::MIN - 1 <= a <= i64::MAX,
    ensures
        r == a as int / b as int,
        i64::MIN - 1 <= r <= i64::MAX,
{
    if a >= 0 {
        assert(0 <= a as int / b as int <= a) by (nonlinear_arith)
            requires
                0 < b,
                0 <= a,
        ;
        a / b
    } else {
        let above: i128 = b - 1 - a;
        let q: i128 = above / b;
        proof {
            let rest = above as int % b as int;
            vstd::arithmetic::div_mod::lemma_fundamental_div_mod(above as int, b as int);
            assert(a == (0 - q) * b + (b - 1 - rest)) by (nonlinear_arith)
                requires
                    above == b - 1 - a,
                    above == b * q + rest,
            ;
            vstd::arithmetic::div_mod::lemma_fundamental_div_mod_converse(
                a as int,
                b as int,
                0 - q,
                b - 1 - rest,
            );
            assert(0 <= q <= 0 - a) by (nonlinear_arith)
                requires
                    0 < b,
                    a < 0,
                    q == (b - 1 - a) / b as int,
            ;
        }
        0 - q
    }
}

proof fn lemma_days_before_month(y: int, m: int)
    requires
        1 <= m <= 12,
    ensures
        civil::days_before_month(y, m) == (if m <= 2 {
            31 * (m - 1)
        } else {
            30 * (m + 1) + 3 * (m + 1) / 5 - 63 + (if civil::is_leap(y) {
                1int
            } else {
                0
            })
        }),
{
    reveal_with_fuel(civil::days_before_month, 13);
}

proof fn lemma_march_number(y: int, m: int, d: int)
    requires
        1 <= m <= 12,
    ensures
        march_number(y, m, d) == civil::day_number(y, m, d),
{
    lemma_days_before_month(y, m);
}

fn count_days(y: i64, m: u64, d: u64) -> (r: i128)
    requires
        m <= u32::MAX,
        d <= u32::MAX,
    ensures
        r == span_number(y as int, m as int, d as int),
        -0x1_0000_0000_0000_0000_0000 <= r <= 0x1_0000_0000_0000_0000_0000,
{
    let yy: i128 = if m <= 2 {
        y as i128 - 1
    } else {
        y as i128
    };
    let mm: i128 = (if m <= 2 {
        m as i128 + 12
    } else {
        m as i128
    }) + 1;
    proof {
        if 1 <= m <= 12 {
            lemma_march_number(y as int, m as int, d as int);
        }
    }
    let a: i128 = floored(yy, 4);
    let b: i128 = floored(yy, 100);
    let c: i128 = floored(yy, 400);
    365 * yy + a - b + c + 30 * mm + 3 * mm / 5 + d as i128 - 428
}

/// How many days an all-day event spans, given its first day and the day after
/// its last.
pub fn all_day_span_days(start: &str, end: &str) -> (r: u32)
    ensures
        r == span_days(start@, end@),
{
    let a: Vec<String> = text::split(start, 'T');
    let b: Vec<String> = text::split(end, 'T');
    assert(text::texts(a@)[0] == a@[0]@);
    assert(text::texts(b@)[0] == b@[0]@);
    match (read_dashed_date(a[0].as_str()), read_dashed_date(b[0].as_str())) {
        (Some(s), Some(e)) => {
            let diff: i128 = count_days(e.0, e.1, e.2) - count_days(s.0, s.1, s.2);
            if diff <= 0 {
                1
            } else {
                (diff % 0x1_0000_0000) as u32
            }
        },
        _ => 1,
    }
}

fn push_unit(out: &mut String, n: u128, unit: &str)
    ensures
        final(out)@ == old(out)@ + unit_if(n as int, unit@),
{
    let ghost before = out@;
    if n > 0 {
        let d: String = text::wide_decimal(n);
        out.append(d.as_str());
        out.append(unit);
        assert(before + d@ + unit@ =~= before + (d@ + unit@));
    } else {
        assert(before =~= before + Seq::<char>::empty());
    }
}

fn write_duration(total: u128) -> (r: String)
    ensures
        r@ == iso_duration(total as int),
{
    let h: u128 = total / 3600;
    let m: u128 = (total % 3600) / 60;
    let s: u128 = total % 60;
    let mut out: String = "PT".to_owned();
    push_unit(&mut out, h, "H");
    push_unit(&mut out, m, "M");
    let ghost before = out@;
    if s > 0 || (h == 0 && m == 0) {
        let d: String = text::wide_decimal(s);
        out.append(d.as_str());
        out.append("S");
        assert(before + d@ + "S"@ =~= before + (d@ + "S"@));
    } else {
        assert(before =~= before + Seq::<char>::empty());
    }
    out
}

fn duration_iso8601(start: &str, end: &str) -> (r: Option<String>)
    ensures
        json::text_view(r) == duration_text(start@, end@),
{
    match (instant::parse_rfc3339(start), instant::parse_rfc3339(end)) {
        (Ok(s), Ok(e)) => {
            let nanos: i128 = (e.secs as i128 - s.secs as i128) * 1_000_000_000 + (e.nanos as i128
                - s.nanos as i128);
            let total: i128 = divide(nanos, 1_000_000_000);
            if total < 0 {
                None
            } else {
                Some(write_duration(total as u128))
            }
        },
        _ => None,
    }
}

fn resolve_calendar_address(
    address: Option<&str>,
    routing: Option<&str>,
    name: Option<&str>,
) -> (r: Option<(String, Option<String>)>)
    ensures
        match r {
            Some(p) => calendar_address(
                json::str_view(address),
                json::str_view(routing),
                json::str_view(name),
            ) == Some((p.0@, opt(p.1))),
            None => calendar_address(
                json::str_view(address),
                json::str_view(routing),
                json::str_view(name),
            ) is None,
        },
{
    match address {
        Some(a) => {
            if !text::is_blank(a) {
                let routed: bool = match routing {
                    Some(rt) => text::same_ignoring_case(rt, "SMTP"),
                    None => true,
                };
                if routed {
                    return Some((text::joined("mailto:", a), Some(a.to_owned())));
                }
                return Some((jscalendar::synthetic_attendee_address(a), None));
            }
        },
        None => {},
    }
    match name {
        Some(n) => if !text::is_blank(n) {
            Some((jscalendar::synthetic_attendee_address(n), None))
        } else {
            None
        },
        None => None,
    }
}

fn make_organizer(addr: &str, email: Option<&str>, name: Option<&str>) -> (r: Json)
    ensures
        r@ == organizer_value(addr@, json::str_view(email), json::str_view(name)),
{
    let mut p: Vec<(String, Json)> = Vec::new();
    json::push_member(&mut p, "@type", json::text_json("Participant"));
    json::push_member(&mut p, "calendarAddress", json::text_json(addr));
    assert(json::members_view(p@) =~= seq![
        ("@type"@, Val::Text("Participant"@)),
        ("calendarAddress"@, Val::Text(addr@)),
    ]);
    json::push_member_if(&mut p, "email", json::text_json_opt(email));
    let ghost before = json::members_view(p@);
    let roles: Json = json::object2("owner", Json::Bool(true), "chair", Json::Bool(true));
    let ghost rv = roles@;
    json::push_member(&mut p, "roles", roles);
    assert(json::members_view(p@) =~= before + seq![("roles"@, rv)]);
    json::push_member_if(&mut p, "name", json::text_json_opt(name));
    Json::Object(p)
}

fn read_answer(response: &str) -> (r: &'static str)
    ensures
        r@ == answer(response@),
{
    if text::same(response, "Accept") || text::same(response, "Organizer") {
        "accepted"
    } else if text::same(response, "Tentative") {
        "tentative"
    } else if text::same(response, "Decline") {
        "declined"
    } else {
        "needs-action"
    }
}

fn push_addressed(
    p: &mut Vec<(String, Json)>,
    addr: &str,
    email: Option<&str>,
    response: Option<&str>,
    role: AttendeeRole,
)
    ensures
        json::members_view(final(p)@) == json::members_view(old(p)@) + addressed_members(
            addr@,
            json::str_view(email),
            json::str_view(response),
            role,
        ),
{
    let ghost start = json::members_view(p@);
    json::push_member(p, "calendarAddress", json::text_json(addr));
    let ghost s1 = seq![("calendarAddress"@, Val::Text(addr@))];
    assert(json::members_view(p@) =~= start + s1);
    json::push_member_if(p, "email", json::text_json_opt(email));
    let ghost s2 = json::member_if("email"@, json::text_opt(json::str_view(email)));
    let role_name: &str = match role {
        AttendeeRole::Optional => "optional",
        _ => "required",
    };
    let roles: Json = json::object1(role_name, Json::Bool(true));
    let ghost rv = roles@;
    json::push_member(p, "roles", roles);
    let ghost last = if role == AttendeeRole::Resource {
        ("kind"@, Val::Text("resource"@))
    } else {
        ("expectReply"@, Val::Bool(true))
    };
    if role == AttendeeRole::Resource {
        json::push_member(p, "kind", json::text_json("resource"));
    } else {
        json::push_member(p, "expectReply", Json::Bool(true));
    }
    let ghost s3 = seq![("roles"@, rv), last];
    assert(json::members_view(p@) =~= start + s1 + s2 + s3);
    let status: Option<Json> = match response {
        Some(rt) => Some(json::text_json(read_answer(rt))),
        None => None,
    };
    let ghost s4 = json::member_if("participationStatus"@, json::opt_view(status));
    json::push_member_if(p, "participationStatus", status);
    assert(start + s1 + s2 + s3 + s4 =~= start + (s1 + s2 + s3 + s4));
}

fn make_attendee(att: &RawAttendee, role: AttendeeRole) -> (r: Json)
    ensures
        r@ == attendee_value(*att, role),
{
    let mut p: Vec<(String, Json)> = Vec::new();
    json::push_member(&mut p, "@type", json::text_json("Participant"));
    assert(json::members_view(p@) =~= seq![("@type"@, Val::Text("Participant"@))]);
    json::push_member_if(&mut p, "name", json::text_json_opt(opt_str(&att.name)));
    let ghost before = json::members_view(p@);
    match resolve_calendar_address(
        opt_str(&att.email),
        opt_str(&att.routing_type),
        opt_str(&att.name),
    ) {
        Some(found) => {
            push_addressed(
                &mut p,
                found.0.as_str(),
                opt_str(&found.1),
                opt_str(&att.response_type),
                role,
            );
        },
        None => {
            assert(before =~= before + Seq::<(Seq<char>, Val)>::empty());
        },
    }
    Json::Object(p)
}

fn add_attendees(out: &mut Vec<(String, Json)>, attendees: &Vec<RawAttendee>, role: AttendeeRole)
    ensures
        json::members_view(final(out)@) == attendees_after(
            json::members_view(old(out)@),
            attendees@,
            role,
        ),
{
    let ghost start = json::members_view(out@);
    assert(attendees@.take(0).len() == 0);
    let mut i: usize = 0;
    while i < attendees.len()
        invariant
            i <= attendees@.len(),
            json::members_view(out@) == attendees_after(start, attendees@.take(i as int), role),
        decreases attendees@.len() - i,
    {
        assert(attendees@.take(i as int + 1).drop_last() == attendees@.take(i as int));
        let key: String = text::ordinal(out.len());
        json::push_member(out, key.as_str(), make_attendee(&attendees[i], role));
        i = i + 1;
    }
    assert(attendees@.take(i as int) == attendees@);
}

fn make_participants(
    raw: &CalendarItemRaw,
    organizer: &Option<(String, Option<String>)>,
) -> (r: Option<Json>)
    requires
        match *organizer {
            Some(p) => organizer_address(*raw) == Some((p.0@, opt(p.1))),
            None => organizer_address(*raw) is None,
        },
    ensures
        json::opt_view(r) == participants_of(*raw),
{
    let mut all: Vec<(String, Json)> = Vec::new();
    match organizer {
        Some(p) => {
            let value: Json = make_organizer(
                p.0.as_str(),
                opt_str(&p.1),
                opt_str(&raw.organizer_name),
            );
            let key: String = text::decimal(1);
            json::push_member(&mut all, key.as_str(), value);
            assert(json::members_view(all@) =~= seq![
                (text::dec(1), organizer_value(p.0@, opt(p.1), opt(raw.organizer_name))),
            ]);
        },
        None => {
            assert(json::members_view(all@) =~= Seq::<(Seq<char>, Val)>::empty());
        },
    }
    add_attendees(&mut all, &raw.required_attendees, AttendeeRole::Required);
    add_attendees(&mut all, &raw.optional_attendees, AttendeeRole::Optional);
    add_attendees(&mut all, &raw.resources, AttendeeRole::Resource);
    if organizer.is_none() {
        jscalendar::drop_calendar_address_dependents(&mut all);
    }
    json::object_json_opt(all)
}

fn make_keywords(categories: &Vec<String>) -> (r: Vec<(String, Json)>)
    ensures
        json::members_view(r@) == keyword_members(text::texts(categories@)),
{
    let mut out: Vec<(String, Json)> = Vec::new();
    let ghost all = text::texts(categories@);
    assert(json::members_view(out@) =~= keyword_members(all.take(0)));
    let mut i: usize = 0;
    while i < categories.len()
        invariant
            all == text::texts(categories@),
            i <= categories@.len(),
            json::members_view(out@) == keyword_members(all.take(i as int)),
        decreases categories@.len() - i,
    {
        assert(all.take(i as int + 1).drop_last() == all.take(i as int));
        let key: String = text::to_lower(categories[i].as_str());
        json::set_member(&mut out, key.as_str(), Json::Bool(true));
        i = i + 1;
    }
    assert(all.take(i as int) == all);
    out
}

fn push_time(event: &mut Vec<(String, Json)>, raw: &CalendarItemRaw, zone: Option<&str>)
    ensures
        json::members_view(final(event)@) == json::members_view(old(event)@) + time_members(
            *raw,
            json::str_view(zone),
        ),
{
    let ghost before = json::members_view(event@);
    let all_day: bool = match raw.is_all_day_event {
        Some(b) => b,
        None => false,
    };
    if all_day {
        let start: Option<Json> = match &raw.start {
            Some(s) => {
                let parts: Vec<String> = text::split(s.as_str(), 'T');
                assert(text::texts(parts@)[0] == parts@[0]@);
                let t: String = text::joined(parts[0].as_str(), "T00:00:00");
                Some(Json::Text(t))
            },
            None => None,
        };
        let ghost s1 = json::member_if("start"@, json::opt_view(start));
        json::push_member_if(event, "start", start);
        json::push_member(event, "showWithoutTime", Json::Bool(true));
        let span: u32 = match (&raw.start, &raw.end) {
            (Some(s), Some(e)) => all_day_span_days(s.as_str(), e.as_str()),
            _ => 1,
        };
        let days: u64 = if span < 1 {
            1
        } else {
            span as u64
        };
        let d: String = text::decimal(days);
        let head: String = text::joined("P", d.as_str());
        let duration: String = text::joined(head.as_str(), "D");
        let ghost dv = duration@;
        json::push_member(event, "duration", Json::Text(duration));
        assert(json::members_view(event@) =~= before + (s1 + seq![
            ("showWithoutTime"@, Val::Bool(true)),
            ("duration"@, Val::Text(dv)),
        ]));
    } else {
        let start: Option<Json> = match &raw.start {
            Some(s) => {
                let t: String = to_local_datetime_in(s.as_str(), zone);
                Some(Json::Text(t))
            },
            None => None,
        };
        let ghost s1 = json::member_if("start"@, json::opt_view(start));
        json::push_member_if(event, "start", start);
        let duration: Option<Json> = match (&raw.start, &raw.end) {
            (Some(s), Some(e)) => match duration_iso8601(s.as_str(), e.as_str()) {
                Some(d) => Some(Json::Text(d)),
                None => None,
            },
            _ => None,
        };
        let ghost s2 = json::member_if("duration"@, json::opt_view(duration));
        json::push_member_if(event, "duration", duration);
        json::push_member_if(event, "timeZone", json::text_json_opt(zone));
        let ghost s3 = json::member_if("timeZone"@, json::text_opt(json::str_view(zone)));
        assert(before + s1 + s2 + s3 =~= before + (s1 + s2 + s3));
    }
}

fn push_description(event: &mut Vec<(String, Json)>, raw: &CalendarItemRaw)
    ensures
        json::members_view(final(event)@) == json::members_view(old(event)@) + description_members(
            *raw,
        ),
{
    let ghost before = json::members_view(event@);
    match &raw.body_text {
        Some(b) => {
            json::push_member(event, "description", json::text_json(b.as_str()));
        },
        None => match &raw.body_html {
            Some(b) => {
                json::push_member(event, "description", json::text_json(b.as_str()));
                json::push_member(event, "descriptionContentType", json::text_json("text/html"));
            },
            None => {},
        },
    }
    assert(json::members_view(event@) =~= before + description_members(*raw));
}

fn make_stamp(s: Option<&str>) -> (r: Option<Json>)
    ensures
        json::opt_view(r) == stamp(json::str_view(s)),
{
    match s {
        Some(t) => {
            let u: String = normalise_utc_datetime(t);
            Some(Json::Text(u))
        },
        None => None,
    }
}

fn make_alerts(raw: &CalendarItemRaw) -> (r: Option<Json>)
    ensures
        json::opt_view(r) == alerts_of(*raw),
{
    let set: bool = match raw.reminder_is_set {
        Some(b) => b,
        None => false,
    };
    if !set {
        return None;
    }
    let minutes: u64 = match raw.reminder_minutes_before_start {
        Some(m) => if m > 0 {
            m as u64
        } else {
            0
        },
        None => 0,
    };
    let offset: String = if minutes == 0 {
        "PT0S".to_owned()
    } else {
        let d: String = text::decimal(minutes);
        let head: String = text::joined("-PT", d.as_str());
        text::joined(head.as_str(), "M")
    };
    Some(
        json::object1(
            "1",
            json::object3(
                "@type",
                json::text_json("Alert"),
                "trigger",
                json::object3(
                    "@type",
                    json::text_json("OffsetTrigger"),
                    "offset",
                    Json::Text(offset),
                    "relativeTo",
                    json::text_json("start"),
                ),
                "action",
                json::text_json("display"),
            ),
        ),
    )
}

fn make_virtual_locations(raw: &CalendarItemRaw) -> (r: Option<Json>)
    ensures
        json::opt_view(r) == virtual_locations_of(*raw),
{
    let found: Option<&str> = first_of(
        first_of(opt_str(&raw.join_online_meeting_url), opt_str(&raw.net_show_url)),
        opt_str(&raw.meeting_workspace_url),
    );
    let url: &str = match found {
        Some(u) => u,
        None => {
            return None;
        },
    };
    if url.is_empty() {
        return None;
    }
    let mut vl: Vec<(String, Json)> = Vec::new();
    json::push_member(&mut vl, "@type", json::text_json("VirtualLocation"));
    json::push_member(&mut vl, "uri", json::text_json(url));
    assert(json::members_view(vl@) =~= seq![
        ("@type"@, Val::Text("VirtualLocation"@)),
        ("uri"@, Val::Text(url@)),
    ]);
    let online: bool = match raw.is_online_meeting {
        Some(b) => b,
        None => false,
    };
    let features: Option<Json> = if online {
        Some(json::object1("video", Json::Bool(true)))
    } else {
        None
    };
    json::push_member_if(&mut vl, "features", features);
    Some(json::object1("1", Json::Object(vl)))
}

fn make_locations(raw: &CalendarItemRaw) -> (r: Option<Json>)
    ensures
        json::opt_view(r) == locations_of(*raw),
{
    match &raw.location {
        Some(l) => Some(
            json::object1(
                "1",
                json::object2(
                    "@type",
                    json::text_json("Location"),
                    "name",
                    json::text_json(l.as_str()),
                ),
            ),
        ),
        None => None,
    }
}

fn make_free_busy(raw: &CalendarItemRaw) -> (r: Option<Json>)
    ensures
        json::opt_view(r) == free_busy(*raw),
{
    match &raw.legacy_free_busy_status {
        Some(s) => Some(
            json::text_json(
                if text::same(s.as_str(), "Free") {
                    "free"
                } else {
                    "busy"
                },
            ),
        ),
        None => None,
    }
}

/// The members of the event that stands for an item, with its times shown in
/// the given zone.
pub fn build_event_map(raw: &CalendarItemRaw, zone: Option<&str>) -> (r: Vec<(String, Json)>)
    ensures
        json::members_view(r@) == event_members(*raw, json::str_view(zone)),
{
    let uid: String = match &raw.uid {
        Some(u) => u.clone(),
        None => crate::digest::digest_named("vandelay-ews-event-", raw.id.id.as_str()),
    };
    let ghost uid_view = uid@;
    let mut event: Vec<(String, Json)> = Vec::new();
    json::push_member(&mut event, "@type", json::text_json("Event"));
    json::push_member(&mut event, "uid", Json::Text(uid));
    assert(json::members_view(event@) =~= seq![
        ("@type"@, Val::Text("Event"@)),
        ("uid"@, Val::Text(event_uid(*raw))),
    ]);
    json::push_member_if(&mut event, "title", json::text_json_opt(opt_str(&raw.subject)));
    json::push_member_if(&mut event, "locations", make_locations(raw));
    push_description(&mut event, raw);
    json::push_member_if(&mut event, "created", make_stamp(opt_str(&raw.created)));
    json::push_member_if(
        &mut event,
        "updated",
        make_stamp(first_of(opt_str(&raw.last_modified), opt_str(&raw.created))),
    );
    json::push_member_if(
        &mut event,
        "keywords",
        json::object_json_opt(make_keywords(&raw.categories)),
    );
    push_time(&mut event, raw, zone);
    json::push_member_if(&mut event, "freeBusyStatus", make_free_busy(raw));
    let organizer: Option<(String, Option<String>)> = resolve_calendar_address(
        opt_str(&raw.organizer_smtp),
        opt_str(&raw.organizer_routing_type),
        opt_str(&raw.organizer_name),
    );
    let address: Option<Json> = match &organizer {
        Some(p) => Some(json::text_json(p.0.as_str())),
        None => None,
    };
    json::push_member_if(&mut event, "organizerCalendarAddress", address);
    json::push_member_if(&mut event, "participants", make_participants(raw, &organizer));
    let rule: Option<Json> = match &raw.recurrence {
        Some(r) => recurrence::to_jscalendar_rule(r),
        None => None,
    };
    json::push_member_if(&mut event, "recurrenceRule", rule);
    json::push_member_if(&mut event, "alerts", make_alerts(raw));
    json::push_member_if(&mut event, "virtualLocations", make_virtual_locations(raw));
    event
}

fn is_override_excluded(key: &str) -> (r: bool)
    ensures
        r == override_excluded(key@),
{
    jscalendar::is_override_ignored(key) || text::same(key, "created") || text::same(
        key,
        "updated",
    )
}

fn is_changed(
    key: &str,
    value: &Json,
    base: &Vec<(String, Json)>,
    recurrence_id: &str,
) -> (r: bool)
    ensures
        r == changed((key@, value@), json::members_view(base@), recurrence_id@),
{
    if is_override_excluded(key) {
        return false;
    }
    if text::same(key, "start") {
        let inherited_start: Json = json::text_json(recurrence_id);
        !inherited_start.same_as(value)
    } else {
        let i: usize = json::find_member(base, key);
        if i < base.len() {
            !base[i].1.same_as(value)
        } else {
            true
        }
    }
}

/// The patch that turns the occurrence that a series would have into the one
/// it has.
pub fn override_patch(
    occ_event: &Vec<(String, Json)>,
    base_event: &Vec<(String, Json)>,
    recurrence_id: &str,
) -> (r: Vec<(String, Json)>)
    ensures
        json::members_view(r@) == patch_members(
            json::members_view(occ_event@),
            json::members_view(base_event@),
            recurrence_id@,
        ),
{
    let ghost occ = json::members_view(occ_event@);
    let ghost base = json::members_view(base_event@);
    let mut patch: Vec<(String, Json)> = Vec::new();
    assert(json::members_view(patch@) =~= changed_members(occ.take(0), base, recurrence_id@));
    let mut i: usize = 0;
    while i < occ_event.len()
        invariant
            occ == json::members_view(occ_event@),
            base == json::members_view(base_event@),
            i <= occ_event@.len(),
            json::members_view(patch@) == changed_members(occ.take(i as int), base, recurrence_id@),
        decreases occ_event@.len() - i,
    {
        assert(occ.take(i as int + 1).drop_last() == occ.take(i as int));
        assert(occ[i as int] == (occ_event@[i as int].0@, occ_event@[i as int].1@));
        if is_changed(occ_event[i].0.as_str(), &occ_event[i].1, base_event, recurrence_id) {
            json::push_member(&mut patch, occ_event[i].0.as_str(), occ_event[i].1.dup());
        }
        i = i + 1;
    }
    assert(occ.take(i as int) == occ);
    let ghost head = json::members_view(patch@);
    assert(head + removed_members(base.take(0), occ) =~= head);
    let mut j: usize = 0;
    while j < base_event.len()
        invariant
            occ == json::members_view(occ_event@),
            base == json::members_view(base_event@),
            j <= base_event@.len(),
            json::members_view(patch@) == head + removed_members(base.take(j as int), occ),
        decreases base_event@.len() - j,
    {
        assert(base.take(j as int + 1).drop_last() == base.take(j as int));
        assert(base[j as int].0 == base_event@[j as int].0@);
        let key: &str = base_event[j].0.as_str();
        if !text::same(key, "start") && !is_override_excluded(key) {
            let at: usize = json::find_member(occ_event, key);
            if at >= occ_event.len() {
                let ghost before = removed_members(base.take(j as int), occ);
                json::push_member(&mut patch, key, Json::Null);
                assert((head + before).push((key@, Val::Null)) =~= head + before.push(
                    (key@, Val::Null),
                ));
            }
        }
        j = j + 1;
    }
    assert(base.take(j as int) == base);
    patch
}

fn time_only_patch(occ: &RawOccurrence, zone: Option<&str>) -> (r: Vec<(String, Json)>)
    ensures
        json::members_view(r@) == time_patch(*occ, json::str_view(zone)),
{
    let mut o: Vec<(String, Json)> = Vec::new();
    let start: Option<Json> = match &occ.start {
        Some(s) => {
            let t: String = to_local_datetime_in(s.as_str(), zone);
            Some(Json::Text(t))
        },
        None => None,
    };
    let ghost s1 = json::member_if("start"@, json::opt_view(start));
    assert(json::members_view(o@) + s1 =~= s1);
    json::push_member_if(&mut o, "start", start);
    let duration: Option<Json> = match (&occ.start, &occ.end) {
        (Some(s), Some(e)) => match duration_iso8601(s.as_str(), e.as_str()) {
            Some(d) => Some(Json::Text(d)),
            None => None,
        },
        _ => None,
    };
    json::push_member_if(&mut o, "duration", duration);
    o
}

fn find_full<'a>(v: &'a Vec<CalendarItemRaw>, id: &str) -> (r: Option<&'a CalendarItemRaw>)
    ensures
        match r {
            Some(item) => full_item(v@, id@) == Some(*item),
            None => full_item(v@, id@) is None,
        },
{
    if id.is_empty() {
        return None;
    }
    let mut i: usize = 0;
    assert(v@.skip(0) == v@);
    while i < v.len()
        invariant
            i <= v@.len(),
            id@.len() > 0,
            full_item(v@, id@) == full_item(v@.skip(i as int), id@),
        decreases v@.len() - i,
    {
        if text::same(v[i].id.id.as_str(), id) {
            return Some(&v[i]);
        }
        assert(v@.skip(i as int).drop_first() == v@.skip(i as int + 1));
        i = i + 1;
    }
    None
}

fn build_recurrence_overrides(
    base_event: &Vec<(String, Json)>,
    raw: &CalendarItemRaw,
    modified_full: &Vec<CalendarItemRaw>,
    zone: Option<&str>,
) -> (r: Option<Json>)
    requires
        json::members_view(base_event@) == event_members(*raw, json::str_view(zone)),
    ensures
        json::opt_view(r) == overrides_of(*raw, modified_full@, json::str_view(zone)),
{
    let ghost base = json::members_view(base_event@);
    let ghost z = json::str_view(zone);
    let ghost m = raw.modified_occurrences@;
    let ghost d = raw.deleted_occurrences@;
    let mut map: Vec<(String, Json)> = Vec::new();
    assert(json::members_view(map@) =~= modified_members(m.take(0), base, modified_full@, z));
    let mut i: usize = 0;
    while i < raw.modified_occurrences.len()
        invariant
            base == json::members_view(base_event@),
            z == json::str_view(zone),
            m == raw.modified_occurrences@,
            i <= m.len(),
            json::members_view(map@) == modified_members(m.take(i as int), base, modified_full@, z),
        decreases m.len() - i,
    {
        assert(m.take(i as int + 1).drop_last() == m.take(i as int));
        let occ: &RawOccurrence = &raw.modified_occurrences[i];
        match first_of(opt_str(&occ.original_start), opt_str(&occ.start)) {
            Some(s) => {
                let key: String = to_local_datetime_in(s, zone);
                let patch: Vec<(String, Json)> = match find_full(
                    modified_full,
                    occ.item_id.id.as_str(),
                ) {
                    Some(full) => {
                        let occ_event: Vec<(String, Json)> = build_event_map(full, zone);
                        override_patch(&occ_event, base_event, key.as_str())
                    },
                    None => time_only_patch(occ, zone),
                };
                json::set_member(&mut map, key.as_str(), Json::Object(patch));
            },
            None => {},
        }
        i = i + 1;
    }
    assert(m.take(i as int) == m);
    let ghost acc = json::members_view(map@);
    assert(d.take(0).len() == 0);
    let mut j: usize = 0;
    while j < raw.deleted_occurrences.len()
        invariant
            z == json::str_view(zone),
            d == raw.deleted_occurrences@,
            j <= d.len(),
            json::members_view(map@) == deleted_members(acc, d.take(j as int), z),
        decreases d.len() - j,
    {
        assert(d.take(j as int + 1).drop_last() == d.take(j as int));
        match &raw.deleted_occurrences[j].start {
            Some(s) => {
                let key: String = to_local_datetime_in(s.as_str(), zone);
                json::set_member(
                    &mut map,
                    key.as_str(),
                    json::object1("excluded", Json::Bool(true)),
                );
            },
            None => {},
        }
        j = j + 1;
    }
    assert(d.take(j as int) == d);
    json::object_json_opt(map)
}

/// The event that stands for a calendar item, with overrides for the changed
/// and deleted occurrences of a series. `resolved` is the time zone database's
/// name for the item's zone, if it has one.
pub fn to_jscalendar_with_exceptions(
    raw: &CalendarItemRaw,
    modified_full: &Vec<CalendarItemRaw>,
    resolved: Option<&str>,
) -> (r: EventValue)
    ensures
        r.data@ == event_value(*raw, modified_full@, json::str_view(resolved)),
        !r.is_draft,
        !r.use_default_alerts,
{
    let zone: Option<&str> = match &raw.start_tz {
        Some(_) => match resolved {
            Some(z) => Some(z),
            None => Some("Etc/UTC"),
        },
        None => None,
    };
    let mut event: Vec<(String, Json)> = build_event_map(raw, zone);
    let overrides: Option<Json> = build_recurrence_overrides(&event, raw, modified_full, zone);
    json::push_member_if(&mut event, "recurrenceOverrides", overrides);
    EventValue { data: Json::Object(event), is_draft: false, use_default_alerts: false }
}

/// The event that stands for a calendar item.
pub fn to_jscalendar(raw: &CalendarItemRaw, resolved: Option<&str>) -> (r: EventValue)
    ensures
        r.data@ == event_value(*raw, Seq::empty(), json::str_view(resolved)),
        !r.is_draft,
        !r.use_default_alerts,
{
    let none: Vec<CalendarItemRaw> = Vec::new();
    to_jscalendar_with_exceptions(raw, &none, resolved)
}

proof fn lemma_changed_names(occ: Members, base: Members, recurrence_id: Seq<char>)
    ensures
        forall|i: int|
            0 <= i < changed_members(occ, base, recurrence_id).len() ==> !override_excluded(
                (#[trigger] changed_members(occ, base, recurrence_id)[i]).0,
            ),
    decreases occ.len(),
{
    if occ.len() > 0 {
        let rest = changed_members(occ.drop_last(), base, recurrence_id);
        let all = changed_members(occ, base, recurrence_id);
        lemma_changed_names(occ.drop_last(), base, recurrence_id);
        assert forall|i: int| 0 <= i < all.len() implies !override_excluded(
            (#[trigger] all[i]).0,
        ) by {
            if i < rest.len() {
                assert(all[i] == rest[i]);
            }
        }
    }
}

proof fn lemma_removed_names(base: Members, occ: Members)
    ensures
        forall|i: int|
            0 <= i < removed_members(base, occ).len() ==> !override_excluded(
                (#[trigger] removed_members(base, occ)[i]).0,
            ),
    decreases base.len(),
{
    if base.len() > 0 {
        let rest = removed_members(base.drop_last(), occ);
        let all = removed_members(base, occ);
        lemma_removed_names(base.drop_last(), occ);
        assert forall|i: int| 0 <= i < all.len() implies !override_excluded(
            (#[trigger] all[i]).0,
        ) by {
            if i < rest.len() {
                assert(all[i] == rest[i]);
            }
        }
    }
}

proof fn lemma_day_bounds(y: int, m: int, d: int)
    requires
        civil::valid_ymd(y, m, d),
    ensures
        -0x4000_0000 <= civil::day_number(y, m, d) <= 0x4000_0000,
{
    lemma_days_before_month(y, m);
    let b = y - 1;
    assert(-66000 <= b / 4 <= 66000);
    assert(-2700 <= b / 100 <= 2700);
    assert(-700 <= b / 400 <= 700);
    assert(0 <= civil::days_before_month(y, m) <= 400);
}

/// An all-day event between two dates of the calendar lasts from the first up to
/// the day before the second, and at least one day.
pub proof fn spans_count_the_days_of_the_calendar(
    start: Seq<char>,
    end: Seq<char>,
    s: (int, nat, nat),
    e: (int, nat, nat),
)
    requires
        dashed_date(text::split_by(start, 'T')[0]) == Some(s),
        dashed_date(text::split_by(end, 'T')[0]) == Some(e),
        civil::valid_ymd(s.0, s.1 as int, s.2 as int),
        civil::valid_ymd(e.0, e.1 as int, e.2 as int),
    ensures
        span_days(start, end) == ({
            let diff = civil::day_number(e.0, e.1 as int, e.2 as int) - civil::day_number(
                s.0,
                s.1 as int,
                s.2 as int,
            );
            if diff < 1 {
                1
            } else {
                diff
            }
        }),
{
    lemma_day_bounds(s.0, s.1 as int, s.2 as int);
    lemma_day_bounds(e.0, e.1 as int, e.2 as int);
    let a = span_number(s.0, s.1 as int, s.2 as int);
    let b = span_number(e.0, e.1 as int, e.2 as int);
    assert(-0x4000_0000 <= a <= 0x4000_0000 && -0x4000_0000 <= b <= 0x4000_0000);
    assert(0 < b - a ==> (b - a) % 0x1_0000_0000 == b - a);
}

/// The patch of an override holds none of the pointers that overrides ignore,
/// and neither the time of creation nor that of the last change.
pub proof fn patches_never_hold_ignored_pointers(
    occ: Members,
    base: Members,
    recurrence_id: Seq<char>,
    i: int,
)
    requires
        0 <= i < patch_members(occ, base, recurrence_id).len(),
    ensures
        !jscalendar::override_ignored(patch_members(occ, base, recurrence_id)[i].0),
        patch_members(occ, base, recurrence_id)[i].0 != "created"@,
        patch_members(occ, base, recurrence_id)[i].0 != "updated"@,
{
    lemma_changed_names(occ, base, recurrence_id);
    lemma_removed_names(base, occ);
    let a = changed_members(occ, base, recurrence_id);
    let b = removed_members(base, occ);
    if i < a.len() {
        assert(patch_members(occ, base, recurrence_id)[i] == a[i]);
    } else {
        assert(patch_members(occ, base, recurrence_id)[i] == b[i - a.len()]);
    }
}

proof fn lemma_changed_lookup(
    occ: Members,
    base: Members,
    recurrence_id: Seq<char>,
    key: Seq<char>,
)
    requires
        jscalendar::distinct_names(occ),
    ensures
        json::lookup(changed_members(occ, base, recurrence_id), key) == (match json::lookup(
            occ,
            key,
        ) {
            Some(v) => if changed((key, v), base, recurrence_id) {
                Some(v)
            } else {
                None
            },
            None => None,
        }),
    decreases occ.len(),
{
    if occ.len() > 0 {
        let init = occ.drop_last();
        let tail = seq![occ.last()];
        let rest = changed_members(init, base, recurrence_id);
        lemma_changed_lookup(init, base, recurrence_id, key);
        assert(occ =~= init + tail);
        json::lemma_lookup_concat(init, tail, key);
        json::lemma_lookup_concat(rest, tail, key);
        assert(rest.push(occ.last()) =~= rest + tail);
        assert(tail.drop_first() =~= Seq::empty());
        reveal_with_fuel(json::lookup, 2);
        if occ.last().0 == key {
            json::lemma_position(init, key, init.len() as int);
        }
    }
}

proof fn lemma_removed_lookup(base: Members, occ: Members, key: Seq<char>)
    ensures
        json::lookup(removed_members(base, occ), key) == (if json::lookup(base, key) is Some && key
            != "start"@ && !override_excluded(key) && json::lookup(occ, key) is None {
            Some(Val::Null)
        } else {
            None
        }),
    decreases base.len(),
{
    if base.len() > 0 {
        let init = base.drop_last();
        let tail = seq![base.last()];
        let null = seq![(base.last().0, Val::Null)];
        let rest = removed_members(init, occ);
        lemma_removed_lookup(init, occ, key);
        assert(base =~= init + tail);
        json::lemma_lookup_concat(init, tail, key);
        json::lemma_lookup_concat(rest, null, key);
        assert(rest.push(null[0]) =~= rest + null);
        assert(tail.drop_first() =~= Seq::empty());
        assert(null.drop_first() =~= Seq::empty());
        reveal_with_fuel(json::lookup, 2);
    }
}

/// What an occurrence has under a name once a patch was applied to what it
/// inherits: a null takes the member away.
pub open spec fn patched(
    patch: Members,
    base: Members,
    recurrence_id: Seq<char>,
    key: Seq<char>,
) -> Option<Val> {
    match json::lookup(patch, key) {
        Some(Val::Null) => None,
        Some(v) => Some(v),
        None => inherited(base, key, recurrence_id),
    }
}

/// The patch of an override, applied to the series, gives back the occurrence:
/// each member that overrides may hold has the occurrence's value, and one that
/// the occurrence lacks is gone. (An occurrence without a start keeps the one
/// that it inherits, and a null in an occurrence reads as a missing member.)
pub proof fn patches_give_back_the_occurrence(
    occ: Members,
    base: Members,
    recurrence_id: Seq<char>,
    key: Seq<char>,
)
    requires
        jscalendar::distinct_names(occ),
        !override_excluded(key),
        json::lookup(occ, key) != Some(Val::Null),
    ensures
        match (
            json::lookup(occ, key),
            patched(patch_members(occ, base, recurrence_id), base, recurrence_id, key),
        ) {
            (Some(v), Some(p)) => p == v || json::same_value(p, v),
            (Some(_), None) => false,
            (None, Some(p)) => key == "start"@ && p == Val::Text(recurrence_id),
            (None, None) => key != "start"@,
        },
{
    lemma_changed_lookup(occ, base, recurrence_id, key);
    lemma_removed_lookup(base, occ, key);
    json::lemma_lookup_concat(
        changed_members(occ, base, recurrence_id),
        removed_members(base, occ),
        key,
    );
}

} // verus!

//! Events from Microsoft Graph: which are fetched, and how changed and deleted
//! occurrences of a series are recorded.

use crate::civil;
use crate::civil::Date;
use crate::db::exchange_graph_ids;
use crate::db::exchange_graph_ids::IdRow;
use crate::encoding;
use crate::exchange::jscalendar;
use crate::exchange_graph::expand;
use crate::instant;
use crate::json;
use crate::json::{Json, Members, Val};
use crate::sync::TypeCounts;
use crate::text;
use vstd::prelude::*;

verus! {

/// The longest window that Microsoft Graph expands a calendar in, in days.
pub const EXCEPTION_WINDOW_MAX_DAYS: i64 = 1825;

/// An event as it is stored.
#[derive(Debug)]
pub struct ConvertedEvent {
    pub data: Json,
    pub is_draft: bool,
    pub use_default_alerts: bool,
    pub series_master_id: Option<String>,
    pub original_start: Option<String>,
}

/// What an event that is stored holds.
#[verifier::ext_equal]
pub struct ConvertedVal {
    pub data: Val,
    pub is_draft: bool,
    pub use_default_alerts: bool,
    pub series_master_id: Option<Seq<char>>,
    pub original_start: Option<Seq<char>>,
}

impl View for ConvertedEvent {
    type V = ConvertedVal;

    open spec fn view(&self) -> ConvertedVal {
        ConvertedVal {
            data: self.data@,
            is_draft: self.is_draft,
            use_default_alerts: self.use_default_alerts,
            series_master_id: json::text_view(self.series_master_id),
            original_start: json::text_view(self.original_start),
        }
    }
}

/// What several events hold.
pub open spec fn event_views(v: Seq<ConvertedEvent>) -> Seq<ConvertedVal> {
    Seq::new(v.len(), |i: int| v[i]@)
}

fn dup_text(t: &Option<String>) -> (r: Option<String>)
    ensures
        json::text_view(r) == json::text_view(*t),
{
    match t {
        Some(s) => Some(s.as_str().to_owned()),
        None => None,
    }
}

impl ConvertedEvent {
    /// A copy of the event.
    pub fn dup(&self) -> (r: ConvertedEvent)
        ensures
            r@ == self@,
    {
        ConvertedEvent {
            data: self.data.dup(),
            is_draft: self.is_draft,
            use_default_alerts: self.use_default_alerts,
            series_master_id: dup_text(&self.series_master_id),
            original_start: dup_text(&self.original_start),
        }
    }
}

/// A file that is attached to an event.
#[derive(Debug)]
pub struct EventAttachment {
    pub name: String,
    pub content_type: String,
    pub bytes: Vec<u8>,
}

/// What a file that is attached to an event holds.
pub struct AttachmentVal {
    pub name: Seq<char>,
    pub content_type: Seq<char>,
    pub bytes: Seq<u8>,
}

impl View for EventAttachment {
    type V = AttachmentVal;

    open spec fn view(&self) -> AttachmentVal {
        AttachmentVal {
            name: self.name@,
            content_type: self.content_type@,
            bytes: self.bytes@,
        }
    }
}

/// What several files hold.
pub open spec fn attachment_views(v: Seq<EventAttachment>) -> Seq<AttachmentVal> {
    Seq::new(v.len(), |i: int| v[i]@)
}

/// A text member, or a text in its place.
pub open spec fn text_or(v: Val, key: Seq<char>, other: Seq<char>) -> Seq<char> {
    match v.text_at(key) {
        Some(t) => t,
        None => other,
    }
}

pub(crate) fn text_at_or(v: &Json, key: &str, other: &str) -> (r: String)
    ensures
        r@ == text_or(v@, key@, other@),
{
    match v.text_at(key) {
        Some(t) => t.to_owned(),
        None => other.to_owned(),
    }
}

/// The file that an item of a listing is, given its bytes: a file attachment
/// that is not empty.
pub open spec fn file_of(item: Val, bytes: Option<Seq<u8>>) -> Option<AttachmentVal> {
    if item.text_at("@odata.type"@) == Some("#microsoft.graph.fileAttachment"@) && item.text_at(
        "contentBytes"@,
    ) is Some {
        match bytes {
            Some(b) => if b.len() == 0 {
                None
            } else {
                Some(
                    AttachmentVal {
                        name: text_or(item, "name"@, "attachment"@),
                        content_type: text_or(item, "contentType"@, "application/octet-stream"@),
                        bytes: b,
                    },
                )
            },
            None => None,
        }
    } else {
        None
    }
}

/// The bytes that an item of a listing holds.
pub open spec fn item_bytes(item: Val) -> Option<Seq<u8>> {
    match item.text_at("contentBytes"@) {
        Some(t) => encoding::base64_bytes(t),
        None => None,
    }
}

/// The files that a listing holds.
pub open spec fn files_of(items: Seq<Val>) -> Seq<AttachmentVal>
    decreases items.len(),
{
    if items.len() == 0 {
        Seq::empty()
    } else {
        match file_of(items.last(), item_bytes(items.last())) {
            Some(f) => files_of(items.drop_last()).push(f),
            None => files_of(items.drop_last()),
        }
    }
}

/// Reads a file from an item of a listing, given its bytes.
pub fn read_file(item: &Json, bytes: Option<Vec<u8>>) -> (r: Option<EventAttachment>)
    ensures
        match r {
            Some(f) => file_of(item@, encoding::bytes_view(bytes)) == Some(f@),
            None => file_of(item@, encoding::bytes_view(bytes)) is None,
        },
{
    match item.text_at("@odata.type") {
        Some(t) => {
            if !text::same(t, "#microsoft.graph.fileAttachment") {
                return None;
            }
        },
        None => {
            return None;
        },
    }
    if item.text_at("contentBytes").is_none() {
        return None;
    }
    match bytes {
        Some(b) => {
            if b.len() == 0 {
                return None;
            }
            Some(
                EventAttachment {
                    name: text_at_or(item, "name", "attachment"),
                    content_type: text_at_or(item, "contentType", "application/octet-stream"),
                    bytes: b,
                },
            )
        },
        None => None,
    }
}

/// Reads the files that are attached to an event from their listing.
pub fn event_attachments(body: &Json) -> (r: Vec<EventAttachment>)
    ensures
        attachment_views(r@) == (match body@.list_at("value"@) {
            Some(items) => files_of(items),
            None => Seq::empty(),
        }),
{
    let mut out: Vec<EventAttachment> = Vec::new();
    assert(attachment_views(out@) =~= Seq::empty());
    let items: &Vec<Json> = match body.list_at("value") {
        Some(l) => l,
        None => {
            return out;
        },
    };
    let ghost all = json::list_view(items@);
    let mut i: usize = 0;
    assert(all.take(0) =~= Seq::empty());
    while i < items.len()
        invariant
            i <= items@.len(),
            all == json::list_view(items@),
            all.len() == items@.len(),
            attachment_views(out@) == files_of(all.take(i as int)),
        decreases items@.len() - i,
    {
        assert(all.take(i as int + 1).drop_last() =~= all.take(i as int));
        assert(all.take(i as int + 1).last() == items@[i as int]@);
        let bytes: Option<Vec<u8>> = match items[i].text_at("contentBytes") {
            Some(t) => encoding::decode_base64(t),
            None => None,
        };
        if let Some(f) = read_file(&items[i], bytes) {
            let ghost before = attachment_views(out@);
            out.push(f);
            assert(attachment_views(out@) =~= before.push(f@));
        }
        i = i + 1;
    }
    assert(all.take(i as int) =~= all);
    out
}

/// Whether the attachments of an event are fetched.
pub fn wants_attachments(raw: &Json, asked_for: bool) -> (r: bool)
    ensures
        r == (asked_for && raw@.bool_at("hasAttachments"@) == Some(true)),
{
    match raw.bool_at("hasAttachments") {
        Some(b) => b && asked_for,
        None => false,
    }
}

/// What kind of event it is.
#[derive(Clone, Copy, PartialEq, Eq, Structural, Debug)]
pub enum EventType {
    Single,
    Occurrence,
    Exception,
    SeriesMaster,
}

/// What kind of event an entry describes.
pub open spec fn event_type(v: Val) -> EventType {
    match v.text_at("type"@) {
        Some(t) => if t == "occurrence"@ {
            EventType::Occurrence
        } else if t == "exception"@ {
            EventType::Exception
        } else if t == "seriesMaster"@ {
            EventType::SeriesMaster
        } else {
            EventType::Single
        },
        None => EventType::Single,
    }
}

/// Reads what kind of event an entry describes.
pub fn classify_event_type(v: &Json) -> (r: EventType)
    ensures
        r == event_type(v@),
{
    match v.text_at("type") {
        Some(t) => {
            if text::same(t, "occurrence") {
                EventType::Occurrence
            } else if text::same(t, "exception") {
                EventType::Exception
            } else if text::same(t, "seriesMaster") {
                EventType::SeriesMaster
            } else {
                EventType::Single
            }
        },
        None => EventType::Single,
    }
}

/// Which events of the server are known, and which will be fetched.
#[derive(Debug)]
pub struct EventPlan {
    /// Events that the server has.
    pub server: Vec<String>,
    /// Events that will be fetched, from all calendars.
    pub planned: Vec<String>,
}

/// What is done about the events of one calendar.
#[derive(Debug)]
pub struct CalendarPlan {
    pub want_ids: Vec<String>,
    pub series_masters: Vec<String>,
    pub occurrences: u64,
    pub fetched: u64,
}

/// A plan, as texts and numbers.
pub struct PlanVal {
    pub server: Seq<Seq<char>>,
    pub planned: Seq<Seq<char>>,
    pub want: Seq<Seq<char>>,
    pub masters: Seq<Seq<char>>,
    pub occurrences: nat,
    pub fetched: nat,
}

/// A plan after one more entry of a calendar: occurrences of a series are not
/// fetched, an event that the archive has is counted, any other event is
/// fetched once.
pub open spec fn planned_entry(p: PlanVal, local: Seq<IdRow>, stub: Val) -> PlanVal {
    if event_type(stub) == EventType::Occurrence {
        PlanVal { occurrences: p.occurrences + 1, ..p }
    } else {
        match stub.text_at("id"@) {
            None => p,
            Some(id) => {
                let known = exchange_graph_ids::local_of(local, id) is Some;
                PlanVal {
                    server: text::with_text(p.server, id),
                    masters: if event_type(stub) == EventType::SeriesMaster {
                        p.masters.push(id)
                    } else {
                        p.masters
                    },
                    fetched: if known {
                        p.fetched + 1
                    } else {
                        p.fetched
                    },
                    planned: if known {
                        p.planned
                    } else {
                        text::with_text(p.planned, id)
                    },
                    want: if known || p.planned.contains(id) {
                        p.want
                    } else {
                        p.want.push(id)
                    },
                    occurrences: p.occurrences,
                }
            },
        }
    }
}

/// A plan after the entries of a calendar.
pub open spec fn planned_entries(p: PlanVal, local: Seq<IdRow>, stubs: Seq<Val>) -> PlanVal
    decreases stubs.len(),
{
    if stubs.len() == 0 {
        p
    } else {
        planned_entry(planned_entries(p, local, stubs.drop_last()), local, stubs.last())
    }
}

/// What is planned for a calendar, before its first entry.
pub open spec fn plan_start(p: EventPlan) -> PlanVal {
    PlanVal {
        server: text::texts(p.server@),
        planned: text::texts(p.planned@),
        want: Seq::empty(),
        masters: Seq::empty(),
        occurrences: 0,
        fetched: 0,
    }
}

/// A plan and what is done about one calendar, together.
pub open spec fn plan_view(p: EventPlan, c: CalendarPlan) -> PlanVal {
    PlanVal {
        server: text::texts(p.server@),
        planned: text::texts(p.planned@),
        want: text::texts(c.want_ids@),
        masters: text::texts(c.series_masters@),
        occurrences: c.occurrences as nat,
        fetched: c.fetched as nat,
    }
}

fn plan_entry(plan: &mut EventPlan, cal: &mut CalendarPlan, local: &Vec<IdRow>, stub: &Json)
    requires
        old(cal).occurrences < u64::MAX,
        old(cal).fetched < u64::MAX,
    ensures
        plan_view(*final(plan), *final(cal)) == planned_entry(
            plan_view(*old(plan), *old(cal)),
            local@,
            stub@,
        ),
        final(cal).occurrences <= old(cal).occurrences + 1,
        final(cal).fetched <= old(cal).fetched + 1,
{
    let kind: EventType = classify_event_type(stub);
    if kind == EventType::Occurrence {
        cal.occurrences = cal.occurrences + 1;
        return ;
    }
    let id: &str = match stub.text_at("id") {
        Some(t) => t,
        None => {
            return ;
        },
    };
    if kind == EventType::SeriesMaster {
        let ghost before = text::texts(cal.series_masters@);
        cal.series_masters.push(id.to_owned());
        assert(text::texts(cal.series_masters@) =~= before.push(id@));
    }
    let _ = text::add_text(&mut plan.server, id);
    if exchange_graph_ids::local_for_graph_id(local, id).is_some() {
        cal.fetched = cal.fetched + 1;
    } else if text::add_text(&mut plan.planned, id) {
        let ghost before = text::texts(cal.want_ids@);
        cal.want_ids.push(id.to_owned());
        assert(text::texts(cal.want_ids@) =~= before.push(id@));
    }
}

/// Plans what is done about the entries of one calendar.
pub fn plan_calendar(plan: &mut EventPlan, local: &Vec<IdRow>, stubs: &Vec<Json>) -> (r:
    CalendarPlan)
    ensures
        plan_view(*final(plan), r) == planned_entries(
            plan_start(*old(plan)),
            local@,
            json::list_view(stubs@),
        ),
{
    let ghost all = json::list_view(stubs@);
    let ghost start = plan_start(*plan);
    let mut cal: CalendarPlan = CalendarPlan {
        want_ids: Vec::new(),
        series_masters: Vec::new(),
        occurrences: 0,
        fetched: 0,
    };
    let mut i: usize = 0;
    proof {
        assert(all.take(0) =~= Seq::empty());
        assert(text::texts(cal.want_ids@) =~= Seq::empty());
        assert(text::texts(cal.series_masters@) =~= Seq::empty());
    }
    while i < stubs.len()
        invariant
            i <= stubs@.len(),
            all == json::list_view(stubs@),
            all.len() == stubs@.len(),
            cal.occurrences <= i,
            cal.fetched <= i,
            plan_view(*plan, cal) == planned_entries(start, local@, all.take(i as int)),
        decreases stubs@.len() - i,
    {
        assert(all.take(i as int + 1).drop_last() =~= all.take(i as int));
        assert(all.take(i as int + 1).last() == stubs@[i as int]@);
        plan_entry(plan, &mut cal, local, &stubs[i]);
        i = i + 1;
    }
    assert(all.take(i as int) =~= all);
    cal
}

/// Whether a plan fetches no event twice, and none that the archive has.
pub open spec fn plan_is_sound(p: PlanVal, local: Seq<IdRow>) -> bool {
    &&& p.planned.no_duplicates()
    &&& p.want.no_duplicates()
    &&& forall|i: int| 0 <= i < p.want.len() ==> p.planned.contains(#[trigger] p.want[i])
    &&& forall|i: int|
        0 <= i < p.planned.len() ==> exchange_graph_ids::local_of(
            local,
            #[trigger] p.planned[i],
        ) is None
}

/// However many calendars name an event, it is fetched at most once, and only
/// where the archive does not have it.
pub proof fn no_event_is_fetched_twice(p: PlanVal, local: Seq<IdRow>, stubs: Seq<Val>)
    requires
        plan_is_sound(p, local),
    ensures
        plan_is_sound(planned_entries(p, local, stubs), local),
    decreases stubs.len(),
{
    if stubs.len() > 0 {
        no_event_is_fetched_twice(p, local, stubs.drop_last());
        let before = planned_entries(p, local, stubs.drop_last());
        let after = planned_entry(before, local, stubs.last());
        if event_type(stubs.last()) != EventType::Occurrence && stubs.last().text_at(
            "id"@,
        ) is Some {
            let id = stubs.last().text_at("id"@)->0;
            if exchange_graph_ids::local_of(local, id) is None && !before.planned.contains(id) {
                if before.want.contains(id) {
                    let k = choose|k: int| 0 <= k < before.want.len() && before.want[k] == id;
                    assert(before.planned.contains(before.want[k]));
                }
                assert forall|i: int| 0 <= i < after.want.len() implies after.planned.contains(
                    #[trigger] after.want[i],
                ) by {
                    if i < before.want.len() {
                        assert(before.planned.contains(before.want[i]));
                        let k = choose|k: int|
                            0 <= k < before.planned.len() && before.planned[k] == before.want[i];
                        assert(after.planned[k] == after.want[i]);
                    } else {
                        assert(after.planned[after.planned.len() - 1] == id);
                    }
                }
            }
        }
    }
}

/// The start and the end of a span of time in which changed and deleted
/// occurrences are looked for.
pub open spec fn window_text(day: int) -> Seq<char> {
    civil::date_text(day) + "T00:00:00"@
}

/// How many days a window spans.
pub open spec fn window_days(years: i32) -> int {
    let wanted = (if years > 1 {
        years as int
    } else {
        1
    }) * 365;
    if wanted < EXCEPTION_WINDOW_MAX_DAYS {
        wanted
    } else {
        EXCEPTION_WINDOW_MAX_DAYS as int
    }
}

/// The two windows around a day: one before it, one after it.
pub fn exception_windows(today: Date, years: i32) -> (r: Vec<(String, String)>)
    requires
        civil::in_calendar(today.days - window_days(years)),
        civil::in_calendar(today.days + window_days(years)),
    ensures
        r@.len() == 2,
        r@[0].0@ == window_text(today.days - window_days(years)),
        r@[0].1@ == window_text(today.days as int),
        r@[1].0@ == window_text(today.days as int),
        r@[1].1@ == window_text(today.days + window_days(years)),
        1 <= window_days(years) <= EXCEPTION_WINDOW_MAX_DAYS,
{
    proof {
        civil::lemma_calendar_range();
    }
    let wanted: i64 = if years > 1 {
        years as i64 * 365
    } else {
        365
    };
    let span: i32 = if wanted < EXCEPTION_WINDOW_MAX_DAYS {
        wanted as i32
    } else {
        EXCEPTION_WINDOW_MAX_DAYS as i32
    };
    let first: Date = Date { days: today.days - span };
    let last: Date = Date { days: today.days + span };
    let mut r: Vec<(String, String)> = Vec::new();
    let now: String = text::joined(today.format().as_str(), "T00:00:00");
    r.push((text::joined(first.format().as_str(), "T00:00:00"), now.clone()));
    r.push((now, text::joined(last.format().as_str(), "T00:00:00")));
    r
}

/// A text up to its first `Z` or `+`, or to a `-` behind its tenth byte.
pub open spec fn without_offset(raw: Seq<char>) -> Seq<char> {
    let z = text::first_index(raw, 'Z');
    let plus = text::first_index(raw, '+');
    let minus = text::last_index(raw, '-');
    if z < raw.len() {
        raw.take(z)
    } else if plus < raw.len() {
        raw.take(plus)
    } else if minus >= 0 && text::byte_len(raw.take(minus)) > 10 {
        raw.take(minus)
    } else {
        raw
    }
}

/// A moment without its offset and its fractions of a second, with a time where
/// it is a date.
pub open spec fn stripped(raw: Seq<char>) -> Seq<char> {
    let t = without_offset(raw);
    let whole = t.take(text::first_index(t, '.'));
    if whole.contains('T') {
        whole
    } else {
        whole + "T00:00:00"@
    }
}

/// The wall clock in a zone at a moment that names its offset, or at one that
/// names none as it stands; nothing where the zone is unknown or the text is no
/// moment.
pub open spec fn wall_clock_of(raw: Seq<char>, zone: Seq<char>) -> Option<Seq<char>> {
    if !instant::zone_known(zone) {
        None
    } else {
        match instant::rfc3339_in_zone(raw, zone) {
            Some(t) => Some(t),
            None => match instant::naive_date_time(raw, "%Y-%m-%dT%H:%M:%S%.f"@) {
                Some(t) => Some(t),
                None => instant::naive_date_time(raw, "%Y-%m-%dT%H:%M:%S"@),
            },
        }
    }
}

/// The key of an occurrence, given the wall clock in the zone of its series.
pub open spec fn key_of(raw: Seq<char>, wall_clock: Option<Seq<char>>) -> Seq<char> {
    match wall_clock {
        Some(t) => t,
        None => stripped(raw),
    }
}

/// The wall clock in the zone of a series, where it has one.
pub open spec fn wall_clock_in(raw: Seq<char>, zone: Option<Seq<char>>) -> Option<Seq<char>> {
    match zone {
        Some(z) => wall_clock_of(raw, z),
        None => None,
    }
}

/// The key of an occurrence of a series in a zone.
pub open spec fn override_key(raw: Seq<char>, zone: Option<Seq<char>>) -> Seq<char> {
    key_of(raw, wall_clock_in(raw, zone))
}

fn strip_offset(raw: &str) -> (r: String)
    ensures
        r@ == without_offset(raw@),
{
    let v: Vec<char> = text::chars_of(raw);
    let z: usize = text::find_char(&v, 'Z');
    if z < v.len() {
        let r: String = text::string_of(&v, 0, z);
        assert(r@ =~= raw@.take(z as int));
        return r;
    }
    let plus: usize = text::find_char(&v, '+');
    if plus < v.len() {
        let r: String = text::string_of(&v, 0, plus);
        assert(r@ =~= raw@.take(plus as int));
        return r;
    }
    match text::find_last_char(&v, '-') {
        Some(minus) => {
            let r: String = text::string_of(&v, 0, minus);
            assert(r@ =~= raw@.take(minus as int));
            let head: Vec<char> = text::chars_of(r.as_str());
            if text::byte_len_at_most(&head, 10) {
                raw.to_owned()
            } else {
                r
            }
        },
        None => raw.to_owned(),
    }
}

/// Drops the offset and the fractions of a second of a moment.
pub fn strip_offset_and_fractional(raw: &str) -> (r: String)
    ensures
        r@ == stripped(raw@),
{
    let t: String = strip_offset(raw);
    let v: Vec<char> = text::chars_of(t.as_str());
    let dot: usize = text::find_char(&v, '.');
    let whole: String = text::string_of(&v, 0, dot);
    assert(whole@ =~= t@.take(dot as int));
    if text::contains_char(whole.as_str(), 'T') {
        whole
    } else {
        text::joined(whole.as_str(), "T00:00:00")
    }
}

/// The key of an occurrence, given the wall clock in the zone of its series.
pub fn settle_key(raw: &str, wall_clock: Option<String>) -> (r: String)
    ensures
        r@ == key_of(raw@, json::text_view(wall_clock)),
{
    match wall_clock {
        Some(t) => t,
        None => strip_offset_and_fractional(raw),
    }
}

fn utc_offset_to_local(raw: &str, zone: &str) -> (r: Option<String>)
    ensures
        json::text_view(r) == wall_clock_of(raw@, zone@),
{
    if !instant::is_zone(zone) {
        return None;
    }
    match instant::wall_clock(raw, zone) {
        Some(t) => {
            return Some(t);
        },
        None => {},
    }
    match instant::plain_date_time(raw, "%Y-%m-%dT%H:%M:%S%.f") {
        Some(t) => {
            return Some(t);
        },
        None => {},
    }
    instant::plain_date_time(raw, "%Y-%m-%dT%H:%M:%S")
}

/// The key under which a changed occurrence of a series is recorded: its
/// original start on the wall clock of the series.
pub fn normalise_override_key(raw: &str, master_tz: Option<&str>) -> (r: String)
    ensures
        r@ == override_key(raw@, json::str_view(master_tz)),
{
    let wall_clock: Option<String> = match master_tz {
        Some(zone) => utc_offset_to_local(raw, zone),
        None => None,
    };
    settle_key(raw, wall_clock)
}

/// The date of a key.
pub open spec fn date_part(key: Seq<char>) -> Seq<char> {
    key.take(text::first_index(key, 'T'))
}

/// The date of a moment on the wall clock of a series.
pub fn local_date_of(utc: &str, tz: Option<&str>) -> (r: String)
    ensures
        r@ == date_part(override_key(utc@, json::str_view(tz))),
{
    let key: String = normalise_override_key(utc, tz);
    let v: Vec<char> = text::chars_of(key.as_str());
    let i: usize = text::find_char(&v, 'T');
    let r: String = text::string_of(&v, 0, i);
    assert(r@ =~= key@.take(i as int));
    r
}

/// The dates on which occurrences of a series are: those that the server lists,
/// and those that were changed.
pub open spec fn actual_dates(
    starts: Seq<Seq<char>>,
    exceptions: Seq<ConvertedVal>,
    zone: Option<Seq<char>>,
) -> Seq<Seq<char>>
    decreases starts.len() + exceptions.len(),
{
    if exceptions.len() > 0 {
        let before = actual_dates(starts, exceptions.drop_last(), zone);
        match exceptions.last().original_start {
            Some(raw) => before.push(date_part(override_key(raw, zone))),
            None => before,
        }
    } else if starts.len() > 0 {
        actual_dates(starts.drop_last(), exceptions, zone).push(
            date_part(override_key(starts.last(), zone)),
        )
    } else {
        Seq::empty()
    }
}

fn collect_dates(
    starts: &Vec<String>,
    exceptions: &Vec<ConvertedEvent>,
    zone: Option<&str>,
) -> (r: Vec<String>)
    ensures
        text::texts(r@) == actual_dates(
            text::texts(starts@),
            event_views(exceptions@),
            json::str_view(zone),
        ),
{
    let ghost z = json::str_view(zone);
    let ghost all = text::texts(starts@);
    let ghost changed = event_views(exceptions@);
    let mut r: Vec<String> = Vec::new();
    let mut i: usize = 0;
    proof {
        assert(text::texts(r@) =~= Seq::empty());
        assert(all.take(0) =~= Seq::empty());
        assert(changed.take(0) =~= Seq::empty());
    }
    while i < starts.len()
        invariant
            i <= starts@.len(),
            all == text::texts(starts@),
            z == json::str_view(zone),
            changed.take(0).len() == 0,
            text::texts(r@) == actual_dates(all.take(i as int), changed.take(0), z),
        decreases starts@.len() - i,
    {
        assert(all.take(i as int + 1).drop_last() =~= all.take(i as int));
        assert(all.take(i as int + 1).last() == starts@[i as int]@);
        let ghost before = text::texts(r@);
        let d: String = local_date_of(starts[i].as_str(), zone);
        r.push(d);
        assert(text::texts(r@) =~= before.push(d@));
        i = i + 1;
    }
    assert(all.take(i as int) =~= all);
    let mut j: usize = 0;
    while j < exceptions.len()
        invariant
            j <= exceptions@.len(),
            changed == event_views(exceptions@),
            all == text::texts(starts@),
            z == json::str_view(zone),
            text::texts(r@) == actual_dates(all, changed.take(j as int), z),
        decreases exceptions@.len() - j,
    {
        assert(changed.take(j as int + 1).drop_last() =~= changed.take(j as int));
        assert(changed.take(j as int + 1).last() == exceptions@[j as int]@);
        if let Some(raw) = &exceptions[j].original_start {
            let ghost before = text::texts(r@);
            let d: String = local_date_of(raw.as_str(), zone);
            r.push(d);
            assert(text::texts(r@) =~= before.push(d@));
        }
        j = j + 1;
    }
    assert(changed.take(j as int) =~= changed);
    r
}

/// The first ten characters of a text, or all of it.
pub open spec fn first_ten(s: Seq<char>) -> Seq<char> {
    if s.len() <= 10 {
        s
    } else {
        s.take(10)
    }
}

fn take_ten(s: &str) -> (r: String)
    ensures
        r@ == first_ten(s@),
{
    let v: Vec<char> = text::chars_of(s);
    if v.len() <= 10 {
        return s.to_owned();
    }
    let r: String = text::string_of(&v, 0, 10);
    assert(r@ =~= s@.take(10));
    r
}

/// The days of a window, where both are dates.
pub open spec fn days_of_window(w: (String, String)) -> Option<(int, int)> {
    match (civil::parsed_date(first_ten(w.0@)), civil::parsed_date(first_ten(w.1@))) {
        (Some(a), Some(b)) => Some((a, b)),
        _ => None,
    }
}

/// Whether a day of a series falls into a window without an occurrence on it.
pub open spec fn is_missing_day(
    pattern: Val,
    w: (String, String),
    actual: Seq<Seq<char>>,
    d: int,
) -> bool {
    match days_of_window(w) {
        Some((from, to)) => {
            &&& expand::series_dates(pattern, to) matches Some(days)
            &&& days.contains(d)
            &&& from <= d <= to
            &&& !actual.contains(civil::date_text(d))
        },
        None => false,
    }
}

/// Whether a key is that of an occurrence that was deleted.
pub open spec fn is_cancelled_key(
    pattern: Val,
    windows: Seq<(String, String)>,
    actual: Seq<Seq<char>>,
    time: Seq<char>,
    key: Seq<char>,
) -> bool {
    exists|i: int, d: int|
        #![trigger is_missing_day(pattern, windows[i], actual, d)]
        0 <= i < windows.len() && is_missing_day(pattern, windows[i], actual, d) && key
            == civil::date_text(d) + "T"@ + time
}

/// Whether the days of a series cannot be told in some window.
pub open spec fn is_open_ended(pattern: Val, windows: Seq<(String, String)>) -> bool {
    exists|i: int|
        0 <= i < windows.len() && (days_of_window(#[trigger] windows[i]) matches Some((from, to))
            && expand::series_dates(pattern, to) is None)
}

/// The date on which a series starts, and the time of its occurrences.
pub open spec fn start_parts(start: Seq<char>) -> (Seq<char>, Seq<char>) {
    let i = text::first_index(start, 'T');
    if i < start.len() {
        (start.take(i), start.skip(i + 1))
    } else {
        (start, "00:00:00"@)
    }
}

/// The pattern of a stored series, where it has one that can be expanded.
pub open spec fn pattern_of(card: Val) -> Option<Val> {
    match (card.get("recurrenceRule"@), card.text_at("start"@)) {
        (Some(rule), Some(start)) => match civil::parsed_date(start_parts(start).0) {
            Some(day) => expand::pattern_from_rule(rule, day),
            None => None,
        },
        _ => None,
    }
}

/// Whether keys are those of the occurrences of a series that were deleted, in
/// order and each once.
pub open spec fn are_cancelled_keys(
    card: Val,
    starts: Seq<Seq<char>>,
    exceptions: Seq<ConvertedVal>,
    windows: Seq<(String, String)>,
    keys: Seq<Seq<char>>,
) -> bool {
    match pattern_of(card) {
        None => keys.len() == 0,
        Some(pattern) => if is_open_ended(pattern, windows) {
            keys.len() == 0
        } else {
            let actual = actual_dates(starts, exceptions, card.text_at("timeZone"@));
            let time = start_parts(card.text_at("start"@)->0).1;
            &&& text::is_ordered(keys)
            &&& keys.no_duplicates()
            &&& forall|k: Seq<char>| #[trigger]
                keys.contains(k) <==> is_cancelled_key(pattern, windows, actual, time, k)
        },
    }
}

/// The texts of an ordered list, each once.
pub open spec fn each_once(list: Seq<Seq<char>>) -> Seq<Seq<char>>
    decreases list.len(),
{
    if list.len() <= 1 {
        list
    } else if list[list.len() - 2] == list.last() {
        each_once(list.drop_last())
    } else {
        each_once(list.drop_last()).push(list.last())
    }
}

fn drop_repeats(list: &Vec<String>) -> (r: Vec<String>)
    ensures
        text::texts(r@) == each_once(text::texts(list@)),
{
    let ghost all = text::texts(list@);
    let mut r: Vec<String> = Vec::new();
    let mut i: usize = 0;
    assert(all.take(0) =~= Seq::empty());
    assert(text::texts(r@) =~= Seq::empty());
    while i < list.len()
        invariant
            i <= list@.len(),
            all == text::texts(list@),
            text::texts(r@) == each_once(all.take(i as int)),
        decreases list@.len() - i,
    {
        let ghost t = all.take(i as int + 1);
        proof {
            assert(t.drop_last() =~= all.take(i as int));
            assert(t.last() == list@[i as int]@);
            if i > 0 {
                assert(t[t.len() - 2] == list@[i - 1]@);
            }
        }
        let repeated: bool = i > 0 && text::same(list[i - 1].as_str(), list[i].as_str());
        if !repeated {
            let ghost before = text::texts(r@);
            r.push(list[i].clone());
            assert(text::texts(r@) =~= before.push(list@[i as int]@));
            proof {
                if i == 0 {
                    assert(t =~= before.push(list@[0]@));
                }
            }
        }
        i = i + 1;
    }
    assert(all.take(i as int) =~= all);
    r
}

proof fn lemma_order_pins(a: Seq<char>, b: Seq<char>)
    requires
        text::not_after(a, b),
        text::not_after(b, a),
    ensures
        a == b,
    decreases a.len(),
{
    if a.len() > 0 && b.len() > 0 {
        lemma_order_pins(a.skip(1), b.skip(1));
        assert(a =~= seq![a[0]] + a.skip(1));
        assert(b =~= seq![b[0]] + b.skip(1));
    } else {
        assert(a =~= b);
    }
}

proof fn lemma_each_once(list: Seq<Seq<char>>)
    requires
        text::is_ordered(list),
    ensures
        text::is_ordered(each_once(list)),
        each_once(list).no_duplicates(),
        each_once(list).len() <= list.len(),
        list.len() > 0 ==> each_once(list).len() > 0 && each_once(list).last() == list.last(),
        forall|k: Seq<char>| #[trigger] each_once(list).contains(k) <==> list.contains(k),
    decreases list.len(),
{
    if list.len() > 1 {
        let d = list.drop_last();
        assert(text::is_ordered(d)) by {
            assert forall|i: int, j: int| 0 <= i <= j < d.len() implies text::not_after(
                #[trigger] d[i],
                #[trigger] d[j],
            ) by {
                assert(text::not_after(list[i], list[j]));
            }
        }
        lemma_each_once(d);
        let e = each_once(d);
        let r = each_once(list);
        let last = list[list.len() - 1];
        assert(d.last() == list[list.len() - 2]);
        assert forall|k: Seq<char>| #[trigger] r.contains(k) <==> list.contains(k) by {
            assert(e.contains(k) <==> d.contains(k));
            if list.contains(k) {
                let j = choose|j: int| 0 <= j < list.len() && list[j] == k;
                if j < d.len() {
                    assert(d[j] == k);
                    assert(d.contains(k));
                    let m = choose|m: int| 0 <= m < e.len() && e[m] == k;
                    assert(r[m] == k);
                } else {
                    assert(r.last() == k);
                    assert(r[r.len() - 1] == k);
                }
            }
            if r.contains(k) {
                let j = choose|j: int| 0 <= j < r.len() && r[j] == k;
                if j < e.len() {
                    assert(e[j] == k);
                    assert(e.contains(k));
                    let m = choose|m: int| 0 <= m < d.len() && d[m] == k;
                    assert(list[m] == k);
                } else {
                    assert(list[list.len() - 1] == k);
                }
            }
        }
        if list[list.len() - 2] != last {
            assert forall|i: int| 0 <= i < e.len() implies text::not_after(#[trigger] e[i], last)
                && e[i] != last by {
                assert(e.contains(e[i]));
                let m = choose|m: int| 0 <= m < d.len() && d[m] == e[i];
                assert(text::not_after(list[m], list[list.len() - 1]));
                assert(text::not_after(list[m], list[list.len() - 2]));
                if e[i] == last {
                    assert(text::not_after(list[list.len() - 2], list[list.len() - 1]));
                    lemma_order_pins(list[list.len() - 2], last);
                }
            }
            assert forall|i: int, j: int| 0 <= i <= j < r.len() implies text::not_after(
                #[trigger] r[i],
                #[trigger] r[j],
            ) by {
                if j < e.len() {
                    assert(text::not_after(e[i], e[j]));
                } else if i < e.len() {
                    assert(text::not_after(e[i], last));
                } else {
                    assert(text::not_after(list[list.len() - 1], list[list.len() - 1]));
                }
            }
            assert(r.no_duplicates());
        }
    } else {
        assert forall|i: int, j: int| 0 <= i < list.len() && 0 <= j < list.len() && i
            != j implies list[i] != list[j] by {}
    }
}

proof fn lemma_order_membership(list: Seq<Seq<char>>, k: Seq<char>)
    ensures
        text::in_order(list).contains(k) <==> list.contains(k),
{
    broadcast use vstd::seq_lib::group_to_multiset_ensures;

    text::ordering_is_ordered_and_loses_nothing(list);
    let o = text::in_order(list);
    assert(o.to_multiset().count(k) == list.to_multiset().count(k));
    if o.contains(k) {
        assert(o.to_multiset().contains(k));
    }
    if list.contains(k) {
        assert(list.to_multiset().contains(k));
    }
}

/// Whether texts are the keys of the deleted occurrences in the first windows.
pub open spec fn are_keys_up_to(
    pattern: Val,
    windows: Seq<(String, String)>,
    n: int,
    actual: Seq<Seq<char>>,
    time: Seq<char>,
    keys: Seq<Seq<char>>,
) -> bool {
    forall|k: Seq<char>| #[trigger]
        keys.contains(k) <==> is_cancelled_key(pattern, windows.take(n), actual, time, k)
}

fn missing_keys(
    dates: &Vec<Date>,
    actual: &Vec<String>,
    time: &str,
    out: &mut Vec<String>,
)
    requires
        forall|i: int| 0 <= i < dates@.len() ==> (#[trigger] dates@[i]).wf(),
    ensures
        forall|k: Seq<char>| #[trigger]
            text::texts(final(out)@).contains(k) <==> text::texts(old(out)@).contains(k) || exists|
                d: int,
            | #[trigger]
                civil::day_seq(dates@).contains(d) && !text::texts(actual@).contains(
                    civil::date_text(d),
                ) && k == civil::date_text(d) + "T"@ + time@,
{
    let ghost before = text::texts(out@);
    let ghost days = civil::day_seq(dates@);
    let mut i: usize = 0;
    proof {
        assert forall|k: Seq<char>| #[trigger] text::texts(out@).contains(k) <==> before.contains(k)
            || exists|j: int|
            0 <= j < 0 && is_new_key(#[trigger] days[j], text::texts(actual@), time@, k) by {}
    }
    while i < dates.len()
        invariant
            i <= dates@.len(),
            days == civil::day_seq(dates@),
            days.len() == dates@.len(),
            forall|k: int| 0 <= k < dates@.len() ==> (#[trigger] dates@[k]).wf(),
            forall|k: Seq<char>| #[trigger]
                text::texts(out@).contains(k) <==> before.contains(k) || exists|j: int|
                    0 <= j < i && is_new_key(#[trigger] days[j], text::texts(actual@), time@, k),
        decreases dates@.len() - i,
    {
        assert(days[i as int] == dates@[i as int].days);
        let day: String = dates[i].format();
        let ghost so_far = text::texts(out@);
        if !text::has_text(actual, day.as_str()) {
            let mut key: String = text::joined(day.as_str(), "T");
            key.append(time);
            let ghost added = key@;
            out.push(key);
            proof {
                assert(text::texts(out@) =~= so_far.push(added));
                assert forall|k: Seq<char>| #[trigger] text::texts(out@).contains(k)
                    <==> before.contains(k) || exists|j: int|
                    0 <= j < i + 1 && is_new_key(
                        #[trigger] days[j],
                        text::texts(actual@),
                        time@,
                        k,
                    ) by {
                    if text::texts(out@).contains(k) {
                        let m = choose|m: int|
                            0 <= m < text::texts(out@).len() && text::texts(out@)[m] == k;
                        if m < so_far.len() {
                            assert(so_far[m] == k);
                            assert(so_far.contains(k));
                        } else {
                            assert(is_new_key(days[i as int], text::texts(actual@), time@, k));
                        }
                    }
                    if before.contains(k) || exists|j: int|
                        0 <= j < i + 1 && is_new_key(
                            #[trigger] days[j],
                            text::texts(actual@),
                            time@,
                            k,
                        ) {
                        if so_far.contains(k) {
                            let m = choose|m: int| 0 <= m < so_far.len() && so_far[m] == k;
                            assert(text::texts(out@)[m] == k);
                        } else {
                            assert(is_new_key(days[i as int], text::texts(actual@), time@, k));
                            assert(text::texts(out@)[so_far.len() as int] == k);
                        }
                    }
                }
            }
        }
        i = i + 1;
    }
    proof {
        assert forall|k: Seq<char>| #[trigger] text::texts(out@).contains(k) <==> before.contains(k)
            || exists|d: int| #[trigger]
            days.contains(d) && !text::texts(actual@).contains(civil::date_text(d)) && k
                == civil::date_text(d) + "T"@ + time@ by {
            if exists|j: int|
                0 <= j < i && is_new_key(#[trigger] days[j], text::texts(actual@), time@, k) {
                let j = choose|j: int|
                    0 <= j < i && is_new_key(#[trigger] days[j], text::texts(actual@), time@, k);
                assert(days.contains(days[j]));
            }
            if exists|d: int| #[trigger]
                days.contains(d) && !text::texts(actual@).contains(civil::date_text(d)) && k
                    == civil::date_text(d) + "T"@ + time@ {
                let d = choose|d: int| #[trigger]
                    days.contains(d) && !text::texts(actual@).contains(civil::date_text(d)) && k
                        == civil::date_text(d) + "T"@ + time@;
                let j = choose|j: int| 0 <= j < days.len() && days[j] == d;
                assert(is_new_key(days[j], text::texts(actual@), time@, k));
            }
        }
    }
}

/// Whether a key is that of a day without an occurrence.
pub open spec fn is_new_key(d: int, actual: Seq<Seq<char>>, time: Seq<char>, k: Seq<char>) -> bool {
    !actual.contains(civil::date_text(d)) && k == civil::date_text(d) + "T"@ + time
}

fn split_start(start: &str) -> (r: (String, String))
    ensures
        r.0@ == start_parts(start@).0,
        r.1@ == start_parts(start@).1,
{
    let v: Vec<char> = text::chars_of(start);
    let i: usize = text::find_char(&v, 'T');
    if i < v.len() {
        let d: String = text::string_of(&v, 0, i);
        let t: String = text::string_of(&v, i + 1, v.len());
        assert(d@ =~= start@.take(i as int));
        assert(t@ =~= start@.skip(i as int + 1));
        (d, t)
    } else {
        (start.to_owned(), "00:00:00".to_owned())
    }
}

proof fn lemma_cancelled_step(
    pattern: Val,
    windows: Seq<(String, String)>,
    n: int,
    actual: Seq<Seq<char>>,
    time: Seq<char>,
    k: Seq<char>,
)
    requires
        0 <= n < windows.len(),
    ensures
        is_cancelled_key(pattern, windows.take(n + 1), actual, time, k) <==> is_cancelled_key(
            pattern,
            windows.take(n),
            actual,
            time,
            k,
        ) || exists|d: int| #[trigger]
            is_missing_day(pattern, windows[n], actual, d) && k == civil::date_text(d) + "T"@ + time,
{
    let more = windows.take(n + 1);
    let less = windows.take(n);
    if is_cancelled_key(pattern, more, actual, time, k) {
        let (i, d) = choose|i: int, d: int|
            #![trigger is_missing_day(pattern, more[i], actual, d)]
            0 <= i < more.len() && is_missing_day(pattern, more[i], actual, d) && k
                == civil::date_text(d) + "T"@ + time;
        if i < n {
            assert(less[i] == more[i]);
            assert(is_missing_day(pattern, less[i], actual, d));
        } else {
            assert(is_missing_day(pattern, windows[n], actual, d));
        }
    }
    if is_cancelled_key(pattern, less, actual, time, k) {
        let (i, d) = choose|i: int, d: int|
            #![trigger is_missing_day(pattern, less[i], actual, d)]
            0 <= i < less.len() && is_missing_day(pattern, less[i], actual, d) && k
                == civil::date_text(d) + "T"@ + time;
        assert(less[i] == more[i]);
        assert(is_missing_day(pattern, more[i], actual, d));
    }
    if exists|d: int| #[trigger]
        is_missing_day(pattern, windows[n], actual, d) && k == civil::date_text(d) + "T"@ + time {
        let d = choose|d: int| #[trigger]
            is_missing_day(pattern, windows[n], actual, d) && k == civil::date_text(d) + "T"@
                + time;
        assert(more[n] == windows[n]);
        assert(is_missing_day(pattern, more[n], actual, d));
    }
}

/// Finds the keys of the occurrences of a series that were deleted: those that
/// the series should have in the windows, but the server does not list.
pub fn cancelled_occurrence_keys(
    card: &Json,
    starts: &Vec<String>,
    exceptions: &Vec<ConvertedEvent>,
    windows: &Vec<(String, String)>,
) -> (r: Vec<String>)
    ensures
        are_cancelled_keys(
            card@,
            text::texts(starts@),
            event_views(exceptions@),
            windows@,
            text::texts(r@),
        ),
{
    let none: Vec<String> = Vec::new();
    assert(text::texts(none@).len() == 0);
    let rule: &Json = match card.get("recurrenceRule") {
        Some(v) => v,
        None => {
            return none;
        },
    };
    let start: &str = match card.text_at("start") {
        Some(t) => t,
        None => {
            return none;
        },
    };
    let (start_date, start_time) = split_start(start);
    let series_start: Date = match Date::parse(start_date.as_str()) {
        Some(d) => d,
        None => {
            return none;
        },
    };
    let pattern: Json = match expand::graph_pattern_from_jscalendar(rule, series_start) {
        Some(p) => p,
        None => {
            return none;
        },
    };
    let actual: Vec<String> = collect_dates(starts, exceptions, card.text_at("timeZone"));
    let ghost dates = text::texts(actual@);
    let mut out: Vec<String> = Vec::new();
    let mut i: usize = 0;
    proof {
        assert(text::texts(out@) =~= Seq::empty());
        assert forall|k: Seq<char>| #[trigger] text::texts(out@).contains(k) <==> is_cancelled_key(
            pattern@,
            windows@.take(0),
            dates,
            start_time@,
            k,
        ) by {}
    }
    while i < windows.len()
        invariant
            i <= windows@.len(),
            dates == text::texts(actual@),
            are_keys_up_to(
                pattern@,
                windows@,
                i as int,
                dates,
                start_time@,
                text::texts(out@),
            ),
            forall|k: int|
                0 <= k < i ==> !(days_of_window(#[trigger] windows@[k]) matches Some((from, to))
                    && expand::series_dates(pattern@, to) is None),
            pattern_of(card@) == Some(pattern@),
            card@.text_at("start"@) == Some(start@),
            dates == actual_dates(
                text::texts(starts@),
                event_views(exceptions@),
                card@.text_at("timeZone"@),
            ),
            start_time@ == start_parts(start@).1,
            none@.len() == 0,
        decreases windows@.len() - i,
    {
        let ghost before = text::texts(out@);
        let w0: Option<Date> = Date::parse(take_ten(windows[i].0.as_str()).as_str());
        let w1: Option<Date> = Date::parse(take_ten(windows[i].1.as_str()).as_str());
        if let (Some(a), Some(b)) = (w0, w1) {
            match expand::expected_dates(&pattern, a, b) {
                Some(v) => {
                    proof {
                        civil::lemma_calendar_range();
                        assert forall|k: int| 0 <= k < v@.len() implies (#[trigger] v@[k]).wf() by {
                            let days = civil::day_seq(v@);
                            assert(days[k] == v@[k].days);
                            assert(days.contains(days[k]));
                        }
                    }
                    missing_keys(&v, &actual, start_time.as_str(), &mut out);
                    proof {
                        assert forall|k: Seq<char>| #[trigger]
                            text::texts(out@).contains(k) <==> is_cancelled_key(
                            pattern@,
                            windows@.take(i as int + 1),
                            dates,
                            start_time@,
                            k,
                        ) by {
                            lemma_cancelled_step(
                                pattern@,
                                windows@,
                                i as int,
                                dates,
                                start_time@,
                                k,
                            );
                            assert(before.contains(k) <==> is_cancelled_key(
                                pattern@,
                                windows@.take(i as int),
                                dates,
                                start_time@,
                                k,
                            ));
                            let days = civil::day_seq(v@);
                            if exists|d: int| #[trigger]
                                days.contains(d) && !dates.contains(civil::date_text(d)) && k
                                    == civil::date_text(d) + "T"@ + start_time@ {
                                let d = choose|d: int| #[trigger]
                                    days.contains(d) && !dates.contains(civil::date_text(d)) && k
                                        == civil::date_text(d) + "T"@ + start_time@;
                                assert(is_missing_day(pattern@, windows@[i as int], dates, d));
                            }
                            if exists|d: int| #[trigger]
                                is_missing_day(pattern@, windows@[i as int], dates, d) && k
                                    == civil::date_text(d) + "T"@ + start_time@ {
                                let d = choose|d: int| #[trigger]
                                    is_missing_day(pattern@, windows@[i as int], dates, d) && k
                                        == civil::date_text(d) + "T"@ + start_time@;
                                assert(days.contains(d));
                            }
                        }
                    }
                },
                None => {
                    assert(days_of_window(windows@[i as int]) == Some(
                        (a.days as int, b.days as int),
                    ));
                    assert(is_open_ended(pattern@, windows@));
                    return none;
                },
            }
        } else {
            proof {
                assert(days_of_window(windows@[i as int]) is None);
                assert forall|k: Seq<char>| #[trigger]
                    text::texts(out@).contains(k) <==> is_cancelled_key(
                    pattern@,
                    windows@.take(i as int + 1),
                    dates,
                    start_time@,
                    k,
                ) by {
                    lemma_cancelled_step(pattern@, windows@, i as int, dates, start_time@, k);
                    assert(before.contains(k) <==> is_cancelled_key(
                        pattern@,
                        windows@.take(i as int),
                        dates,
                        start_time@,
                        k,
                    ));
                }
            }
        }
        i = i + 1;
    }
    let sorted: Vec<String> = text::sort_texts(&out);
    let r: Vec<String> = drop_repeats(&sorted);
    proof {
        assert(windows@.take(i as int) =~= windows@);
        let o = text::texts(out@);
        let s = text::texts(sorted@);
        text::ordering_is_ordered_and_loses_nothing(o);
        lemma_each_once(s);
        assert forall|k: Seq<char>| #[trigger] text::texts(r@).contains(k) <==> is_cancelled_key(
            pattern@,
            windows@,
            dates,
            start_time@,
            k,
        ) by {
            lemma_order_membership(o, k);
            assert(each_once(s).contains(k) <==> s.contains(k));
            assert(o.contains(k) <==> is_cancelled_key(
                pattern@,
                windows@.take(i as int),
                dates,
                start_time@,
                k,
            ));
        }
        assert(!is_open_ended(pattern@, windows@));
    }
    r
}

/// The overrides of a stored series, with one more member.
pub open spec fn with_override(e: Members, key: Seq<char>, value: Val) -> Members {
    match json::lookup(e, "recurrenceOverrides"@) {
        None => json::with_member(
            e,
            "recurrenceOverrides"@,
            Val::Object(json::with_member(Seq::empty(), key, value)),
        ),
        Some(Val::Object(o)) => json::with_member(
            e,
            "recurrenceOverrides"@,
            Val::Object(json::with_member(o, key, value)),
        ),
        Some(_) => e,
    }
}

/// A stored series with its changed occurrences.
pub open spec fn with_exceptions(
    e: Members,
    exceptions: Seq<ConvertedVal>,
    zone: Option<Seq<char>>,
) -> Members
    decreases exceptions.len(),
{
    if exceptions.len() == 0 {
        e
    } else {
        let before = with_exceptions(e, exceptions.drop_last(), zone);
        match exceptions.last().original_start {
            Some(raw) => with_override(
                before,
                override_key(raw, zone),
                jscalendar::patch_of(exceptions.last().data),
            ),
            None => before,
        }
    }
}

/// The overrides of a series, with a deleted occurrence: one that is recorded
/// already stays as it is.
pub open spec fn with_exclusion(o: Members, key: Seq<char>) -> Members {
    if json::lookup(o, key) is Some {
        o
    } else {
        json::with_member(o, key, json::obj1("excluded"@, Val::Bool(true)))
    }
}

/// The overrides of a series, with its deleted occurrences.
pub open spec fn with_exclusions(o: Members, keys: Seq<Seq<char>>) -> Members
    decreases keys.len(),
{
    if keys.len() == 0 {
        o
    } else {
        with_exclusion(with_exclusions(o, keys.drop_last()), keys.last())
    }
}

/// A stored series with its deleted occurrences.
pub open spec fn with_cancelled(e: Members, keys: Seq<Seq<char>>) -> Members {
    if keys.len() == 0 {
        e
    } else {
        match json::lookup(e, "recurrenceOverrides"@) {
            None => json::with_member(
                e,
                "recurrenceOverrides"@,
                Val::Object(with_exclusions(Seq::empty(), keys)),
            ),
            Some(Val::Object(o)) => json::with_member(
                e,
                "recurrenceOverrides"@,
                Val::Object(with_exclusions(o, keys)),
            ),
            Some(_) => e,
        }
    }
}

fn overrides_of(e: &Vec<(String, Json)>) -> (r: Option<Vec<(String, Json)>>)
    ensures
        match json::lookup(json::members_view(e@), "recurrenceOverrides"@) {
            None => r matches Some(o) && json::members_view(o@) == Seq::<(Seq<char>, Val)>::empty(),
            Some(Val::Object(m)) => r matches Some(o) && json::members_view(o@) == m,
            Some(_) => r is None,
        },
{
    let i: usize = json::find_member(e, "recurrenceOverrides");
    if i < e.len() {
        match &e[i].1 {
            Json::Object(o) => Some(json::copied(o)),
            _ => None,
        }
    } else {
        let none: Vec<(String, Json)> = Vec::new();
        assert(json::members_view(none@) =~= Seq::empty());
        Some(none)
    }
}

fn add_exceptions(
    e: &mut Vec<(String, Json)>,
    exceptions: &Vec<ConvertedEvent>,
    zone: Option<&str>,
)
    ensures
        json::members_view(final(e)@) == with_exceptions(
            json::members_view(old(e)@),
            event_views(exceptions@),
            json::str_view(zone),
        ),
{
    let ghost start = json::members_view(e@);
    let ghost changed = event_views(exceptions@);
    let mut i: usize = 0;
    assert(changed.take(0) =~= Seq::empty());
    while i < exceptions.len()
        invariant
            i <= exceptions@.len(),
            changed == event_views(exceptions@),
            json::members_view(e@) == with_exceptions(
                start,
                changed.take(i as int),
                json::str_view(zone),
            ),
        decreases exceptions@.len() - i,
    {
        assert(changed.take(i as int + 1).drop_last() =~= changed.take(i as int));
        assert(changed.take(i as int + 1).last() == exceptions@[i as int]@);
        if let Some(raw) = &exceptions[i].original_start {
            let key: String = normalise_override_key(raw.as_str(), zone);
            if let Some(mut o) = overrides_of(e) {
                let patch: Json = jscalendar::override_patch_from_event(&exceptions[i].data);
                json::set_member(&mut o, key.as_str(), patch);
                json::set_member(e, "recurrenceOverrides", Json::Object(o));
            }
        }
        i = i + 1;
    }
    assert(changed.take(i as int) =~= changed);
}

fn add_exclusions(o: &mut Vec<(String, Json)>, keys: &Vec<String>)
    ensures
        json::members_view(final(o)@) == with_exclusions(
            json::members_view(old(o)@),
            text::texts(keys@),
        ),
{
    let ghost start = json::members_view(o@);
    let ghost all = text::texts(keys@);
    let mut i: usize = 0;
    assert(all.take(0) =~= Seq::empty());
    while i < keys.len()
        invariant
            i <= keys@.len(),
            all == text::texts(keys@),
            json::members_view(o@) == with_exclusions(start, all.take(i as int)),
        decreases keys@.len() - i,
    {
        assert(all.take(i as int + 1).drop_last() =~= all.take(i as int));
        assert(all.take(i as int + 1).last() == keys@[i as int]@);
        let at: usize = json::find_member(o, keys[i].as_str());
        if at >= o.len() {
            json::set_member(
                o,
                keys[i].as_str(),
                json::object1("excluded", Json::Bool(true)),
            );
        }
        i = i + 1;
    }
    assert(all.take(i as int) =~= all);
}

/// Whether a stored series, with its changed and its deleted occurrences, is
/// this.
pub open spec fn is_expanded(
    card: Val,
    exceptions: Seq<ConvertedVal>,
    starts: Seq<Seq<char>>,
    windows: Seq<(String, String)>,
    r: Val,
) -> bool {
    match card {
        Val::Object(e) => {
            let changed = with_exceptions(e, exceptions, card.text_at("timeZone"@));
            exists|keys: Seq<Seq<char>>| #[trigger]
                are_cancelled_keys(Val::Object(changed), starts, exceptions, windows, keys) && r
                    == Val::Object(with_cancelled(changed, keys))
        },
        other => r == other,
    }
}

/// Records the changed and the deleted occurrences of a series, and says
/// whether that changed anything.
pub fn expand_series(
    card: &Json,
    exceptions: &Vec<ConvertedEvent>,
    starts: &Vec<String>,
    windows: &Vec<(String, String)>,
) -> (r: (Json, bool))
    ensures
        is_expanded(card@, event_views(exceptions@), text::texts(starts@), windows@, r.0@),
        r.1 == !json::same_value(r.0@, card@),
{
    match card {
        Json::Object(m) => {
            let mut e: Vec<(String, Json)> = json::copied(m);
            add_exceptions(&mut e, exceptions, card.text_at("timeZone"));
            let changed: Json = Json::Object(e);
            let keys: Vec<String> = cancelled_occurrence_keys(
                &changed,
                starts,
                exceptions,
                windows,
            );
            let ghost told = text::texts(keys@);
            assert(told.len() == keys@.len());
            let result: Json = match changed {
                Json::Object(mut x) => {
                    if keys.len() > 0 {
                        if let Some(mut o) = overrides_of(&x) {
                            add_exclusions(&mut o, &keys);
                            json::set_member(&mut x, "recurrenceOverrides", Json::Object(o));
                        }
                    }
                    Json::Object(x)
                },
                other => other,
            };
            let same: bool = result.same_as(card);
            (result, !same)
        },
        _ => {
            let result: Json = card.dup();
            let same: bool = result.same_as(card);
            (result, !same)
        },
    }
}

proof fn lemma_without_last(a: Seq<Seq<char>>, k: Seq<char>)
    requires
        a.len() > 0,
        a.no_duplicates(),
    ensures
        a.drop_last().no_duplicates(),
        a.drop_last().contains(k) <==> a.contains(k) && k != a.last(),
{
    let d = a.drop_last();
    if d.contains(k) {
        let i = choose|i: int| 0 <= i < d.len() && d[i] == k;
        assert(a[i] == k);
    }
    if a.contains(k) && k != a.last() {
        let i = choose|i: int| 0 <= i < a.len() && a[i] == k;
        assert(d[i] == k);
    }
}

proof fn lemma_ordered_once(a: Seq<Seq<char>>, b: Seq<Seq<char>>)
    requires
        text::is_ordered(a),
        text::is_ordered(b),
        a.no_duplicates(),
        b.no_duplicates(),
        forall|k: Seq<char>| #[trigger] a.contains(k) <==> b.contains(k),
    ensures
        a == b,
    decreases a.len(),
{
    if a.len() == 0 {
        if b.len() > 0 {
            assert(b.contains(b[0]));
            assert(a.contains(b[0]));
        }
        assert(a =~= b);
    } else {
        assert(a.contains(a[a.len() - 1]));
        assert(b.contains(a.last()));
        let j = choose|j: int| 0 <= j < b.len() && b[j] == a.last();
        assert(text::not_after(b[j], b[b.len() - 1]));
        assert(b.contains(b[b.len() - 1]));
        assert(a.contains(b.last()));
        let i = choose|i: int| 0 <= i < a.len() && a[i] == b.last();
        assert(text::not_after(a[i], a[a.len() - 1]));
        lemma_order_pins(a.last(), b.last());
        assert forall|k: Seq<char>| #[trigger] a.drop_last().contains(k) <==>
            b.drop_last().contains(k) by {
            lemma_without_last(a, k);
            lemma_without_last(b, k);
        }
        lemma_without_last(a, a.last());
        lemma_without_last(b, b.last());
        assert forall|x: int, y: int| 0 <= x <= y < a.drop_last().len() implies text::not_after(
            #[trigger] a.drop_last()[x],
            #[trigger] a.drop_last()[y],
        ) by {
            assert(text::not_after(a[x], a[y]));
        }
        assert forall|x: int, y: int| 0 <= x <= y < b.drop_last().len() implies text::not_after(
            #[trigger] b.drop_last()[x],
            #[trigger] b.drop_last()[y],
        ) by {
            assert(text::not_after(b[x], b[y]));
        }
        lemma_ordered_once(a.drop_last(), b.drop_last());
        assert(a =~= a.drop_last().push(a.last()));
        assert(b =~= b.drop_last().push(b.last()));
    }
}

/// There is one way to record what the server lists of a series.
pub proof fn series_expand_in_one_way(
    card: Val,
    exceptions: Seq<ConvertedVal>,
    starts: Seq<Seq<char>>,
    windows: Seq<(String, String)>,
    a: Val,
    b: Val,
)
    requires
        is_expanded(card, exceptions, starts, windows, a),
        is_expanded(card, exceptions, starts, windows, b),
    ensures
        a == b,
{
    if let Val::Object(e) = card {
        let changed = with_exceptions(e, exceptions, card.text_at("timeZone"@));
        let v = Val::Object(changed);
        let x = choose|keys: Seq<Seq<char>>| #[trigger]
            are_cancelled_keys(v, starts, exceptions, windows, keys) && a == Val::Object(
                with_cancelled(changed, keys),
            );
        let y = choose|keys: Seq<Seq<char>>| #[trigger]
            are_cancelled_keys(v, starts, exceptions, windows, keys) && b == Val::Object(
                with_cancelled(changed, keys),
            );
        match pattern_of(v) {
            Some(pattern) => {
                if is_open_ended(pattern, windows) {
                    assert(x =~= y);
                } else {
                    let actual = actual_dates(starts, exceptions, v.text_at("timeZone"@));
                    let time = start_parts(v.text_at("start"@)->0).1;
                    assert forall|k: Seq<char>| #[trigger] x.contains(k) <==> y.contains(k) by {
                        assert(x.contains(k) <==> is_cancelled_key(
                            pattern,
                            windows,
                            actual,
                            time,
                            k,
                        ));
                        assert(y.contains(k) <==> is_cancelled_key(
                            pattern,
                            windows,
                            actual,
                            time,
                            k,
                        ));
                    }
                    lemma_ordered_once(x, y);
                }
            },
            None => {
                assert(x =~= y);
            },
        }
    }
}

/// A deleted occurrence never replaces what is recorded of an occurrence
/// already.
pub proof fn exclusions_keep_what_is_recorded(o: Members, keys: Seq<Seq<char>>, k: Seq<char>)
    requires
        json::lookup(o, k) is Some,
    ensures
        json::lookup(with_exclusions(o, keys), k) == json::lookup(o, k),
    decreases keys.len(),
{
    if keys.len() > 0 {
        exclusions_keep_what_is_recorded(o, keys.drop_last(), k);
        let before = with_exclusions(o, keys.drop_last());
        if json::lookup(before, keys.last()) is None {
            json::lemma_with_member(
                before,
                keys.last(),
                json::obj1("excluded"@, Val::Bool(true)),
                k,
            );
        }
    }
}

/// The starts of a series' occurrences, as the server lists them.
pub open spec fn starts_of(list: Seq<Val>, master: Seq<char>) -> Seq<Seq<char>>
    decreases list.len(),
{
    if list.len() == 0 {
        Seq::empty()
    } else {
        let before = starts_of(list.drop_last(), master);
        if list.last().text_at("seriesMasterId"@) == Some(master) {
            match list.last().get("start"@) {
                Some(s) => match s.text_at("dateTime"@) {
                    Some(t) => before.push(t),
                    None => before,
                },
                None => before,
            }
        } else {
            before
        }
    }
}

/// Collects the starts of a series' occurrences from the server's listing.
pub fn occurrence_starts(list: &Vec<Json>, master: &str) -> (r: Vec<String>)
    ensures
        text::texts(r@) == starts_of(json::list_view(list@), master@),
{
    let ghost all = json::list_view(list@);
    let mut r: Vec<String> = Vec::new();
    let mut i: usize = 0;
    assert(all.take(0) =~= Seq::empty());
    assert(text::texts(r@) =~= Seq::empty());
    while i < list.len()
        invariant
            i <= list@.len(),
            all == json::list_view(list@),
            all.len() == list@.len(),
            text::texts(r@) == starts_of(all.take(i as int), master@),
        decreases list@.len() - i,
    {
        assert(all.take(i as int + 1).drop_last() =~= all.take(i as int));
        assert(all.take(i as int + 1).last() == list@[i as int]@);
        let own: bool = match list[i].text_at("seriesMasterId") {
            Some(t) => text::same(t, master),
            None => false,
        };
        if own {
            if let Some(s) = list[i].get("start") {
                if let Some(t) = s.text_at("dateTime") {
                    let ghost before = text::texts(r@);
                    r.push(t.to_owned());
                    assert(text::texts(r@) =~= before.push(t@));
                }
            }
        }
        i = i + 1;
    }
    assert(all.take(i as int) =~= all);
    r
}

/// The changed occurrences of one series.
pub open spec fn of_series(exceptions: Seq<ConvertedVal>, master: Seq<char>) -> Seq<ConvertedVal>
    decreases exceptions.len(),
{
    if exceptions.len() == 0 {
        Seq::empty()
    } else {
        let before = of_series(exceptions.drop_last(), master);
        if exceptions.last().series_master_id == Some(master) {
            before.push(exceptions.last())
        } else {
            before
        }
    }
}

/// Selects the changed occurrences of one series.
pub fn select_series(exceptions: &Vec<ConvertedEvent>, master: &str) -> (r: Vec<ConvertedEvent>)
    ensures
        event_views(r@) == of_series(event_views(exceptions@), master@),
{
    let ghost all = event_views(exceptions@);
    let mut r: Vec<ConvertedEvent> = Vec::new();
    let mut i: usize = 0;
    assert(all.take(0) =~= Seq::empty());
    assert(event_views(r@) =~= Seq::empty());
    while i < exceptions.len()
        invariant
            i <= exceptions@.len(),
            all == event_views(exceptions@),
            all.len() == exceptions@.len(),
            event_views(r@) == of_series(all.take(i as int), master@),
        decreases exceptions@.len() - i,
    {
        assert(all.take(i as int + 1).drop_last() =~= all.take(i as int));
        assert(all.take(i as int + 1).last() == exceptions@[i as int]@);
        if let Some(m) = &exceptions[i].series_master_id {
            if text::same(m.as_str(), master) {
                let ghost before = event_views(r@);
                let copy: ConvertedEvent = exceptions[i].dup();
                let ghost held = copy@;
                r.push(copy);
                assert(event_views(r@) =~= before.push(held));
            }
        }
        i = i + 1;
    }
    assert(all.take(i as int) =~= all);
    r
}

/// Whether a stored series is written anew as this, or left as it is.
pub open spec fn is_rewrite(
    stored: Seq<char>,
    exceptions: Seq<ConvertedVal>,
    starts: Seq<Seq<char>>,
    windows: Seq<(String, String)>,
    r: Option<Seq<char>>,
) -> bool {
    match json::json_of(vstd::utf8::encode_utf8(stored)) {
        Err(_) => r is None,
        Ok(card) => exists|new: Val| #[trigger]
            is_expanded(card, exceptions, starts, windows, new) && r == (if json::same_value(
                new,
                card,
            ) {
                None
            } else {
                Some(json::written(new))
            }),
    }
}

/// Records the changed and the deleted occurrences of a series in its stored
/// text: gives the new text where that changed anything, and counts it. A text
/// that is no JSON stays.
pub fn expand_stored(
    stored: &str,
    master: &str,
    exceptions: &Vec<ConvertedEvent>,
    occurrences: &Vec<Json>,
    windows: &Vec<(String, String)>,
    counts: &mut TypeCounts,
) -> (r: Option<String>)
    requires
        old(counts).updated < u64::MAX,
    ensures
        is_rewrite(
            stored@,
            of_series(event_views(exceptions@), master@),
            starts_of(json::list_view(occurrences@), master@),
            windows@,
            json::text_view(r),
        ),
        *final(counts) == (if r is Some {
            TypeCounts { updated: (old(counts).updated + 1) as u64, ..*old(counts) }
        } else {
            *old(counts)
        }),
{
    let card: Json = match json::parse(stored.as_bytes()) {
        Ok(v) => v,
        Err(_) => {
            return None;
        },
    };
    let own: Vec<ConvertedEvent> = select_series(exceptions, master);
    let starts: Vec<String> = occurrence_starts(occurrences, master);
    let (new, changed) = expand_series(&card, &own, &starts, windows);
    assert(is_expanded(
        card@,
        of_series(event_views(exceptions@), master@),
        starts_of(json::list_view(occurrences@), master@),
        windows@,
        new@,
    ));
    if changed {
        counts.updated = counts.updated + 1;
        Some(json::write(&new))
    } else {
        None
    }
}

/// A link to a stored file.
pub open spec fn link_of(blob_id: i64, a: AttachmentVal) -> Val {
    Val::Object(
        seq![
            ("@type"@, Val::Text("Link"@)),
            ("@blob"@, json::int_val(blob_id)),
            ("contentType"@, Val::Text(a.content_type)),
            ("title"@, Val::Text(a.name)),
            ("rel"@, Val::Text("enclosure"@)),
        ],
    )
}

/// Links to stored files, numbered from one on, put to other links.
pub open spec fn with_links(
    links: Members,
    blob_ids: Seq<i64>,
    attachments: Seq<AttachmentVal>,
) -> Members
    decreases attachments.len(),
{
    if attachments.len() == 0 {
        links
    } else {
        json::with_member(
            with_links(links, blob_ids, attachments.drop_last()),
            text::dec(attachments.len()),
            link_of(blob_ids[attachments.len() - 1], attachments.last()),
        )
    }
}

/// An event with links to the files that are attached to it.
pub open spec fn with_attachments(
    card: Val,
    blob_ids: Seq<i64>,
    attachments: Seq<AttachmentVal>,
) -> Val {
    if attachments.len() == 0 {
        card
    } else {
        match card {
            Val::Object(e) => match json::lookup(e, "links"@) {
                Some(Val::Object(l)) => Val::Object(
                    json::with_member(
                        e,
                        "links"@,
                        Val::Object(with_links(l, blob_ids, attachments)),
                    ),
                ),
                _ => Val::Object(
                    json::with_member(
                        e,
                        "links"@,
                        Val::Object(with_links(Seq::empty(), blob_ids, attachments)),
                    ),
                ),
            },
            other => other,
        }
    }
}

fn link_json(blob_id: i64, a: &EventAttachment) -> (r: Json)
    ensures
        r@ == link_of(blob_id, a@),
{
    let mut e: Vec<(String, Json)> = Vec::new();
    json::push_member(&mut e, "@type", json::text_json("Link"));
    json::push_member(&mut e, "@blob", json::int_json(blob_id));
    json::push_member(&mut e, "contentType", json::text_json(a.content_type.as_str()));
    json::push_member(&mut e, "title", json::text_json(a.name.as_str()));
    json::push_member(&mut e, "rel", json::text_json("enclosure"));
    assert(Val::Object(json::members_view(e@)) == link_of(blob_id, a@)) by {
        assert(json::members_view(e@) =~= link_of(blob_id, a@)->Object_0);
    }
    Json::Object(e)
}

/// Puts links to the files that are attached to an event into it, given the
/// blobs that hold them.
pub fn attach_links(card: &Json, blob_ids: &Vec<i64>, attachments: &Vec<EventAttachment>) -> (r:
    Json)
    requires
        blob_ids@.len() == attachments@.len(),
    ensures
        r@ == with_attachments(card@, blob_ids@, attachment_views(attachments@)),
{
    let ghost all = attachment_views(attachments@);
    assert(all.len() == attachments@.len());
    if attachments.len() == 0 {
        return card.dup();
    }
    match card {
        Json::Object(m) => {
            let mut e: Vec<(String, Json)> = json::copied(m);
            let at: usize = json::find_member(&e, "links");
            let mut links: Vec<(String, Json)> = Vec::new();
            assert(json::members_view(links@) =~= Seq::empty());
            if at < e.len() {
                if let Json::Object(l) = &e[at].1 {
                    links = json::copied(l);
                }
            }
            let ghost start = json::members_view(links@);
            let mut i: usize = 0;
            assert(all.take(0) =~= Seq::empty());
            while i < attachments.len()
                invariant
                    i <= attachments@.len(),
                    blob_ids@.len() == attachments@.len(),
                    all == attachment_views(attachments@),
                    json::members_view(links@) == with_links(
                        start,
                        blob_ids@,
                        all.take(i as int),
                    ),
                decreases attachments@.len() - i,
            {
                assert(all.take(i as int + 1).drop_last() =~= all.take(i as int));
                assert(all.take(i as int + 1).last() == attachments@[i as int]@);
                let number: String = text::ordinal(i);
                json::set_member(
                    &mut links,
                    number.as_str(),
                    link_json(blob_ids[i], &attachments[i]),
                );
                i = i + 1;
            }
            assert(all.take(i as int) =~= all);
            json::set_member(&mut e, "links", Json::Object(links));
            Json::Object(e)
        },
        _ => card.dup(),
    }
}

/// The objects of the archive that the server no longer has.
pub open spec fn vanished_of(local: Seq<IdRow>, server: Seq<Seq<char>>) -> Seq<(Seq<char>, i64)>
    decreases local.len(),
{
    if local.len() == 0 {
        Seq::empty()
    } else if server.contains(local.last().graph_id@) {
        vanished_of(local.drop_last(), server)
    } else {
        vanished_of(local.drop_last(), server).push(
            (local.last().graph_id@, local.last().local_id),
        )
    }
}

/// Ids of objects, as texts and numbers.
pub open spec fn id_views(rows: Seq<IdRow>) -> Seq<(Seq<char>, i64)> {
    Seq::new(rows.len(), |i: int| (rows[i].graph_id@, rows[i].local_id))
}

/// Finds the objects of the archive that the server no longer has.
pub fn vanished(local: &Vec<IdRow>, server: &Vec<String>) -> (r: Vec<IdRow>)
    ensures
        id_views(r@) == vanished_of(local@, text::texts(server@)),
{
    let mut r: Vec<IdRow> = Vec::new();
    let mut i: usize = 0;
    assert(local@.take(0) =~= Seq::empty());
    assert(id_views(r@) =~= Seq::empty());
    while i < local.len()
        invariant
            i <= local@.len(),
            id_views(r@) == vanished_of(local@.take(i as int), text::texts(server@)),
        decreases local@.len() - i,
    {
        assert(local@.take(i as int + 1).drop_last() =~= local@.take(i as int));
        if !text::has_text(server, local[i].graph_id.as_str()) {
            let ghost before = id_views(r@);
            r.push(
                IdRow { graph_id: local[i].graph_id.clone(), local_id: local[i].local_id },
            );
            assert(id_views(r@) =~= before.push(
                (local@[i as int].graph_id@, local@[i as int].local_id),
            ));
        }
        i = i + 1;
    }
    assert(local@.take(i as int) =~= local@);
    r
}

/// Counts the deletion of an object that the server no longer has.
pub fn count_deletion(counts: &mut TypeCounts, deleted: bool)
    requires
        old(counts).deleted < u64::MAX,
        old(counts).failed < u64::MAX,
    ensures
        *final(counts) == (if deleted {
            TypeCounts { deleted: (old(counts).deleted + 1) as u64, ..*old(counts) }
        } else {
            TypeCounts { failed: (old(counts).failed + 1) as u64, ..*old(counts) }
        }),
{
    if deleted {
        counts.deleted = counts.deleted + 1;
    } else {
        counts.failed = counts.failed + 1;
    }
}

} // verus!

//! Contact cards and events as rows of the archive, and back.

use crate::db::cell;
use crate::db::cell::{Cell, CellVal};
use crate::exchange::jscalendar;
use crate::jmap::blob;
use crate::jmap::blob::{BlobBytes, BlobIntern, BlobWalkError, InlineShape, SentinelFault};
use crate::jmap::error::JmapError;
use crate::jmap::objects::{CalendarEvent, ContactCard};
use crate::json;
use crate::json::{Json, Members, Val};
use crate::sync::import_jmap::mapping;
use crate::sync::import_jmap::mapping::{Fault, LocalResolver, TargetResolver};
use crate::text;
use crate::types::ObjectType;
use vstd::prelude::*;

verus! {

/// Whether an error is the answer for the first blob within a value that has no
/// local id.
pub open spec fn is_blob_refusal<B: BlobIntern>(e: JmapError, data: Val, blobs: &B) -> bool {
    blob::first_unknown(data, blobs) matches Some(id) && blobs.refuses_with(id, e)
}

/// Gives every blob within a value its local id.
pub fn rewrite_blobs_in<B: BlobIntern>(data: &Json, blobs: &B) -> (r: Result<Json, JmapError>)
    ensures
        match r {
            Ok(v) => blob::importable(data@, blobs) && v@ == blob::imported(data@, blobs),
            Err(e) => !blob::importable(data@, blobs) && is_blob_refusal(e, data@, blobs),
        },
{
    match blob::import_blob_ids(data, blobs) {
        Ok(v) => Ok(v),
        Err(e) => Err(e.into_source()),
    }
}

/// Whether an error tells of the first blob within a value that could not be
/// written out.
pub open spec fn is_inlining_fault<B: BlobBytes>(
    e: JmapError,
    data: Val,
    shape: InlineShape,
    blobs: &B,
) -> bool {
    match blob::first_fault(data, shape, blobs) {
        Some(SentinelFault::Malformed) => e == JmapError::Blob(BlobWalkError::MalformedSentinel),
        Some(SentinelFault::Missing(n)) => blobs.fails_with(n, e),
        None => false,
    }
}

/// Whether the blobs within a value can be written out.
pub open spec fn inlinable<B: BlobBytes>(data: Val, shape: InlineShape, blobs: &B) -> bool {
    !blob::has_malformed_sentinel(data, shape) && !blob::has_missing_bytes(data, shape, blobs)
}

/// Writes out every blob within a value as a data URI.
pub fn inline_blobs_in<B: BlobBytes>(data: &Json, shape: InlineShape, blobs: &B) -> (r: Result<
    Json,
    JmapError,
>)
    ensures
        match r {
            Ok(v) => inlinable(data@, shape, blobs) && v@ == blob::inlined(data@, shape, blobs),
            Err(e) => !inlinable(data@, shape, blobs) && is_inlining_fault(e, data@, shape, blobs),
        },
{
    match blob::inline_blob_data_uris(data, shape, blobs) {
        Ok(v) => Ok(v),
        Err(e) => Err(e.into_source()),
    }
}

/// The uid of a card.
pub open spec fn card_uid(rest: Members) -> Option<Seq<char>> {
    match json::lookup(rest, "uid"@) {
        Some(v) => v.as_text(),
        None => None,
    }
}

/// What the archive keeps of a card beside its uid and its address books.
pub open spec fn card_data(rest: Members) -> Val {
    Val::Object(json::without_member(rest, "uid"@))
}

/// The columns of a card: uid, address books, data.
pub open spec fn card_cells(uid: Seq<char>, ids: Seq<i64>, data: Val) -> Seq<CellVal> {
    seq![
        CellVal::Text(uid),
        CellVal::Text(json::json_text(mapping::ids_val(ids))),
        CellVal::Text(json::written(data)),
    ]
}

/// Why a card cannot be stored, its blobs aside.
pub open spec fn card_fault<R: LocalResolver>(wire: ContactCard, resolver: &R) -> Option<Fault> {
    match mapping::locals(
        mapping::ids_view(wire.address_book_ids@),
        ObjectType::AddressBook,
        resolver,
    ) {
        Err(t) => Some(Fault::Malformed(t)),
        Ok(_) => if card_uid(json::members_view(wire.rest@)) is None {
            Some(Fault::Malformed("ContactCard has no uid"@))
        } else {
            None
        },
    }
}

/// Whether columns are those of a card.
pub open spec fn are_card_columns<R: LocalResolver, B: BlobIntern>(
    columns: Seq<CellVal>,
    wire: ContactCard,
    resolver: &R,
    blobs: &B,
) -> bool {
    let rest = json::members_view(wire.rest@);
    &&& card_fault(wire, resolver) is None
    &&& blob::importable(card_data(rest), blobs)
    &&& columns == card_cells(
        card_uid(rest)->0,
        mapping::locals(
            mapping::ids_view(wire.address_book_ids@),
            ObjectType::AddressBook,
            resolver,
        )->Ok_0,
        blob::imported(card_data(rest), blobs),
    )
}

/// Whether an error tells why a card cannot be stored.
pub open spec fn is_card_failure<R: LocalResolver, B: BlobIntern>(
    e: JmapError,
    wire: ContactCard,
    resolver: &R,
    blobs: &B,
) -> bool {
    match card_fault(wire, resolver) {
        Some(f) => mapping::is_fault(e, f),
        None => {
            let data = card_data(json::members_view(wire.rest@));
            !blob::importable(data, blobs) && is_blob_refusal(e, data, blobs)
        },
    }
}

/// The columns of a new card.
pub fn insert_contact_card<R: LocalResolver, B: BlobIntern>(
    wire: &ContactCard,
    resolver: &R,
    blobs: &B,
) -> (r: Result<Vec<Cell>, JmapError>)
    ensures
        match r {
            Ok(row) => are_card_columns(cell::cells(row@), *wire, resolver, blobs),
            Err(e) => is_card_failure(e, *wire, resolver, blobs),
        },
{
    let books: Vec<i64> = match mapping::translate_in(
        &wire.address_book_ids,
        ObjectType::AddressBook,
        resolver,
    ) {
        Ok(v) => v,
        Err(e) => {
            return Err(e);
        },
    };
    let mut rest: Vec<(String, Json)> = json::copied(&wire.rest);
    let uid: String = match json::remove_member(&mut rest, "uid") {
        Some(Json::Text(t)) => t,
        _ => {
            return Err(JmapError::malformed("ContactCard has no uid"));
        },
    };
    let data: Json = match rewrite_blobs_in(&Json::Object(rest), blobs) {
        Ok(v) => v,
        Err(e) => {
            return Err(e);
        },
    };
    let mut row: Vec<Cell> = Vec::new();
    row.push(Cell::Text(uid));
    row.push(Cell::Text(mapping::id_array_json(&books)));
    row.push(Cell::Text(json::write(&data)));
    assert(cell::cells(row@) =~= card_cells(uid@, books@, data@));
    Ok(row)
}

/// The columns of a card that changed; nothing where it did not.
pub fn update_contact_card<R: LocalResolver, B: BlobIntern>(
    stored: Option<&Vec<Cell>>,
    wire: &ContactCard,
    resolver: &R,
    blobs: &B,
) -> (r: Result<Option<Vec<Cell>>, JmapError>)
    ensures
        match r {
            Ok(row) => exists|columns: Seq<CellVal>|
                #[trigger] are_card_columns(columns, *wire, resolver, blobs) && cell::written_cells(
                    row,
                ) == cell::rewritten(cell::opt_cells(stored), columns),
            Err(e) => is_card_failure(e, *wire, resolver, blobs),
        },
{
    match insert_contact_card(wire, resolver, blobs) {
        Ok(row) => {
            assert(are_card_columns(cell::cells(row@), *wire, resolver, blobs));
            Ok(cell::rewrite(stored, row))
        },
        Err(e) => Err(e),
    }
}

/// A card for the target: with its uid and the target's address books.
pub open spec fn dressed_card(value: Val, uid: Seq<char>, books: Members) -> Val {
    match value {
        Val::Object(e) => Val::Object(
            json::with_member(
                json::with_member(e, "uid"@, Val::Text(uid)),
                "addressBookIds"@,
                Val::Object(books),
            ),
        ),
        other => other,
    }
}

/// Gives a card its uid and the target's address books.
pub fn dress_card<R: TargetResolver>(value: Json, uid: &str, ids: &Vec<i64>, resolver: &R) -> (r:
    Result<Json, JmapError>)
    ensures
        match r {
            Ok(j) => mapping::memberships(ids@, ObjectType::AddressBook, resolver) matches Ok(books)
                && j@ == dressed_card(value@, uid@, books),
            Err(e) => mapping::memberships(ids@, ObjectType::AddressBook, resolver) matches Err(t)
                && mapping::is_fault(e, Fault::Malformed(t)),
        },
{
    let books: Json = match mapping::translate_out(ids, ObjectType::AddressBook, resolver) {
        Ok(v) => v,
        Err(e) => {
            return Err(e);
        },
    };
    match value {
        Json::Object(members) => {
            let mut e: Vec<(String, Json)> = members;
            json::set_member(&mut e, "uid", json::text_json(uid));
            json::set_member(&mut e, "addressBookIds", books);
            Ok(Json::Object(e))
        },
        other => Ok(other),
    }
}

/// Whether an error tells why a row cannot be written out, of what its column
/// of data and its column of ids hold.
pub open spec fn is_export_failure<R: TargetResolver, B: BlobBytes>(
    e: JmapError,
    data: Seq<char>,
    ids: Seq<char>,
    shape: InlineShape,
    ty: ObjectType,
    resolver: &R,
    blobs: &B,
) -> bool {
    match json::json_of(vstd::utf8::encode_utf8(data)) {
        Err(t) => mapping::is_fault(e, Fault::Unreadable(t)),
        Ok(v) => if !inlinable(v, shape, blobs) {
            is_inlining_fault(e, v, shape, blobs)
        } else {
            match mapping::column_ids(ids) {
                Err(f) => mapping::is_fault(e, f),
                Ok(n) => mapping::memberships(n, ty, resolver) matches Err(t) && mapping::is_fault(
                    e,
                    Fault::Malformed(t),
                ),
            }
        },
    }
}

/// What selects the rows of contact cards.
pub const CONTACT_CARD_SELECT: &'static str =
    "SELECT id, uid, address_book_ids, data FROM contact_cards";

/// Writes out a stored card for the target: its blobs as data URIs, its uid,
/// and the target's address books. What was written to the columns is what is
/// read from them.
pub fn contact_card_to_wire<R: TargetResolver, B: BlobBytes>(
    uid: &str,
    address_book_ids: &str,
    data: &str,
    resolver: &R,
    blobs: &B,
) -> (r: Result<Json, JmapError>)
    ensures
        match r {
            Ok(j) => {
                &&& json::json_of(vstd::utf8::encode_utf8(data@)) matches Ok(v)
                &&& inlinable(v, InlineShape::JsContactResource, blobs)
                &&& mapping::column_ids(address_book_ids@) matches Ok(ids)
                &&& mapping::memberships(ids, ObjectType::AddressBook, resolver) matches Ok(books)
                &&& j@ == dressed_card(
                    blob::inlined(v, InlineShape::JsContactResource, blobs),
                    uid@,
                    books,
                )
            },
            Err(e) => is_export_failure(
                e,
                data@,
                address_book_ids@,
                InlineShape::JsContactResource,
                ObjectType::AddressBook,
                resolver,
                blobs,
            ),
        },
        forall|v: Val|
            json::reads_back(v) && data@ == #[trigger] json::json_text(v) ==> json::json_of(
                vstd::utf8::encode_utf8(data@),
            ) == Ok::<Val, Seq<char>>(v),
        r is Ok ==> forall|ids: Seq<i64>|
            address_book_ids@ == json::json_text(#[trigger] mapping::ids_val(ids))
                ==> mapping::column_ids(address_book_ids@) == Ok::<Seq<i64>, Fault>(ids),
{
    let value: Json = match json::parse(data.as_bytes()) {
        Ok(v) => v,
        Err(e) => {
            return Err(JmapError::Json(e));
        },
    };
    let inlined: Json = match inline_blobs_in(&value, InlineShape::JsContactResource, blobs) {
        Ok(v) => v,
        Err(e) => {
            return Err(e);
        },
    };
    let ids: Vec<i64> = match mapping::parse_local_id_array(address_book_ids) {
        Ok(v) => v,
        Err(e) => {
            return Err(e);
        },
    };
    dress_card(inlined, uid, &ids, resolver)
}

/// The members of an event that follow from others or from the request, and
/// are not kept.
pub open spec fn derived_members() -> Seq<Seq<char>> {
    seq!["method"@, "utcStart"@, "utcEnd"@, "isOrigin"@, "baseEventId"@]
}

/// What the archive keeps of an event beside its calendars and flags.
pub open spec fn event_data(rest: Members) -> Val {
    Val::Object(jscalendar::without_all(rest, derived_members()))
}

/// The archive keeps no derived member of an event, and every other one as it
/// is.
pub proof fn stored_events_hold_no_derived_members(rest: Members, key: Seq<char>)
    requires
        jscalendar::distinct_names(rest),
    ensures
        event_data(rest).get(key) == (if derived_members().contains(key) {
            None
        } else {
            json::lookup(rest, key)
        }),
{
    jscalendar::lemma_without_all(rest, derived_members(), key);
}

/// The archive keeps a card's uid beside its data, and every other member in
/// it.
pub proof fn stored_cards_hold_their_uid_apart(rest: Members, key: Seq<char>)
    requires
        jscalendar::distinct_names(rest),
    ensures
        card_data(rest).get(key) == (if key == "uid"@ {
            None
        } else {
            json::lookup(rest, key)
        }),
{
    jscalendar::removal_leaves_the_rest(rest, "uid"@, key);
}

/// The columns of an event: calendars, two flags, data.
pub open spec fn event_cells(
    ids: Seq<i64>,
    is_draft: bool,
    use_default_alerts: bool,
    data: Val,
) -> Seq<CellVal> {
    seq![
        CellVal::Text(json::json_text(mapping::ids_val(ids))),
        cell::flag(is_draft),
        cell::flag(use_default_alerts),
        CellVal::Text(json::written(data)),
    ]
}

/// Whether columns are those of an event.
pub open spec fn are_event_columns<R: LocalResolver, B: BlobIntern>(
    columns: Seq<CellVal>,
    wire: CalendarEvent,
    resolver: &R,
    blobs: &B,
) -> bool {
    let data = event_data(json::members_view(wire.rest@));
    &&& mapping::locals(
        mapping::ids_view(wire.calendar_ids@),
        ObjectType::Calendar,
        resolver,
    ) matches Ok(ids)
    &&& blob::importable(data, blobs)
    &&& columns == event_cells(
        ids,
        wire.is_draft,
        wire.use_default_alerts,
        blob::imported(data, blobs),
    )
}

/// Whether an error tells why an event cannot be stored.
pub open spec fn is_event_failure<R: LocalResolver, B: BlobIntern>(
    e: JmapError,
    wire: CalendarEvent,
    resolver: &R,
    blobs: &B,
) -> bool {
    match mapping::locals(
        mapping::ids_view(wire.calendar_ids@),
        ObjectType::Calendar,
        resolver,
    ) {
        Err(t) => mapping::is_fault(e, Fault::Malformed(t)),
        Ok(_) => {
            let data = event_data(json::members_view(wire.rest@));
            !blob::importable(data, blobs) && is_blob_refusal(e, data, blobs)
        },
    }
}

/// The columns of a new event.
pub fn insert_calendar_event<R: LocalResolver, B: BlobIntern>(
    wire: &CalendarEvent,
    resolver: &R,
    blobs: &B,
) -> (r: Result<Vec<Cell>, JmapError>)
    ensures
        match r {
            Ok(row) => are_event_columns(cell::cells(row@), *wire, resolver, blobs),
            Err(e) => is_event_failure(e, *wire, resolver, blobs),
        },
{
    let calendars: Vec<i64> = match mapping::translate_in(
        &wire.calendar_ids,
        ObjectType::Calendar,
        resolver,
    ) {
        Ok(v) => v,
        Err(e) => {
            return Err(e);
        },
    };
    let mut rest: Vec<(String, Json)> = json::copied(&wire.rest);
    let mut derived: Vec<String> = Vec::new();
    derived.push("method".to_owned());
    derived.push("utcStart".to_owned());
    derived.push("utcEnd".to_owned());
    derived.push("isOrigin".to_owned());
    derived.push("baseEventId".to_owned());
    assert(text::texts(derived@) =~= derived_members());
    jscalendar::remove_all(&mut rest, &derived);
    let data: Json = match rewrite_blobs_in(&Json::Object(rest), blobs) {
        Ok(v) => v,
        Err(e) => {
            return Err(e);
        },
    };
    let mut row: Vec<Cell> = Vec::new();
    row.push(Cell::Text(mapping::id_array_json(&calendars)));
    row.push(cell::flag_cell(wire.is_draft));
    row.push(cell::flag_cell(wire.use_default_alerts));
    row.push(Cell::Text(json::write(&data)));
    assert(cell::cells(row@) =~= event_cells(
        calendars@,
        wire.is_draft,
        wire.use_default_alerts,
        data@,
    ));
    Ok(row)
}

/// The columns of an event that changed; nothing where it did not.
pub fn update_calendar_event<R: LocalResolver, B: BlobIntern>(
    stored: Option<&Vec<Cell>>,
    wire: &CalendarEvent,
    resolver: &R,
    blobs: &B,
) -> (r: Result<Option<Vec<Cell>>, JmapError>)
    ensures
        match r {
            Ok(row) => exists|columns: Seq<CellVal>|
                #[trigger] are_event_columns(columns, *wire, resolver, blobs)
                    && cell::written_cells(row) == cell::rewritten(
                    cell::opt_cells(stored),
                    columns,
                ),
            Err(e) => is_event_failure(e, *wire, resolver, blobs),
        },
{
    match insert_calendar_event(wire, resolver, blobs) {
        Ok(row) => {
            assert(are_event_columns(cell::cells(row@), *wire, resolver, blobs));
            Ok(cell::rewrite(stored, row))
        },
        Err(e) => Err(e),
    }
}

/// An event for the target: with the target's calendars and its flags.
pub open spec fn dressed_event(
    value: Val,
    calendars: Members,
    is_draft: bool,
    use_default_alerts: bool,
) -> Val {
    match value {
        Val::Object(e) => Val::Object(
            json::with_member(
                json::with_member(
                    json::with_member(e, "calendarIds"@, Val::Object(calendars)),
                    "isDraft"@,
                    Val::Bool(is_draft),
                ),
                "useDefaultAlerts"@,
                Val::Bool(use_default_alerts),
            ),
        ),
        other => other,
    }
}

/// Gives an event the target's calendars and its flags.
pub fn dress_event<R: TargetResolver>(
    value: Json,
    ids: &Vec<i64>,
    is_draft: bool,
    use_default_alerts: bool,
    resolver: &R,
) -> (r: Result<Json, JmapError>)
    ensures
        match r {
            Ok(j) => mapping::memberships(ids@, ObjectType::Calendar, resolver) matches Ok(calendars)
                && j@ == dressed_event(value@, calendars, is_draft, use_default_alerts),
            Err(e) => mapping::memberships(ids@, ObjectType::Calendar, resolver) matches Err(t)
                && mapping::is_fault(e, Fault::Malformed(t)),
        },
{
    let calendars: Json = match mapping::translate_out(ids, ObjectType::Calendar, resolver) {
        Ok(v) => v,
        Err(e) => {
            return Err(e);
        },
    };
    match value {
        Json::Object(members) => {
            let mut e: Vec<(String, Json)> = members;
            json::set_member(&mut e, "calendarIds", calendars);
            json::set_member(&mut e, "isDraft", Json::Bool(is_draft));
            json::set_member(&mut e, "useDefaultAlerts", Json::Bool(use_default_alerts));
            Ok(Json::Object(e))
        },
        other => Ok(other),
    }
}

/// What selects the rows of calendar events.
pub const CALENDAR_EVENT_SELECT: &'static str =
    "SELECT id, calendar_ids, is_draft, use_default_alerts, data FROM calendar_events WHERE data_type = 'Event'";

/// Writes out a stored event for the target: its blobs as data URIs, the
/// target's calendars and its flags. What was written to the columns is what
/// is read from them.
pub fn calendar_event_to_wire<R: TargetResolver, B: BlobBytes>(
    calendar_ids: &str,
    is_draft: bool,
    use_default_alerts: bool,
    data: &str,
    resolver: &R,
    blobs: &B,
) -> (r: Result<Json, JmapError>)
    ensures
        match r {
            Ok(j) => {
                &&& json::json_of(vstd::utf8::encode_utf8(data@)) matches Ok(v)
                &&& inlinable(v, InlineShape::JsCalendarLink, blobs)
                &&& mapping::column_ids(calendar_ids@) matches Ok(ids)
                &&& mapping::memberships(ids, ObjectType::Calendar, resolver) matches Ok(calendars)
                &&& j@ == dressed_event(
                    blob::inlined(v, InlineShape::JsCalendarLink, blobs),
                    calendars,
                    is_draft,
                    use_default_alerts,
                )
            },
            Err(e) => is_export_failure(
                e,
                data@,
                calendar_ids@,
                InlineShape::JsCalendarLink,
                ObjectType::Calendar,
                resolver,
                blobs,
            ),
        },
        forall|v: Val|
            json::reads_back(v) && data@ == #[trigger] json::json_text(v) ==> json::json_of(
                vstd::utf8::encode_utf8(data@),
            ) == Ok::<Val, Seq<char>>(v),
        r is Ok ==> forall|ids: Seq<i64>|
            calendar_ids@ == json::json_text(#[trigger] mapping::ids_val(ids))
                ==> mapping::column_ids(calendar_ids@) == Ok::<Seq<i64>, Fault>(ids),
{
    let value: Json = match json::parse(data.as_bytes()) {
        Ok(v) => v,
        Err(e) => {
            return Err(JmapError::Json(e));
        },
    };
    let inlined: Json = match inline_blobs_in(&value, InlineShape::JsCalendarLink, blobs) {
        Ok(v) => v,
        Err(e) => {
            return Err(e);
        },
    };
    let ids: Vec<i64> = match mapping::parse_local_id_array(calendar_ids) {
        Ok(v) => v,
        Err(e) => {
            return Err(e);
        },
    };
    dress_event(inlined, &ids, is_draft, use_default_alerts, resolver)
}

/// A card without blobs comes out of the archive as it went in, but for the
/// address books, which are the target's.
pub proof fn cards_come_out_as_they_went_in<I: BlobIntern, O: BlobBytes>(
    rest: Members,
    books: Members,
    taken: &I,
    given: &O,
    key: Seq<char>,
)
    requires
        jscalendar::distinct_names(rest),
        card_uid(rest) is Some,
        blob::is_free_of(card_data(rest), "blobId"@),
        blob::has_no_sentinel(card_data(rest)),
    ensures
        blob::importable(card_data(rest), taken),
        inlinable(
            blob::imported(card_data(rest), taken),
            InlineShape::JsContactResource,
            given,
        ),
        dressed_card(
            blob::inlined(
                blob::imported(card_data(rest), taken),
                InlineShape::JsContactResource,
                given,
            ),
            card_uid(rest)->0,
            books,
        ).get(key) == (if key == "addressBookIds"@ {
            Some(Val::Object(books))
        } else {
            json::lookup(rest, key)
        }),
{
    let data = card_data(rest);
    let uid = Val::Text(card_uid(rest)->0);
    blob::values_without_blob_ids_are_untouched(data, taken);
    blob::values_without_sentinels_are_untouched(data, InlineShape::JsContactResource, given);
    let e = json::without_member(rest, "uid"@);
    jscalendar::removal_leaves_the_rest(rest, "uid"@, key);
    json::lemma_with_member(e, "uid"@, uid, key);
    json::lemma_with_member(
        json::with_member(e, "uid"@, uid),
        "addressBookIds"@,
        Val::Object(books),
        key,
    );
    reveal_strlit("uid");
    reveal_strlit("addressBookIds");
}

/// The members of an event that the target's side of the archive sets.
pub open spec fn dressed_members() -> Seq<Seq<char>> {
    seq!["calendarIds"@, "isDraft"@, "useDefaultAlerts"@]
}

/// An event without blobs comes out of the archive as it went in, but for what
/// is derived, which is left out, and for the calendars, which are the
/// target's.
pub proof fn events_come_out_as_they_went_in<I: BlobIntern, O: BlobBytes>(
    rest: Members,
    calendars: Members,
    is_draft: bool,
    use_default_alerts: bool,
    taken: &I,
    given: &O,
    key: Seq<char>,
)
    requires
        jscalendar::distinct_names(rest),
        blob::is_free_of(event_data(rest), "blobId"@),
        blob::has_no_sentinel(event_data(rest)),
    ensures
        blob::importable(event_data(rest), taken),
        inlinable(blob::imported(event_data(rest), taken), InlineShape::JsCalendarLink, given),
        ({
            let out = dressed_event(
                blob::inlined(
                    blob::imported(event_data(rest), taken),
                    InlineShape::JsCalendarLink,
                    given,
                ),
                calendars,
                is_draft,
                use_default_alerts,
            );
            &&& out.get("calendarIds"@) == Some(Val::Object(calendars))
            &&& out.get("isDraft"@) == Some(Val::Bool(is_draft))
            &&& out.get("useDefaultAlerts"@) == Some(Val::Bool(use_default_alerts))
            &&& !dressed_members().contains(key) ==> out.get(key) == (if derived_members().contains(
                key,
            ) {
                None
            } else {
                json::lookup(rest, key)
            })
        }),
{
    let data = event_data(rest);
    blob::values_without_blob_ids_are_untouched(data, taken);
    blob::values_without_sentinels_are_untouched(data, InlineShape::JsCalendarLink, given);
    let e = jscalendar::without_all(rest, derived_members());
    jscalendar::lemma_without_all(rest, derived_members(), key);
    lemma_dressed(e, calendars, is_draft, use_default_alerts, key);
    lemma_dressed(e, calendars, is_draft, use_default_alerts, "calendarIds"@);
    lemma_dressed(e, calendars, is_draft, use_default_alerts, "isDraft"@);
    lemma_dressed(e, calendars, is_draft, use_default_alerts, "useDefaultAlerts"@);
    reveal_strlit("calendarIds");
    reveal_strlit("isDraft");
    reveal_strlit("useDefaultAlerts");
    assert("calendarIds"@.len() == 11 && "isDraft"@.len() == 7 && "useDefaultAlerts"@.len() == 16);
    assert(dressed_members()[0] == "calendarIds"@ && dressed_members()[1] == "isDraft"@
        && dressed_members()[2] == "useDefaultAlerts"@);
}

proof fn lemma_dressed(
    e: Members,
    calendars: Members,
    is_draft: bool,
    use_default_alerts: bool,
    key: Seq<char>,
)
    ensures
        dressed_event(Val::Object(e), calendars, is_draft, use_default_alerts).get(key) == (if key
            == "useDefaultAlerts"@ {
            Some(Val::Bool(use_default_alerts))
        } else if key == "isDraft"@ {
            Some(Val::Bool(is_draft))
        } else if key == "calendarIds"@ {
            Some(Val::Object(calendars))
        } else {
            json::lookup(e, key)
        }),
{
    let a = json::with_member(e, "calendarIds"@, Val::Object(calendars));
    let b = json::with_member(a, "isDraft"@, Val::Bool(is_draft));
    json::lemma_with_member(e, "calendarIds"@, Val::Object(calendars), key);
    json::lemma_with_member(a, "isDraft"@, Val::Bool(is_draft), key);
    json::lemma_with_member(b, "useDefaultAlerts"@, Val::Bool(use_default_alerts), key);
}

} // verus!

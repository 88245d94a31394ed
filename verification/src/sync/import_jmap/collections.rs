//! Identities, scripts, address books and calendars as rows of the archive,
//! and back.

use crate::db::cell;
use crate::db::cell::{Cell, CellVal};
use crate::db::defaults;
use crate::db::defaults::DefaultRow;
use crate::jmap::error::JmapError;
use crate::jmap::objects::{AddressBook, Calendar, Identity, ParticipantIdentity, SieveScript};
use crate::json;
use crate::json::{Json, Val};
use crate::sync::import_jmap::mapping;
use crate::sync::import_jmap::mapping::Fault;
use crate::types::ObjectType;
use vstd::prelude::*;

verus! {

/// A JSON value that a column may hold.
pub open spec fn json_column(v: Option<Val>) -> CellVal {
    match v {
        Some(j) => CellVal::Text(json::written(j)),
        None => CellVal::Null,
    }
}

fn opt_json(v: &Option<Json>) -> (r: Cell)
    ensures
        r@ == json_column(json::opt_view(*v)),
{
    match v {
        Some(j) => Cell::Text(json::write(j)),
        None => Cell::Null,
    }
}

/// The JSON value that a column holds, if it holds one.
pub open spec fn column_json(c: CellVal) -> Result<Option<Val>, Fault> {
    match cell::text_of(c) {
        None => Ok(None),
        Some(t) => match json::json_of(vstd::utf8::encode_utf8(t)) {
            Ok(v) => Ok(Some(v)),
            Err(e) => Err(Fault::Unreadable(e)),
        },
    }
}

/// Whether a value is the one that was written to a column, if that is one that
/// reads back.
pub open spec fn is_read_from(v: Option<Val>, c: CellVal) -> bool {
    forall|x: Val|
        json::reads_back(x) && c == CellVal::Text(#[trigger] json::json_text(x)) ==> v == Some(x)
}

proof fn lemma_written_is_read(v: Option<Val>, read: Option<Val>)
    ensures
        is_read_from(read, json_column(v)) && (v matches Some(j) && json::reads_back(j)) ==> read
            == v,
{
    if let Some(j) = v {
        if json::reads_back(j) {
            json::plain_values_are_held_as_they_are(j);
        }
    }
}

/// Why a column holds neither a JSON value nor nothing.
pub open spec fn json_fault(row: Seq<CellVal>, i: int, name: Seq<char>) -> Option<Fault> {
    if !cell::is_opt_text(cell::cell(row, i)) {
        mapping::column_fault(row, i, name)
    } else {
        match column_json(cell::cell(row, i)) {
            Err(f) => Some(f),
            Ok(_) => None,
        }
    }
}

/// Reads the JSON value that a column holds, if it holds one. What was written
/// reads back.
pub fn from_opt_json(row: &Vec<Cell>, i: usize, name: &str) -> (r: Result<
    Option<Json>,
    JmapError,
>)
    ensures
        match r {
            Ok(v) => json_fault(cell::cells(row@), i as int, name@) is None && column_json(
                cell::cell(cell::cells(row@), i as int),
            ) == Ok::<Option<Val>, Fault>(json::opt_view(v)) && is_read_from(
                json::opt_view(v),
                cell::cell(cell::cells(row@), i as int),
            ),
            Err(e) => json_fault(cell::cells(row@), i as int, name@) matches Some(f)
                && mapping::is_fault(e, f),
        },
        r is Err ==> forall|v: Val|
            json::reads_back(v) ==> cell::cell(cell::cells(row@), i as int) != CellVal::Text(
                #[trigger] json::json_text(v),
            ),
{
    match cell::opt_text_at(row, i, name) {
        Err(e) => Err(e),
        Ok(None) => Ok(None),
        Ok(Some(t)) => match json::parse(t.as_str().as_bytes()) {
            Ok(j) => Ok(Some(j)),
            Err(e) => Err(JmapError::Json(e)),
        },
    }
}

/// Whether an object becomes the default one.
pub open spec fn default_given(
    rows: Seq<DefaultRow>,
    ty: ObjectType,
    is_default: bool,
    exclude_id: Option<i64>,
) -> bool {
    is_default && defaults::has_default(ty) && !defaults::is_taken(rows, exclude_id)
}

/// The columns of an identity: name, address, where answers and blind copies go,
/// and the two signatures.
pub open spec fn identity_cells(wire: Identity) -> Seq<CellVal> {
    seq![
        CellVal::Text(wire.name@),
        CellVal::Text(wire.email@),
        json_column(json::opt_view(wire.reply_to)),
        json_column(json::opt_view(wire.bcc)),
        CellVal::Text(wire.text_signature@),
        CellVal::Text(wire.html_signature@),
    ]
}

fn identity_row(wire: &Identity) -> (r: Vec<Cell>)
    ensures
        cell::cells(r@) == identity_cells(*wire),
{
    let mut row: Vec<Cell> = Vec::new();
    row.push(Cell::Text(wire.name.clone()));
    row.push(Cell::Text(wire.email.clone()));
    row.push(opt_json(&wire.reply_to));
    row.push(opt_json(&wire.bcc));
    row.push(Cell::Text(wire.text_signature.clone()));
    row.push(Cell::Text(wire.html_signature.clone()));
    assert(cell::cells(row@) =~= identity_cells(*wire));
    row
}

/// The columns of a new identity.
pub fn insert_identity(wire: &Identity) -> (r: Vec<Cell>)
    ensures
        cell::cells(r@) == identity_cells(*wire),
{
    identity_row(wire)
}

/// The columns of an identity that changed; nothing where it did not.
pub fn update_identity(stored: Option<&Vec<Cell>>, wire: &Identity) -> (r: Option<Vec<Cell>>)
    ensures
        cell::written_cells(r) == cell::rewritten(cell::opt_cells(stored), identity_cells(*wire)),
{
    cell::rewrite(stored, identity_row(wire))
}

/// Why a row, led by its id, is no identity.
pub open spec fn identity_fault(row: Seq<CellVal>) -> Option<Fault> {
    if !cell::is_text(cell::cell(row, 1)) {
        mapping::column_fault(row, 1, "name"@)
    } else if !cell::is_text(cell::cell(row, 2)) {
        mapping::column_fault(row, 2, "email"@)
    } else if json_fault(row, 3, "reply_to"@) is Some {
        json_fault(row, 3, "reply_to"@)
    } else if json_fault(row, 4, "bcc"@) is Some {
        json_fault(row, 4, "bcc"@)
    } else if !cell::is_text(cell::cell(row, 5)) {
        mapping::column_fault(row, 5, "text_signature"@)
    } else if !cell::is_text(cell::cell(row, 6)) {
        mapping::column_fault(row, 6, "html_signature"@)
    } else {
        None
    }
}

/// Whether an identity is what a row, led by its id, holds.
pub open spec fn is_identity_of(w: Identity, row: Seq<CellVal>) -> bool {
    &&& w.id is None
    &&& cell::cell(row, 1) == CellVal::Text(w.name@)
    &&& cell::cell(row, 2) == CellVal::Text(w.email@)
    &&& column_json(cell::cell(row, 3)) == Ok::<Option<Val>, Fault>(json::opt_view(w.reply_to))
    &&& is_read_from(json::opt_view(w.reply_to), cell::cell(row, 3))
    &&& column_json(cell::cell(row, 4)) == Ok::<Option<Val>, Fault>(json::opt_view(w.bcc))
    &&& is_read_from(json::opt_view(w.bcc), cell::cell(row, 4))
    &&& cell::cell(row, 5) == CellVal::Text(w.text_signature@)
    &&& cell::cell(row, 6) == CellVal::Text(w.html_signature@)
}

/// What selects the rows of identities.
pub const IDENTITY_SELECT: &'static str =
    "SELECT id, name, email, reply_to, bcc, text_signature, html_signature FROM identities";

/// Reads an identity from its row, led by its id. JSON that was
/// written reads back.
pub fn row_to_identity(row: &Vec<Cell>) -> (r: Result<Identity, JmapError>)
    ensures
        match r {
            Ok(w) => identity_fault(cell::cells(row@)) is None && is_identity_of(w, cell::cells(row@)),
            Err(e) => identity_fault(cell::cells(row@)) matches Some(f) && mapping::is_fault(e, f),
        },
{
    let name: String = match cell::text_at(row, 1, "name") {
        Ok(v) => v,
        Err(e) => {
            return Err(e);
        },
    };
    let email: String = match cell::text_at(row, 2, "email") {
        Ok(v) => v,
        Err(e) => {
            return Err(e);
        },
    };
    let reply_to: Option<Json> = match from_opt_json(row, 3, "reply_to") {
        Ok(v) => v,
        Err(e) => {
            return Err(e);
        },
    };
    let bcc: Option<Json> = match from_opt_json(row, 4, "bcc") {
        Ok(v) => v,
        Err(e) => {
            return Err(e);
        },
    };
    let text_signature: String = match cell::text_at(row, 5, "text_signature") {
        Ok(v) => v,
        Err(e) => {
            return Err(e);
        },
    };
    let html_signature: String = match cell::text_at(row, 6, "html_signature") {
        Ok(v) => v,
        Err(e) => {
            return Err(e);
        },
    };
    Ok(
        Identity {
            id: None,
            name,
            email,
            reply_to,
            bcc,
            text_signature,
            html_signature,
        },
    )
}

/// What is stored of an identity reads back.
pub proof fn stored_identity_reads_back(wire: Identity, id: i64, w: Identity)
    requires
        is_identity_of(w, cell::stored(id, identity_cells(wire))),
    ensures
        w.name@ == wire.name@,
        w.email@ == wire.email@,
        wire.reply_to is None ==> w.reply_to is None,
        json::opt_view(wire.reply_to) is Some && json::reads_back(
            json::opt_view(wire.reply_to)->0,
        ) ==> json::opt_view(w.reply_to) == json::opt_view(wire.reply_to),
        wire.bcc is None ==> w.bcc is None,
        json::opt_view(wire.bcc) is Some && json::reads_back(
            json::opt_view(wire.bcc)->0,
        ) ==> json::opt_view(w.bcc) == json::opt_view(wire.bcc),
        w.text_signature@ == wire.text_signature@,
        w.html_signature@ == wire.html_signature@,
{
    lemma_written_is_read(json::opt_view(wire.reply_to), json::opt_view(w.reply_to));
    lemma_written_is_read(json::opt_view(wire.bcc), json::opt_view(w.bcc));
}

/// The columns of an address book: name, description, sort order, whether it is
/// the default one, subscription.
pub open spec fn address_book_cells(wire: AddressBook, is_default: bool) -> Seq<CellVal> {
    seq![
        CellVal::Text(wire.name@),
        cell::opt_text(json::text_view(wire.description)),
        CellVal::Int(wire.sort_order as i64),
        cell::flag(is_default),
        cell::flag(wire.is_subscribed),
    ]
}

fn address_book_row(wire: &AddressBook, is_default: bool) -> (r: Vec<Cell>)
    ensures
        cell::cells(r@) == address_book_cells(*wire, is_default),
{
    let mut row: Vec<Cell> = Vec::new();
    row.push(Cell::Text(wire.name.clone()));
    row.push(cell::text_cell(json::str_of(&wire.description)));
    row.push(Cell::Int(wire.sort_order as i64));
    row.push(cell::flag_cell(is_default));
    row.push(cell::flag_cell(wire.is_subscribed));
    assert(cell::cells(row@) =~= address_book_cells(*wire, is_default));
    row
}

/// The columns of a new address book.
pub fn insert_address_book(rows: &Vec<DefaultRow>, wire: &AddressBook) -> (r: Vec<Cell>)
    ensures
        cell::cells(r@) == address_book_cells(
            *wire,
            default_given(rows@, ObjectType::AddressBook, wire.is_default, None),
        ),
{
    let is_default: bool = defaults::unique_default(
        rows,
        ObjectType::AddressBook,
        wire.is_default,
        None,
    );
    address_book_row(wire, is_default)
}

/// The columns of an address book that changed; nothing where it did not.
pub fn update_address_book(
    stored: Option<&Vec<Cell>>,
    rows: &Vec<DefaultRow>,
    local_id: i64,
    wire: &AddressBook,
) -> (r: Option<Vec<Cell>>)
    ensures
        cell::written_cells(r) == cell::rewritten(
            cell::opt_cells(stored),
            address_book_cells(
                *wire,
                default_given(rows@, ObjectType::AddressBook, wire.is_default, Some(local_id)),
            ),
        ),
{
    let is_default: bool = defaults::unique_default(
        rows,
        ObjectType::AddressBook,
        wire.is_default,
        Some(local_id),
    );
    cell::rewrite(stored, address_book_row(wire, is_default))
}

/// Why a row, led by its id, is no address book.
pub open spec fn address_book_fault(row: Seq<CellVal>) -> Option<Fault> {
    if !cell::is_text(cell::cell(row, 1)) {
        mapping::column_fault(row, 1, "name"@)
    } else if !cell::is_opt_text(cell::cell(row, 2)) {
        mapping::column_fault(row, 2, "description"@)
    } else if !cell::is_int(cell::cell(row, 3)) {
        mapping::column_fault(row, 3, "sort_order"@)
    } else if !cell::is_int(cell::cell(row, 4)) {
        mapping::column_fault(row, 4, "is_default"@)
    } else if !cell::is_int(cell::cell(row, 5)) {
        mapping::column_fault(row, 5, "is_subscribed"@)
    } else {
        None
    }
}

/// Whether an address book is what a row, led by its id, holds.
pub open spec fn is_address_book_of(w: AddressBook, row: Seq<CellVal>) -> bool {
    &&& w.id is None
    &&& cell::cell(row, 1) == CellVal::Text(w.name@)
    &&& json::text_view(w.description) == cell::text_of(cell::cell(row, 2))
    &&& w.sort_order == (cell::int_of(cell::cell(row, 3))->0) as u32
    &&& w.is_default == (cell::int_of(cell::cell(row, 4))->0 != 0)
    &&& w.is_subscribed == (cell::int_of(cell::cell(row, 5))->0 != 0)
}

/// What selects the rows of address books.
pub const ADDRESS_BOOK_SELECT: &'static str =
    "SELECT id, name, description, sort_order, is_default, is_subscribed FROM address_books";

/// Reads an address book from its row, led by its id.
pub fn row_to_address_book(row: &Vec<Cell>) -> (r: Result<AddressBook, JmapError>)
    ensures
        match r {
            Ok(w) => address_book_fault(cell::cells(row@)) is None && is_address_book_of(w, cell::cells(row@)),
            Err(e) => address_book_fault(cell::cells(row@)) matches Some(f) && mapping::is_fault(e, f),
        },
{
    let name: String = match cell::text_at(row, 1, "name") {
        Ok(v) => v,
        Err(e) => {
            return Err(e);
        },
    };
    let description: Option<String> = match cell::opt_text_at(row, 2, "description") {
        Ok(v) => v,
        Err(e) => {
            return Err(e);
        },
    };
    let sort_order: i64 = match cell::int_at(row, 3, "sort_order") {
        Ok(v) => v,
        Err(e) => {
            return Err(e);
        },
    };
    let is_default: i64 = match cell::int_at(row, 4, "is_default") {
        Ok(v) => v,
        Err(e) => {
            return Err(e);
        },
    };
    let is_subscribed: i64 = match cell::int_at(row, 5, "is_subscribed") {
        Ok(v) => v,
        Err(e) => {
            return Err(e);
        },
    };
    Ok(
        AddressBook {
            id: None,
            name,
            description,
            sort_order: #[verifier::truncate]
            (sort_order as u32),
            is_default: is_default != 0,
            is_subscribed: is_subscribed != 0,
        },
    )
}

/// What is stored of an address book reads back.
pub proof fn stored_address_book_reads_back(wire: AddressBook, id: i64, is_default: bool, w: AddressBook)
    requires
        is_address_book_of(w, cell::stored(id, address_book_cells(wire, is_default))),
    ensures
        address_book_fault(cell::stored(id, address_book_cells(wire, is_default))) is None,
        w.name@ == wire.name@,
        json::text_view(w.description) == json::text_view(wire.description),
        w.sort_order == wire.sort_order,
        w.is_default == is_default,
        w.is_subscribed == wire.is_subscribed,
{
}

/// The columns of a calendar: name, description, color, sort order, subscription,
/// visibility, whether it is the default one, availability, the two kinds of
/// alerts, time zone.
pub open spec fn calendar_cells(wire: Calendar, is_default: bool) -> Seq<CellVal> {
    seq![
        CellVal::Text(wire.name@),
        cell::opt_text(json::text_view(wire.description)),
        cell::opt_text(json::text_view(wire.color)),
        CellVal::Int(wire.sort_order as i64),
        cell::flag(wire.is_subscribed),
        cell::flag(wire.is_visible),
        cell::flag(is_default),
        CellVal::Text(wire.include_in_availability@),
        json_column(json::opt_view(wire.default_alerts_with_time)),
        json_column(json::opt_view(wire.default_alerts_without_time)),
        cell::opt_text(json::text_view(wire.time_zone)),
    ]
}

fn calendar_row(wire: &Calendar, is_default: bool) -> (r: Vec<Cell>)
    ensures
        cell::cells(r@) == calendar_cells(*wire, is_default),
{
    let mut row: Vec<Cell> = Vec::new();
    row.push(Cell::Text(wire.name.clone()));
    row.push(cell::text_cell(json::str_of(&wire.description)));
    row.push(cell::text_cell(json::str_of(&wire.color)));
    row.push(Cell::Int(wire.sort_order as i64));
    row.push(cell::flag_cell(wire.is_subscribed));
    row.push(cell::flag_cell(wire.is_visible));
    row.push(cell::flag_cell(is_default));
    row.push(Cell::Text(wire.include_in_availability.clone()));
    row.push(opt_json(&wire.default_alerts_with_time));
    row.push(opt_json(&wire.default_alerts_without_time));
    row.push(cell::text_cell(json::str_of(&wire.time_zone)));
    assert(cell::cells(row@) =~= calendar_cells(*wire, is_default));
    row
}

/// The columns of a new calendar.
pub fn insert_calendar(rows: &Vec<DefaultRow>, wire: &Calendar) -> (r: Vec<Cell>)
    ensures
        cell::cells(r@) == calendar_cells(
            *wire,
            default_given(rows@, ObjectType::Calendar, wire.is_default, None),
        ),
{
    let is_default: bool = defaults::unique_default(
        rows,
        ObjectType::Calendar,
        wire.is_default,
        None,
    );
    calendar_row(wire, is_default)
}

/// The columns of a calendar that changed; nothing where it did not.
pub fn update_calendar(
    stored: Option<&Vec<Cell>>,
    rows: &Vec<DefaultRow>,
    local_id: i64,
    wire: &Calendar,
) -> (r: Option<Vec<Cell>>)
    ensures
        cell::written_cells(r) == cell::rewritten(
            cell::opt_cells(stored),
            calendar_cells(
                *wire,
                default_given(rows@, ObjectType::Calendar, wire.is_default, Some(local_id)),
            ),
        ),
{
    let is_default: bool = defaults::unique_default(
        rows,
        ObjectType::Calendar,
        wire.is_default,
        Some(local_id),
    );
    cell::rewrite(stored, calendar_row(wire, is_default))
}

/// Why a row, led by its id, is no calendar.
pub open spec fn calendar_fault(row: Seq<CellVal>) -> Option<Fault> {
    if !cell::is_text(cell::cell(row, 1)) {
        mapping::column_fault(row, 1, "name"@)
    } else if !cell::is_opt_text(cell::cell(row, 2)) {
        mapping::column_fault(row, 2, "description"@)
    } else if !cell::is_opt_text(cell::cell(row, 3)) {
        mapping::column_fault(row, 3, "color"@)
    } else if !cell::is_int(cell::cell(row, 4)) {
        mapping::column_fault(row, 4, "sort_order"@)
    } else if !cell::is_int(cell::cell(row, 5)) {
        mapping::column_fault(row, 5, "is_subscribed"@)
    } else if !cell::is_int(cell::cell(row, 6)) {
        mapping::column_fault(row, 6, "is_visible"@)
    } else if !cell::is_int(cell::cell(row, 7)) {
        mapping::column_fault(row, 7, "is_default"@)
    } else if !cell::is_text(cell::cell(row, 8)) {
        mapping::column_fault(row, 8, "include_in_availability"@)
    } else if json_fault(row, 9, "default_alerts_with_time"@) is Some {
        json_fault(row, 9, "default_alerts_with_time"@)
    } else if json_fault(row, 10, "default_alerts_without_time"@) is Some {
        json_fault(row, 10, "default_alerts_without_time"@)
    } else if !cell::is_opt_text(cell::cell(row, 11)) {
        mapping::column_fault(row, 11, "time_zone"@)
    } else {
        None
    }
}

/// Whether a calendar is what a row, led by its id, holds.
pub open spec fn is_calendar_of(w: Calendar, row: Seq<CellVal>) -> bool {
    &&& w.id is None
    &&& cell::cell(row, 1) == CellVal::Text(w.name@)
    &&& json::text_view(w.description) == cell::text_of(cell::cell(row, 2))
    &&& json::text_view(w.color) == cell::text_of(cell::cell(row, 3))
    &&& w.sort_order == (cell::int_of(cell::cell(row, 4))->0) as u32
    &&& w.is_subscribed == (cell::int_of(cell::cell(row, 5))->0 != 0)
    &&& w.is_visible == (cell::int_of(cell::cell(row, 6))->0 != 0)
    &&& w.is_default == (cell::int_of(cell::cell(row, 7))->0 != 0)
    &&& cell::cell(row, 8) == CellVal::Text(w.include_in_availability@)
    &&& column_json(cell::cell(row, 9)) == Ok::<Option<Val>, Fault>(json::opt_view(w.default_alerts_with_time))
    &&& is_read_from(json::opt_view(w.default_alerts_with_time), cell::cell(row, 9))
    &&& column_json(cell::cell(row, 10)) == Ok::<Option<Val>, Fault>(json::opt_view(w.default_alerts_without_time))
    &&& is_read_from(json::opt_view(w.default_alerts_without_time), cell::cell(row, 10))
    &&& json::text_view(w.time_zone) == cell::text_of(cell::cell(row, 11))
}

/// What selects the rows of calendars.
pub const CALENDAR_SELECT: &'static str =
    "SELECT id, name, description, color, sort_order, is_subscribed, is_visible, is_default, include_in_availability, default_alerts_with_time, default_alerts_without_time, time_zone FROM calendars";

/// Reads a calendar from its row, led by its id. JSON that was
/// written reads back.
pub fn row_to_calendar(row: &Vec<Cell>) -> (r: Result<Calendar, JmapError>)
    ensures
        match r {
            Ok(w) => calendar_fault(cell::cells(row@)) is None && is_calendar_of(w, cell::cells(row@)),
            Err(e) => calendar_fault(cell::cells(row@)) matches Some(f) && mapping::is_fault(e, f),
        },
{
    let name: String = match cell::text_at(row, 1, "name") {
        Ok(v) => v,
        Err(e) => {
            return Err(e);
        },
    };
    let description: Option<String> = match cell::opt_text_at(row, 2, "description") {
        Ok(v) => v,
        Err(e) => {
            return Err(e);
        },
    };
    let color: Option<String> = match cell::opt_text_at(row, 3, "color") {
        Ok(v) => v,
        Err(e) => {
            return Err(e);
        },
    };
    let sort_order: i64 = match cell::int_at(row, 4, "sort_order") {
        Ok(v) => v,
        Err(e) => {
            return Err(e);
        },
    };
    let is_subscribed: i64 = match cell::int_at(row, 5, "is_subscribed") {
        Ok(v) => v,
        Err(e) => {
            return Err(e);
        },
    };
    let is_visible: i64 = match cell::int_at(row, 6, "is_visible") {
        Ok(v) => v,
        Err(e) => {
            return Err(e);
        },
    };
    let is_default: i64 = match cell::int_at(row, 7, "is_default") {
        Ok(v) => v,
        Err(e) => {
            return Err(e);
        },
    };
    let include_in_availability: String = match cell::text_at(row, 8, "include_in_availability") {
        Ok(v) => v,
        Err(e) => {
            return Err(e);
        },
    };
    let default_alerts_with_time: Option<Json> = match from_opt_json(row, 9, "default_alerts_with_time") {
        Ok(v) => v,
        Err(e) => {
            return Err(e);
        },
    };
    let default_alerts_without_time: Option<Json> = match from_opt_json(row, 10, "default_alerts_without_time") {
        Ok(v) => v,
        Err(e) => {
            return Err(e);
        },
    };
    let time_zone: Option<String> = match cell::opt_text_at(row, 11, "time_zone") {
        Ok(v) => v,
        Err(e) => {
            return Err(e);
        },
    };
    Ok(
        Calendar {
            id: None,
            name,
            description,
            color,
            sort_order: #[verifier::truncate]
            (sort_order as u32),
            is_subscribed: is_subscribed != 0,
            is_visible: is_visible != 0,
            is_default: is_default != 0,
            include_in_availability,
            default_alerts_with_time,
            default_alerts_without_time,
            time_zone,
        },
    )
}

/// What is stored of a calendar reads back.
pub proof fn stored_calendar_reads_back(wire: Calendar, id: i64, is_default: bool, w: Calendar)
    requires
        is_calendar_of(w, cell::stored(id, calendar_cells(wire, is_default))),
    ensures
        w.name@ == wire.name@,
        json::text_view(w.description) == json::text_view(wire.description),
        json::text_view(w.color) == json::text_view(wire.color),
        w.sort_order == wire.sort_order,
        w.is_subscribed == wire.is_subscribed,
        w.is_visible == wire.is_visible,
        w.is_default == is_default,
        w.include_in_availability@ == wire.include_in_availability@,
        wire.default_alerts_with_time is None ==> w.default_alerts_with_time is None,
        json::opt_view(wire.default_alerts_with_time) is Some && json::reads_back(
            json::opt_view(wire.default_alerts_with_time)->0,
        ) ==> json::opt_view(w.default_alerts_with_time) == json::opt_view(wire.default_alerts_with_time),
        wire.default_alerts_without_time is None ==> w.default_alerts_without_time is None,
        json::opt_view(wire.default_alerts_without_time) is Some && json::reads_back(
            json::opt_view(wire.default_alerts_without_time)->0,
        ) ==> json::opt_view(w.default_alerts_without_time) == json::opt_view(wire.default_alerts_without_time),
        json::text_view(w.time_zone) == json::text_view(wire.time_zone),
{
    lemma_written_is_read(
        json::opt_view(wire.default_alerts_with_time),
        json::opt_view(w.default_alerts_with_time),
    );
    lemma_written_is_read(
        json::opt_view(wire.default_alerts_without_time),
        json::opt_view(w.default_alerts_without_time),
    );
}

/// The columns of a participant identity: name, calendar address, whether it is
/// the default one.
pub open spec fn participant_identity_cells(wire: ParticipantIdentity, is_default: bool) -> Seq<CellVal> {
    seq![
        CellVal::Text(wire.name@),
        CellVal::Text(wire.calendar_address@),
        cell::flag(is_default),
    ]
}

fn participant_identity_row(wire: &ParticipantIdentity, is_default: bool) -> (r: Vec<Cell>)
    ensures
        cell::cells(r@) == participant_identity_cells(*wire, is_default),
{
    let mut row: Vec<Cell> = Vec::new();
    row.push(Cell::Text(wire.name.clone()));
    row.push(Cell::Text(wire.calendar_address.clone()));
    row.push(cell::flag_cell(is_default));
    assert(cell::cells(row@) =~= participant_identity_cells(*wire, is_default));
    row
}

/// The columns of a new participant identity.
pub fn insert_participant_identity(rows: &Vec<DefaultRow>, wire: &ParticipantIdentity) -> (r: Vec<Cell>)
    ensures
        cell::cells(r@) == participant_identity_cells(
            *wire,
            default_given(rows@, ObjectType::ParticipantIdentity, wire.is_default, None),
        ),
{
    let is_default: bool = defaults::unique_default(
        rows,
        ObjectType::ParticipantIdentity,
        wire.is_default,
        None,
    );
    participant_identity_row(wire, is_default)
}

/// The columns of a participant identity that changed; nothing where it did not.
pub fn update_participant_identity(
    stored: Option<&Vec<Cell>>,
    rows: &Vec<DefaultRow>,
    local_id: i64,
    wire: &ParticipantIdentity,
) -> (r: Option<Vec<Cell>>)
    ensures
        cell::written_cells(r) == cell::rewritten(
            cell::opt_cells(stored),
            participant_identity_cells(
                *wire,
                default_given(rows@, ObjectType::ParticipantIdentity, wire.is_default, Some(local_id)),
            ),
        ),
{
    let is_default: bool = defaults::unique_default(
        rows,
        ObjectType::ParticipantIdentity,
        wire.is_default,
        Some(local_id),
    );
    cell::rewrite(stored, participant_identity_row(wire, is_default))
}

/// Why a row, led by its id, is no participant identity.
pub open spec fn participant_identity_fault(row: Seq<CellVal>) -> Option<Fault> {
    if !cell::is_text(cell::cell(row, 1)) {
        mapping::column_fault(row, 1, "name"@)
    } else if !cell::is_text(cell::cell(row, 2)) {
        mapping::column_fault(row, 2, "calendar_address"@)
    } else if !cell::is_int(cell::cell(row, 3)) {
        mapping::column_fault(row, 3, "is_default"@)
    } else {
        None
    }
}

/// Whether a participant identity is what a row, led by its id, holds.
pub open spec fn is_participant_identity_of(w: ParticipantIdentity, row: Seq<CellVal>) -> bool {
    &&& w.id is None
    &&& cell::cell(row, 1) == CellVal::Text(w.name@)
    &&& cell::cell(row, 2) == CellVal::Text(w.calendar_address@)
    &&& w.is_default == (cell::int_of(cell::cell(row, 3))->0 != 0)
}

/// What selects the rows of participant identities.
pub const PARTICIPANT_IDENTITY_SELECT: &'static str =
    "SELECT id, name, calendar_address, is_default FROM participant_identities";

/// Reads a participant identity from its row, led by its id.
pub fn row_to_participant_identity(row: &Vec<Cell>) -> (r: Result<ParticipantIdentity, JmapError>)
    ensures
        match r {
            Ok(w) => participant_identity_fault(cell::cells(row@)) is None && is_participant_identity_of(w, cell::cells(row@)),
            Err(e) => participant_identity_fault(cell::cells(row@)) matches Some(f) && mapping::is_fault(e, f),
        },
{
    let name: String = match cell::text_at(row, 1, "name") {
        Ok(v) => v,
        Err(e) => {
            return Err(e);
        },
    };
    let calendar_address: String = match cell::text_at(row, 2, "calendar_address") {
        Ok(v) => v,
        Err(e) => {
            return Err(e);
        },
    };
    let is_default: i64 = match cell::int_at(row, 3, "is_default") {
        Ok(v) => v,
        Err(e) => {
            return Err(e);
        },
    };
    Ok(
        ParticipantIdentity {
            id: None,
            name,
            calendar_address,
            is_default: is_default != 0,
        },
    )
}

/// What is stored of a participant identity reads back.
pub proof fn stored_participant_identity_reads_back(wire: ParticipantIdentity, id: i64, is_default: bool, w: ParticipantIdentity)
    requires
        is_participant_identity_of(w, cell::stored(id, participant_identity_cells(wire, is_default))),
    ensures
        participant_identity_fault(cell::stored(id, participant_identity_cells(wire, is_default))) is None,
        w.name@ == wire.name@,
        w.calendar_address@ == wire.calendar_address@,
        w.is_default == is_default,
{
}

/// A stored script.
#[derive(Debug)]
pub struct SieveRow {
    pub name: Option<String>,
    pub is_active: bool,
    pub blob_local_id: i64,
}

/// The columns of a script: name, whether it is active, blob.
pub open spec fn sieve_cells(wire: SieveScript, blob_local_id: i64) -> Seq<CellVal> {
    seq![
        cell::opt_text(json::text_view(wire.name)),
        cell::flag(wire.is_active),
        CellVal::Int(blob_local_id),
    ]
}

/// The columns of a new script.
pub fn insert_sieve_script(wire: &SieveScript, blob_local_id: i64) -> (r: Vec<Cell>)
    ensures
        cell::cells(r@) == sieve_cells(*wire, blob_local_id),
{
    let mut row: Vec<Cell> = Vec::new();
    row.push(cell::text_cell(json::str_of(&wire.name)));
    row.push(cell::flag_cell(wire.is_active));
    row.push(Cell::Int(blob_local_id));
    assert(cell::cells(row@) =~= sieve_cells(*wire, blob_local_id));
    row
}

/// The columns of a script that changed; nothing where it did not.
pub fn update_sieve_script(
    stored: Option<&Vec<Cell>>,
    wire: &SieveScript,
    blob_local_id: i64,
) -> (r: Option<Vec<Cell>>)
    ensures
        cell::written_cells(r) == cell::rewritten(
            cell::opt_cells(stored),
            sieve_cells(*wire, blob_local_id),
        ),
{
    cell::rewrite(stored, insert_sieve_script(wire, blob_local_id))
}

/// Why a row, led by its id, is no script.
pub open spec fn sieve_fault(row: Seq<CellVal>) -> Option<Fault> {
    if !cell::is_opt_text(cell::cell(row, 1)) {
        mapping::column_fault(row, 1, "name"@)
    } else if !cell::is_int(cell::cell(row, 2)) {
        mapping::column_fault(row, 2, "is_active"@)
    } else if !cell::is_int(cell::cell(row, 3)) {
        mapping::column_fault(row, 3, "blob_id"@)
    } else {
        None
    }
}

/// Whether a script is what a row, led by its id, holds.
pub open spec fn is_sieve_of(w: SieveRow, row: Seq<CellVal>) -> bool {
    &&& json::text_view(w.name) == cell::text_of(cell::cell(row, 1))
    &&& w.is_active == (cell::int_of(cell::cell(row, 2))->0 != 0)
    &&& cell::cell(row, 3) == CellVal::Int(w.blob_local_id)
}

/// What selects the rows of scripts.
pub const SIEVE_SELECT: &'static str = "SELECT id, name, is_active, blob_id FROM sieve_scripts";

/// Reads a script from its row, led by its id.
pub fn row_to_sieve_script(row: &Vec<Cell>) -> (r: Result<SieveRow, JmapError>)
    ensures
        match r {
            Ok(w) => sieve_fault(cell::cells(row@)) is None && is_sieve_of(w, cell::cells(row@)),
            Err(e) => sieve_fault(cell::cells(row@)) matches Some(f) && mapping::is_fault(e, f),
        },
{
    let name: Option<String> = match cell::opt_text_at(row, 1, "name") {
        Ok(v) => v,
        Err(e) => {
            return Err(e);
        },
    };
    let is_active: i64 = match cell::int_at(row, 2, "is_active") {
        Ok(v) => v,
        Err(e) => {
            return Err(e);
        },
    };
    let blob_local_id: i64 = match cell::int_at(row, 3, "blob_id") {
        Ok(v) => v,
        Err(e) => {
            return Err(e);
        },
    };
    Ok(SieveRow { name, is_active: is_active != 0, blob_local_id })
}

/// What is stored of a script reads back.
pub proof fn stored_sieve_script_reads_back(
    wire: SieveScript,
    blob_local_id: i64,
    id: i64,
    w: SieveRow,
)
    requires
        is_sieve_of(w, cell::stored(id, sieve_cells(wire, blob_local_id))),
    ensures
        sieve_fault(cell::stored(id, sieve_cells(wire, blob_local_id))) is None,
        json::text_view(w.name) == json::text_view(wire.name),
        w.is_active == wire.is_active,
        w.blob_local_id == blob_local_id,
{
}

} // verus!

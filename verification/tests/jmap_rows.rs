use base64::Engine;
use serde_json::Value;
use vandelay::db::cell::Cell;
use vandelay::db::defaults::DefaultRow;
use vandelay::error::Error;
use vandelay::instant::Moment;
use vandelay::jmap::blob::{BlobStore, BlobTable};
use vandelay::jmap::error::JmapError;
use vandelay::jmap::objects::{
    AddressBook, Calendar, CalendarEvent, ContactCard, Email, FileNode, Identity, Mailbox, NodeType,
    ParticipantIdentity, SieveScript,
};
use vandelay::jmap::wire::{parse_utc_date, JmapId};
use vandelay::json;
use vandelay::json::Json;
use vandelay::sync::export::uidtype::{build_wire, StoredObject};
use vandelay::sync::import_jmap::cards::{
    calendar_event_to_wire, contact_card_to_wire, insert_calendar_event, insert_contact_card,
    update_calendar_event, update_contact_card,
};
use vandelay::sync::import_jmap::collections::{
    insert_address_book, insert_calendar, insert_identity, insert_participant_identity,
    insert_sieve_script, row_to_address_book, row_to_calendar, row_to_identity,
    row_to_participant_identity, row_to_sieve_script, update_address_book, update_calendar,
    update_identity, update_participant_identity, update_sieve_script,
};
use vandelay::sync::import_jmap::mapping::{
    insert_email, insert_mailbox, row_to_email, row_to_mailbox, update_email, update_mailbox,
    IdLink, IdTable,
};
use vandelay::sync::import_jmap::nodes::{insert_file_node, row_to_file_node, update_file_node};
use vandelay::types::ObjectType;

fn j(text: &str) -> Json {
    json::parse(text.as_bytes()).expect("JSON")
}

fn members(text: &str) -> Vec<(String, Json)> {
    match j(text) {
        Json::Object(e) => e,
        _ => panic!("an object"),
    }
}

fn value(v: &Json) -> Value {
    serde_json::from_str(&json::write(v)).expect("JSON")
}

fn ids(links: &[(ObjectType, &str, i64)]) -> IdTable {
    IdTable {
        links: links
            .iter()
            .map(|(ty, id, n)| IdLink { ty: *ty, jmap_id: (*id).to_owned(), local_id: *n })
            .collect(),
    }
}

fn stored(id: i64, columns: Vec<Cell>) -> Vec<Cell> {
    let mut row = vec![Cell::Int(id)];
    row.extend(columns);
    row
}

fn text_cell(c: &Cell) -> &str {
    match c {
        Cell::Text(t) => t,
        _ => panic!("a text"),
    }
}

fn int_cell(c: &Cell) -> i64 {
    match c {
        Cell::Int(n) => *n,
        _ => panic!("an integer"),
    }
}

fn fake_ids() -> BlobTable {
    BlobTable { entries: vec![("PB".to_owned(), 42), ("AB".to_owned(), 42)] }
}

fn fake_bytes() -> BlobStore {
    BlobStore { entries: vec![(42, b"payload-42".to_vec()), (9, b"payload-9".to_vec())] }
}

fn decode_data_uri(value: &Value, media_type: &str) -> Vec<u8> {
    let uri = value.as_str().unwrap_or_else(|| panic!("{value} is a URI"));
    let prefix = format!("data:{media_type};base64,");
    let payload = uri
        .strip_prefix(&prefix)
        .unwrap_or_else(|| panic!("{uri} does not start with {prefix}"));
    base64::engine::general_purpose::STANDARD.decode(payload).expect("base64 payload")
}

fn assert_no_blob_id(value: &Value) {
    match value {
        Value::Object(map) => {
            assert!(map.get("blobId").is_none(), "blobId present in {value}");
            assert!(map.get("@blob").is_none(), "@blob present in {value}");
            for child in map.values() {
                assert_no_blob_id(child);
            }
        }
        Value::Array(items) => items.iter().for_each(assert_no_blob_id),
        _ => {}
    }
}

fn mailbox(name: &str, parent: Option<&str>) -> Mailbox {
    Mailbox {
        id: None,
        name: name.to_owned(),
        parent_id: parent.map(JmapId::of),
        role: None,
        sort_order: 0,
        is_subscribed: true,
    }
}

#[test]
fn mailbox_roundtrips_with_parent_translation() {
    let root = Mailbox {
        role: Some("archive".to_owned()),
        sort_order: 3,
        ..mailbox("Root", None)
    };
    let root_row = insert_mailbox(&Vec::new(), &root, &ids(&[]));
    assert_eq!(text_cell(&root_row[2]), "archive");
    assert_eq!(int_cell(&root_row[3]), 3);
    let child = mailbox("Child", Some("M1"));
    let known = ids(&[(ObjectType::Mailbox, "M1", 1)]);
    let row = stored(2, insert_mailbox(&Vec::new(), &child, &known));
    let wire = row_to_mailbox(&row, &ids(&[(ObjectType::Mailbox, "TGT1", 1)])).unwrap();
    assert_eq!(wire.name, "Child");
    assert_eq!(wire.parent_id.unwrap().as_str(), "TGT1");
}

fn email(mailboxes: &[&str], keywords: &[&str]) -> Email {
    Email {
        mailbox_ids: mailboxes.iter().map(|m| JmapId::of(m)).collect(),
        keywords: keywords.iter().map(|k| (*k).to_owned()).collect(),
        received_at: parse_utc_date("2021-05-04T10:00:00Z"),
    }
}

#[test]
fn email_keywords_keep_verbatim_case_and_mailbox_translation() {
    let res = ids(&[(ObjectType::Mailbox, "MB", 7)]);
    let wire = email(&["MB"], &["$Seen", "MyTag"]);
    let row = stored(1, insert_email(&wire, 5, "{}", &res).unwrap());
    assert_eq!(text_cell(&row[2]), "2021-05-04T10:00:00Z");
    let got = row_to_email(&row).unwrap();
    assert_eq!(got.blob_local_id, 5);
    assert_eq!(got.mailbox_locals, vec![7]);
    assert_eq!(got.keywords, vec!["$Seen".to_owned(), "MyTag".to_owned()]);
}

#[test]
fn unresolved_foreign_key_on_insert_is_malformed() {
    let err = insert_email(&email(&["UNKNOWN"], &[]), 1, "{}", &ids(&[])).unwrap_err();
    assert!(matches!(err, JmapError::Malformed(_)), "got {err:?}");
    assert!(err.message().contains("unresolved Mailbox reference UNKNOWN on insert"));
}

#[test]
fn unresolved_target_on_export_is_malformed() {
    let res = ids(&[(ObjectType::Mailbox, "P9", 1)]);
    let row = stored(2, insert_mailbox(&Vec::new(), &mailbox("Root", Some("P9")), &res));
    let err = row_to_mailbox(&row, &ids(&[])).unwrap_err();
    assert!(matches!(err, JmapError::Malformed(_)), "got {err:?}");
}

fn card(rest: &str) -> ContactCard {
    ContactCard { address_book_ids: vec![JmapId::of("AB")], rest: members(rest) }
}

#[test]
fn contact_card_strips_uid_and_inlines_media_as_data_uri() {
    let res = ids(&[(ObjectType::AddressBook, "AB", 1)]);
    let targets = ids(&[(ObjectType::AddressBook, "TAB", 1)]);
    let wire = card(
        r#"{"uid": "urn:uuid:42", "name": {"full": "Jane"}, "media": {"photo": {
            "@type": "Media", "kind": "photo", "blobId": "PB", "mediaType": "image/png"}}}"#,
    );
    let row = insert_contact_card(&wire, &res, &fake_ids()).unwrap();
    let (uid, abids, data) = (text_cell(&row[0]), text_cell(&row[1]), text_cell(&row[2]));
    assert_eq!(uid, "urn:uuid:42");
    assert_eq!(abids, "[1]");
    let kept: Value = serde_json::from_str(data).unwrap();
    assert!(kept.get("uid").is_none());
    assert_eq!(kept["media"]["photo"]["@blob"], Value::from(42));

    let wire = contact_card_to_wire(uid, abids, data, &targets, &fake_bytes()).unwrap();
    let wire = value(&wire);
    assert_eq!(wire["uid"], Value::from("urn:uuid:42"));
    assert_eq!(wire["addressBookIds"]["TAB"], Value::Bool(true));
    assert_eq!(decode_data_uri(&wire["media"]["photo"]["uri"], "image/png"), b"payload-42");
    assert_eq!(wire["media"]["photo"]["mediaType"], Value::from("image/png"));
    assert!(wire["media"]["photo"].get("href").is_none());
    assert_no_blob_id(&wire);
}

fn event(rest: &str, is_draft: bool) -> CalendarEvent {
    CalendarEvent {
        calendar_ids: vec![JmapId::of("CAL")],
        is_draft,
        use_default_alerts: false,
        rest: members(rest),
    }
}

#[test]
fn calendar_event_inlines_link_enclosure_as_data_uri() {
    let res = ids(&[(ObjectType::Calendar, "CAL", 5)]);
    let targets = ids(&[(ObjectType::Calendar, "TCAL", 5)]);
    let ev = event(
        r#"{"uid": "ev-with-enclosure", "title": "Review", "@type": "Event", "links": {"1": {
            "@type": "Link", "rel": "enclosure", "blobId": "AB", "contentType": "text/plain",
            "title": "agenda.txt"}}}"#,
        false,
    );
    let row = insert_calendar_event(&ev, &res, &fake_ids()).unwrap();
    let kept: Value = serde_json::from_str(text_cell(&row[3])).unwrap();
    assert_eq!(kept["links"]["1"]["@blob"], Value::from(42));

    let wire = calendar_event_to_wire(
        text_cell(&row[0]),
        int_cell(&row[1]) != 0,
        int_cell(&row[2]) != 0,
        text_cell(&row[3]),
        &targets,
        &fake_bytes(),
    )
    .unwrap();
    let wire = value(&wire);
    assert_eq!(decode_data_uri(&wire["links"]["1"]["href"], "text/plain"), b"payload-42");
    assert_eq!(wire["links"]["1"]["contentType"], Value::from("text/plain"));
    assert_eq!(wire["links"]["1"]["rel"], Value::from("enclosure"));
    assert!(wire["links"]["1"].get("uri").is_none());
    assert_no_blob_id(&wire);
}

#[test]
fn contact_card_media_without_media_type_defaults_to_octet_stream() {
    let targets = ids(&[(ObjectType::AddressBook, "TAB", 1)]);
    let data = r#"{"@type": "Card", "media": {"photo": {"@blob": 9}}}"#;
    let wire = contact_card_to_wire("u-1", "[1]", data, &targets, &fake_bytes()).unwrap();
    let wire = value(&wire);
    assert_eq!(
        decode_data_uri(&wire["media"]["photo"]["uri"], "application/octet-stream"),
        b"payload-9"
    );
    assert_no_blob_id(&wire);
}

#[test]
fn an_archive_read_failure_while_inlining_is_an_archive_error_not_a_unit_failure() {
    let broken = BlobStore { entries: Vec::new() };
    let targets =
        ids(&[(ObjectType::AddressBook, "TAB", 1), (ObjectType::Calendar, "TCAL", 1)]);
    let card = r#"{"@type": "Card", "media": {"photo": {"@blob": 9}}}"#;
    let event = r#"{"@type": "Event", "links": {"1": {"@blob": 9}}}"#;
    let failures = [
        contact_card_to_wire("u-1", "[1]", card, &targets, &broken).expect_err("card"),
        calendar_event_to_wire("[1]", false, false, event, &targets, &broken)
            .expect_err("event"),
    ];
    for err in failures {
        assert!(matches!(err, JmapError::Sqlite(_)), "{err:?}");
        let mapped = Error::from(err);
        assert!(mapped.aborts_run(), "{} must abort the run", mapped.message());
        assert_eq!(mapped.exit_code(), 7);
    }
}

#[test]
fn calendar_event_extracts_columns_and_drops_method() {
    let res = ids(&[(ObjectType::Calendar, "CAL", 5)]);
    let targets = ids(&[(ObjectType::Calendar, "TCAL", 5)]);
    let ev = event(
        r#"{"method": "request", "utcStart": "2020-01-01T00:00:00Z", "title": "Sprint",
            "@type": "Event"}"#,
        true,
    );
    let row = insert_calendar_event(&ev, &res, &fake_ids()).unwrap();
    assert_eq!(int_cell(&row[1]), 1);
    assert_eq!(int_cell(&row[2]), 0);
    let data = text_cell(&row[3]);
    let kept: Value = serde_json::from_str(data).unwrap();
    assert!(kept.get("method").is_none());
    assert!(kept.get("utcStart").is_none());
    assert!(kept.get("calendarIds").is_none());
    assert_eq!(kept["title"], Value::from("Sprint"));

    let wire =
        calendar_event_to_wire(text_cell(&row[0]), true, false, data, &targets, &fake_bytes())
            .unwrap();
    let wire = value(&wire);
    assert_eq!(wire["calendarIds"]["TCAL"], Value::Bool(true));
    assert_eq!(wire["isDraft"], Value::Bool(true));
    assert_eq!(wire["title"], Value::from("Sprint"));
}

fn identity(name: &str) -> Identity {
    Identity {
        id: None,
        name: name.to_owned(),
        email: "a@x.test".to_owned(),
        reply_to: None,
        bcc: None,
        text_signature: String::new(),
        html_signature: String::new(),
    }
}

#[test]
fn identity_json_columns_roundtrip() {
    let id = Identity {
        reply_to: Some(j(r#"[{"name": "A", "email": "a@x.test"}]"#)),
        ..identity("Alice")
    };
    let wire = row_to_identity(&stored(1, insert_identity(&id))).unwrap();
    assert_eq!(wire.email, "a@x.test");
    assert_eq!(value(&wire.reply_to.unwrap())[0]["email"], "a@x.test");
    assert!(wire.bcc.is_none());
}

fn node(name: &str, node_type: NodeType, parent: Option<&str>) -> FileNode {
    FileNode {
        id: None,
        parent_id: parent.map(JmapId::of),
        node_type,
        target: None,
        name: name.to_owned(),
        media_type: None,
        created: parse_utc_date("2022-02-02T02:02:02Z").unwrap(),
        modified: None,
        is_subscribed: true,
        role: None,
    }
}

#[test]
fn file_node_enum_and_target_roundtrip() {
    let link = FileNode {
        target: Some(vec!["..".to_owned(), "etc".to_owned(), "hosts".to_owned()]),
        ..node("link", NodeType::Symlink, None)
    };
    let row = insert_file_node(&link, None, &ids(&[])).unwrap();
    assert_eq!(text_cell(&row[1]), "symlink");
    assert_eq!(
        serde_json::from_str::<Vec<String>>(text_cell(&row[3])).unwrap(),
        vec!["..", "etc", "hosts"]
    );
    let back = row_to_file_node(&stored(1, row), &ids(&[])).unwrap();
    assert_eq!(back.wire.target.unwrap(), ["..", "etc", "hosts"]);
    assert_eq!(back.wire.created, link.created);
}

fn book(name: &str) -> AddressBook {
    AddressBook {
        id: None,
        name: name.to_owned(),
        description: None,
        sort_order: 0,
        is_default: false,
        is_subscribed: true,
    }
}

fn calendar(name: &str) -> Calendar {
    Calendar {
        id: None,
        name: name.to_owned(),
        description: None,
        color: None,
        sort_order: 0,
        is_subscribed: true,
        is_visible: true,
        is_default: false,
        include_in_availability: "all".to_owned(),
        default_alerts_with_time: None,
        default_alerts_without_time: None,
        time_zone: None,
    }
}

#[test]
fn address_book_and_calendar_row_to_wire_roundtrip() {
    let ab = AddressBook {
        description: Some("d".to_owned()),
        sort_order: 2,
        is_default: true,
        is_subscribed: false,
        ..book("Personal")
    };
    let got = row_to_address_book(&stored(1, insert_address_book(&Vec::new(), &ab))).unwrap();
    assert_eq!(got.name, "Personal");
    assert!(got.is_default);
    assert!(!got.is_subscribed);

    let cal = Calendar {
        color: Some("#ff0000".to_owned()),
        time_zone: Some("Europe/Rome".to_owned()),
        is_visible: false,
        ..calendar("Work")
    };
    let gc = row_to_calendar(&stored(1, insert_calendar(&Vec::new(), &cal))).unwrap();
    assert_eq!(gc.name, "Work");
    assert_eq!(gc.color.as_deref(), Some("#ff0000"));
    assert_eq!(gc.time_zone.as_deref(), Some("Europe/Rome"));
    assert!(!gc.is_visible);
}

fn me(name: &str) -> ParticipantIdentity {
    ParticipantIdentity {
        id: None,
        name: name.to_owned(),
        calendar_address: "mailto:me@x.test".to_owned(),
        is_default: true,
    }
}

#[test]
fn participant_identity_and_sieve_row_to_wire_roundtrip() {
    let row = stored(1, insert_participant_identity(&Vec::new(), &me("Me")));
    let gp = row_to_participant_identity(&row).unwrap();
    assert_eq!(gp.calendar_address, "mailto:me@x.test");
    assert!(gp.is_default);

    let ss = SieveScript { name: Some("main".to_owned()), is_active: true };
    let gs = row_to_sieve_script(&stored(1, insert_sieve_script(&ss, 3))).unwrap();
    assert_eq!(gs.name.as_deref(), Some("main"));
    assert!(gs.is_active);
    assert_eq!(gs.blob_local_id, 3);
}

#[test]
fn file_node_row_to_wire_translates_parent() {
    let res = ids(&[(ObjectType::FileNode, "D1", 1)]);
    let file = FileNode {
        media_type: Some("application/octet-stream".to_owned()),
        ..node("a.bin", NodeType::File, Some("D1"))
    };
    let row = stored(2, insert_file_node(&file, Some(8), &res).unwrap());
    let got = row_to_file_node(&row, &ids(&[(ObjectType::FileNode, "TGTD", 1)])).unwrap();
    assert_eq!(got.wire.name, "a.bin");
    assert_eq!(got.wire.parent_id.unwrap().as_str(), "TGTD");
    assert_eq!(got.blob_local_id, Some(8));
}

#[test]
fn delta_update_mailbox_in_place_preserves_id() {
    let empty = ids(&[]);
    let row = insert_mailbox(&Vec::new(), &mailbox("Personal", None), &empty);
    let changed = Mailbox {
        role: Some("archive".to_owned()),
        sort_order: 4,
        ..mailbox("PersonalRenamed", None)
    };
    let row = update_mailbox(Some(&row), &Vec::new(), 1, &changed, &empty)
        .expect("a real change reports changed=true");
    assert!(
        update_mailbox(Some(&row), &Vec::new(), 1, &changed, &empty).is_none(),
        "re-applying identical values is a no-op (changed=false), so re-runs converge"
    );
    assert_eq!(text_cell(&row[0]), "PersonalRenamed");
    assert_eq!(text_cell(&row[2]), "archive");
    assert_eq!(int_cell(&row[3]), 4);
    assert!(update_mailbox(None, &Vec::new(), 1, &changed, &empty).is_none());
}

#[test]
fn delta_update_email_changes_keywords_and_mailboxes_keeps_blob() {
    let res = ids(&[(ObjectType::Mailbox, "MB", 7), (ObjectType::Mailbox, "MB2", 8)]);
    let mut row = insert_email(&email(&["MB"], &["$seen"]), 3, "{}", &res).unwrap();
    let changed =
        j(r#"{"id": "E1", "mailboxIds": {"MB2": true}, "keywords": {"$seen": true, "$flagged": true}}"#);
    let kept = vec![
        Cell::Text(text_cell(&row[2]).to_owned()),
        Cell::Text(text_cell(&row[3]).to_owned()),
    ];
    let mut written = update_email(Some(&kept), &changed, &res).unwrap().expect("changed");
    row[3] = written.remove(1);
    row[2] = written.remove(0);
    let got = row_to_email(&stored(1, row)).unwrap();
    assert_eq!(got.blob_local_id, 3, "immutable body blob is untouched");
    assert_eq!(got.mailbox_locals, vec![8], "mailbox membership moved");
    assert!(got.keywords.contains(&"$flagged".to_owned()));
    assert!(got.keywords.contains(&"$seen".to_owned()));
}

#[test]
fn delta_update_identity_in_place() {
    let row = insert_identity(&identity("Old"));
    let changed = Identity { text_signature: "sig".to_owned(), ..identity("New Name") };
    let row = update_identity(Some(&row), &changed).expect("changed");
    let got = row_to_identity(&stored(1, row)).unwrap();
    assert_eq!(got.name, "New Name");
    assert_eq!(got.text_signature, "sig");
}

#[test]
fn delta_update_address_book_in_place() {
    let row = insert_address_book(&Vec::new(), &book("Old"));
    let changed =
        AddressBook { description: Some("d2".to_owned()), sort_order: 3, ..book("Renamed") };
    let row = update_address_book(Some(&row), &Vec::new(), 1, &changed).expect("changed");
    let got = row_to_address_book(&stored(1, row)).unwrap();
    assert_eq!(got.name, "Renamed");
    assert_eq!(got.description.as_deref(), Some("d2"));
}

#[test]
fn delta_update_calendar_in_place() {
    let row =
        insert_calendar(&Vec::new(), &Calendar { color: Some("#000".to_owned()), ..calendar("Old") });
    let changed = Calendar {
        color: Some("#abcdef".to_owned()),
        time_zone: Some("Europe/Rome".to_owned()),
        ..calendar("Renamed")
    };
    let row = update_calendar(Some(&row), &Vec::new(), 1, &changed).expect("changed");
    let got = row_to_calendar(&stored(1, row)).unwrap();
    assert_eq!(got.name, "Renamed");
    assert_eq!(got.color.as_deref(), Some("#abcdef"));
    assert_eq!(got.time_zone.as_deref(), Some("Europe/Rome"));
}

#[test]
fn delta_update_participant_identity_in_place() {
    let row = insert_participant_identity(&Vec::new(), &me("Old"));
    let own = vec![DefaultRow { id: 1, is_default: true }];
    let row = update_participant_identity(Some(&row), &own, 1, &me("New")).expect("changed");
    let got = row_to_participant_identity(&stored(1, row)).unwrap();
    assert_eq!(got.name, "New");
    assert!(got.is_default);
}

#[test]
fn delta_update_sieve_script_swaps_blob_and_active() {
    let script = |is_active| SieveScript { name: Some("main".to_owned()), is_active };
    let row = insert_sieve_script(&script(false), 1);
    let row = update_sieve_script(Some(&row), &script(true), 2).expect("changed");
    let got = row_to_sieve_script(&stored(1, row)).unwrap();
    assert!(got.is_active);
    assert_eq!(got.blob_local_id, 2, "content blob swapped");
}

#[test]
fn delta_update_file_node_changes_blob_and_name() {
    let res = ids(&[]);
    let row = insert_file_node(&node("a.bin", NodeType::File, None), Some(1), &res).unwrap();
    let changed = FileNode {
        media_type: Some("text/plain".to_owned()),
        ..node("renamed.bin", NodeType::File, None)
    };
    let row = update_file_node(Some(&row), &changed, Some(2), &res).unwrap().expect("changed");
    assert_eq!(text_cell(&row[4]), "renamed.bin");
    assert_eq!(text_cell(&row[5]), "text/plain");
    assert_eq!(int_cell(&row[2]), 2);
}

#[test]
fn delta_update_contact_card_rewrites_data_and_columns() {
    let res = ids(&[(ObjectType::AddressBook, "AB", 1)]);
    let old_card = card(r#"{"uid": "u-1", "name": {"full": "Old"}}"#);
    let row = insert_contact_card(&old_card, &res, &fake_ids()).unwrap();
    let changed = card(r#"{"uid": "u-1", "name": {"full": "New Name"}}"#);
    let row = update_contact_card(Some(&row), &changed, &res, &fake_ids())
        .unwrap()
        .expect("changed");
    assert_eq!(text_cell(&row[0]), "u-1");
    let kept: Value = serde_json::from_str(text_cell(&row[2])).unwrap();
    assert_eq!(kept["name"]["full"], Value::from("New Name"));
}

#[test]
fn delta_update_calendar_event_rewrites_data_and_columns() {
    let res = ids(&[(ObjectType::Calendar, "CAL", 5)]);
    let row = insert_calendar_event(
        &event(r#"{"title": "Old", "@type": "Event"}"#, false),
        &res,
        &fake_ids(),
    )
    .unwrap();
    let changed = event(r#"{"title": "Rescheduled", "@type": "Event"}"#, true);
    let row = update_calendar_event(Some(&row), &changed, &res, &fake_ids())
        .unwrap()
        .expect("changed");
    assert_eq!(int_cell(&row[1]), 1, "isDraft column updated");
    let kept: Value = serde_json::from_str(text_cell(&row[3])).unwrap();
    assert_eq!(kept["title"], Value::from("Rescheduled"));
}

#[test]
fn a_card_without_a_uid_is_malformed() {
    let res = ids(&[(ObjectType::AddressBook, "AB", 1)]);
    let err = insert_contact_card(&card(r#"{"uid": 7}"#), &res, &fake_ids()).unwrap_err();
    assert!(err.message().contains("ContactCard has no uid"));
}

#[test]
fn a_column_that_is_no_list_of_ids_is_refused() {
    let targets = ids(&[]);
    for (column, words) in [
        ("{}", "id column is not a JSON array"),
        ("[\"x\"]", "id array element is not an integer"),
    ] {
        let e = contact_card_to_wire("u", column, "{}", &targets, &fake_bytes()).unwrap_err();
        assert!(e.message().contains(words), "{}", e.message());
    }
    let e = contact_card_to_wire("u", "[", "{}", &targets, &fake_bytes()).unwrap_err();
    assert!(matches!(e, JmapError::Json(_)), "{e:?}");
    let e = contact_card_to_wire("u", "[4]", "{}", &targets, &fake_bytes()).unwrap_err();
    assert!(e.message().contains("unresolved local AddressBook id 4 on export"));
}

#[test]
fn an_email_update_without_a_mailbox_is_malformed() {
    let res = ids(&[]);
    let e = update_email(None, &j("{}"), &res).unwrap_err();
    assert!(e.message().contains("email update has no resolvable mailbox"));
    let e = update_email(None, &j(r#"{"mailboxIds": {"MB": 1}}"#), &res).unwrap_err();
    assert!(matches!(e, JmapError::Json(_)), "{e:?}");
}

#[test]
fn a_moment_that_cannot_be_written_is_malformed() {
    let res = ids(&[(ObjectType::Mailbox, "MB", 7)]);
    let late = Moment { secs: 0, nanos: 0, offset: 1 };
    let wire = Email { received_at: Some(late), ..email(&["MB"], &[]) };
    let e = insert_email(&wire, 1, "{}", &res).unwrap_err();
    assert!(e.message().contains("cannot format date: "), "{}", e.message());
    let never = Email { received_at: None, ..email(&["MB"], &[]) };
    let row = insert_email(&never, 1, "{}", &res).unwrap();
    assert_eq!(text_cell(&row[1]), "1970-01-01T00:00:00Z");
}

#[test]
fn a_stored_object_is_built_for_the_server() {
    let resolver = ids(&[(ObjectType::AddressBook, "B1", 1), (ObjectType::Calendar, "C2", 2)]);
    let blobs = BlobStore { entries: Vec::new() };
    let card = StoredObject::Card {
        uid: "u".to_owned(),
        address_book_ids: "[1]".to_owned(),
        data: r#"{"name":"N"}"#.to_owned(),
    };
    let wire = value(&build_wire(&card, &resolver, &blobs).unwrap());
    assert_eq!(wire["uid"], "u");
    assert_eq!(wire["addressBookIds"]["B1"], true);
    let event = StoredObject::Event {
        calendar_ids: "[2]".to_owned(),
        is_draft: 1,
        use_default_alerts: 0,
        data: r#"{"title":"T"}"#.to_owned(),
    };
    let wire = value(&build_wire(&event, &resolver, &blobs).unwrap());
    assert_eq!(wire["calendarIds"]["C2"], true);
    assert_eq!(wire["isDraft"], true);
    assert_eq!(wire["useDefaultAlerts"], false);
    let broken = StoredObject::Event {
        calendar_ids: "[9]".to_owned(),
        is_draft: 0,
        use_default_alerts: 0,
        data: "{}".to_owned(),
    };
    assert!(matches!(build_wire(&broken, &resolver, &blobs), Err(Error::Partial(_))));
}

fn refused(e: JmapError) -> String {
    e.message()
}

#[test]
fn flags_of_another_type_are_told_by_the_reader() {
    let res = ids(&[(ObjectType::Mailbox, "MB", 1)]);
    let said = |text: &str| refused(update_email(None, &j(text), &res).unwrap_err());
    assert_eq!(
        said(r#"{"mailboxIds": {"MB": 1}}"#),
        "json error: invalid type: integer `1`, expected a boolean"
    );
    assert_eq!(
        said(r#"{"mailboxIds": ["MB"]}"#),
        "json error: invalid type: sequence, expected a map"
    );
    assert_eq!(
        said(r#"{"mailboxIds": {"MB": true}, "keywords": {"$seen": "yes"}}"#),
        "json error: invalid type: string \"yes\", expected a boolean"
    );
}

fn email_cells(keywords: &str) -> Vec<Cell> {
    vec![
        Cell::Int(1),
        Cell::Int(2),
        Cell::Text("2024-01-02T03:04:05Z".to_owned()),
        Cell::Text("[3]".to_owned()),
        Cell::Text(keywords.to_owned()),
        Cell::Text("m".to_owned()),
    ]
}

#[test]
fn keywords_that_are_no_list_of_texts_are_told_by_the_reader() {
    assert_eq!(row_to_email(&email_cells(r#"["a"]"#)).unwrap().keywords, vec!["a".to_owned()]);
    let told = |text: &str| serde_json::from_str::<Vec<String>>(text).unwrap_err().to_string();
    for text in ["{}", "[1]", r#"["a", null]"#, "[", "no"] {
        let e = row_to_email(&email_cells(text)).unwrap_err();
        assert_eq!(refused(e), format!("json error: {}", told(text)));
    }
    assert_eq!(
        refused(row_to_email(&email_cells("[1]")).unwrap_err()),
        "json error: invalid type: integer `1`, expected a string at line 1 column 2"
    );
}

#[test]
fn a_row_with_a_wrong_column_is_told_by_its_first() {
    let mut row = email_cells("[]");
    row[2] = Cell::Null;
    row[1] = Cell::Text("2".to_owned());
    assert_eq!(
        refused(row_to_email(&row).unwrap_err()),
        "sqlite error: Invalid column type Text at index: 1, name: blob_id"
    );
    assert_eq!(
        refused(row_to_identity(&vec![Cell::Int(1)]).unwrap_err()),
        "sqlite error: Invalid column index: 1"
    );
    let mailbox = vec![Cell::Int(1), Cell::Null, Cell::Null, Cell::Null, Cell::Int(0), Cell::Int(1)];
    assert_eq!(
        refused(row_to_mailbox(&mailbox, &ids(&[])).unwrap_err()),
        "sqlite error: Invalid column type Null at index: 1, name: name"
    );
    let node = vec![
        Cell::Int(1),
        Cell::Null,
        Cell::Text("pipe".to_owned()),
    ];
    assert_eq!(
        refused(row_to_file_node(&node, &ids(&[])).unwrap_err()),
        "json error: unknown variant `pipe`, expected one of `file`, `directory`, `symlink`"
    );
}

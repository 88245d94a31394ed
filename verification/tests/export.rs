use vandelay::error::Error;
use vandelay::jmap::error::JmapError;
use vandelay::json;
use vandelay::json::Json;
use vandelay::sync::export::email::{
    blob_hint, build_keywords, build_mailbox_ids, client_id, count_tally, fallback_ids,
    import_item, interpret_import, missing_messages, refine_indices, server_index,
    server_indices, size_note, EmailExport, SingleImport, Step, Tally, TargetId,
};
use vandelay::sync::export::uidtype::{
    after_create, after_failure, created_object, describe, find_by_uid, jid, local_object,
    reconcile, stored_uid, target_objects, target_uid, LocalObject,
};
use vandelay::sync::import_imap::pool::{
    needs_select, pool_size, select_names, Action, Disposition, JobRun, HARD_CAP,
};
use vandelay::sync::import_jmap::mapping::EmailRow;
use vandelay::sync::TypeCounts;
use vandelay::types::ObjectType;

fn j(text: &str) -> Json {
    json::parse(text.as_bytes()).expect("JSON")
}

fn texts(list: &[&str]) -> Vec<String> {
    list.iter().map(|t| t.to_string()).collect()
}

fn target(local_id: i64, target_id: &str) -> TargetId {
    TargetId { local_id, target_id: target_id.to_owned() }
}

#[test]
fn a_message_is_recognized_by_its_headers() {
    let v = j(r#"{"id":"1","messageId":["m@x"],"from":[{"email":"a@x"},{"name":"n"}],
        "to":[{"email":"b@x"}],"subject":"S","sentAt":"2026-01-01T00:00:00Z"}"#);
    let p = server_index(&v);
    assert_eq!(p.mids, ["m@x"]);
    assert_eq!(p.from, ["a@x"]);
    assert_eq!(p.to, ["b@x"]);
    assert_eq!(p.subject, "S");
    assert_eq!(p.sent_at, "2026-01-01T00:00:00Z");
}

#[test]
fn messages_without_an_id_of_their_own_are_asked_about_again() {
    let targets = vec![j(r#"{"id":"1","messageId":["m@x"]}"#), j(r#"{"id":"2"}"#)];
    assert_eq!(fallback_ids(&targets), ["2"]);
    let known = server_indices(&targets);
    let asked = vec![j(r#"{"id":"2","subject":"late"}"#)];
    let refined = refine_indices(&targets, known, &asked);
    assert_eq!(refined[0].mids, ["m@x"]);
    assert_eq!(refined[1].subject, "late");
}

#[test]
fn only_messages_that_are_missing_are_exported() {
    let mut counts = TypeCounts::default();
    let missing = missing_messages(&texts(&["a", "b", "c"]), &texts(&["b"]), &mut counts);
    assert_eq!(missing, [0, 2]);
    assert_eq!(counts, TypeCounts { skipped: 1, ..TypeCounts::default() });
}

#[test]
fn a_message_goes_to_the_mailboxes_that_stand_for_its_own() {
    let ids = vec![target(1, "M1"), target(2, "M2")];
    let m = build_mailbox_ids(&vec![1, 2, 1], &ids).expect("all are there");
    let names: Vec<&str> = m.iter().map(|e| e.0.as_str()).collect();
    assert_eq!(names, ["M1", "M2"]);
    assert!(build_mailbox_ids(&vec![1, 3], &ids).is_none());
    assert_eq!(build_keywords(&texts(&["$seen", "$seen"])).len(), 1);
}

#[test]
fn an_import_is_described_to_the_server() {
    let item = import_item("B", vec![], build_keywords(&texts(&["$seen"])), "2026-01-01T00:00:00Z");
    assert_eq!(
        json::write(&item),
        r#"{"blobId":"B","mailboxIds":{},"keywords":{"$seen":true},"receivedAt":"2026-01-01T00:00:00Z"}"#
    );
}

#[test]
fn an_answer_to_an_import_says_what_became_of_it() {
    let made = interpret_import(&j(r#"{"created":{"e1":{"id":"9"}}}"#), "e1");
    assert!(matches!(made, SingleImport::Created));
    let known = interpret_import(&j(r#"{"notCreated":{"e1":{"type":"alreadyExists"}}}"#), "e1");
    assert!(matches!(known, SingleImport::Skipped));
    match interpret_import(&j(r#"{"notCreated":{"e1":{"type":"blobNotFound"}}}"#), "e1") {
        SingleImport::NotCreated { error_type, detail } => {
            assert_eq!(error_type, "blobNotFound");
            assert_eq!(detail, r#"{"type":"blobNotFound"}"#);
        }
        other => panic!("{other:?}"),
    }
    match interpret_import(&j(r#"{"created":{}}"#), "e1") {
        SingleImport::NotCreated { error_type, detail } => {
            assert_eq!(error_type, "");
            assert_eq!(detail, "Email/import returned neither created nor notCreated for e1");
        }
        other => panic!("{other:?}"),
    }
}

#[test]
fn a_message_is_named_in_a_warning() {
    assert_eq!(client_id(-7), "e-7");
    assert_eq!(blob_hint(Some("m@x"), Some("3 kB")), "message-id <m@x>, 3 kB");
    assert_eq!(blob_hint(None, None), "no message-id");
    assert_eq!(size_note(&JmapError::UnknownMethod), "");
    assert!(size_note(&JmapError::RequestTooLarge).starts_with("; exceeds the target server"));
}

fn export() -> EmailExport {
    let row = EmailRow {
        blob_local_id: 5,
        received_at: "2026-01-01T00:00:00Z".to_owned(),
        mailbox_locals: vec![1],
        keywords: texts(&["$seen"]),
        message_match: "{}".to_owned(),
    };
    EmailExport::of_row(7, row, blob_hint(Some("m@x"), None))
}

fn warning(step: Step) -> String {
    match step {
        Step::Done { tally: Tally::Failed, warning: Some(w) } => w,
        other => panic!("{other:?}"),
    }
}

#[test]
fn a_lost_blob_is_uploaded_once_more() {
    let ids = vec![target(1, "M1")];
    let mut x = export();
    assert!(matches!(x.begin(&ids), Step::Upload { again: false }));
    assert!(matches!(x.after_upload(Ok("B".to_owned()), &ids, false), Step::Send(_)));
    let lost = || {
        Ok(SingleImport::NotCreated {
            error_type: "blobNotFound".to_owned(),
            detail: "gone".to_owned(),
        })
    };
    assert!(matches!(x.after_send(lost()), Step::Upload { again: true }));
    assert!(matches!(x.after_upload(Ok("B".to_owned()), &ids, false), Step::Send(_)));
    assert_eq!(
        warning(x.after_send(lost())),
        "Email/import e7 (message-id <m@x>) failed after blob re-upload: gone"
    );
}

#[test]
fn an_export_ends_as_the_server_says() {
    let ids = vec![target(1, "M1")];
    let mut x = export();
    assert_eq!(
        warning(x.begin(&vec![])),
        "Email/import e7 (message-id <m@x>) skipped: mailbox not on target"
    );
    assert_eq!(
        warning(x.after_upload(Err(JmapError::Transport("cut".to_owned())), &ids, false)),
        "Email/import e7 (message-id <m@x>) blob upload failed: ".to_owned()
            + &JmapError::Transport("cut".to_owned()).message()
    );
    assert!(matches!(
        x.after_upload(Ok("B".to_owned()), &ids, true),
        Step::Done { tally: Tally::Created, warning: None }
    ));
    assert!(matches!(x.after_send(Ok(SingleImport::Created)), Step::Done { tally: Tally::Created, .. }));
    assert!(matches!(x.after_send(Ok(SingleImport::Skipped)), Step::Done { tally: Tally::Skipped, .. }));
    assert!(warning(x.after_send(Err(JmapError::RequestTooLarge)))
        .ends_with("re-running will not migrate it"));
    let mut counts = TypeCounts::default();
    count_tally(&mut counts, Tally::Created);
    count_tally(&mut counts, Tally::Skipped);
    count_tally(&mut counts, Tally::Failed);
    assert_eq!(counts, TypeCounts { created: 1, skipped: 1, failed: 1, ..TypeCounts::default() });
}

fn object(local_id: i64, uid: &str) -> LocalObject {
    LocalObject { local_id, uid: uid.to_owned() }
}

#[test]
fn objects_are_matched_by_uid() {
    let targets =
        vec![j(r#"{"uid":"u1"}"#), j(r#"{"id":"T1","uid":"u1"}"#), j(r#"{"id":"T2","uid":"u2"}"#)];
    assert_eq!(find_by_uid(&targets, "u1").as_deref(), Some("T1"));
    assert_eq!(target_uid(&targets[0]).as_deref(), Some("u1"));
    assert_eq!(jid(&targets[0]), None);
    let rows = vec![object(1, "u1"), object(-2, "u3")];
    let there = target_objects(&targets, &rows);
    assert_eq!(there.len(), 2);
    assert!(there[0].matched && !there[1].matched);
    assert!(!there[0].protected && there[0].may_delete);
}

#[test]
fn an_event_is_known_by_the_uid_in_its_text() {
    assert_eq!(stored_uid(r#"{"uid":"u1","title":"T"}"#), "u1");
    assert_eq!(stored_uid(r#"{"title":"T"}"#), "");
    assert_eq!(stored_uid(r#"{"uid":7}"#), "");
    assert_eq!(stored_uid("{"), "");
    assert_eq!(local_object(ObjectType::ContactCard, 3, "card-uid").uid, "card-uid");
    let event = local_object(ObjectType::CalendarEvent, 4, r#"{"uid":"u4"}"#);
    assert_eq!((event.local_id, event.uid.as_str()), (4, "u4"));
}

#[test]
fn a_failure_ends_the_run_or_is_counted() {
    let mut counts = TypeCounts::default();
    let ty = ObjectType::CalendarEvent;
    let fatal = after_failure(ty, 4, "u", true, Error::Connection("cut".to_owned()), &mut counts);
    assert!(matches!(fatal, Err(Error::Connection(m)) if m == "cut"));
    assert_eq!(counts, TypeCounts::default());
    let partial = || Error::Partial("json error: x".to_owned());
    assert_eq!(
        after_failure(ty, 4, "u", true, partial(), &mut counts).unwrap(),
        "CalendarEvent local 4 (uid u) skipped: partial failure: json error: x"
    );
    assert_eq!(
        after_failure(ty, 4, "", false, partial(), &mut counts).unwrap(),
        "CalendarEvent local 4 not created: partial failure: json error: x"
    );
    assert_eq!(counts, TypeCounts { failed: 2, ..TypeCounts::default() });
}

#[test]
fn an_answer_says_what_was_created_and_what_was_not() {
    let mut counts = TypeCounts::default();
    let created = vec![
        ("c4".to_owned(), j(r#"{"id":"T4"}"#)),
        ("x5".to_owned(), j(r#"{"id":"T5"}"#)),
        ("c6".to_owned(), j("{}")),
    ];
    let refused = vec![("c7".to_owned(), j(r#"{"type":"invalidProperties"}"#))];
    let (ids, warnings) =
        after_create(ObjectType::ContactCard, &created, &refused, &mut counts);
    assert_eq!(ids, [(4, "T4".to_owned())]);
    assert_eq!(warnings, [r#"ContactCard c7 not created: {"type":"invalidProperties"}"#]);
    assert_eq!(counts, TypeCounts { created: 1, failed: 1, ..TypeCounts::default() });
}

#[test]
fn objects_are_exported_one_after_the_other() {
    let targets = vec![j(r#"{"id":"T1","uid":"u1"}"#), j(r#"{"id":"T3","uid":"u3"}"#)];
    let rows = vec![object(1, "u1"), object(-2, "u2"), object(3, "u3"), object(4, ""), object(5, "u5")];
    let mut run = reconcile(ObjectType::ContactCard, targets, rows, TypeCounts::default());
    assert_eq!(run.next(), Some((-2, "c-2".to_owned())));
    assert_eq!(run.counts, TypeCounts { skipped: 1, ..TypeCounts::default() });
    run.after_create(&vec![("c-2".to_owned(), j(r#"{"id":"T2"}"#))], &vec![]);
    assert_eq!(run.next(), Some((4, "c4".to_owned())));
    assert_eq!(run.counts, TypeCounts { skipped: 2, created: 1, ..TypeCounts::default() });
    run.after_failure(true, Error::Partial("no".to_owned())).expect("goes on");
    assert_eq!(run.next(), Some((5, "c5".to_owned())));
    assert!(run.after_failure(false, Error::Db("full".to_owned())).is_err());
    assert_eq!(run.index, 4);
    run.after_create(&vec![], &vec![("c5".to_owned(), j(r#"{"type":"forbidden"}"#))]);
    assert_eq!(run.next(), None);
    assert_eq!(
        run.map,
        [(1, "T1".to_owned()), (-2, "T2".to_owned()), (3, "T3".to_owned())]
    );
    assert_eq!(
        run.warnings,
        [
            "ContactCard local 4 skipped: partial failure: no",
            r#"ContactCard c5 not created: {"type":"forbidden"}"#
        ]
    );
    assert_eq!(
        run.counts,
        TypeCounts { skipped: 2, created: 1, failed: 2, ..TypeCounts::default() }
    );
}

#[test]
fn a_created_object_is_known_by_its_client_id() {
    assert_eq!(created_object("c-2", &j(r#"{"id":"T9"}"#)), Some((-2, "T9".to_owned())));
    assert_eq!(created_object("x2", &j(r#"{"id":"T9"}"#)), None);
    assert_eq!(created_object("c2", &j("{}")), None);
    assert_eq!(
        describe(ObjectType::ContactCard, 4, "u"),
        "ContactCard local 4 (uid u)"
    );
    assert_eq!(describe(ObjectType::CalendarEvent, 4, ""), "CalendarEvent local 4");
}

#[test]
fn there_are_neither_too_few_nor_too_many_workers() {
    assert_eq!(pool_size(0), 1);
    assert_eq!(pool_size(3), 3);
    assert_eq!(pool_size(100), HARD_CAP);
}

#[test]
fn a_job_is_tried_again_as_often_as_allowed() {
    let mut job = JobRun::new(1);
    assert_eq!(job.after_job(Err(Disposition::Transient)), Action::Retry);
    assert_eq!(
        job.after_job(Err(Disposition::Transient)),
        Action::Fail { drop_connection: false }
    );
    assert_eq!(
        job.after_job(Err(Disposition::TransportDrop)),
        Action::Reconnect { attempt: 1 }
    );
    assert_eq!(
        job.after_job(Err(Disposition::TransportDrop)),
        Action::Fail { drop_connection: true }
    );
    assert_eq!(job.after_job(Err(Disposition::Fatal)), Action::Fail { drop_connection: false });
    assert_eq!(job.after_job(Ok(())), Action::Done);
    let mut other = JobRun::new(1);
    assert_eq!(
        other.after_connect_failure(Disposition::Fatal),
        Action::Fail { drop_connection: false }
    );
    assert_eq!(
        other.after_connect_failure(Disposition::TransportDrop),
        Action::Reconnect { attempt: 1 }
    );
    assert_eq!(
        other.after_connect_failure(Disposition::TransportDrop),
        Action::Fail { drop_connection: false }
    );
}

#[test]
fn a_folder_has_a_second_name_where_its_encoding_differs() {
    let (first, second) = select_names("Entw\u{fc}rfe", false);
    assert_eq!(first, "Entw&APw-rfe");
    assert_eq!(second.as_deref(), Some("Entw\u{fc}rfe"));
    assert_eq!(select_names("INBOX", true), ("INBOX".to_owned(), None));
    assert!(needs_select(None, "INBOX"));
    assert!(needs_select(Some("Sent"), "INBOX"));
    assert!(!needs_select(Some("INBOX"), "INBOX"));
}

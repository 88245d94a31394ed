use vandelay::civil::Date;
use vandelay::db::exchange_graph_ids::IdRow;
use vandelay::exchange_graph::error::GraphError;
use vandelay::exchange_graph::types::{EventBodyFormat, MailboxKind, Surfaces};
use vandelay::json;
use vandelay::json::Json;
use vandelay::sync::import_exchange_graph::calendar::{
    attach_links, cancelled_occurrence_keys, event_attachments, exception_windows, expand_series,
    expand_stored, normalise_override_key, plan_calendar, vanished, ConvertedEvent, EventPlan,
    EXCEPTION_WINDOW_MAX_DAYS,
};
use vandelay::sync::import_exchange_graph::coordinator::{
    canonical_session_url, dry_summary, initial_deadline, looks_like_uuid, next_deadline,
    page_size, principal_from, refresh_wait, user_lookup_url, wanted_surfaces, worker_count,
    FolderWalk, GraphAuth, GraphImportConfig,
};
use vandelay::sync::import_exchange_graph::files::{
    order_by_depth, order_for_deletion, parse_node, partition, wanted_files, DriveNode, DriveWalk,
};
use vandelay::sync::import_exchange_graph::folders::{
    order_by_parent, plan_mail_folder, probe_parent, well_known_roles, RoleOf,
};
use vandelay::sync::import_exchange_graph::series::SeriesRun;
use vandelay::sync::TypeCounts;
use vandelay::tree::NodeRow;

fn j(text: &str) -> Json {
    json::parse(text.as_bytes()).expect("JSON")
}

#[test]
fn exception_windows_never_exceed_the_graph_limit() {
    for requested in [1, 5, 50] {
        let windows = exception_windows(Date::parse("2026-06-15").unwrap(), requested);
        assert_eq!(windows.len(), 2, "one window behind today, one ahead");
        for (from, to) in windows {
            let start = Date::parse(&from[..10]).unwrap();
            let end = Date::parse(&to[..10]).unwrap();
            let days = i64::from(end.days - start.days);
            assert!(days > 0, "window runs forwards: {from}..{to}");
            assert!(
                days <= EXCEPTION_WINDOW_MAX_DAYS as i64,
                "requested {requested}y produced {days} days, over Graph's cap"
            );
        }
    }
}

#[test]
fn override_key_utc_converts_to_master_local_time() {
    let local = normalise_override_key("2026-05-11T15:00:00Z", Some("America/New_York"));
    assert_eq!(local, "2026-05-11T11:00:00");
}

#[test]
fn override_key_no_tz_strips_z_only() {
    let local = normalise_override_key("2026-05-11T15:00:00Z", None);
    assert_eq!(local, "2026-05-11T15:00:00");
}

#[test]
fn override_key_with_explicit_offset_converts() {
    let local = normalise_override_key("2026-05-11T15:00:00+00:00", Some("Europe/London"));
    assert_eq!(local, "2026-05-11T16:00:00");
}

#[test]
fn override_key_naive_localdatetime_passes_through() {
    let local = normalise_override_key("2026-05-11T15:00:00", Some("America/New_York"));
    assert_eq!(local, "2026-05-11T15:00:00");
}

#[test]
fn override_key_unknown_timezone_strips_offset_only() {
    let local = normalise_override_key("2026-05-11T15:00:00Z", Some("Not/A_Zone"));
    assert_eq!(local, "2026-05-11T15:00:00");
}

#[test]
fn override_key_fractional_seconds_stripped() {
    let local = normalise_override_key("2026-05-11T15:00:00.1234567Z", None);
    assert_eq!(local, "2026-05-11T15:00:00");
}

#[test]
fn canonical_session_url_concatenates_authority_and_base() {
    let config = GraphImportConfig {
        auth: GraphAuth::DeviceCode {
            authority: "https://login.microsoftonline.com/common".to_owned(),
            client_id: "uuid".to_owned(),
        },
        api_base: "https://graph.microsoft.com/v1.0".to_owned(),
        user_target: None,
        mailbox_kind: MailboxKind::Primary,
        surfaces: Surfaces::all(),
        event_body_format: EventBodyFormat::Text,
        graph_connections: 4,
        top: 100,
        exception_window_years: 5,
        contact_photos: true,
        event_attachments: true,
        allow_source_change: false,
    };
    let url = canonical_session_url(&config);
    assert_eq!(
        url,
        "https://login.microsoftonline.com/common|https://graph.microsoft.com/v1.0"
    );
}

#[test]
fn looks_like_uuid_only_matches_well_formed() {
    assert!(looks_like_uuid("12345678-1234-1234-1234-123456789abc"));
    assert!(!looks_like_uuid("alice@x.com"));
    assert!(!looks_like_uuid("12345678123412341234123456789abc"));
}

#[test]
fn parse_node_rejects_items_without_file_or_folder_facet() {
    let vault = j(r#"{"id": "V", "name": "Personal Vault", "remoteItem": {}}"#);
    assert!(parse_node(&vault, "root").is_none());
}

#[test]
fn parse_node_reads_folder_and_file_facets() {
    let folder = j(r#"{"id": "F", "name": "Docs", "folder": {"childCount": 2}}"#);
    let parsed = parse_node(&folder, "root").expect("folder parses");
    assert!(parsed.is_folder);

    let file = j(r#"{"id": "X", "name": "a.txt", "size": 12, "file": {"mimeType": "text/plain"}, "createdDateTime": "2026-01-01T00:00:00Z"}"#);
    let parsed = parse_node(&file, "root").expect("file parses");
    assert!(!parsed.is_folder);
    assert_eq!(parsed.media_type.as_deref(), Some("text/plain"));
}

#[test]
fn order_by_depth_puts_parents_before_children() {
    let node = |id: &str, parent: Option<&str>| DriveNode {
        graph_id: id.to_owned(),
        name: id.to_owned(),
        is_folder: true,
        media_type: None,
        created: "2026-01-01T00:00:00Z".to_owned(),
        modified: None,
        parent_graph_id: parent.map(str::to_owned),
    };
    let ordered = order_by_depth(&vec![
        node("C", Some("B")),
        node("B", Some("A")),
        node("A", None),
    ]);
    let names: Vec<&str> = ordered.iter().map(|n| n.graph_id.as_str()).collect();
    assert_eq!(names, ["A", "B", "C"]);
}

#[test]
fn order_by_parent_returns_parents_first() {
    let input = vec![
        j(r#"{"id": "C", "parentFolderId": "B"}"#),
        j(r#"{"id": "B", "parentFolderId": "A"}"#),
        j(r#"{"id": "A"}"#),
    ];
    let out = order_by_parent(&input);
    assert_eq!(out[0].text_at("id"), Some("A"));
    assert_eq!(out[1].text_at("id"), Some("B"));
    assert_eq!(out[2].text_at("id"), Some("C"));
}

#[test]
fn order_by_parent_tolerates_missing_parent() {
    let input = vec![
        j(r#"{"id": "Orphan", "parentFolderId": "Missing"}"#),
        j(r#"{"id": "A"}"#),
    ];
    let out = order_by_parent(&input);
    assert_eq!(out.len(), 2);
}

fn id_row(graph_id: &str, local_id: i64) -> IdRow {
    IdRow { graph_id: graph_id.to_owned(), local_id }
}

#[test]
fn a_drive_is_walked_once_even_where_it_leads_back() {
    let mut walk = DriveWalk::new("root");
    let mut asked = Vec::new();
    while let Some(id) = walk.next() {
        asked.push(id.clone());
        assert!(asked.len() < 10);
        walk.take(
            &id,
            &vec![
                j(r#"{"id": "root", "name": "up", "folder": {}}"#),
                j(r#"{"id": "D", "name": "down", "folder": {}}"#),
                j(r#"{"id": "f", "name": "f.txt", "file": {}}"#),
            ],
        );
    }
    assert_eq!(asked, ["root", "D"]);
    let (folders, files) = partition(&walk.out);
    assert!(folders.iter().all(|n| n.is_folder));
    assert!(files.iter().all(|n| !n.is_folder));
}

#[test]
fn files_that_are_stored_are_skipped_and_gone_ones_go_deepest_first() {
    let file = |id: &str| DriveNode {
        graph_id: id.to_owned(),
        name: id.to_owned(),
        is_folder: false,
        media_type: None,
        created: String::new(),
        modified: None,
        parent_graph_id: None,
    };
    let mut counts = TypeCounts::default();
    let wanted = wanted_files(&vec![file("a"), file("b")], &vec![id_row("a", 1)], &mut counts);
    assert_eq!(wanted.len(), 1);
    assert_eq!(wanted[0].graph_id, "b");
    let rows = vec![
        NodeRow { id: 1, parent: None },
        NodeRow { id: 2, parent: Some(1) },
        NodeRow { id: 3, parent: Some(2) },
    ];
    let gone = vec![id_row("x", 1), id_row("y", 3), id_row("z", 2)];
    let order: Vec<i64> =
        order_for_deletion(&gone, &rows).iter().map(|r| r.local_id).collect();
    assert_eq!(order, [3, 2, 1]);
}

#[test]
fn folders_are_asked_for_their_children_once() {
    let mut walk = FolderWalk::new();
    walk.take(&vec![
        j(r#"{"id": "A", "childFolderCount": 1}"#),
        j(r#"{"id": "A", "childFolderCount": 1}"#),
    ]);
    assert_eq!(walk.all.len(), 1);
    assert_eq!(walk.next().as_deref(), Some("A"));
    assert_eq!(walk.next(), None);
}

#[test]
fn a_mail_folder_gets_its_role_and_its_parent() {
    assert!(well_known_roles().contains(&("inbox", "inbox")));
    let roles = vec![RoleOf { graph_id: "I".to_owned(), role: "inbox" }];
    let folder = j(r#"{"id": "I", "displayName": "Inbox", "parentFolderId": "P"}"#);
    let plan = plan_mail_folder(&folder, &roles, &vec![id_row("P", 4)], &Vec::new()).unwrap();
    assert_eq!(plan.role, Some("inbox"));
    assert_eq!(plan.parent_local, Some(4));
    assert_eq!(plan.existing, None);
    assert_eq!(probe_parent(&j(r#"{"value": [{"parentFolderId": "P"}]}"#)).as_deref(), Some("P"));
}

#[test]
fn a_series_is_fetched_by_its_master_alone() {
    let mut plan = EventPlan { server: Vec::new(), planned: Vec::new() };
    let stubs = vec![
        j(r#"{"id": "S", "type": "singleInstance"}"#),
        j(r#"{"id": "M", "type": "seriesMaster"}"#),
        j(r#"{"id": "O", "type": "occurrence", "seriesMasterId": "M"}"#),
    ];
    let r = plan_calendar(&mut plan, &Vec::new(), &stubs);
    assert_eq!(r.want_ids, ["S", "M"]);
    assert_eq!(r.series_masters, ["M"]);
    let again = plan_calendar(&mut plan, &Vec::new(), &stubs);
    assert!(again.want_ids.is_empty(), "no event is fetched twice");
}

#[test]
fn events_that_the_server_lost_are_found() {
    let local = vec![id_row("a", 1), id_row("b", 2)];
    let gone = vanished(&local, &vec!["a".to_owned()]);
    assert_eq!(gone.len(), 1);
    assert_eq!(gone[0].local_id, 2);
}

fn daily_series() -> Json {
    j(r#"{"start": "2026-09-21T11:00:00", "timeZone": "Etc/UTC", "recurrenceRule":
        {"@type": "RecurrenceRule", "frequency": "daily", "interval": 1, "count": 4}}"#)
}

#[test]
fn an_occurrence_that_is_missing_was_cancelled() {
    let windows =
        vec![("2026-09-01T00:00:00Z".to_owned(), "2026-10-01T00:00:00Z".to_owned())];
    let starts: Vec<String> = ["2026-09-21", "2026-09-22", "2026-09-24"]
        .iter()
        .map(|d| format!("{d}T11:00:00Z"))
        .collect();
    let keys = cancelled_occurrence_keys(&daily_series(), &starts, &Vec::new(), &windows);
    assert_eq!(keys, ["2026-09-23T11:00:00"]);
    let (card, changed) = expand_series(&daily_series(), &Vec::new(), &starts, &windows);
    assert!(changed);
    let overrides = card.get("recurrenceOverrides").unwrap();
    let key = overrides.get("2026-09-23T11:00:00").unwrap();
    assert_eq!(key.bool_at("excluded"), Some(true));
}

#[test]
fn attachments_become_links() {
    let body = j(r##"{"value": [{"@odata.type": "#microsoft.graph.fileAttachment",
        "name": "a.txt", "contentType": "text/plain", "contentBytes": "aGk="}]}"##);
    let files = event_attachments(&body);
    assert_eq!(files.len(), 1);
    assert_eq!(files[0].bytes, b"hi");
    let card = attach_links(&j("{}"), &vec![9], &files);
    let links = card.get("links").unwrap().as_object().unwrap();
    assert_eq!(links.len(), 1);
    assert_eq!(links[0].1.get("@blob").unwrap().as_i64(), Some(9));
}

fn config() -> GraphImportConfig {
    GraphImportConfig {
        auth: GraphAuth::PreAcquired { token: "t".to_owned() },
        api_base: "https://graph.microsoft.com/v1.0".to_owned(),
        user_target: None,
        mailbox_kind: MailboxKind::Archive,
        surfaces: Surfaces::all(),
        event_body_format: EventBodyFormat::Html,
        graph_connections: 40,
        top: 5000,
        exception_window_years: 5,
        contact_photos: false,
        event_attachments: false,
        allow_source_change: false,
    }
}

#[test]
fn an_archive_mailbox_holds_mail_alone() {
    let s = wanted_surfaces(&config());
    assert!(s.mail);
    assert!(!s.calendar && !s.contacts && !s.files);
    assert_eq!(dry_summary(MailboxKind::Archive, 3, 0, 0).per_type[0].1.created, 3);
}

#[test]
fn sizes_stay_within_their_bounds() {
    assert!(page_size(0) >= 1);
    assert!(page_size(5000) <= 1000);
    assert!(worker_count(0) >= 1);
    assert!(worker_count(1000) < 1000);
}

#[test]
fn a_token_is_renewed_before_it_expires() {
    let deadline = initial_deadline(Some(3600), None, 1000).unwrap();
    assert!(deadline <= 4600);
    assert!(next_deadline(Some(3600), None, 1000) <= 4600);
    assert!(refresh_wait(deadline, 1000) <= 3600);
    assert!(initial_deadline(None, None, 1000).is_none());
}

#[test]
fn a_principal_has_an_id_and_a_name() {
    let p = principal_from(&j(r#"{"id": "u", "userPrincipalName": "a@b"}"#), None);
    assert_eq!(p.unwrap().id, "u");
    assert!(principal_from(&j("{}"), None).is_err());
    assert_eq!(
        user_lookup_url("https://g/v1.0/", "a@b"),
        "https://g/v1.0/users/a@b?$select=id,userPrincipalName"
    );
}

fn changed(master: Option<&str>, original: &str, title: &str) -> ConvertedEvent {
    ConvertedEvent {
        data: Json::Object(vec![("title".to_owned(), Json::Text(title.to_owned()))]),
        is_draft: false,
        use_default_alerts: false,
        series_master_id: master.map(str::to_owned),
        original_start: Some(original.to_owned()),
    }
}

fn september() -> Vec<(String, String)> {
    vec![("2026-09-01T00:00:00".to_owned(), "2026-10-01T00:00:00".to_owned())]
}

fn occurrence(master: &str, day: &str) -> Json {
    j(&format!(
        r#"{{"seriesMasterId": "{master}", "start": {{"dateTime": "{day}T11:00:00.0000000"}}}}"#
    ))
}

#[test]
fn a_stored_series_takes_what_is_listed_of_it() {
    let stored = json::write(&daily_series());
    let exceptions = vec![
        changed(Some("M"), "2026-09-22T11:00:00Z", "Late"),
        changed(Some("N"), "2026-09-21T11:00:00Z", "Other"),
        changed(None, "2026-09-21T11:00:00Z", "Stray"),
    ];
    let listed = vec![
        occurrence("M", "2026-09-21"),
        occurrence("N", "2026-09-23"),
        occurrence("M", "2026-09-24"),
    ];
    let mut counts = TypeCounts::default();
    let new = expand_stored(&stored, "M", &exceptions, &listed, &september(), &mut counts)
        .expect("changed");
    let card = j(&new);
    let overrides = card.get("recurrenceOverrides").unwrap().as_object().unwrap();
    let keys: Vec<&str> = overrides.iter().map(|m| m.0.as_str()).collect();
    assert_eq!(keys, ["2026-09-22T11:00:00", "2026-09-23T11:00:00"]);
    assert_eq!(overrides[0].1.text_at("title"), Some("Late"));
    assert_eq!(overrides[1].1.bool_at("excluded"), Some(true));
    assert_eq!(counts.updated, 1);
    assert_eq!(expand_stored(&new, "M", &exceptions, &listed, &september(), &mut counts), None);
    assert_eq!(expand_stored("{", "M", &exceptions, &listed, &september(), &mut counts), None);
    assert_eq!(counts.updated, 1);
}

#[test]
fn the_series_of_a_calendar_are_asked_about_and_expanded() {
    let mut run = SeriesRun::begin("C".to_owned(), TypeCounts::default());
    let listing = Ok(vec![j(r#"{"id": "x"}"#), j("{}"), j(r#"{"id": "y"}"#)]);
    assert_eq!(run.after_exceptions("a", "b", &listing), [0, 2]);
    assert_eq!(run.after_exceptions("b", "c", &listing), [0usize; 0]);
    let lost = || GraphError::Transport("cut".to_owned());
    assert_eq!(run.after_exceptions("b", "c", &Err(lost())), [0usize; 0]);
    run.after_conversion("x", Ok(changed(Some("M"), "2026-09-22T11:00:00Z", "Late")));
    run.after_conversion("y", Err("no start".to_owned()));
    run.after_occurrences("a", "b", Ok(vec![occurrence("M", "2026-09-21")]));
    run.after_occurrences("a", "b", Ok(vec![occurrence("M", "2026-09-24")]));
    run.after_occurrences("b", "c", Err(lost()));
    assert_eq!(
        run.warnings,
        [
            format!("graph calendar C exception lookup b..c failed: {}", lost().message()),
            "graph exception y convert failed: no start".to_owned(),
            format!(
                "graph calendar C occurrence sweep b..c failed: {}; deleted occurrences cannot be detected for this calendar",
                lost().message()
            ),
        ]
    );
    let new = run.expand(&json::write(&daily_series()), "M", &september()).expect("changed");
    assert!(j(&new).get("recurrenceOverrides").is_some());
    assert_eq!(run.expand(&new, "M", &september()), None);
    assert_eq!(
        run.counts,
        TypeCounts { failed: 3, updated: 1, ..TypeCounts::default() }
    );
}

use vandelay::db::exchange_graph_ids::IdRow;
use vandelay::error::Error;
use vandelay::exchange_graph::client::{fault_error, warn_on_redirect, Accept, Attempt, GraphClient, Next};
use vandelay::exchange_graph::error::GraphError;
use vandelay::exchange_graph::retry::{classify_http_status, is_throttled, HttpClass};
use vandelay::exchange_graph::types::{EventBodyFormat, MailboxKind, Surfaces};
use vandelay::jmap::http::{Fault, RetryPolicy};
use vandelay::jmap::retry::Jitter;
use vandelay::delay::Delay;
use vandelay::json;
use vandelay::json::Json;
use vandelay::sync::import_exchange_graph::coordinator::{
    GraphAuth, GraphImportConfig, GraphRun, Surface,
};
use vandelay::sync::import_exchange_graph::files::{parse_node, DriveNode};
use vandelay::sync::import_exchange_graph::runs::{
    after_deletion, default_book, fresh_entries, Deleted, Download, EventRun, Fetched, FilesRun,
    StoreRun,
};
use vandelay::sync::TypeCounts;
use vandelay::tree::NodeRow;

fn j(text: &str) -> Json {
    json::parse(text.as_bytes()).expect("JSON")
}

fn row(graph_id: &str, local_id: i64) -> IdRow {
    IdRow { graph_id: graph_id.to_owned(), local_id }
}

fn config(mailbox_kind: MailboxKind, surfaces: Surfaces) -> GraphImportConfig {
    GraphImportConfig {
        auth: GraphAuth::PreAcquired { token: "t".to_owned() },
        api_base: "https://graph.microsoft.com/v1.0".to_owned(),
        user_target: None,
        mailbox_kind,
        surfaces,
        event_body_format: EventBodyFormat::Html,
        graph_connections: 4,
        top: 100,
        exception_window_years: 5,
        contact_photos: false,
        event_attachments: false,
        allow_source_change: false,
    }
}

#[test]
fn surfaces_are_taken_one_after_the_other() {
    let mut run = GraphRun::begin(&config(MailboxKind::Primary, Surfaces::all()));
    let mut seen = Vec::new();
    while let Some(s) = run.next {
        seen.push(s);
        let items = TypeCounts { created: seen.len() as u64, ..TypeCounts::default() };
        run.after(Ok((TypeCounts::default(), items))).expect("goes on");
    }
    assert_eq!(seen.first(), Some(&Surface::Mail));
    let (summary, clean) = run.finish(3, 2);
    assert!(clean);
    assert_eq!(summary.retries_observed, 3);
    assert_eq!(summary.retry_after_sleeps, 2);
    assert_eq!(summary.per_type.len(), 7);
    assert_eq!(summary.per_type[1].0, "email");
    assert_eq!(summary.per_type[1].1.created, 1);
}

#[test]
fn an_archive_mailbox_ends_after_its_mail() {
    let mut run = GraphRun::begin(&config(MailboxKind::Archive, Surfaces::all()));
    assert_eq!(run.next, Some(Surface::Mail));
    run.after(Ok((TypeCounts::default(), TypeCounts::default()))).expect("goes on");
    assert_eq!(run.next, None);
}

#[test]
fn an_error_ends_a_graph_run_and_a_failure_keeps_blobs() {
    let mut run = GraphRun::begin(&config(MailboxKind::Primary, Surfaces::all()));
    let failed = TypeCounts { failed: 1, ..TypeCounts::default() };
    run.after(Ok((failed, TypeCounts::default()))).expect("goes on");
    assert!(matches!(run.after(Err(Error::Connection("off".to_owned()))), Err(Error::Connection(_))));
    assert!(!run.finish(0, 0).1);
}

#[test]
fn folders_are_stored_in_order_and_the_unlisted_ones_go() {
    let entries = vec![j(r#"{"id":"A"}"#), j(r#"{"name":"no id"}"#), j(r#"{"id":"B"}"#)];
    let mut run =
        StoreRun::begin(entries, vec![row("A", 1), row("X", 9)], TypeCounts::default());
    assert_eq!(run.next().unwrap().text_at("id"), Some("A"));
    run.after(1);
    assert_eq!(run.next().unwrap().text_at("id"), Some("B"));
    run.after(2);
    assert!(run.next().is_none());
    assert_eq!(run.counts, TypeCounts { fetched: 1, created: 1, ..TypeCounts::default() });
    let gone = run.finish();
    assert_eq!(gone.len(), 1);
    assert_eq!(gone[0].local_id, 9);
    let stored: Vec<&str> = run.stored.iter().map(|r| r.graph_id.as_str()).collect();
    assert_eq!(stored, ["A", "B"]);
}

#[test]
fn a_listing_without_ids_stores_nothing() {
    let run = StoreRun::begin(vec![j("{}"), j("null")], vec![row("X", 9)], TypeCounts::default());
    assert!(run.next().is_none());
    assert_eq!(run.finish().len(), 1);
}

#[test]
fn what_cannot_be_deleted_is_counted_and_told() {
    let mut counts = TypeCounts::default();
    assert_eq!(after_deletion(Deleted::Mailbox, &row("M", 4), None, &mut counts), None);
    assert_eq!(
        after_deletion(Deleted::Mailbox, &row("M", 4), Some("busy"), &mut counts).as_deref(),
        Some("mailbox M (local id 4) could not be deleted (live children?): busy")
    );
    assert_eq!(
        after_deletion(Deleted::FileNode, &row("F", -1), Some("busy"), &mut counts).as_deref(),
        Some("file node F (local id -1) could not be deleted: busy")
    );
    assert_eq!(after_deletion(Deleted::Other, &row("C", 5), Some("busy"), &mut counts), None);
    assert_eq!(counts, TypeCounts { deleted: 1, failed: 3, ..TypeCounts::default() });
}

#[test]
fn the_default_address_book_needs_an_id() {
    let (book, told) = default_book(Ok(j(r#"{"id":"D"}"#)));
    assert_eq!(book.unwrap().text_at("id"), Some("D"));
    assert_eq!(told, None);
    assert!(default_book(Ok(j("{}"))).0.is_none());
    let (book, told) = default_book(Err(GraphError::Vanished));
    assert!(book.is_none());
    assert_eq!(
        told.as_deref(),
        Some(
            "graph default contact folder lookup failed (the item is no longer there); \
             falling back to deriving it from an existing contact"
        )
    );
}

#[test]
fn events_are_planned_counted_and_cleaned_up() {
    let mut run = EventRun::begin(vec![row("old", 1), row("gone", 2)]);
    let plan = run
        .after_listing("cal", Ok(vec![j(r#"{"id":"old"}"#), j(r#"{"id":"new"}"#)]))
        .expect("plan");
    assert_eq!(plan.want_ids, ["new"]);
    assert_eq!(run.counts.fetched, 1);
    assert_eq!(run.after_fetch("new", Fetched::Converted), (true, None));
    assert_eq!(run.after_fetch("new", Fetched::Failed(GraphError::Vanished)), (false, None));
    assert_eq!(
        run.after_fetch("new", Fetched::Unreadable("odd".to_owned())).1.as_deref(),
        Some("graph event new convert failed: odd")
    );
    assert_eq!(
        run.after_fetch("new", Fetched::Failed(GraphError::Transport("cut".to_owned()))).1.as_deref(),
        Some("graph event new fetch failed: transport failure: cut")
    );
    assert_eq!(run.counts.skipped, 1);
    assert_eq!(run.counts.failed, 2);
    let gone = run.finish().expect("all were listed");
    assert_eq!(gone.len(), 1);
    assert_eq!(gone[0].graph_id, "gone");
}

#[test]
fn nothing_is_cleaned_up_where_a_calendar_was_not_listed() {
    let mut run = EventRun::begin(vec![row("old", 1)]);
    assert_eq!(
        run.after_listing("cal", Err(GraphError::Auth("no".to_owned()))).unwrap_err(),
        "calendar cal stub fetch failed: authentication rejected: no"
    );
    assert_eq!(run.counts.failed, 1);
    assert!(run.finish().is_err());
}

#[test]
fn a_changed_occurrence_is_taken_once() {
    let mut seen = Vec::new();
    let first = vec![j(r#"{"id":"a"}"#), j("{}"), j(r#"{"id":"a"}"#)];
    assert_eq!(fresh_entries(&first, &mut seen), [0]);
    assert_eq!(fresh_entries(&vec![j(r#"{"id":"a"}"#), j(r#"{"id":"b"}"#)], &mut seen), [1]);
    assert_eq!(seen, ["a", "b"]);
}

fn node(text: &str, parent: &str) -> DriveNode {
    parse_node(&j(text), parent).expect("node")
}

#[test]
fn a_drive_is_stored_from_its_root_down() {
    let nodes = vec![
        node(r#"{"id":"in","name":"in","folder":{}}"#, "top"),
        node(r#"{"id":"top","name":"top","folder":{}}"#, "root"),
        node(r#"{"id":"f","name":"f.txt","file":{}}"#, "in"),
        node(r#"{"id":"k","name":"k.txt","file":{}}"#, "in"),
    ];
    let mut run = FilesRun::begin(&nodes, vec![row("k", 7), row("z", 8), row("y", 9)]);
    let first = run.next().unwrap();
    assert_eq!(run.folders[first.folder].graph_id, "top");
    assert_eq!((first.parent, first.existing), (None, None));
    run.after(1);
    let second = run.next().unwrap();
    assert_eq!(run.folders[second.folder].graph_id, "in");
    assert_eq!(second.parent, Some(1));
    run.after(2);
    assert!(run.next().is_none());
    let wanted = run.wanted();
    assert_eq!(wanted.len(), 1);
    assert!(matches!(run.after_download(&wanted[0], Ok(())), Download::Insert(Some(2))));
    assert!(matches!(run.after_download(&wanted[0], Err(GraphError::Vanished)), Download::Skip));
    match run.after_download(&wanted[0], Err(GraphError::Transport("cut".to_owned()))) {
        Download::Warn(w) => {
            assert_eq!(w, "graph drive item f download failed: transport failure: cut")
        }
        other => panic!("{other:?}"),
    }
    assert_eq!(
        run.counts,
        TypeCounts { created: 3, fetched: 1, skipped: 1, failed: 1, ..TypeCounts::default() }
    );
    let rows = vec![NodeRow { id: 8, parent: None }, NodeRow { id: 9, parent: Some(8) }];
    let gone: Vec<i64> = run.finish(&rows).iter().map(|r| r.local_id).collect();
    assert_eq!(gone, [9, 8]);
}

#[test]
fn graph_statuses_are_classified() {
    assert_eq!(classify_http_status(200), HttpClass::Success);
    assert_eq!(classify_http_status(404), HttpClass::Vanished);
    assert_eq!(classify_http_status(401), HttpClass::Auth);
    assert_eq!(classify_http_status(429), HttpClass::Retryable);
    assert_eq!(classify_http_status(400), HttpClass::Fatal);
    assert!(is_throttled(503));
    assert!(!is_throttled(500));
}

#[test]
fn graph_errors_say_what_they_are() {
    assert_eq!(GraphError::Connect("x".to_owned()).message(), "connection failure: x");
    assert_eq!(
        GraphError::HttpStatus { status: 418, body: "b".to_owned() }.message(),
        "http status 418: b"
    );
    assert_eq!(GraphError::RetriesExhausted("x".to_owned()).message(), "retries exhausted: x");
    assert_eq!(GraphError::Malformed("x".to_owned()).message(), "malformed graph response: x");
    assert_eq!(fault_error(Fault::HostNotFound).message(), "transport failure: host not found");
    assert_eq!(
        fault_error(Fault::TooManyRedirects).message(),
        "connection failure: too many redirects"
    );
}

fn answer(status: u16, retry_after: Option<Delay>) -> Attempt {
    Attempt::Answer { status, body: b"no".to_vec(), retry_after, content_type: None }
}

#[test]
fn a_graph_request_is_tried_again_as_often_as_allowed() {
    let mut client = GraphClient::new("t".to_owned(), RetryPolicy::new(1), false);
    let mut rng = Jitter { state: 1 };
    let mut attempt: u32 = 0;
    match client.after_attempt("GET", "u", &mut attempt, answer(503, Some(Delay::from_secs(2))), 0, &mut rng) {
        Next::Wait { delay, .. } => assert_eq!(delay, Delay::from_secs(2)),
        other => panic!("{other:?}"),
    }
    assert_eq!(client.retry_after_sleeps(), 1);
    match client.after_attempt("GET", "u", &mut attempt, answer(500, None), 0, &mut rng) {
        Next::Fail(e) => assert_eq!(e.message(), "retries exhausted: GET u kept returning http 500"),
        other => panic!("{other:?}"),
    }
    assert_eq!(client.retries_observed(), 2);
    match client.after_attempt("GET", "u", &mut attempt, answer(403, None), 0, &mut rng) {
        Next::Fail(e) => {
            assert_eq!(e.message(), "authentication rejected: server returned 403: no")
        }
        other => panic!("{other:?}"),
    }
    match client.after_attempt("GET", "u", &mut attempt, answer(200, None), 0, &mut rng) {
        Next::Done(r) => assert_eq!(r.as_str().unwrap(), "no"),
        other => panic!("{other:?}"),
    }
    assert_eq!(client.rate_limit().level(), 0);
}

#[test]
fn graph_is_only_read() {
    let mut client = GraphClient::new("t".to_owned(), RetryPolicy::new(1), false);
    let sent = client.request("GET", "https://h/x", Accept::Json, &vec!["p"]).expect("request");
    assert_eq!(sent.authorization, "Bearer t");
    assert_eq!(sent.prefer, ["IdType=\"ImmutableId\"", "p"]);
    assert_eq!(
        client.request("POST", "https://h/x", Accept::Json, &vec![]).unwrap_err().message(),
        "connection failure: unsupported method POST (graph importer is read-only)"
    );
    assert_eq!(client.requests_observed(), 2);
}

#[test]
fn a_redirection_to_another_host_is_warned_about() {
    let asked = "https://graph.microsoft.com/v1.0/me";
    assert_eq!(warn_on_redirect("GET", asked, "https://graph.microsoft.com/other"), None);
    let told = warn_on_redirect("GET", asked, "https://evil.example/me").expect("warning");
    assert!(told.starts_with("GET https://graph.microsoft.com/v1.0/me was redirected across hosts to evil.example"));
    assert_eq!(
        warn_on_redirect("GET", "https://graph.microsoft.com/i/content", "https://cdn.example/i"),
        None
    );
}

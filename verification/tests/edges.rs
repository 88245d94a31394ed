use vandelay::dav::discover::DiscoveryError;
use vandelay::delay::Delay;
use vandelay::error::Error;
use vandelay::exchange_graph::types::MailboxKind;
use vandelay::imap::error::ImapError;
use vandelay::jmap::blob::prepend_property;
use vandelay::jmap::connect::unlisted_warning;
use vandelay::jmap::http::{retry_after_header, Auth, HttpClient, RetryPolicy};
use vandelay::jmap::session::parse_session;
use vandelay::jmap::wire::{bool_or_true, lenient_utc_date};
use vandelay::json;
use vandelay::json::Json;
use vandelay::sync::import_dav::{
    file_outcome, map_discovery_error, DavAuth, DavKindArg, ItemRun, StoredCollection,
};
use vandelay::sync::import_exchange_graph::calendar::{occurrence_starts, wants_attachments};
use vandelay::sync::import_exchange_graph::coordinator::{
    archive_warning, default_api_base, user_id, AfterRenewal, GraphAuth, Renewed, TokenRun,
};
use vandelay::sync::import_exchange_graph::folders::{begin_books, plan_address_book};
use vandelay::sync::import_imap::pool::{name_after_refusal, setup, Setup};
use vandelay::sync::TypeCounts;

fn j(text: &str) -> Json {
    json::parse(text.as_bytes()).expect("JSON")
}

#[test]
fn a_member_is_put_first_and_stands_once() {
    let members = match j(r#"{"a":1,"b":2,"c":3}"#) {
        Json::Object(m) => m,
        other => panic!("{other:?}"),
    };
    let moved = prepend_property(members, "b", Json::Bool(true));
    assert_eq!(json::write(&Json::Object(moved)), r#"{"b":true,"a":1,"c":3}"#);
}

#[test]
fn an_account_that_is_not_listed_is_warned_about() {
    let s = parse_session(
        r#"{"apiUrl":"https://x/a","uploadUrl":"https://x/u","downloadUrl":"https://x/d",
            "capabilities":{},"accounts":{"w":{"name":"n","accountCapabilities":{}}}}"#,
    )
    .expect("session");
    assert_eq!(unlisted_warning(&s, "w", false), None);
    assert_eq!(unlisted_warning(&s, "z", true), None);
    assert!(unlisted_warning(&s, "z", false)
        .unwrap()
        .starts_with("account id z is not enumerated in this session;"));
}

#[test]
fn a_server_says_how_long_to_wait() {
    assert_eq!(retry_after_header("120", 0), Some(Delay::from_secs(120)));
    assert_eq!(
        retry_after_header("Sun, 06 Nov 1994 08:49:37 GMT", 784_111_767_000_000_000),
        Some(Delay::from_secs(10))
    );
    assert_eq!(retry_after_header("soon", 0), None);
}

#[test]
fn a_request_with_a_body_is_json() {
    let auth = Auth::Bearer { token: "t".to_owned() };
    let client = HttpClient::new(auth, RetryPolicy::new(1), false);
    let request = client.post_json("https://x/a", b"{}".to_vec());
    assert_eq!(request.method, "POST");
    assert_eq!(request.authorization, "Bearer t");
    assert_eq!(request.content_type.as_deref(), Some("application/json"));
    assert_eq!(request.body.as_deref(), Some(&b"{}"[..]));
    assert!(!request.is_upload);
}

#[test]
fn dav_logs_in_by_name_or_token() {
    let basic = DavAuth::Basic { user: "u".to_owned(), password: "p".to_owned() };
    assert_eq!(basic.username(), "u");
    assert_eq!(basic.to_jmap_auth().header_value().as_deref(), Some("Basic dTpw"));
    let bearer = DavAuth::Bearer { token: "t".to_owned() };
    assert_eq!(bearer.username(), "(bearer)");
    assert_eq!(bearer.to_jmap_auth().header_value().as_deref(), Some("Bearer t"));
}

#[test]
fn a_malformed_listing_ends_a_search() {
    let e = map_discovery_error(DiscoveryError::Parse("odd".to_owned()));
    assert!(matches!(e, Error::Connection(m) if m == "DAV discovery: malformed multistatus: odd"));
    let e = map_discovery_error(DiscoveryError::Href("odd".to_owned()));
    assert!(matches!(e, Error::Connection(m) if m == "DAV discovery: bad href: odd"));
}

fn collection(href: &str, local_id: i64) -> StoredCollection {
    StoredCollection { href: href.to_owned(), local_id }
}

#[test]
fn collections_are_read_one_after_the_other() {
    let made = TypeCounts { created: 2, ..TypeCounts::default() };
    let stored = Ok(vec![collection("/a/", 1), collection("/b/", 2)]);
    let mut run = ItemRun::begin(DavKindArg::Carddav, made, stored);
    assert_eq!(run.next().unwrap().href, "/a/");
    let items = TypeCounts { created: 5, ..TypeCounts::default() };
    assert_eq!(run.after(items, Ok(())), None);
    assert_eq!(run.next().unwrap().local_id, 2);
    assert_eq!(
        run.after(items, Err(Error::Partial("odd".to_owned()))).as_deref(),
        Some("addressbook \"/b/\": items failed: partial failure: odd")
    );
    assert!(run.next().is_none());
    let outcome = run.finish();
    assert!(outcome.error.is_none());
    assert_eq!(outcome.summary.per_type[0], ("addressbook", made));
    assert_eq!(outcome.summary.per_type[1].0, "contactcard");
    assert_eq!(outcome.summary.per_type[1].1.failed, 1);
}

#[test]
fn collections_that_cannot_be_stored_have_no_items() {
    let failed = Err(Error::Db("full".to_owned()));
    let run = ItemRun::begin(DavKindArg::Caldav, TypeCounts::default(), failed);
    assert!(run.next().is_none());
    assert!(run.finish().error.is_some());
    let stored = Ok(vec![collection("/a/", 1), collection("/b/", 2)]);
    let mut run = ItemRun::begin(DavKindArg::Caldav, TypeCounts::default(), stored);
    assert_eq!(run.after(TypeCounts::default(), Err(Error::Db("full".to_owned()))), None);
    assert!(run.next().is_none());
    assert!(matches!(run.finish().error, Some(Error::Db(_))));
}

#[test]
fn files_are_reported_alone() {
    let outcome = file_outcome(TypeCounts { created: 1, ..TypeCounts::default() }, None);
    assert_eq!(outcome.summary.per_type.len(), 1);
    assert_eq!(outcome.summary.per_type[0].0, "filenode");
}

#[test]
fn attachments_are_asked_for_where_there_are_some() {
    assert!(wants_attachments(&j(r#"{"hasAttachments":true}"#), true));
    assert!(!wants_attachments(&j(r#"{"hasAttachments":true}"#), false));
    assert!(!wants_attachments(&j("{}"), true));
}

#[test]
fn occurrences_belong_to_their_series() {
    let list = vec![
        j(r#"{"seriesMasterId":"m","start":{"dateTime":"2026-01-01T10:00:00"}}"#),
        j(r#"{"seriesMasterId":"n","start":{"dateTime":"2026-01-02T10:00:00"}}"#),
        j(r#"{"seriesMasterId":"m"}"#),
    ];
    assert_eq!(occurrence_starts(&list, "m"), ["2026-01-01T10:00:00"]);
}

#[test]
fn the_graph_user_needs_an_id() {
    assert_eq!(user_id(&j(r#"{"id":"u"}"#)).unwrap(), "u");
    assert_eq!(
        user_id(&j("{}")).unwrap_err().message(),
        "malformed graph response: user resolution missing id"
    );
    assert_eq!(default_api_base(), "https://graph.microsoft.com/v1.0");
    assert!(archive_warning(MailboxKind::Archive).is_some());
    assert!(archive_warning(MailboxKind::Primary).is_none());
}

#[test]
fn the_default_address_book_comes_first() {
    let listing = vec![j(r#"{"id":"A"}"#)];
    let (mut walk, default) = begin_books(listing, Some(j(r#"{"id":"D"}"#)));
    assert_eq!(default.as_deref(), Some("D"));
    assert_eq!(walk.all[0].text_at("id"), Some("D"));
    assert_eq!(walk.next().as_deref(), Some("D"));
    assert_eq!(walk.next().as_deref(), Some("A"));
    assert_eq!(walk.next(), None);
    let plan = plan_address_book(&j(r#"{"id":"D"}"#), Some("D"), &vec![]).expect("plan");
    assert_eq!(plan.name, "Contacts");
    assert!(plan.claims_default);
    assert_eq!(plan.existing, None);
    assert!(plan_address_book(&j("{}"), None, &vec![]).is_none());
}

#[test]
fn a_token_is_kept_fresh() {
    let device =
        GraphAuth::DeviceCode { authority: "a".to_owned(), client_id: "c".to_owned() };
    let given = GraphAuth::PreAcquired { token: "t".to_owned() };
    let refresh = || Some("r".to_owned());
    assert!(TokenRun::begin(&given, refresh(), Some(100), None, 0).is_none());
    assert!(TokenRun::begin(&device, None, Some(100), None, 0).is_none());
    assert!(TokenRun::begin(&device, refresh(), None, None, 0).is_none());
    let mut run = TokenRun::begin(&device, refresh(), Some(100), None, 1000).expect("run");
    assert_eq!(run.deadline, 1100);
    assert_eq!(run.wait(1000), 40);
    match run.after(Err("off".to_owned()), 1100) {
        AfterRenewal::Wait { secs, warning } => {
            assert_eq!(secs, 60);
            assert_eq!(warning, "graph token refresh failed: off; sleeping 60s before retry");
        }
        other => panic!("{other:?}"),
    }
    let renewed = Renewed {
        access_token: "n".to_owned(),
        refresh_token: None,
        expires_in: None,
        expires_at: Some(1000),
    };
    assert!(matches!(run.after(Ok(renewed), 1100), AfterRenewal::Bear(t) if t == "n"));
    assert_eq!(run.refresh_token, "r");
    assert_eq!(run.deadline, 4100);
}

#[test]
fn a_refused_folder_is_tried_by_its_other_name() {
    let no = ImapError::No("nonexistent".to_owned());
    assert_eq!(
        name_after_refusal(&no, "Entw\u{fc}rfe", true).as_deref(),
        Some("Entw&APw-rfe")
    );
    assert_eq!(name_after_refusal(&no, "INBOX", true), None);
    let cut = ImapError::Transport("cut".to_owned());
    assert_eq!(name_after_refusal(&cut, "Entw\u{fc}rfe", true), None);
}

#[test]
fn a_connection_is_set_up_by_what_the_server_can_do() {
    let can = |list: &[&str]| list.iter().map(|t| t.to_string()).collect::<Vec<String>>();
    assert_eq!(
        setup(true, &can(&["IMAP4rev1", "compress=deflate", "ENABLE", "UTF8=ACCEPT"])),
        Setup { compress: true, enable_utf8: true }
    );
    assert_eq!(
        setup(false, &can(&["COMPRESS=DEFLATE", "UTF8=ACCEPT"])),
        Setup { compress: false, enable_utf8: false }
    );
}

#[test]
fn values_that_a_server_leaves_out_have_a_meaning() {
    assert_eq!(bool_or_true(&j("null")), Some(true));
    assert_eq!(bool_or_true(&j("false")), Some(false));
    assert_eq!(bool_or_true(&j("1")), None);
    assert_eq!(lenient_utc_date(&j("null")), Some(None));
    assert_eq!(lenient_utc_date(&j("\"not a date\"")), Some(None));
    let moment = lenient_utc_date(&j("\"1970-01-01 00:00:10\"")).unwrap().unwrap();
    assert_eq!((moment.secs, moment.nanos, moment.offset), (10, 0, 0));
    assert_eq!(lenient_utc_date(&j("1")), None);
}

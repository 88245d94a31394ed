use vandelay::dav::discover::{DavResponse, Discovery, DiscoveryError, ResourceProps};
use vandelay::error::Error;
use vandelay::jmap::error::{per_collection_failure, JmapError};
use vandelay::sync::import_dav::{
    count_items, enforce_tls_policy, finish, map_discovery_error, normalise_account_url,
    normalise_base_url, source_change, source_key, DavAuth, DavImportConfig, DavKindArg, DryDiff,
    PhaseCounts,
};
use vandelay::sync::{
    refuse_other_source, report_line, table_name, RunOutcome, Summary, TypeCounts,
};
use vandelay::types::ObjectType;

#[test]
fn a_forbidden_collection_is_a_per_unit_failure() {
    for e in [
        JmapError::Auth("server returned 403: forbidden".to_owned()),
        JmapError::HttpStatus {
            status: 405,
            body: "method not allowed".to_owned(),
        },
        JmapError::RetriesExhausted("PROPFIND kept returning 503".to_owned()),
        JmapError::Transport("io: connection reset".to_owned()),
        JmapError::Malformed("multistatus parse".to_owned()),
    ] {
        let mapped = per_collection_failure(e);
        assert!(
            !mapped.aborts_run(),
            "{} is scoped to one collection and must not abort the run",
                mapped.message()
        );
        assert_eq!(mapped.exit_code(), 5);
    }
}

#[test]
fn an_archive_failure_still_aborts() {
    let mapped =
        per_collection_failure(JmapError::Sqlite("Query returned no rows".to_owned()));
    assert!(mapped.aborts_run());
    assert_eq!(mapped.exit_code(), 7);
}

#[test]
fn https_url_is_accepted_without_allow_cleartext() {
    assert!(enforce_tls_policy("https://x/", false).is_ok());
}

#[test]
fn http_url_requires_allow_cleartext() {
    let err = enforce_tls_policy("http://x/", false).unwrap_err();
    assert!(matches!(err, Error::Connection(_)));
    assert!(enforce_tls_policy("http://x/", true).is_ok());
}

#[test]
fn ftp_url_rejected_as_usage() {
    let err = enforce_tls_policy("ftp://x/", false).unwrap_err();
    assert!(matches!(err, Error::Usage(_)));
}

#[test]
fn normalise_base_url_strips_path() {
    assert_eq!(
        normalise_base_url("https://dav.example.com/cal/"),
        "https://dav.example.com"
    );
}

#[test]
fn normalise_base_url_keeps_explicit_port() {
    assert_eq!(
        normalise_base_url("https://dav.example.com:8443/cal/"),
        "https://dav.example.com:8443"
    );
}

#[test]
fn an_aborted_run_keeps_its_error_and_its_partial_counts() {
    let mut summary = Summary::default();
    summary.per_type.push(("Mailbox", TypeCounts::default()));
    let outcome = RunOutcome {
        summary,
        error: Some(Error::Connection("http status 404".to_owned())),
    };
    assert_eq!(outcome.summary.per_type.len(), 1);
    let err = outcome.into_result().expect_err("aborted");
    assert_eq!(err.exit_code(), 2);
}

#[test]
fn a_result_without_a_native_outcome_reports_nothing_on_abort() {
    let outcome = RunOutcome::from_result(Err(Error::Partial("one object".to_owned())));
    assert!(outcome.summary.per_type.is_empty());
    assert!(outcome.error.is_some());
}

fn response(href: &str, is_collection: bool) -> DavResponse {
    DavResponse {
        href: href.to_owned(),
        props: ResourceProps { is_collection, ..Default::default() },
    }
}

#[test]
fn items_are_counted_without_collections() {
    let rs = vec![response("/c/", true), response("/c/a.ics", false), response("/c/b.ics", false)];
    assert_eq!(count_items(&rs), 2);
}

#[test]
fn a_dry_run_counts_what_it_lists_and_goes_on_after_a_failure() {
    let mut dry = DryDiff::new(DavKindArg::Caldav, 2);
    assert_eq!(DryDiff::listings(DavKindArg::Caldav, 2), 2);
    let w = dry.take("/c/a/", Ok(vec![response("/c/a/1.ics", false)])).unwrap();
    assert!(w.is_none());
    let refused = Err(JmapError::HttpStatus { status: 403, body: String::new() });
    let w = dry.take("/c/b/", refused).unwrap();
    assert!(w.unwrap().contains("/c/b/"));
    let mut summary = Summary::default();
    dry.report(&mut summary);
    assert_eq!(summary.per_type.len(), 2);
    assert!(summary.any_failed());
}

#[test]
fn a_failed_collection_does_not_end_a_run_and_a_failed_archive_does() {
    let mut counts = PhaseCounts::new();
    let w = counts
        .after_items(DavKindArg::Carddav, "/b/", Err(Error::Partial("x".to_owned())))
        .unwrap();
    assert!(w.is_some());
    let e = counts
        .after_items(DavKindArg::Carddav, "/b/", Err(Error::Db("locked".to_owned())))
        .unwrap_err();
    assert_eq!(e.exit_code(), 7);
    let (outcome, clean) = finish(counts.outcome(DavKindArg::Carddav, None), 3, 1);
    assert!(!clean);
    assert_eq!(outcome.summary.retries_observed, 3);
    assert_eq!(outcome.exit_code(), 5);
}

#[test]
fn a_dav_source_is_named_by_its_base_and_its_account() {
    let config = DavImportConfig {
        kind: DavKindArg::Caldav,
        url: "https://dav.example.com:8443/cal/".to_owned(),
        auth: DavAuth::Basic { user: "u".to_owned(), password: "p".to_owned() },
        allow_cleartext: false,
        dav_connections: 2,
        multiget_batch: 10,
        allow_source_change: false,
    };
    let discovery = Discovery {
        principal_url: Some("https://dav.example.com:8443/p/u/?x=1".to_owned()),
        home_set_url: "https://dav.example.com:8443/c/u/".to_owned(),
        collections: Vec::new(),
    };
    let key = source_key(&config, &discovery);
    assert_eq!(key.session_url, "https://dav.example.com:8443");
    assert!(!key.account_id.contains('?'), "{}", key.account_id);
    assert_eq!(
        normalise_account_url("https://dav.example.com:8443/p/u/?x=1"),
        key.account_id
    );
}

#[test]
fn another_source_is_refused_unless_allowed() {
    let known = || Some(("https://a".to_owned(), "me".to_owned()));
    let e = source_change(DavKindArg::Caldav, known(), false, false).unwrap_err();
    assert_eq!(e.exit_code(), 4);
    assert!(source_change(DavKindArg::Caldav, known(), true, false).is_ok());
    assert!(source_change(DavKindArg::Caldav, known(), false, true).is_ok());
    assert!(source_change(DavKindArg::Caldav, None, false, false).is_ok());
    let e = refuse_other_source("maildir", known(), false).unwrap_err();
    assert_eq!(
        e.message(),
        "source-change protection: archive already records maildir source https://a / me; \
         re-run with --allow-source-change or use a fresh archive"
    );
}

#[test]
fn a_search_without_result_is_a_wrong_url() {
    let e = map_discovery_error(DiscoveryError::NotFound { url: "https://x/".to_owned() });
    assert_eq!(e.exit_code(), 1);
    let e = map_discovery_error(DiscoveryError::Transport(JmapError::Connect("x".to_owned())));
    assert_eq!(e.exit_code(), 2);
}

#[test]
fn a_run_exits_by_its_error_or_its_failures() {
    let mut summary = Summary::default();
    summary.per_type.push(("email", TypeCounts { failed: 1, ..TypeCounts::default() }));
    assert_eq!(RunOutcome { summary, error: None }.exit_code(), 5);
    assert_eq!(RunOutcome { summary: Summary::default(), error: None }.exit_code(), 0);
    let e = Some(Error::PruneAborted);
    assert_eq!(RunOutcome { summary: Summary::default(), error: e }.exit_code(), 6);
    assert_eq!(
        report_line("email", &TypeCounts { created: 2, ..TypeCounts::default() }),
        "email: created=2 fetched=0 updated=0 deleted=0 skipped=0 failed=0"
    );
    assert_eq!(table_name(ObjectType::Email), "emails");
}

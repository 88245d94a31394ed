use vandelay::error::Error;
use vandelay::jmap::connect::prepare;
use vandelay::jmap::error::JmapError;
use vandelay::jmap::session::{
    origin_of, parse_session, resolve_reference, well_known_url, Session,
};
use vandelay::types::ObjectType;

fn raw_session() -> &'static str {
    r#"{
        "apiUrl": "https://example.org/jmap/api",
        "uploadUrl": "https://example.org/jmap/upload/{accountId}/",
        "downloadUrl": "https://example.org/jmap/download/{accountId}/{blobId}/{type}/{name}",
        "capabilities": {
            "urn:ietf:params:jmap:core": {
                "maxObjectsInGet": 500,
                "maxObjectsInSet": 500,
                "maxCallsInRequest": 16,
                "maxConcurrentRequests": 4,
                "maxConcurrentUpload": 4,
                "maxSizeRequest": 10000000,
                "maxSizeUpload": 50000000
            }
        },
        "accounts": {
            "w": {
                "name": "vspec-user@example.org",
                "accountCapabilities": { "urn:ietf:params:jmap:mail": {} }
            }
        }
    }"#
}

#[test]
fn parses_a_session_and_reads_limits() {
    let session = parse_session(raw_session()).unwrap();
    let limits = session.core_limits().unwrap();
    assert_eq!(limits.max_objects_in_get, 500);
    assert_eq!(limits.max_size_upload, 50000000);
    assert_eq!(session.account("w").unwrap().name, "vspec-user@example.org");
}

#[test]
fn capability_gate_reads_account_capabilities() {
    let session = parse_session(raw_session()).unwrap();
    assert!(session.supports("w", "urn:ietf:params:jmap:mail"));
    assert!(!session.supports("w", "urn:ietf:params:jmap:filenode"));
    assert!(!session.supports("missing", "urn:ietf:params:jmap:mail"));
}

#[test]
fn templates_upload_and_download_urls_with_encoding() {
    let session = parse_session(raw_session()).unwrap();
    assert_eq!(
        session.upload_url_for("a c"),
        "https://example.org/jmap/upload/a%20c/"
    );
    assert_eq!(
        session.download_url_for("w", "G1/2", "application/sieve", "my script"),
        "https://example.org/jmap/download/w/G1%2F2/application%2Fsieve/my%20script"
    );
}

#[test]
fn rejects_body_that_is_not_a_session() {
    assert!(parse_session("{\"hello\":true}").is_none());
    assert!(parse_session("not json").is_none());
}

#[test]
fn anonymous_session_is_auth_failure() {
    let raw =
        r#"{"apiUrl":"x","uploadUrl":"u","downloadUrl":"d","capabilities":{},"accounts":{}}"#;
    let session = parse_session(raw).unwrap();
    assert!(matches!(
        session.ensure_authenticated(),
        Err(JmapError::Auth(_))
    ));
}

#[test]
fn origin_treats_the_default_port_as_equivalent() {
    assert_eq!(
        origin_of("https://mail.example/jmap"),
        origin_of("https://mail.example:443/jmap")
    );
    assert_eq!(
        origin_of("http://mail.example/jmap"),
        origin_of("http://mail.example:80/jmap")
    );
}

#[test]
fn origin_distinguishes_port_host_and_scheme() {
    let base = origin_of("https://mail.example:10443/jmap");
    assert_ne!(base, origin_of("https://mail.example/jmap"));
    assert_ne!(base, origin_of("https://other.example:10443/jmap"));
    assert_ne!(base, origin_of("http://mail.example:10443/jmap"));
}

fn session_on(base: &str) -> Session {
    let raw = format!(
        r#"{{"apiUrl":"{base}/jmap/","uploadUrl":"{base}/jmap/upload/{{accountId}}/",
            "downloadUrl":"{base}/jmap/dl/{{accountId}}/{{blobId}}/{{type}}/{{name}}",
            "capabilities":{{}},"accounts":{{}}}}"#
    );
    parse_session(&raw).expect("session")
}

#[test]
fn matching_origin_reports_no_mismatch() {
    let session = session_on("https://mail.example:10443");
    assert!(
        session
            .origin_mismatches("https://mail.example:10443")
            .is_empty()
    );
    assert!(
        session_on("https://mail.example")
            .origin_mismatches("https://mail.example:443/")
            .is_empty()
    );
}

#[test]
fn dropped_port_is_reported_once_naming_every_field() {
    let session = session_on("https://mail.example");
    let mismatches = session.origin_mismatches("https://mail.example:10443");
    assert_eq!(mismatches.len(), 1, "one warning per distinct origin");
    assert_eq!(
        mismatches[0].fields,
        vec!["apiUrl", "uploadUrl", "downloadUrl"]
    );
    assert_eq!(mismatches[0].session_origin, "https://mail.example");
    assert_eq!(mismatches[0].connect_origin, "https://mail.example:10443");
    let warning = mismatches[0].message();
    assert!(warning.contains("session advertises apiUrl"), "{warning}");
    assert!(
        warning.contains("on https://mail.example (connected to https://mail.example:10443)"),
        "{warning}"
    );
    assert!(warning.contains("advertised HTTP URL setting"), "{warning}");
}

#[test]
fn a_split_upload_host_is_reported_separately_from_the_api_host() {
    let raw = r#"{"apiUrl":"https://mail.example:10443/jmap/",
        "uploadUrl":"https://blobs.example/upload/{accountId}/",
        "downloadUrl":"https://blobs.example/dl/{accountId}/{blobId}/{type}/{name}",
        "capabilities":{},"accounts":{}}"#;
    let session = parse_session(raw).expect("session");
    let mismatches = session.origin_mismatches("https://mail.example:10443");
    assert_eq!(mismatches.len(), 1);
    assert_eq!(mismatches[0].fields, vec!["uploadUrl", "downloadUrl"]);
    assert_eq!(mismatches[0].session_origin, "https://blobs.example");
}

#[test]
fn resolve_reference_keeps_absolute_urls_verbatim() {
    assert_eq!(
        resolve_reference(
            "https://h.example/.well-known/jmap",
            "https://other.example:8443/jmap/api"
        ),
        "https://other.example:8443/jmap/api"
    );
}

#[test]
fn resolve_reference_handles_scheme_relative_absolute_and_relative_paths() {
    let base = "https://h.example:10443/.well-known/jmap";
    assert_eq!(
        resolve_reference(base, "//other.example/jmap/api"),
        "https://other.example/jmap/api"
    );
    assert_eq!(
        resolve_reference(base, "/jmap/api"),
        "https://h.example:10443/jmap/api"
    );
    assert_eq!(
        resolve_reference(base, "api"),
        "https://h.example:10443/.well-known/api"
    );
}

#[test]
fn resolve_reference_preserves_uri_template_braces() {
    assert_eq!(
        resolve_reference(
            "https://h.example/.well-known/jmap",
            "/jmap/upload/{accountId}/"
        ),
        "https://h.example/jmap/upload/{accountId}/"
    );
}

#[test]
fn relative_session_urls_are_resolved_against_the_session_resource() {
    let raw = r#"{"apiUrl":"/jmap/","uploadUrl":"/jmap/upload/{accountId}/",
        "downloadUrl":"/jmap/download/{accountId}/{blobId}/{type}/{name}",
        "capabilities":{},"accounts":{}}"#;
    let session = parse_session(raw)
        .expect("session")
        .rebased_on("https://h.example:10443/.well-known/jmap");
    assert_eq!(session.api_url, "https://h.example:10443/jmap/");
    assert_eq!(
        session.upload_url_for("w"),
        "https://h.example:10443/jmap/upload/w/"
    );
    assert!(
        session
            .origin_mismatches("https://h.example:10443")
            .is_empty(),
        "a resolved relative URL shares the connect origin"
    );
}

#[test]
fn well_known_appends_correctly() {
    assert_eq!(
        well_known_url("https://h.example/"),
        "https://h.example/.well-known/jmap"
    );
    assert_eq!(
        well_known_url("https://h.example"),
        "https://h.example/.well-known/jmap"
    );
}

#[test]
fn a_session_without_a_core_capability_is_refused() {
    let raw = r#"{"apiUrl":"x","uploadUrl":"u","downloadUrl":"d","capabilities":{},"accounts":{}}"#;
    let e = parse_session(raw).unwrap().core_limits().unwrap_err();
    assert!(matches!(e, Error::Connection(_)));
}

#[test]
fn a_session_is_looked_for_at_its_well_known_place() {
    let body = raw_session().to_owned();
    let found = Session::discover_well_known("https://example.org/", Ok(body)).unwrap();
    assert_eq!(found.api_url, "https://example.org/jmap/api");
    let nothing = Err(JmapError::HttpStatus { status: 404, body: String::new() });
    assert!(Session::discover_well_known("https://example.org/", nothing).is_err());
    assert!(Session::discover_direct("https://example.org/", Ok("<html>".to_owned())).is_none());
}

#[test]
fn a_chosen_account_is_gated_by_its_capabilities() {
    let session = parse_session(raw_session()).unwrap();
    let limits = session.core_limits().unwrap();
    let (connected, warnings) = prepare(session, limits, "w".to_owned());
    assert!(connected.supports(ObjectType::Email));
    assert!(!connected.supports(ObjectType::Calendar));
    assert_eq!(
        connected.supported_types().len() + warnings.len(),
        ObjectType::all().len()
    );
    let session = parse_session(raw_session()).unwrap();
    let (anything, warnings) = prepare(session, limits, "other".to_owned());
    assert_eq!(anything.supported_types().len(), ObjectType::all().len());
    assert!(warnings.is_empty());
}

fn refused_core(core: &str) -> String {
    let raw = format!(
        r#"{{"apiUrl":"x","uploadUrl":"u","downloadUrl":"d",
            "capabilities":{{"urn:ietf:params:jmap:core":{core}}},"accounts":{{}}}}"#
    );
    match parse_session(&raw).unwrap().core_limits() {
        Err(Error::Connection(m)) => m,
        other => panic!("{other:?}"),
    }
}

#[test]
fn a_malformed_core_capability_is_told_by_its_first_fault() {
    assert_eq!(
        refused_core("{}"),
        "session core capability is malformed: missing field `maxObjectsInGet`"
    );
    assert_eq!(
        refused_core(r#"{"maxObjectsInGet":1,"maxCallsInRequest":1}"#),
        "session core capability is malformed: missing field `maxObjectsInSet`"
    );
    assert_eq!(
        refused_core(r#"{"other":null,"maxSizeUpload":"x","maxObjectsInGet":-1}"#),
        "session core capability is malformed: invalid type: string \"x\", expected u64"
    );
    assert_eq!(
        refused_core(r#"{"maxObjectsInGet":-1}"#),
        "session core capability is malformed: invalid value: integer `-1`, expected u64"
    );
    assert_eq!(
        refused_core("[1, 2, 3]"),
        "session core capability is malformed: invalid length 3, expected struct Limits with 7 elements"
    );
    assert_eq!(
        refused_core("[1, 2, 3, 4, 5, 6, 7, null]"),
        "session core capability is malformed: invalid length 8, expected fewer elements in array"
    );
    assert_eq!(
        refused_core("[1, null]"),
        "session core capability is malformed: invalid type: null, expected u64"
    );
    assert_eq!(
        refused_core("true"),
        "session core capability is malformed: invalid type: boolean `true`, expected struct Limits"
    );
    assert_eq!(
        refused_core("7"),
        "session core capability is malformed: invalid type: integer `7`, expected struct Limits"
    );
    assert_eq!(
        refused_core("1.5"),
        "session core capability is malformed: invalid type: floating point `1.5`, expected struct Limits"
    );
}

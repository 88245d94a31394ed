use vandelay::exchange_graph::client::{Accept, GraphClient};
use vandelay::exchange_graph::types::{
    synthetic_account_id, EventBodyFormat, MailboxKind, Surfaces,
};
use vandelay::jmap::http::RetryPolicy;

#[test]
fn defaults_construct() {
    let c = GraphClient::new("token".to_owned(), RetryPolicy::new(3), false);
    assert_eq!(c.retries_observed(), 0);
    assert_eq!(c.retry_after_sleeps(), 0);
    assert_eq!(c.requests_observed(), 0);
    assert_eq!(c.auth_header(), "Bearer token");
}

#[test]
fn bearer_can_be_swapped_at_runtime() {
    let mut c = GraphClient::new("old".to_owned(), RetryPolicy::new(0), false);
    c.set_bearer("new".to_owned());
    assert_eq!(c.auth_header(), "Bearer new");
}

#[test]
fn accept_header_values_are_what_the_spec_requires() {
    assert_eq!(Accept::Json.header_value(), "application/json");
    assert_eq!(Accept::Text.header_value(), "text/plain");
}

#[test]
fn parses_primary_and_archive() {
    assert_eq!(MailboxKind::parse("primary").unwrap(), MailboxKind::Primary);
    assert_eq!(MailboxKind::parse("archive").unwrap(), MailboxKind::Archive);
}

#[test]
fn public_folders_is_redirected_to_ews() {
    let err = MailboxKind::parse("public-folders").unwrap_err();
    let msg = err.message();
    assert!(msg.contains("public folders"));
    assert!(msg.contains("exchange-ews"));
}

#[test]
fn synthetic_id_matches_ews_pattern() {
    assert_eq!(
        synthetic_account_id("u-uuid", MailboxKind::Primary),
        "u-uuid"
    );
    assert_eq!(
        synthetic_account_id("u-uuid", MailboxKind::Archive),
        "u-uuid#archive"
    );
}

#[test]
fn surfaces_default_is_all_three() {
    let all = Surfaces::default();
    assert!(all.mail && all.calendar && all.contacts && all.files);
}

#[test]
fn surfaces_parse_each_name() {
    assert_eq!(
        Surfaces::parse_list("mail").unwrap(),
        Surfaces {
            mail: true,
            calendar: false,
            contacts: false,
            files: false
        }
    );
    assert_eq!(
        Surfaces::parse_list("calendar").unwrap(),
        Surfaces {
            mail: false,
            calendar: true,
            contacts: false,
            files: false
        }
    );
    assert_eq!(
        Surfaces::parse_list("contacts").unwrap(),
        Surfaces {
            mail: false,
            calendar: false,
            contacts: true,
            files: false
        }
    );
}

#[test]
fn surfaces_parse_is_case_insensitive() {
    assert_eq!(
        Surfaces::parse_list("Mail,CALENDAR,Contacts,Files").unwrap(),
        Surfaces::all()
    );
}

#[test]
fn surfaces_parse_dedups_and_trims() {
    assert_eq!(
        Surfaces::parse_list("  mail , contacts ,mail,, ").unwrap(),
        Surfaces {
            mail: true,
            calendar: false,
            contacts: true,
            files: false
        }
    );
}

#[test]
fn surfaces_parse_rejects_unknown_name() {
    let err = Surfaces::parse_list("mail,contact").unwrap_err();
    let msg = err.message();
    assert!(msg.contains("unknown surface: contact"), "msg was: {msg}");
    assert!(
        msg.contains("valid: mail, calendar, contacts"),
        "msg was: {msg}"
    );
}

#[test]
fn surfaces_parse_rejects_jmap_type_names() {
    assert!(Surfaces::parse_list("mailbox").is_err());
    assert!(Surfaces::parse_list("contactcard").is_err());
}

#[test]
fn surfaces_parse_rejects_empty_list() {
    let err = Surfaces::parse_list("  ,  ").unwrap_err();
    assert!(
        err.message().contains("empty surface list"),
        "msg was: {}",
        err.message()
    );
}

#[test]
fn body_format_prefer_value() {
    assert_eq!(
        EventBodyFormat::Text.prefer_value(),
        "outlook.body-content-type=\"text\""
    );
    assert_eq!(
        EventBodyFormat::Html.prefer_value(),
        "outlook.body-content-type=\"html\""
    );
}

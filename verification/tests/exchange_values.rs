use vandelay::exchange::address::{as_smtp_address, extract_smtp_address};
use vandelay::exchange::date::recurrence_until;

const EXCHANGE_DN: &str = "/o=ExchangeLabs/ou=Exchange Administrative Group \
     (FYDIBOHF23SPDLT)/cn=Recipients/cn=bdc77b18152647a29d28ce1188376dc9-kristina";

#[test]
fn plain_addresses_are_accepted() {
    assert_eq!(
        as_smtp_address("user@example.com").as_deref(),
        Some("user@example.com")
    );
    assert_eq!(
        as_smtp_address("  First.Last@sub.example.co.uk  ").as_deref(),
        Some("First.Last@sub.example.co.uk")
    );
}

#[test]
fn internal_only_tlds_are_kept_when_the_server_says_smtp() {
    assert_eq!(
        as_smtp_address("user@contoso.local").as_deref(),
        Some("user@contoso.local")
    );
    assert!(
        extract_smtp_address("user@contoso.local").is_none(),
        "an unknown suffix is not enough to override the routing type"
    );
}

#[test]
fn routing_prefixes_and_display_names_are_stripped() {
    assert_eq!(
        as_smtp_address("SMTP:user@example.com").as_deref(),
        Some("user@example.com")
    );
    assert_eq!(
        as_smtp_address("mailto:user@example.com").as_deref(),
        Some("user@example.com")
    );
    assert_eq!(
        as_smtp_address("Jane Doe <jane@example.com>").as_deref(),
        Some("jane@example.com")
    );
    assert_eq!(
        extract_smtp_address("SMTP:jane@example.com").as_deref(),
        Some("jane@example.com")
    );
}

#[test]
fn entra_guest_upns_are_accepted() {
    let guest = "bob_contoso.com#EXT#@fabrikam.onmicrosoft.com";
    assert_eq!(as_smtp_address(guest).as_deref(), Some(guest));
    assert_eq!(extract_smtp_address(guest).as_deref(), Some(guest));
}

#[test]
fn legacy_exchange_distinguished_names_are_rejected() {
    assert!(as_smtp_address(EXCHANGE_DN).is_none());
    assert!(extract_smtp_address(EXCHANGE_DN).is_none());
    assert!(
        as_smtp_address(
            "/O=HOSTING/OU=EXCHANGE ADMINISTRATIVE GROUP (FYDIBOHF23SPDLT)/CN=RECIPIENTS/CN=abc"
        )
        .is_none()
    );
}

#[test]
fn malformed_values_are_rejected() {
    for bad in [
        "",
        "   ",
        "no-at-sign",
        "@example.com",
        "user@",
        "user@@example.com",
        "two words@example.com",
        "user@-example.com",
        "user@example-.com",
        ".user@example.com",
        "user.@example.com",
        "us..er@example.com",
        "üser@example.com",
    ] {
        assert!(as_smtp_address(bad).is_none(), "must reject {bad:?}");
        assert!(extract_smtp_address(bad).is_none(), "must reject {bad:?}");
    }
}

#[test]
fn over_long_parts_are_rejected() {
    let long_local = format!("{}@example.com", "a".repeat(65));
    assert!(as_smtp_address(&long_local).is_none());
    let long_label = format!("user@{}.com", "a".repeat(64));
    assert!(as_smtp_address(&long_label).is_none());
}

#[test]
fn dotless_domains_are_kept_when_the_server_says_smtp() {
    assert_eq!(
        as_smtp_address("postmaster@localhost").as_deref(),
        Some("postmaster@localhost"),
        "RFC 5321 allows a bare domain and old on-prem setups use them"
    );
    assert!(extract_smtp_address("postmaster@localhost").is_none());
}

#[test]
fn public_suffix_is_required_only_by_the_strict_extractor() {
    assert!(extract_smtp_address("user@example.com").is_some());
    assert!(extract_smtp_address("user@example.co.uk").is_some());
    assert!(extract_smtp_address("user@example.invalidtld").is_none());
    assert!(as_smtp_address("user@example.invalidtld").is_some());
}

#[test]
fn bare_date_gets_end_of_day() {
    assert_eq!(
        recurrence_until("2026-08-01").as_deref(),
        Some("2026-08-01T23:59:59")
    );
}

#[test]
fn utc_designator_is_dropped() {
    assert_eq!(
        recurrence_until("2026-08-01Z").as_deref(),
        Some("2026-08-01T23:59:59")
    );
}

#[test]
fn numeric_offset_is_dropped_not_embedded() {
    assert_eq!(
        recurrence_until("2021-09-30-06:00").as_deref(),
        Some("2021-09-30T23:59:59")
    );
    assert_eq!(
        recurrence_until("2021-09-30+02:00").as_deref(),
        Some("2021-09-30T23:59:59")
    );
}

#[test]
fn date_time_keeps_its_clock_time() {
    assert_eq!(
        recurrence_until("2021-09-30T15:15:00").as_deref(),
        Some("2021-09-30T15:15:00")
    );
    assert_eq!(
        recurrence_until("2021-09-30T15:15:00Z").as_deref(),
        Some("2021-09-30T15:15:00")
    );
    assert_eq!(
        recurrence_until("2021-09-30T15:15:00-06:00").as_deref(),
        Some("2021-09-30T15:15:00")
    );
    assert_eq!(
        recurrence_until("2021-09-30T15:15:00.123Z").as_deref(),
        Some("2021-09-30T15:15:00")
    );
}

#[test]
fn short_clock_time_is_padded_to_seconds() {
    assert_eq!(
        recurrence_until("2021-09-30T15:15").as_deref(),
        Some("2021-09-30T15:15:00")
    );
}

#[test]
fn surrounding_whitespace_is_ignored() {
    assert_eq!(
        recurrence_until("  2026-08-01Z \n").as_deref(),
        Some("2026-08-01T23:59:59")
    );
}

#[test]
fn unusable_input_yields_none() {
    assert_eq!(recurrence_until(""), None);
    assert_eq!(recurrence_until("not-a-date"), None);
    assert_eq!(recurrence_until("2026-8-1"), None);
}


#[test]
fn an_address_reads_as_itself() {
    for raw in ["  Jane <mailto:jane.doe@example.com> ", "SMTP:a-b_c@x.test", "o'neil@x.test"] {
        let a = as_smtp_address(raw).unwrap();
        assert!(raw.contains(&a));
        assert_eq!(as_smtp_address(&a), Some(a));
    }
}

#[test]
fn an_end_reads_as_itself() {
    for raw in ["2026-08-01", " 2026-08-01T09:30Z ", "2026-08-01t09:30:15.25+02:00"] {
        let u = recurrence_until(raw).unwrap();
        assert_eq!(u.len(), 19);
        assert_eq!(recurrence_until(&u), Some(u));
    }
}

use vandelay::imap::error::ImapError;
use vandelay::imap::name::{
    alternate_mailbox_name, canonicalise_inbox, decode_mailbox_name, decode_mailbox_name_with,
    encode_mailbox_name, encode_mailbox_name_with,
};

#[test]
fn ascii_passes_through_decode() {
    assert_eq!(decode_mailbox_name("INBOX").unwrap(), "INBOX");
    assert_eq!(decode_mailbox_name("Sent/Items").unwrap(), "Sent/Items");
}

#[test]
fn ampersand_dash_decodes_to_literal_amp() {
    assert_eq!(decode_mailbox_name("R&-D").unwrap(), "R&D");
    assert_eq!(decode_mailbox_name("&-").unwrap(), "&");
}

#[test]
fn non_ascii_decode_japanese() {
    let decoded = decode_mailbox_name("~peter/mail/&ZeVnLIqe-/&U,BTFw-").unwrap();
    assert_eq!(decoded, "~peter/mail/日本語/台北");
}

#[test]
fn unterminated_sequence_errors() {
    let err = decode_mailbox_name("&ZeVnLIqe").unwrap_err();
    assert!(matches!(err, ImapError::Parse(_)));
}

#[test]
fn ascii_passes_through_encode() {
    assert_eq!(encode_mailbox_name("INBOX"), "INBOX");
    assert_eq!(encode_mailbox_name("Sent Items"), "Sent Items");
}

#[test]
fn literal_amp_encodes_to_amp_dash() {
    assert_eq!(encode_mailbox_name("R&D"), "R&-D");
    assert_eq!(encode_mailbox_name("&"), "&-");
}

#[test]
fn non_ascii_encode_japanese() {
    let encoded = encode_mailbox_name("~peter/mail/日本語/台北");
    assert_eq!(encoded, "~peter/mail/&ZeVnLIqe-/&U,BTFw-");
}

#[test]
fn encode_decode_roundtrip_various() {
    for s in [
        "INBOX",
        "Sent Mail",
        "R&D",
        "日本語",
        "Hé llo",
        "INBOX.Projects.Alpha",
        "Junk E-mail",
    ] {
        let enc = encode_mailbox_name(s);
        let dec = decode_mailbox_name(&enc).unwrap();
        assert_eq!(dec, s, "roundtrip failed for {s:?}, enc={enc:?}");
    }
}

#[test]
fn inbox_canonical_uppercase() {
    assert_eq!(canonicalise_inbox("inbox"), "INBOX");
    assert_eq!(canonicalise_inbox("Inbox"), "INBOX");
    assert_eq!(canonicalise_inbox("INBOX"), "INBOX");
    assert_eq!(canonicalise_inbox("Inbox/Sub"), "Inbox/Sub");
}

#[test]
fn raw_utf8_name_survives_mutf7_decode_untouched() {
    assert_eq!(decode_mailbox_name("Envoyés").unwrap(), "Envoyés");
    assert_eq!(
        decode_mailbox_name("L/Le Vent Se Lève").unwrap(),
        "L/Le Vent Se Lève"
    );
    assert_eq!(decode_mailbox_name("R&-D é").unwrap(), "R&D é");
}

#[test]
fn raw_utf8_name_round_trips_through_encode() {
    for s in ["Envoyés", "Gönderilmiş Postalar", "Çöp kutusu"] {
        assert_eq!(decode_mailbox_name(&encode_mailbox_name(s)).unwrap(), s);
        assert_eq!(decode_mailbox_name(s).unwrap(), s);
    }
}

#[test]
fn alternate_encoding_offered_only_for_non_ascii_names() {
    assert_eq!(
        alternate_mailbox_name("Envoyés", false).as_deref(),
        Some("Envoyés")
    );
    assert_eq!(
        alternate_mailbox_name("Envoyés", true).as_deref(),
        Some("Envoy&AOk-s")
    );
    assert_eq!(alternate_mailbox_name("INBOX", false), None);
    assert_eq!(alternate_mailbox_name("Sent Items", true), None);
}

#[test]
fn utf8_accept_skips_mutf7_decode_so_ampersand_passes_through() {
    assert_eq!(decode_mailbox_name_with("R&D", true).unwrap(), "R&D");
    assert_eq!(decode_mailbox_name_with("日本語", true).unwrap(), "日本語");
}

#[test]
fn utf8_accept_skips_mutf7_encode_so_input_passes_through() {
    assert_eq!(encode_mailbox_name_with("日本語", true), "日本語");
    assert_eq!(encode_mailbox_name_with("R&D", true), "R&D");
}

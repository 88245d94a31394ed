use base64::Engine;
use serde_json::Value;
use vandelay::error::Error;
use vandelay::jmap::blob::{
    import_blob_ids, inline_blob_data_uris, BlobStore, BlobTable, BlobWalkError, InlineShape,
    SENTINEL_KEY,
};
use vandelay::jmap::error::JmapError;
use vandelay::json;
use vandelay::json::Json;

const DEFAULT_MEDIA_TYPE: &str = "application/octet-stream";

fn j(text: &str) -> Json {
    json::parse(text.as_bytes()).expect("JSON")
}

fn as_value(v: &Json) -> Value {
    serde_json::from_str(&json::write(v)).expect("JSON")
}

fn fetch_ok() -> BlobStore {
    BlobStore {
        entries: (1..10).map(|n: i64| (n, format!("bytes-{n}").into_bytes())).collect(),
    }
}

fn inline(value: &Json, shape: InlineShape, blobs: &BlobStore) -> Value {
    as_value(&inline_blob_data_uris(value, shape, blobs).unwrap())
}

fn decode(uri: &str, expect_media_type: &str) -> Vec<u8> {
    assert_well_formed(uri);
    let prefix = format!("data:{expect_media_type};base64,");
    let payload = uri
        .strip_prefix(&prefix)
        .unwrap_or_else(|| panic!("{uri} does not start with {prefix}"));
    base64::engine::general_purpose::STANDARD.decode(payload).expect("base64 payload")
}

fn assert_well_formed(uri: &str) {
    let rest = uri
        .strip_prefix("data:")
        .unwrap_or_else(|| panic!("{uri} is not a data URI"));
    let (media_type, payload) = rest
        .split_once(";base64,")
        .unwrap_or_else(|| panic!("{uri} carries no ;base64, separator"));
    let bytes = media_type.as_bytes();
    let mut i = 0;
    while i < bytes.len() {
        let b = bytes[i];
        if b == b'%' {
            assert!(
                i + 2 < bytes.len()
                    && bytes[i + 1].is_ascii_hexdigit()
                    && bytes[i + 2].is_ascii_hexdigit(),
                "truncated percent escape in {uri}"
            );
            i += 3;
            continue;
        }
        assert!(
            b.is_ascii_alphanumeric() || b"-._~/+=;!$&'()*:@".contains(&b),
            "byte {b:#04x} is not allowed unescaped in {uri}"
        );
        i += 1;
    }
    assert!(
        payload
            .bytes()
            .all(|b| b.is_ascii_alphanumeric() || matches!(b, b'+' | b'/' | b'=')),
        "non-base64 payload in {uri}"
    );
}

fn assert_no_blob_id(value: &Value) {
    match value {
        Value::Object(map) => {
            assert!(map.get("blobId").is_none(), "blobId survived in {value}");
            assert!(map.get(SENTINEL_KEY).is_none(), "@blob survived in {value}");
            for child in map.values() {
                assert_no_blob_id(child);
            }
        }
        Value::Array(items) => items.iter().for_each(assert_no_blob_id),
        _ => {}
    }
}

#[test]
fn media_sentinel_becomes_a_uri_property() {
    let card = j(r#"{"@type": "Card", "media": {"photo": {"@type": "Media", "kind": "photo", "@blob": 7, "mediaType": "image/png"}}}"#);
    let card = inline(&card, InlineShape::JsContactResource, &fetch_ok());
    let photo = &card["media"]["photo"];
    assert_eq!(
        decode(photo["uri"].as_str().unwrap(), "image/png"),
        b"bytes-7"
    );
    assert_eq!(photo["mediaType"], as_value(&j(r#""image/png""#)));
    assert!(photo.get("href").is_none());
    assert_no_blob_id(&card);
}

#[test]
fn calendar_link_sentinel_becomes_an_href_property() {
    let event = j(r#"{"@type": "Event", "links": {"1": {"@type": "Link", "rel": "enclosure", "@blob": 3, "contentType": "text/plain", "title": "note.txt"}}}"#);
    let event = inline(&event, InlineShape::JsCalendarLink, &fetch_ok());
    let link = &event["links"]["1"];
    assert_eq!(
        decode(link["href"].as_str().unwrap(), "text/plain"),
        b"bytes-3"
    );
    assert_eq!(link["contentType"], as_value(&j(r#""text/plain""#)));
    assert_eq!(link["title"], as_value(&j(r#""note.txt""#)));
    assert!(link.get("uri").is_none());
    assert_no_blob_id(&event);
}

#[test]
fn jscontact_link_keeps_the_resource_uri_property() {
    let card = j(r#"{"@type": "Card", "links": {"l1": {"@type": "Link", "@blob": 1, "mediaType": "application/pdf"}}}"#);
    let card = inline(&card, InlineShape::JsContactResource, &fetch_ok());
    let link = &card["links"]["l1"];
    assert!(link.get("href").is_none(), "JSContact Link uses uri");
    assert_eq!(
        decode(link["uri"].as_str().unwrap(), "application/pdf"),
        b"bytes-1"
    );
}

#[test]
fn absent_media_type_defaults_to_octet_stream() {
    let card = j(r#"{"media": {"photo": {"@blob": 2}}}"#);
    let card = inline(&card, InlineShape::JsContactResource, &fetch_ok());
    let uri = card["media"]["photo"]["uri"].as_str().unwrap();
    assert_eq!(decode(uri, DEFAULT_MEDIA_TYPE), b"bytes-2");
}

#[test]
fn empty_media_type_defaults_to_octet_stream() {
    let event = j(r#"{"links": {"1": {"@blob": 4, "contentType": ""}}}"#);
    let event = inline(&event, InlineShape::JsCalendarLink, &fetch_ok());
    let uri = event["links"]["1"]["href"].as_str().unwrap();
    assert_eq!(decode(uri, DEFAULT_MEDIA_TYPE), b"bytes-4");
}

#[test]
fn empty_media_type_falls_through_to_the_next_key() {
    let card = j(r#"{"media": {"photo": {"@blob": 4, "mediaType": "", "contentType": "image/jpeg"}}}"#);
    let card = inline(&card, InlineShape::JsContactResource, &fetch_ok());
    let uri = card["media"]["photo"]["uri"].as_str().unwrap();
    assert_eq!(decode(uri, "image/jpeg"), b"bytes-4");
}

#[test]
fn media_type_parameters_are_kept_without_whitespace() {
    let event = j(r#"{"links": {"1": {"@blob": 4, "contentType": "text/plain; charset=utf-8"}}}"#);
    let event = inline(&event, InlineShape::JsCalendarLink, &fetch_ok());
    let uri = event["links"]["1"]["href"].as_str().unwrap();
    assert!(!uri.contains(' '), "{uri} carries a raw space");
    assert_eq!(decode(uri, "text/plain;charset=utf-8"), b"bytes-4");
}

#[test]
fn media_type_keeps_several_parameters_and_drops_empty_ones() {
    let event = j(r#"{"links": {"1": {"@blob": 4, "contentType": " text/plain ;; charset=utf-8 ; format=flowed "}}}"#);
    let event = inline(&event, InlineShape::JsCalendarLink, &fetch_ok());
    let uri = event["links"]["1"]["href"].as_str().unwrap();
    assert_eq!(
        decode(uri, "text/plain;charset=utf-8;format=flowed"),
        b"bytes-4"
    );
}

#[test]
fn media_type_characters_illegal_in_a_uri_are_percent_encoded() {
    let event = j(r#"{"links": {"1": {"@blob": 4,
        "contentType": "text/plain; name=\"rep ort,v2#1\u00e9.txt\""}}}"#);
    let event = inline(&event, InlineShape::JsCalendarLink, &fetch_ok());
    let uri = event["links"]["1"]["href"].as_str().unwrap();
    assert_eq!(
        decode(uri, "text/plain;name=%22rep%20ort%2Cv2%231%C3%A9.txt%22"),
        b"bytes-4"
    );
}

#[test]
fn a_percent_in_the_media_type_is_itself_escaped() {
    let card = j(r#"{"media": {"photo": {"@blob": 4, "mediaType": "image/png; note=100%"}}}"#);
    let card = inline(&card, InlineShape::JsContactResource, &fetch_ok());
    let uri = card["media"]["photo"]["uri"].as_str().unwrap();
    assert_eq!(decode(uri, "image/png;note=100%25"), b"bytes-4");
}

#[test]
fn a_media_type_that_is_not_type_slash_subtype_defaults_to_octet_stream() {
    for bogus in ["png", "image/", "/png", "image/png/extra", ";charset=utf-8"] {
        let mut card = j(&format!(
            r#"{{"media": {{"photo": {{"@blob": 4, "mediaType": "{bogus}"}}}}}}"#
        ));
        let card = inline(&card, InlineShape::JsContactResource, &fetch_ok());
        let uri = card["media"]["photo"]["uri"].as_str().unwrap();
        assert_eq!(decode(uri, DEFAULT_MEDIA_TYPE), b"bytes-4", "{bogus}");
    }
}

#[test]
fn inlined_bytes_round_trip_exactly() {
    let payload: Vec<u8> = (0u16..=255).map(|b| b as u8).collect();
    let card = j(r#"{"media": {"photo": {"@blob": 1, "mediaType": "application/octet-stream; charset=binary"}}}"#);
    let blobs = BlobStore { entries: vec![(1, payload.clone())] };
    let card = inline(&card, InlineShape::JsContactResource, &blobs);
    let uri = card["media"]["photo"]["uri"].as_str().unwrap();
    assert_eq!(
        decode(uri, "application/octet-stream;charset=binary"),
        payload
    );
}

#[test]
fn sentinels_nested_in_arrays_and_subobjects_are_all_inlined() {
    let value = j(r#"{"locations": {"loc1": {"links": [{"@blob": 5, "contentType": "image/gif"}, {"@blob": 6}]}}, "links": {"top": {"@blob": 8, "contentType": "image/gif"}}}"#);
    let value = inline(&value, InlineShape::JsCalendarLink, &fetch_ok());
    let arr = value["locations"]["loc1"]["links"].as_array().unwrap();
    assert_eq!(
        decode(arr[0]["href"].as_str().unwrap(), "image/gif"),
        b"bytes-5"
    );
    assert_eq!(
        decode(arr[1]["href"].as_str().unwrap(), DEFAULT_MEDIA_TYPE),
        b"bytes-6"
    );
    assert_eq!(
        decode(value["links"]["top"]["href"].as_str().unwrap(), "image/gif"),
        b"bytes-8"
    );
    assert_no_blob_id(&value);
}

#[test]
fn malformed_sentinel_is_rejected() {
    let value = j(r#"{"media": {"photo": {"@blob": "not-an-id"}}}"#);
    let err = inline_blob_data_uris(&value, InlineShape::JsContactResource, &fetch_ok())
        .expect_err("malformed sentinel");
    assert!(matches!(err, BlobWalkError::MalformedSentinel), "{err:?}");
}

#[test]
fn resolver_failure_propagates() {
    let value = j(r#"{"media": {"photo": {"@blob": 9}}}"#);
    let gone = BlobStore { entries: Vec::new() };
    let err = inline_blob_data_uris(&value, InlineShape::JsContactResource, &gone)
        .expect_err("resolver failure");
    assert!(matches!(err, BlobWalkError::Resolver(_)), "{err:?}");
}

#[test]
fn the_resolver_error_kind_survives_the_walk() {
    let value = j(r#"{"media": {"photo": {"@blob": 9}}}"#);
    let gone = BlobStore { entries: Vec::new() };
    let err = inline_blob_data_uris(&value, InlineShape::JsContactResource, &gone)
        .expect_err("resolver failure")
    .into_source();
    assert!(matches!(err, JmapError::Sqlite(_)), "{err:?}");
    let mapped = Error::from(err);
    assert!(mapped.aborts_run(), "{} must abort the run", mapped.message());
    assert_eq!(mapped.exit_code(), 7);
}

#[test]
fn a_malformed_sentinel_stays_a_blob_walk_error() {
    let err = BlobWalkError::MalformedSentinel.into_source();
    assert!(
        matches!(err, JmapError::Blob(BlobWalkError::MalformedSentinel)),
        "{err:?}"
    );
    assert_eq!(Error::from(err).exit_code(), 5);
}

#[test]
fn values_without_a_sentinel_are_untouched() {
    let original = j(r#"{"@type": "Card", "media": {"photo": {"@type": "Media", "kind": "photo", "uri": "https://example.test/p.png", "mediaType": "image/png"}}, "nickNames": {"n1": {"name": "Jay"}}}"#);
    let nothing = BlobStore { entries: Vec::new() };
    let value = inline(&original, InlineShape::JsContactResource, &nothing);
    assert_eq!(value, as_value(&original));
}

#[test]
fn import_walker_still_produces_the_sentinel() {
    let value =
        j(r#"{"media": {"photo": {"blobId": "B1", "mediaType": "image/png"}}}"#);
    let ids = BlobTable { entries: vec![("B1".to_owned(), 11)] };
    let value = as_value(&import_blob_ids(&value, &ids).unwrap());
    assert_eq!(value["media"]["photo"][SENTINEL_KEY], as_value(&j(r#"11"#)));
    assert!(value["media"]["photo"].get("blobId").is_none());
}

#[test]
fn an_unknown_blob_id_stops_an_import() {
    let value = j(r#"{"media": [{"blobId": "B2"}]}"#);
    let ids = BlobTable { entries: vec![("B1".to_owned(), 11)] };
    let err = import_blob_ids(&value, &ids).expect_err("unknown blob").into_source();
    assert_eq!(err.message(), JmapError::malformed("unknown blob B2").message());
}

#[test]
fn the_first_fault_of_a_walk_is_reported() {
    let shape = InlineShape::JsContactResource;
    let missing_first = j(r#"{"a": {"@blob": 77}, "b": {"@blob": "x"}}"#);
    let e = inline_blob_data_uris(&missing_first, shape, &fetch_ok()).unwrap_err();
    assert!(matches!(e, BlobWalkError::Resolver(_)));
    let malformed_first = j(r#"[{"@blob": "x"}, {"@blob": 77}]"#);
    let e = inline_blob_data_uris(&malformed_first, shape, &fetch_ok()).unwrap_err();
    assert!(matches!(e, BlobWalkError::MalformedSentinel));
    let own_first = j(r#"{"a": {"@blob": 77}, "@blob": "x"}"#);
    let e = inline_blob_data_uris(&own_first, shape, &fetch_ok()).unwrap_err();
    assert!(matches!(e, BlobWalkError::MalformedSentinel));
}

#[test]
fn the_last_member_takes_the_place_of_a_sentinel() {
    let v = j(r#"{"@blob": 1, "a": {"n": 1}, "z": {"n": 2}}"#);
    let out = inline_blob_data_uris(&v, InlineShape::JsCalendarLink, &fetch_ok()).unwrap();
    let names: Vec<&str> =
        out.as_object().unwrap().iter().map(|m| m.0.as_str()).collect();
    assert_eq!(names, ["z", "a", "href"]);
}

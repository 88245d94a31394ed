use serde_json::Value;
use vandelay::exchange_graph::contact_map::{convert_contact, synthetic_uid};
use vandelay::json;
use vandelay::json::Json;

fn j(text: &str) -> Json {
    json::parse(text.as_bytes()).expect("JSON")
}

fn value(v: &Json) -> Value {
    serde_json::from_str(&json::write(v)).expect("JSON")
}

struct Card {
    uid: String,
    data: Value,
}

fn converted(contact: &Json) -> Card {
    let c = convert_contact(contact).unwrap();
    Card { uid: c.uid, data: value(&c.data) }
}

#[test]
fn minimal_contact_yields_card_with_synthetic_uid() {
    let c = j(r#"{"id": "GRAPH-1", "displayName": "Alice"}"#);
    let conv = converted(&c);
    assert!(conv.uid.starts_with("vandelay-graph-"));
    assert_eq!(conv.data["@type"], "Card");
    assert_eq!(conv.data["kind"], "individual");
    assert_eq!(conv.data["name"]["full"], "Alice");
}

#[test]
fn synthetic_uid_is_stable_per_graph_id() {
    let a = synthetic_uid("AAA");
    let b = synthetic_uid("AAA");
    let c = synthetic_uid("BBB");
    assert_eq!(a, b);
    assert_ne!(a, c);
}

#[test]
fn emails_map_with_first_as_pref() {
    let c = j(r#"{"id": "X", "emailAddresses": [{"address": "a@x.com", "name": "Alice"}, {"address": "b@x.com", "name": "Alice B"}]}"#);
    let conv = converted(&c);
    let emails = conv.data["emails"].as_object().unwrap();
    assert_eq!(emails["email-1"]["address"], "a@x.com");
    assert_eq!(emails["email-1"]["pref"], 1);
    assert_eq!(emails["email-2"]["address"], "b@x.com");
    assert!(emails["email-2"].get("pref").is_none());
}

#[test]
fn phones_carry_context_per_source_field() {
    let c = j(r#"{"id": "X", "businessPhones": ["+1-555-2000"], "homePhones": ["+1-555-1000"], "mobilePhone": "+1-555-3000"}"#);
    let conv = converted(&c);
    let phones = conv.data["phones"].as_object().unwrap();
    assert_eq!(phones.len(), 3);
    let has_work = phones
        .values()
        .any(|v| v["contexts"]["work"] == Value::Bool(true));
    let has_private = phones
        .values()
        .any(|v| v["contexts"]["private"] == Value::Bool(true));
    let has_mobile = phones
        .values()
        .any(|v| v["features"]["mobile"] == Value::Bool(true));
    assert!(has_work && has_private && has_mobile);
}

#[test]
fn addresses_map_three_contexts() {
    let c = j(r#"{"id": "X", "homeAddress": {"city": "Home City"}, "businessAddress": {"city": "Work City"}, "otherAddress": {"city": "Other City"}}"#);
    let conv = converted(&c);
    let addresses = conv.data["addresses"].as_object().unwrap();
    assert_eq!(addresses.len(), 3);
    let has_other_context = addresses
        .values()
        .any(|a| a.get("contexts").and_then(|c| c.get("other")).is_some());
    assert!(!has_other_context);
    let without_context = addresses
        .values()
        .filter(|a| a.get("contexts").is_none())
        .count();
    assert_eq!(without_context, 1);
}

#[test]
fn org_and_title_pair_into_separate_jscontact_objects() {
    let c = j(r#"{"id": "X", "companyName": "Acme", "department": "Engineering", "officeLocation": "Building 9", "jobTitle": "Architect"}"#);
    let conv = converted(&c);
    let orgs = conv.data["organizations"].as_object().unwrap();
    assert!(orgs.contains_key("org-1"));
    assert_eq!(orgs["org-1"]["name"], "Acme");
    let titles = conv.data["titles"].as_object().unwrap();
    assert_eq!(titles["title-1"]["name"], "Architect");
    assert_eq!(titles["title-1"]["organizationId"], "org-1");
}

#[test]
fn yomi_fields_populate_japanese_localization() {
    let c = j(r#"{"id": "X", "displayName": "Yamada Taro", "givenName": "Taro", "surname": "Yamada", "companyName": "Acme", "yomiCompanyName": "アクメ", "yomiGivenName": "タロウ", "yomiSurname": "ヤマダ"}"#);
    let conv = converted(&c);
    let ja = conv.data["localizations"]["ja"].as_object().unwrap();
    assert_eq!(ja["organizations/org-1/name"], "アクメ");
}

#[test]
fn birthday_emits_partialdate_object() {
    let c = j(r#"{"id": "X", "birthday": "1980-04-12T00:00:00Z"}"#);
    let conv = converted(&c);
    let ann = conv.data["anniversaries"].as_object().unwrap();
    let date = &ann["anniversary-1"]["date"];
    assert_eq!(date["@type"], "PartialDate");
    assert_eq!(date["year"], 1980);
    assert_eq!(date["month"], 4);
    assert_eq!(date["day"], 12);
    assert_eq!(ann["anniversary-1"]["kind"], "birth");
}

#[test]
fn mobile_phone_uses_features_not_contexts() {
    let c = j(r#"{"id": "X", "mobilePhone": "+1-555-3000"}"#);
    let conv = converted(&c);
    let phones = conv.data["phones"].as_object().unwrap();
    let phone = phones.values().next().unwrap();
    assert_eq!(phone["features"]["mobile"], true);
    assert!(phone.get("contexts").is_none());
}

#[test]
fn generation_maps_to_generation_kind() {
    let c = j(r#"{"id": "X", "generation": "Jr."}"#);
    let conv = converted(&c);
    let comps = conv.data["name"]["components"].as_array().unwrap();
    assert!(
        comps
            .iter()
            .any(|c| c["kind"] == "generation" && c["value"] == "Jr.")
    );
}

#[test]
fn only_jobtitle_does_not_emit_empty_organization() {
    let c = j(r#"{"id": "X", "jobTitle": "Architect"}"#);
    let conv = converted(&c);
    assert!(conv.data.get("organizations").is_none());
    let titles = conv.data["titles"].as_object().unwrap();
    assert_eq!(titles["title-1"]["name"], "Architect");
    assert!(titles["title-1"].get("organizationId").is_none());
}

#[test]
fn related_contacts_are_dropped_without_resolvable_uids() {
    let c = j(r#"{"id": "X", "manager": "alice@x.com", "spouseName": "Bob", "children": ["Kid A", "Kid B"]}"#);
    let conv = converted(&c);
    assert!(conv.data.get("relatedTo").is_none());
}

#[test]
fn nameless_contact_omits_name_object() {
    let c = j(r#"{"id": "X", "businessPhones": ["+1"]}"#);
    let conv = converted(&c);
    assert!(conv.data.get("name").is_none());
}

#[test]
fn timestamps_strip_fractional_seconds() {
    let c = j(r#"{"id": "X", "displayName": "Alice", "createdDateTime": "2026-05-01T08:00:00.0000000Z", "lastModifiedDateTime": "2026-05-02T08:00:00.123Z"}"#);
    let conv = converted(&c);
    assert_eq!(conv.data["created"], "2026-05-01T08:00:00Z");
    assert_eq!(conv.data["updated"], "2026-05-02T08:00:00Z");
}

#[test]
fn a_contact_without_an_id_is_refused() {
    let e = convert_contact(&j(r#"{"displayName": "Alice"}"#)).unwrap_err();
    assert!(e.message().contains("contact has no id"));
}

use vandelay::civil::{add_months, clamped_day, last_day_of_month, nth_weekday_of_month, Date};
use vandelay::delay::{doublings, Delay};
use vandelay::digest::digest_named;
use vandelay::encoding::{escape, truncate, Place};
use vandelay::json;
use vandelay::json::{Json, Number};
use vandelay::order::order_by_key;
use vandelay::text;
use vandelay::tree::{depth_of, NodeRow};

#[test]
fn values_read_back_as_they_were_written() {
    let source = r#"{"a":[1,-2,true,null,"x\"\\é"],"b":{}}"#;
    let v = json::parse(source.as_bytes()).expect("JSON");
    let out = json::write(&v);
    assert_eq!(out, "{\"a\":[1,-2,true,null,\"x\\\"\\\\\u{e9}\"],\"b\":{}}");
    let again = json::parse(out.as_bytes()).expect("JSON");
    assert!(again.same_as(&v));
    assert!(json::parse(b"{").is_err());
}

#[test]
fn numbers_keep_their_kind() {
    let v = json::parse(b"[1, -1, 1.5]").expect("JSON");
    let l = v.as_list().unwrap();
    assert!(matches!(l[0], Json::Number(Number::Unsigned(1))));
    assert!(matches!(l[1], Json::Number(Number::Negative(-1))));
    assert!(matches!(l[2], Json::Number(Number::Float(_))));
    assert_eq!(l[1].as_i64(), Some(-1));
    assert_eq!(l[1].as_u64(), None);
}

#[test]
fn members_keep_their_order() {
    let v = json::parse(br#"{"z":1,"a":2}"#).expect("JSON");
    let names: Vec<&str> = v.as_object().unwrap().iter().map(|e| e.0.as_str()).collect();
    assert_eq!(names, ["z", "a"]);
}

#[test]
fn numbers_are_written_and_read() {
    assert_eq!(text::decimal(0), "0");
    assert_eq!(text::signed_decimal(i64::MIN), "-9223372036854775808");
    assert_eq!(text::parse_i64("-9223372036854775808"), Some(i64::MIN));
    assert_eq!(text::parse_i64("9223372036854775808"), None);
    assert_eq!(text::parse_unsigned("42", 100), Some(42));
    assert_eq!(text::parse_unsigned("142", 100), None);
    assert_eq!(text::zero_padded(7, 3), "007");
}

#[test]
fn texts_are_taken_apart() {
    assert_eq!(text::trim("\u{a0} a b \t"), "a b");
    assert_eq!(text::split("a,b,,c", ','), ["a", "b", "", "c"]);
    assert_eq!(text::replace("aXbX", "X", "--"), "a--b--");
    assert_eq!(text::after_prefix("mailto:a", "mailto:").as_deref(), Some("a"));
    assert_eq!(text::after_prefix("a", "mailto:"), None);
    assert_eq!(
        text::sort_texts(&vec!["b".to_owned(), "a".to_owned(), "ab".to_owned()]),
        ["a", "ab", "b"]
    );
    assert_eq!(text::drop_end("a//", '/'), "a");
}

#[test]
fn bytes_are_escaped_by_their_place() {
    assert_eq!(escape("a b/\u{e9}", Place::Segment), "a%20b%2F%C3%A9");
    assert_eq!(escape("text/plain;x", Place::MediaType), "text/plain%3Bx");
}

#[test]
fn long_answers_are_cut_between_characters() {
    let body = "\u{e9}".repeat(300);
    let shown = truncate(body.as_bytes());
    assert_eq!(shown.len(), 512 + 3);
    assert!(shown.ends_with("..."));
    assert_eq!(truncate(b"\xff"), "\u{fffd}");
}

#[test]
fn a_digest_is_hexadecimal_and_of_its_identifier() {
    let a = digest_named("p-", "one");
    assert!(a.starts_with("p-"));
    assert!(a[2..].chars().all(|c| c.is_ascii_hexdigit()));
    assert_ne!(a, digest_named("p-", "two"));
    assert_eq!(a, digest_named("p-", "one"));
}

#[test]
fn dates_are_counted_in_days() {
    let d = Date::parse("2024-02-29").expect("date");
    assert_eq!(d.ymd(), (2024, 2, 29));
    assert_eq!(d.format(), "2024-02-29");
    assert_eq!(Date::from_ymd(2023, 2, 29), None);
    assert!(Date::parse("2024-2-30").is_none());
    assert_eq!(last_day_of_month(2023, 2), Some(28));
    assert_eq!(clamped_day(2023, 2, 31).unwrap().format(), "2023-02-28");
    assert_eq!(add_months(2024, 11, 3).unwrap().format(), "2025-02-01");
    let friday = nth_weekday_of_month(2024, 3, &vec![5], "last").expect("date");
    assert_eq!(friday.format(), "2024-03-29");
}

#[test]
fn waits_stay_within_their_type() {
    assert_eq!(Delay::from_secs(2).as_secs(), 2);
    assert_eq!(Delay::from_millis(1500).as_secs(), 1);
    assert_eq!(Delay::from_secs(2).saturating_mul(3), Delay::from_secs(6));
    assert_eq!(Delay::from_secs(2).shorter(Delay::from_secs(1)), Delay::from_secs(1));
    assert_eq!(doublings(4), 16);
}

#[test]
fn ordering_is_stable() {
    assert_eq!(order_by_key(&vec![2, 1, 2, 0]), [3, 1, 0, 2]);
}

#[test]
fn a_circle_of_parents_has_an_end() {
    let rows = vec![NodeRow { id: 1, parent: Some(2) }, NodeRow { id: 2, parent: Some(1) }];
    assert_eq!(depth_of(&rows, 1), 2);
    assert_eq!(depth_of(&vec![NodeRow { id: 1, parent: None }], 1), 0);
}

#[test]
fn what_is_written_is_what_is_held() {
    let twice = Json::Object(vec![
        ("a".to_owned(), Json::Number(Number::Unsigned(1))),
        ("b".to_owned(), Json::Null),
        ("a".to_owned(), Json::Number(Number::Negative(5))),
    ]);
    assert_eq!(json::write(&twice), r#"{"a":5,"b":null}"#);
    let odd = Json::List(vec![
        Json::Number(Number::Float("1.50".to_owned())),
        Json::Number(Number::Float("none".to_owned())),
    ]);
    assert_eq!(json::write(&odd), "[1.5,null]");
}

use vandelay::delay::Delay;
use vandelay::encoding::truncate;
use vandelay::jmap::error::JmapError;
use vandelay::jmap::http::{
    fault_error, format_rate_headers, format_retry_wait, json_reply, problem_detail,
    rate_header_name, text_reply, upload_reply, Attempt, Auth, Call, Fault, HttpClient, Next,
    RetryPolicy, StatusOutcome,
};
use vandelay::jmap::retry::Jitter;
use vandelay::jmap::session::Limits;
use vandelay::json;

#[test]
fn basic_header_matches_rfc7617_example() {
    let auth = Auth::Basic {
        user: "Aladdin".to_owned(),
        password: "open sesame".to_owned(),
    };
    assert_eq!(
        auth.header_value().as_deref(),
        Some("Basic QWxhZGRpbjpvcGVuIHNlc2FtZQ==")
    );
}

#[test]
fn bearer_header() {
    let auth = Auth::Bearer {
        token: "abc.def".to_owned(),
    };
    assert_eq!(auth.header_value().as_deref(), Some("Bearer abc.def"));
}

#[test]
fn digest_header_is_deferred() {
    let auth = Auth::Digest {
        user: "alice".to_owned(),
        password: "pw".to_owned(),
    };
    assert_eq!(auth.header_value(), None);
}

#[test]
fn truncate_does_not_panic_on_multibyte_boundary() {
    let mut body = vec![b'a'; 510];
    body.extend_from_slice("\u{1F4A9}".as_bytes());
    body.extend_from_slice(&[b'b'; 600]);
    let s = truncate(&body);
    assert!(s.ends_with("..."));
    assert!(s.is_char_boundary(s.len()));
    let inner = s.trim_end_matches('.');
    assert!(inner.is_char_boundary(inner.len()));
}

#[test]
fn truncate_short_body_returns_verbatim() {
    let s = truncate("héllo".as_bytes());
    assert_eq!(s, "héllo");
}

#[test]
fn limit_problem_unknown_kind_on_429_is_retried() {
    let client = HttpClient::new(
        Auth::Bearer {
            token: "t".to_owned(),
        },
        RetryPolicy::new(0),
        false,
    );
    let body = br#"{"type":"urn:ietf:params:jmap:error:limit","limit":"someServerLimit"}"#;
    assert!(matches!(
        client.status_disposition(429, body),
        StatusOutcome::Retryable
    ));
}

#[test]
fn limit_problem_max_size_request_is_resplit() {
    let client = HttpClient::new(
        Auth::Bearer {
            token: "t".to_owned(),
        },
        RetryPolicy::new(0),
        false,
    );
    let body = br#"{"type":"urn:ietf:params:jmap:error:limit","limit":"maxSizeRequest"}"#;
    assert!(matches!(
        client.status_disposition(400, body),
        StatusOutcome::RequestTooLarge
    ));
}

#[test]
fn limit_problem_max_concurrent_is_retried() {
    let client = HttpClient::new(
        Auth::Bearer {
            token: "t".to_owned(),
        },
        RetryPolicy::new(0),
        false,
    );
    let body =
        br#"{"type":"urn:ietf:params:jmap:error:limit","limit":"maxConcurrentRequests"}"#;
    assert!(matches!(
        client.status_disposition(429, body),
        StatusOutcome::Retryable
    ));
}

fn limits_with(max_upload: u64, req: u64, up: u64) -> Limits {
    Limits {
        max_objects_in_get: 500,
        max_objects_in_set: 500,
        max_calls_in_request: 16,
        max_concurrent_requests: req,
        max_concurrent_upload: up,
        max_size_request: 10_000_000,
        max_size_upload: max_upload,
    }
}

#[test]
fn upload_rejects_oversize_before_sending() {
    let mut client = HttpClient::new(
        Auth::Bearer {
            token: "t".to_owned(),
        },
        RetryPolicy::new(0),
        false,
    );
    client.set_limits(&limits_with(10, 4, 4));
    let err = client
        .upload("http://127.0.0.1:1/upload", "application/octet-stream", vec![0u8; 11])
        .unwrap_err();
    assert!(
        matches!(err, JmapError::SingleObjectTooLarge(_)),
        "got {err:?}"
    );
    assert_eq!(client.retries_observed(), 0);
}

#[test]
fn upload_within_max_size_is_not_short_circuited() {
    let mut client = HttpClient::new(
        Auth::Bearer {
            token: "t".to_owned(),
        },
        RetryPolicy::new(0),
        false,
    );
    client.set_limits(&limits_with(1024, 4, 4));
    let request = client
        .upload("http://127.0.0.1:1/upload", "application/octet-stream", b"abc".to_vec())
        .unwrap();
    assert_eq!(request.body.as_deref(), Some(&b"abc"[..]));
    let mut call = Call { method: request.method, url: request.url, attempt: 0 };
    let refused = Attempt::Transport(fault_error(Fault::ConnectionFailed));
    match client.after_attempt(&mut call, refused, 0, &mut Jitter::seeded(1, 2)) {
        Next::Fail(err) => assert!(
            !matches!(err, JmapError::SingleObjectTooLarge(_)),
            "expected the call to proceed to transport (got SingleObjectTooLarge): {err:?}"
        ),
        _ => panic!("no retry is left"),
    }
}

#[test]
fn problem_detail_extracts_title_and_detail() {
    let body = br#"{"type":"about:blank","status":429,"title":"Quota exceeded","detail":"You have exceeded the blob upload quota of 1000 files or 50000000 bytes."}"#;
    let got = problem_detail(body).expect("title+detail");
    assert!(got.contains("Quota exceeded"));
    assert!(got.contains("50000000 bytes"));
}

#[test]
fn problem_detail_title_only() {
    let body = br#"{"title":"Too Many Requests"}"#;
    assert_eq!(problem_detail(body).as_deref(), Some("Too Many Requests"));
}

#[test]
fn problem_detail_returns_none_for_empty_body() {
    assert_eq!(problem_detail(b"{}"), None);
    assert_eq!(problem_detail(b"not json"), None);
}

#[test]
fn format_retry_wait_short_medium_long() {
    assert_eq!(format_retry_wait(Delay::from_secs(7)), "7s");
    assert_eq!(format_retry_wait(Delay::from_secs(67)), "1m07s");
    assert_eq!(format_retry_wait(Delay::from_secs(1427)), "23m47s");
    assert_eq!(format_retry_wait(Delay::from_secs(3661)), "1h01m01s");
}

#[test]
fn counters_start_at_zero() {
    let client = HttpClient::new(
        Auth::Bearer {
            token: "t".to_owned(),
        },
        RetryPolicy::new(0),
        false,
    );
    assert_eq!(client.retries_observed(), 0);
    assert_eq!(client.retry_after_sleeps(), 0);
}

fn answer(status: u16, body: &[u8], retry_after: Option<Delay>) -> Attempt {
    Attempt::Answer {
        status,
        body: body.to_vec(),
        retry_after,
        rate_limit_headers: Vec::new(),
    }
}

fn client(retries: u32) -> HttpClient {
    HttpClient::new(Auth::Bearer { token: "t".to_owned() }, RetryPolicy::new(retries), false)
}

fn call() -> Call {
    Call { method: "GET".to_owned(), url: "https://x.test/".to_owned(), attempt: 0 }
}

#[test]
fn a_request_is_tried_again_as_often_as_allowed_and_no_more() {
    let mut client = client(2);
    let mut call = call();
    let mut rng = Jitter::seeded(3, 4);
    let mut waits = 0;
    loop {
        match client.after_attempt(&mut call, answer(503, b"", None), 0, &mut rng) {
            Next::Wait { delay, .. } => {
                waits += 1;
                assert!(delay.nanos <= 30_000_000_000);
            }
            Next::Fail(e) => {
                assert!(matches!(e, JmapError::RetriesExhausted(_)), "{e:?}");
                break;
            }
            Next::Done(_) => panic!("every attempt was refused"),
        }
        assert!(waits < 10);
    }
    assert_eq!(waits, 2);
    assert_eq!(client.retries_observed(), 3, "the attempt that was given up counts too");
}

#[test]
fn a_wait_is_as_long_as_the_server_asks() {
    let mut client = client(2);
    let wanted = Delay::from_secs(7);
    let outcome = answer(429, b"", Some(wanted));
    match client.after_attempt(&mut call(), outcome, 0, &mut Jitter::seeded(3, 4)) {
        Next::Wait { delay, .. } => assert_eq!(delay, wanted),
        _ => panic!("the request is sent again"),
    }
    assert_eq!(client.retry_after_sleeps(), 1);
    assert_eq!(client.throttle_level(), 1);
}

#[test]
fn an_answer_ends_a_request_and_calms_the_client() {
    let mut client = client(2);
    let mut rng = Jitter::seeded(3, 4);
    let _ = client.after_attempt(&mut call(), answer(429, b"", None), 0, &mut rng);
    match client.after_attempt(&mut call(), answer(200, b"ok", None), 0, &mut rng) {
        Next::Done(body) => assert_eq!(body, b"ok"),
        _ => panic!("the answer is there"),
    }
    assert_eq!(client.throttle_level(), 0);
}

#[test]
fn a_refused_login_is_not_tried_again() {
    let outcome = answer(401, b"", None);
    match client(5).after_attempt(&mut call(), outcome, 0, &mut Jitter::seeded(3, 4)) {
        Next::Fail(e) => assert!(matches!(e, JmapError::Auth(_)), "{e:?}"),
        _ => panic!("a refused login is final"),
    }
}

#[test]
fn answers_that_are_no_text_or_no_json_are_malformed() {
    assert_eq!(text_reply(b"abc".to_vec()).unwrap(), "abc");
    assert!(matches!(text_reply(vec![0xff]), Err(JmapError::Malformed(_))));
    assert_eq!(json::write(&json_reply(b" [1, -2] ").unwrap()), "[1,-2]");
    assert!(matches!(json_reply(b"{"), Err(JmapError::Malformed(_))));
    assert!(matches!(upload_reply(b""), Err(JmapError::Malformed(_))));
}

#[test]
fn rate_limit_headers_are_named_in_lower_case() {
    assert_eq!(rate_header_name("Retry-After").as_deref(), Some("retry-after"));
    assert_eq!(rate_header_name("Server"), None);
    assert_eq!(format_rate_headers(&Vec::new()), None);
}

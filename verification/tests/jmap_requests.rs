use vandelay::delay::Delay;
use vandelay::error::Error;
use vandelay::instant::Moment;
use vandelay::jmap::error::JmapError;
use vandelay::jmap::http::RetryPolicy;
use vandelay::jmap::retry::{
    backoff_delay, classify_http_status, jmap_method_disposition, parse_retry_after,
    throttle_backoff, Cooldown, Disposition, Jitter, MethodCallKind, RateLimitState,
    THROTTLE_BASE_NANOS,
};
use vandelay::jmap::wire::parse_utc_date;

const NOW: u64 = 1_760_000_000_000_000_000;

#[test]
fn unreachable_endpoint_aborts_the_run() {
    for e in [
        JmapError::Connect("refused".to_owned()),
        JmapError::Transport("io: broken pipe".to_owned()),
        JmapError::Auth("bad password".to_owned()),
        JmapError::HttpStatus {
            status: 404,
            body: "<html>404 Not Found</html>".to_owned(),
        },
        JmapError::RetriesExhausted("gave up".to_owned()),
    ] {
        let mapped = Error::from(e);
        assert!(mapped.aborts_run(), "{} must abort the run", mapped.message());
        assert_eq!(mapped.exit_code(), 2);
    }
}

#[test]
fn protocol_level_errors_stay_per_unit() {
    for e in [
        JmapError::Method {
            call_id: "q".to_owned(),
            error_type: "unknownMethod".to_owned(),
            description: None,
        },
        JmapError::UnknownMethod,
        JmapError::CannotCalculateChanges,
        JmapError::AnchorNotFound,
        JmapError::RequestTooLarge,
        JmapError::SingleObjectTooLarge("one blob".to_owned()),
        JmapError::Malformed("not a list".to_owned()),
    ] {
        let mapped = Error::from(e);
        assert!(!mapped.aborts_run(), "{} must not abort the run", mapped.message());
        assert_eq!(mapped.exit_code(), 5);
    }
}

#[test]
fn archive_failures_are_local_io() {
    let mapped = Error::from(JmapError::Sqlite("Query returned no rows".to_owned()));
    assert!(mapped.aborts_run());
    assert_eq!(mapped.exit_code(), 7);
}

fn policy() -> RetryPolicy {
    RetryPolicy::new(5)
}

#[test]
fn backoff_is_bounded_by_cap_with_full_jitter() {
    let p = policy();
    let mut rng = Jitter::seeded(1, 2);
    for attempt in 1..=12 {
        let d = backoff_delay(&p, attempt, &mut rng);
        assert!(d.nanos <= p.cap.nanos, "attempt {attempt} delay {d:?} exceeds cap");
    }
}

#[test]
fn backoff_grows_until_cap() {
    let p = policy();
    let mut rng = Jitter::seeded(1, 2);
    let big = backoff_delay(&p, 30, &mut rng);
    assert!(big.nanos <= p.cap.nanos);
}

#[test]
fn retry_after_seconds() {
    assert_eq!(
        parse_retry_after("120", NOW),
        Some(Delay::from_secs(120))
    );
}

#[test]
fn retry_after_http_date_in_future() {
    let now = 784_111_777 * 1_000_000_000;
    let d = parse_retry_after("Sun, 06 Nov 1994 08:49:47 GMT", now);
    assert_eq!(d, Some(Delay::from_secs(10)));
}

#[test]
fn retry_after_garbage_is_none() {
    assert_eq!(parse_retry_after("soon", NOW), None);
}

#[test]
fn status_classification() {
    assert_eq!(classify_http_status(429), Disposition::Retryable);
    assert_eq!(classify_http_status(503), Disposition::Retryable);
    assert_eq!(classify_http_status(400), Disposition::Fatal);
    assert_eq!(classify_http_status(401), Disposition::Fatal);
}

#[test]
fn method_classification() {
    for kind in [MethodCallKind::Read, MethodCallKind::SingleObjectWrite] {
        assert_eq!(
            jmap_method_disposition("serverUnavailable", kind),
            Disposition::Retryable,
            "{kind:?}"
        );
        assert_eq!(
            jmap_method_disposition("invalidArguments", kind),
            Disposition::Fatal,
            "{kind:?}"
        );
        assert_eq!(
            jmap_method_disposition("forbidden", kind),
            Disposition::Fatal,
            "{kind:?}"
        );
    }
}

#[test]
fn partial_fail_is_never_retried_for_a_write() {
    assert_eq!(
        jmap_method_disposition("serverPartialFail", MethodCallKind::Read),
        Disposition::Retryable
    );
    assert_eq!(
        jmap_method_disposition("serverPartialFail", MethodCallKind::SingleObjectWrite),
        Disposition::Fatal
    );
}

#[test]
fn cooldown_arms_and_clears() {
    let mut c = Cooldown::new();
    assert!(c.remaining(0).is_none());
    c.arm(0, Delay::from_millis(40));
    assert!(c.remaining(0).is_some());
    assert!(c.remaining(Delay::from_millis(60).nanos).is_none());
}

#[test]
fn throttle_backoff_doubles_then_clamps_to_cap() {
    let p = RetryPolicy::new(8);
    let mut rng = Jitter::seeded(5, 6);
    let mut prev = throttle_backoff(&p, 1, &mut rng);
    for level in 2..=4 {
        let d = throttle_backoff(&p, level, &mut rng);
        assert!(
            d.nanos >= prev.nanos / 2,
            "level {level} ({d:?}) collapsed below half of prev ({prev:?})"
        );
        prev = d;
    }
    assert!(throttle_backoff(&p, 20, &mut rng).nanos <= p.cap.nanos);
}

#[test]
fn rate_limit_state_escalates_across_concurrent_callers() {
    let p = RetryPolicy::new(8);
    let mut s = RateLimitState::new();
    let mut rng = Jitter::seeded(7, 3);
    let first = s.on_throttle(&p, None, 0, &mut rng);
    let second = s.on_throttle(&p, None, 0, &mut rng);
    let third = s.on_throttle(&p, None, 0, &mut rng);
    assert!(
        third.nanos >= first.nanos,
        "level 3 delay ({third:?}) should not be smaller than level 1 ({first:?})"
    );
    assert!(
        second.nanos >= first.nanos,
        "level 2 delay ({second:?}) should not be smaller than level 1 ({first:?})"
    );
    assert!(s.level() >= 3);
}

#[test]
fn rate_limit_state_resets_on_success() {
    let p = RetryPolicy::new(8);
    let mut s = RateLimitState::new();
    let mut rng = Jitter::seeded(7, 3);
    let _ = s.on_throttle(&p, None, 0, &mut rng);
    let _ = s.on_throttle(&p, None, 0, &mut rng);
    let _ = s.on_throttle(&p, None, 0, &mut rng);
    assert!(s.level() >= 3);
    s.on_success();
    assert_eq!(s.level(), 0);
    let next = s.on_throttle(&p, None, 0, &mut rng);
    assert!(
        next.nanos <= THROTTLE_BASE_NANOS,
        "first throttle after reset should be small ({next:?})"
    );
}

#[test]
fn rate_limit_state_honours_retry_after_over_schedule() {
    let p = RetryPolicy::new(8);
    let mut s = RateLimitState::new();
    let mut rng = Jitter::seeded(7, 3);
    let d = s.on_throttle(&p, Some(Delay::from_millis(750)), 0, &mut rng);
    assert_eq!(d, Delay::from_millis(750));
    assert_eq!(s.level(), 1);
}

#[test]
fn strict_rfc3339_is_accepted() {
    let dt = parse_utc_date("2026-08-22T09:42:52Z").expect("parsed");
    assert_eq!(dt, Moment { secs: 1_787_391_772, nanos: 0, offset: 0 });
    assert!(parse_utc_date("2026-08-22T09:42:52.123+02:00").is_some());
}

#[test]
fn space_separator_and_missing_zone_are_salvaged() {
    assert!(parse_utc_date("2026-08-22 09:42:52Z").is_some());
    assert!(parse_utc_date("2026-08-22T09:42:52").is_some());
    assert!(parse_utc_date("  2026-08-22T09:42:52Z  ").is_some());
}

#[test]
fn unrepresentable_dates_yield_none_instead_of_an_error() {
    assert!(parse_utc_date("30828-09-14T02:48:05Z").is_none());
    assert!(parse_utc_date("10000-01-01T00:00:00Z").is_none());
    assert!(parse_utc_date("").is_none());
    assert!(parse_utc_date("not a date").is_none());
}

#[test]
fn a_moment_keeps_its_fraction_and_its_offset() {
    let m = parse_utc_date("2026-08-22T09:42:52.123+02:00").expect("parsed");
    assert_eq!(m, Moment { secs: 1_787_391_772 - 7200, nanos: 123_000_000, offset: 7200 });
}

#[test]
fn a_wait_draws_a_number_unless_the_server_says_how_long() {
    let policy = policy();
    let mut state = RateLimitState::new();
    let mut rng = Jitter { state: 7 };
    let mut copy = Jitter { state: 7 };
    let asked = Delay { nanos: 5 };
    assert_eq!(state.on_throttle(&policy, Some(asked), 0, &mut rng), asked);
    assert_eq!(rng.state, 7);
    let wait = state.on_throttle(&policy, None, 0, &mut rng);
    assert_eq!(rng.state, copy.next_u64());
    assert_eq!(state.level(), 2);
    assert!(wait >= Delay::from_secs(1) && wait <= Delay::from_secs(2));
    assert_eq!(state.cooldown().remaining(0), Some(wait));
}

#[test]
fn the_later_end_of_two_waits_counts() {
    let mut c = Cooldown::new();
    assert_eq!(c.remaining(3), None);
    c.arm(0, Delay { nanos: 100 });
    c.arm(10, Delay { nanos: 20 });
    assert_eq!(c.remaining(40), Some(Delay { nanos: 60 }));
    assert_eq!(c.remaining(100), None);
    c.arm(90, Delay { nanos: 50 });
    assert_eq!(c.remaining(100), Some(Delay { nanos: 40 }));
}

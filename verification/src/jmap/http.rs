//! Requests to a JMAP server: how they are authorized, what an answer means
//! and when a request is sent again.

use crate::delay::Delay;
use crate::encoding;
use crate::jmap::error;
use crate::jmap::error::JmapError;
use crate::jmap::retry;
use crate::jmap::retry::{Disposition, Jitter, RateLimitState};
use crate::jmap::session::Limits;
use crate::json;
use crate::json::{Json, Val};
use crate::text;
use vstd::prelude::*;

verus! {

/// The longest answer that is read.
pub const MAX_BODY: u64 = 536_870_912;

/// From this wait on, in nanoseconds, the user is told.
pub const LONG_RETRY_NANOS: u128 = 10_000_000_000;

/// How requests are authorized.
#[derive(Debug)]
pub enum Auth {
    Basic { user: String, password: String },
    Digest { user: String, password: String },
    Bearer { token: String },
}

/// The `Authorization` header, where it does not depend on a challenge.
pub open spec fn authorization(auth: Auth) -> Option<Seq<char>> {
    match auth {
        Auth::Basic { user, password } => Some(
            "Basic "@ + encoding::base64_text(
                vstd::utf8::encode_utf8(user@ + ":"@ + password@),
            ),
        ),
        Auth::Digest { user, password } => None,
        Auth::Bearer { token } => Some("Bearer "@ + token@),
    }
}

impl Auth {
    /// The `Authorization` header, where it does not depend on a challenge.
    pub fn header_value(&self) -> (r: Option<String>)
        ensures
            json::text_view(r) == authorization(*self),
    {
        match self {
            Auth::Basic { user, password } => {
                let mut pair: String = user.clone();
                pair.append(":");
                pair.append(password.as_str());
                let code: String = encoding::encode_base64(pair.as_str().as_bytes());
                Some(text::joined("Basic ", code.as_str()))
            },
            Auth::Digest { user, password } => None,
            Auth::Bearer { token } => Some(text::joined("Bearer ", token.as_str())),
        }
    }

    /// A copy.
    pub fn dup(&self) -> (r: Auth)
        ensures
            match *self {
                Auth::Basic { user, password } => r matches Auth::Basic { user: u, password: p }
                    && u@ == user@ && p@ == password@,
                Auth::Digest { user, password } => r matches Auth::Digest { user: u, password: p }
                    && u@ == user@ && p@ == password@,
                Auth::Bearer { token } => r matches Auth::Bearer { token: t } && t@ == token@,
            },
    {
        match self {
            Auth::Basic { user, password } => Auth::Basic {
                user: user.clone(),
                password: password.clone(),
            },
            Auth::Digest { user, password } => Auth::Digest {
                user: user.clone(),
                password: password.clone(),
            },
            Auth::Bearer { token } => Auth::Bearer { token: token.clone() },
        }
    }
}

/// How often a request is tried again, and how long it waits before that.
#[derive(Clone, Copy, PartialEq, Eq, Structural, Debug)]
pub struct RetryPolicy {
    pub max_retries: u32,
    pub base: Delay,
    pub cap: Delay,
}

impl RetryPolicy {
    /// The usual waits: from half a second to half a minute.
    pub fn new(max_retries: u32) -> (r: RetryPolicy)
        ensures
            r.max_retries == max_retries,
            r.base.nanos == 500_000_000,
            r.cap.nanos == 30_000_000_000,
    {
        RetryPolicy { max_retries, base: Delay::from_millis(500), cap: Delay::from_secs(30) }
    }
}

/// Reads a `Retry-After` header at the moment `now`, in nanoseconds since 1970.
pub fn retry_after_header(value: &str, now: u64) -> (r: Option<Delay>)
    ensures
        retry::opt_nanos(r) == retry::retry_after(value@, now as int),
{
    retry::parse_retry_after(value, now)
}

/// What an HTTP status and its body mean for a request.
#[derive(Clone, Copy, PartialEq, Eq, Structural, Debug)]
pub enum StatusOutcome {
    Retryable,
    Fatal,
    Auth,
    RequestTooLarge,
}

/// What a status means by itself.
pub open spec fn plain_outcome(status: u16) -> StatusOutcome {
    if status == 429 || status == 502 || status == 503 || status == 504 {
        StatusOutcome::Retryable
    } else {
        StatusOutcome::Fatal
    }
}

/// A text member, empty where there is none.
pub open spec fn text_or_empty(v: Val, key: Seq<char>) -> Seq<char> {
    match v.text_at(key) {
        Some(t) => t,
        None => ""@,
    }
}

/// What a limit that was exceeded means.
pub open spec fn limit_outcome(status: u16, problem: Val) -> StatusOutcome {
    let which = text_or_empty(problem, "limit"@);
    if which == "maxSizeRequest"@ || which == "maxSizeUpload"@ {
        StatusOutcome::RequestTooLarge
    } else if which == "maxConcurrentRequests"@ || which == "maxConcurrentUpload"@ {
        StatusOutcome::Retryable
    } else if text_or_empty(problem, "subType"@) == "rateLimit"@ {
        StatusOutcome::Retryable
    } else {
        plain_outcome(status)
    }
}

/// What a status means, together with the problem that the body describes, if
/// it is JSON.
pub open spec fn outcome_of(status: u16, problem: Option<Val>) -> StatusOutcome {
    if status == 401 || status == 403 {
        StatusOutcome::Auth
    } else if status == 413 {
        StatusOutcome::RequestTooLarge
    } else {
        match problem {
            Some(p) => match p.text_at("type"@) {
                Some(kind) => if text::has_suffix(kind, ":requestTooLarge"@) {
                    StatusOutcome::RequestTooLarge
                } else if text::has_suffix(kind, ":limit"@) {
                    limit_outcome(status, p)
                } else {
                    plain_outcome(status)
                },
                None => plain_outcome(status),
            },
            None => plain_outcome(status),
        }
    }
}

/// What a body holds, if it is JSON.
pub open spec fn body_value(body: Seq<u8>) -> Option<Val> {
    match json::json_of(body) {
        Ok(v) => Some(v),
        Err(_) => None,
    }
}

fn plain(status: u16) -> (r: StatusOutcome)
    ensures
        r == plain_outcome(status),
{
    match retry::classify_http_status(status) {
        Disposition::Retryable => StatusOutcome::Retryable,
        Disposition::Fatal => StatusOutcome::Fatal,
    }
}

/// Reads what a status means together with the problem that came with it.
pub fn problem_outcome(status: u16, problem: Option<&Json>) -> (r: StatusOutcome)
    ensures
        r == outcome_of(status, json::ref_view(problem)),
{
    if status == 401 || status == 403 {
        return StatusOutcome::Auth;
    }
    if status == 413 {
        return StatusOutcome::RequestTooLarge;
    }
    if let Some(p) = problem {
        if let Some(kind) = p.text_at("type") {
            if text::ends_with(kind, ":requestTooLarge") {
                return StatusOutcome::RequestTooLarge;
            }
            if text::ends_with(kind, ":limit") {
                let which: &str = match p.text_at("limit") {
                    Some(t) => t,
                    None => "",
                };
                let subtype: &str = match p.text_at("subType") {
                    Some(t) => t,
                    None => "",
                };
                if text::same(which, "maxSizeRequest") || text::same(which, "maxSizeUpload") {
                    return StatusOutcome::RequestTooLarge;
                }
                if text::same(which, "maxConcurrentRequests") || text::same(
                    which,
                    "maxConcurrentUpload",
                ) {
                    return StatusOutcome::Retryable;
                }
                if text::same(subtype, "rateLimit") {
                    return StatusOutcome::Retryable;
                }
            }
        }
    }
    plain(status)
}

/// What the title and the detail of a problem say.
pub open spec fn problem_text(problem: Val) -> Option<Seq<char>> {
    match (problem.text_at("title"@), problem.text_at("detail"@)) {
        (Some(t), Some(d)) => Some(t + ": "@ + d),
        (Some(t), None) => Some(t),
        (None, Some(d)) => Some(d),
        (None, None) => None,
    }
}

/// Reads the title and the detail of a problem.
pub fn described(problem: &Json) -> (r: Option<String>)
    ensures
        json::text_view(r) == problem_text(problem@),
{
    match (problem.text_at("title"), problem.text_at("detail")) {
        (Some(t), Some(d)) => {
            let head: String = text::joined(t, ": ");
            Some(text::joined(head.as_str(), d))
        },
        (Some(t), None) => Some(t.to_owned()),
        (None, Some(d)) => Some(d.to_owned()),
        (None, None) => None,
    }
}

/// What a body says of a problem, if it is JSON that describes one.
pub open spec fn detail_of(body: Seq<u8>) -> Option<Seq<char>> {
    match body_value(body) {
        Some(v) => problem_text(v),
        None => None,
    }
}

/// Reads what a body says of a problem.
pub fn problem_detail(body: &[u8]) -> (r: Option<String>)
    ensures
        json::text_view(r) == detail_of(body@),
{
    match json::parse(body) {
        Ok(v) => described(&v),
        Err(_) => None,
    }
}

/// The name and the value of a header.
pub open spec fn header_pair(h: (String, String)) -> Seq<char> {
    h.0@ + "="@ + h.1@
}

/// The headers of an answer that say how it is throttled.
pub open spec fn rate_parts(headers: Seq<(String, String)>) -> Seq<Seq<char>>
    decreases headers.len(),
{
    if headers.len() == 0 {
        Seq::empty()
    } else if headers.last().0@ == "content-type"@ {
        rate_parts(headers.drop_last())
    } else {
        rate_parts(headers.drop_last()).push(header_pair(headers.last()))
    }
}

/// The headers that say how an answer is throttled, in order, as one text.
pub open spec fn rate_text(headers: Seq<(String, String)>) -> Option<Seq<char>> {
    if rate_parts(headers).len() == 0 {
        None
    } else {
        Some(text::join(text::in_order(rate_parts(headers)), "; "@))
    }
}

/// Writes the headers that say how an answer is throttled.
pub fn format_rate_headers(headers: &Vec<(String, String)>) -> (r: Option<String>)
    ensures
        json::text_view(r) == rate_text(headers@),
{
    let mut parts: Vec<String> = Vec::new();
    let mut i: usize = 0;
    assert(text::texts(parts@) =~= rate_parts(headers@.take(0)));
    while i < headers.len()
        invariant
            i <= headers@.len(),
            text::texts(parts@) == rate_parts(headers@.take(i as int)),
        decreases headers@.len() - i,
    {
        assert(headers@.take(i as int + 1).drop_last() =~= headers@.take(i as int));
        if !text::same(headers[i].0.as_str(), "content-type") {
            let ghost before = text::texts(parts@);
            let name: String = text::joined(headers[i].0.as_str(), "=");
            parts.push(text::joined(name.as_str(), headers[i].1.as_str()));
            assert(text::texts(parts@) =~= before.push(header_pair(headers@[i as int])));
        }
        i = i + 1;
    }
    assert(headers@.take(i as int) =~= headers@);
    assert(text::texts(parts@).len() == parts@.len());
    if parts.len() == 0 {
        return None;
    }
    let sorted: Vec<String> = text::sort_texts(&parts);
    Some(text::join_texts(&sorted, "; "))
}

/// Whether a header, in lower case, is kept for the report on a refusal.
pub open spec fn is_rate_header(name: Seq<char>) -> bool {
    name == "retry-after"@ || name == "ratelimit"@ || name == "ratelimit-policy"@ || name
        == "content-type"@
}

/// Keeps a header for the report on a refusal, under its name in lower case.
pub fn rate_header_name(name: &str) -> (r: Option<String>)
    ensures
        json::text_view(r) == (if is_rate_header(text::lowered(name@)) {
            Some(text::lowered(name@))
        } else {
            None
        }),
{
    let lower: String = text::to_lower(name);
    if text::same(lower.as_str(), "retry-after") || text::same(lower.as_str(), "ratelimit")
        || text::same(lower.as_str(), "ratelimit-policy") || text::same(
        lower.as_str(),
        "content-type",
    ) {
        Some(lower)
    } else {
        None
    }
}

/// A wait in hours, minutes and seconds.
pub open spec fn wait_text(total: nat) -> Seq<char> {
    if total < 60 {
        text::dec(total) + "s"@
    } else if total < 3600 {
        text::dec(total / 60) + "m"@ + text::padded(total % 60, 2) + "s"@
    } else {
        text::dec(total / 3600) + "h"@ + text::padded((total % 3600) / 60, 2) + "m"@ + text::padded(
            total % 60,
            2,
        ) + "s"@
    }
}

/// Writes a wait in hours, minutes and seconds.
pub fn format_retry_wait(d: Delay) -> (r: String)
    ensures
        r@ == wait_text((d.nanos / 1_000_000_000) as nat),
{
    let total: u128 = d.as_secs();
    if total < 60 {
        let mut s: String = text::wide_decimal(total);
        s.append("s");
        s
    } else if total < 3600 {
        let mut s: String = text::wide_decimal(total / 60);
        s.append("m");
        let secs: String = text::zero_padded((total % 60) as u64, 2);
        s.append(secs.as_str());
        s.append("s");
        s
    } else {
        let mut s: String = text::wide_decimal(total / 3600);
        s.append("h");
        let mins: String = text::zero_padded(((total % 3600) / 60) as u64, 2);
        s.append(mins.as_str());
        s.append("m");
        let secs: String = text::zero_padded((total % 60) as u64, 2);
        s.append(secs.as_str());
        s.append("s");
        s
    }
}

/// What failed below HTTP.
#[derive(Debug)]
pub enum Fault {
    Io(String),
    Timeout(String),
    HostNotFound,
    ConnectionFailed,
    BodyStalled,
    Tls(String),
    TooManyRedirects,
    RedirectFailed,
    TlsRequired,
    Body(String),
    Other(String),
}

/// Whether what failed may go away by itself, and how it is reported.
pub open spec fn is_fault_error(f: Fault, e: JmapError) -> bool {
    match f {
        Fault::Io(m) => e matches JmapError::Transport(t) && t@ == "io: "@ + m@,
        Fault::Timeout(m) => e matches JmapError::Transport(t) && t@ == "timeout: "@ + m@,
        Fault::HostNotFound => e matches JmapError::Transport(t) && t@ == "host not found"@,
        Fault::ConnectionFailed => e matches JmapError::Transport(t) && t@ == "connection failed"@,
        Fault::BodyStalled => e matches JmapError::Transport(t) && t@ == "body stalled"@,
        Fault::Tls(m) => e matches JmapError::Transport(t) && t@ == "tls: "@ + m@,
        Fault::TooManyRedirects => e matches JmapError::Connect(t) && t@ == "too many redirects"@,
        Fault::RedirectFailed => e matches JmapError::Connect(t) && t@ == "redirect failed"@,
        Fault::TlsRequired => e matches JmapError::Connect(t) && t@
            == "server requires TLS but transport is unsecured"@,
        Fault::Body(m) => e matches JmapError::Transport(t) && t@ == "reading response body: "@
            + m@,
        Fault::Other(m) => e matches JmapError::Connect(t) && t@ == m@,
    }
}

/// Reports what failed below HTTP.
pub fn fault_error(f: Fault) -> (e: JmapError)
    ensures
        is_fault_error(f, e),
{
    match f {
        Fault::Io(m) => JmapError::Transport(text::joined("io: ", m.as_str())),
        Fault::Timeout(m) => JmapError::Transport(text::joined("timeout: ", m.as_str())),
        Fault::HostNotFound => JmapError::Transport("host not found".to_owned()),
        Fault::ConnectionFailed => JmapError::Transport("connection failed".to_owned()),
        Fault::BodyStalled => JmapError::Transport("body stalled".to_owned()),
        Fault::Tls(m) => JmapError::Transport(text::joined("tls: ", m.as_str())),
        Fault::TooManyRedirects => JmapError::Connect("too many redirects".to_owned()),
        Fault::RedirectFailed => JmapError::Connect("redirect failed".to_owned()),
        Fault::TlsRequired => JmapError::Connect(
            "server requires TLS but transport is unsecured".to_owned(),
        ),
        Fault::Body(m) => JmapError::Transport(
            text::joined("reading response body: ", m.as_str()),
        ),
        Fault::Other(m) => JmapError::Connect(m),
    }
}

/// Whether a request that failed below HTTP is tried again.
pub fn transport_disposition(err: &JmapError) -> (r: Disposition)
    ensures
        r == (if *err is Connect {
            Disposition::Fatal
        } else {
            Disposition::Retryable
        }),
{
    match err {
        JmapError::Connect(_) => Disposition::Fatal,
        _ => Disposition::Retryable,
    }
}

/// What one attempt came to.
#[derive(Debug)]
pub enum Attempt {
    Answer {
        status: u16,
        body: Vec<u8>,
        retry_after: Option<Delay>,
        rate_limit_headers: Vec<(String, String)>,
    },
    Transport(JmapError),
}

/// What to do after an attempt.
#[derive(Debug)]
pub enum Next {
    Done(Vec<u8>),
    Fail(JmapError),
    /// Wait, then try again. The warning is for the user, the reason for the
    /// log.
    Wait { delay: Delay, reason: String, warning: Option<String> },
}

/// A request on its way.
#[derive(Debug)]
pub struct Call {
    pub method: String,
    pub url: String,
    pub attempt: u32,
}

/// A request as it is sent.
#[derive(Debug)]
pub struct Request {
    pub method: String,
    pub url: String,
    pub authorization: String,
    pub content_type: Option<String>,
    pub body: Option<Vec<u8>>,
    pub is_upload: bool,
}

/// Why a request is refused for now.
pub open spec fn refusal(
    status: u16,
    body: Seq<u8>,
    headers: Seq<(String, String)>,
) -> Seq<char> {
    let head = "http "@ + text::dec(status as nat);
    let with_detail = match detail_of(body) {
        Some(d) => head + ": "@ + d,
        None => head,
    };
    match rate_text(headers) {
        Some(h) => with_detail + " ["@ + h + "]"@,
        None => with_detail,
    }
}

/// Writes why a request is refused for now.
pub fn refusal_reason(status: u16, body: &[u8], headers: &Vec<(String, String)>) -> (r: String)
    ensures
        r@ == refusal(status, body@, headers@),
{
    let mut s: String = text::joined("http ", text::decimal(status as u64).as_str());
    match problem_detail(body) {
        Some(d) => {
            s.append(": ");
            s.append(d.as_str());
        },
        None => {},
    }
    match format_rate_headers(headers) {
        Some(h) => {
            s.append(" [");
            s.append(h.as_str());
            s.append("]");
        },
        None => {},
    }
    s
}

/// The state that all requests to one server share.
#[derive(Debug)]
pub struct HttpClient {
    pub auth: Auth,
    pub retry: RetryPolicy,
    pub allow_invalid_certs: bool,
    pub rate_limit: RateLimitState,
    pub max_concurrent_requests: Option<u64>,
    pub max_concurrent_upload: Option<u64>,
    pub max_upload_bytes: u64,
    pub retries_total: u64,
    pub retry_after_sleeps: u64,
}

/// The warning about a long wait on a refusal.
pub open spec fn refusal_warning(
    reason: Seq<char>,
    nanos: int,
    attempt: int,
    max: u32,
    level: u32,
) -> Seq<char> {
    "server rate-limited ("@ + reason + "); waiting "@ + wait_text((nanos / 1_000_000_000) as nat)
        + " before retry "@ + text::dec(attempt as nat) + "/"@ + text::dec(max as nat)
        + " (shared level "@ + text::dec(level as nat) + ")"@
}

/// The warning about a long wait on a failure below HTTP.
pub open spec fn transport_warning(
    failure: Seq<char>,
    nanos: int,
    attempt: int,
    max: u32,
) -> Seq<char> {
    "transient transport failure ("@ + failure + "); waiting "@ + wait_text(
        (nanos / 1_000_000_000) as nat,
    ) + " before retry "@ + text::dec(attempt as nat) + "/"@ + text::dec(max as nat)
}

fn warn_refusal(reason: &str, delay: Delay, attempt: u32, max: u32, level: u32) -> (r: String)
    ensures
        r@ == refusal_warning(reason@, delay.nanos as int, attempt as int, max, level),
{
    let wait: String = format_retry_wait(delay);
    let mut s: String = text::joined("server rate-limited (", reason);
    s.append("); waiting ");
    s.append(wait.as_str());
    s.append(" before retry ");
    s.append(text::decimal(attempt as u64).as_str());
    s.append("/");
    s.append(text::decimal(max as u64).as_str());
    s.append(" (shared level ");
    s.append(text::decimal(level as u64).as_str());
    s.append(")");
    s
}

fn warn_transport(failure: &str, delay: Delay, attempt: u32, max: u32) -> (r: String)
    ensures
        r@ == transport_warning(failure@, delay.nanos as int, attempt as int, max),
{
    let wait: String = format_retry_wait(delay);
    let mut s: String = text::joined("transient transport failure (", failure);
    s.append("); waiting ");
    s.append(wait.as_str());
    s.append(" before retry ");
    s.append(text::decimal(attempt as u64).as_str());
    s.append("/");
    s.append(text::decimal(max as u64).as_str());
    s
}

/// A count that starts over after the largest number.
pub open spec fn counted(n: u64) -> int {
    (n + 1) % 0x1_0000_0000_0000_0000
}

fn count(n: u64) -> (r: u64)
    ensures
        r == counted(n),
{
    if n == 0xffff_ffff_ffff_ffff {
        0
    } else {
        n + 1
    }
}

/// Whether the parts of a client that a request does not change are the same.
pub open spec fn same_settings(a: HttpClient, b: HttpClient) -> bool {
    &&& a.auth == b.auth
    &&& a.retry == b.retry
    &&& a.allow_invalid_certs == b.allow_invalid_certs
    &&& a.max_concurrent_requests == b.max_concurrent_requests
    &&& a.max_concurrent_upload == b.max_concurrent_upload
    &&& a.max_upload_bytes == b.max_upload_bytes
}

/// What an answer other than a success leads to. `draw` is the number drawn
/// where the server does not say how long to wait.
pub open spec fn after_answer(
    before: HttpClient,
    after: HttpClient,
    call: Call,
    attempt: int,
    status: u16,
    body: Seq<u8>,
    retry_after: Option<Delay>,
    headers: Seq<(String, String)>,
    now: int,
    draw: u64,
    next: Next,
) -> bool {
    match outcome_of(status, body_value(body)) {
        StatusOutcome::Auth => {
            &&& next matches Next::Fail(JmapError::Auth(m))
            &&& m@ == "server returned "@ + text::dec(status as nat) + ": "@ + encoding::shortened(
                encoding::lossy_text(body),
            )
            &&& after == before
            &&& attempt == call.attempt
        },
        StatusOutcome::RequestTooLarge => {
            &&& next matches Next::Fail(JmapError::RequestTooLarge)
            &&& after == before
            &&& attempt == call.attempt
        },
        StatusOutcome::Fatal => {
            &&& next matches Next::Fail(JmapError::HttpStatus { status: s, body: b })
            &&& s == status
            &&& b@ == encoding::shortened(encoding::lossy_text(body))
            &&& after == before
            &&& attempt == call.attempt
        },
        StatusOutcome::Retryable => {
            let reason = refusal(status, body, headers);
            &&& attempt == call.attempt + 1
            &&& after.retries_total == counted(before.retries_total)
            &&& same_settings(before, after)
            &&& if attempt > before.retry.max_retries {
                &&& next matches Next::Fail(JmapError::RetriesExhausted(m))
                &&& m@ == call.method@ + " "@ + call.url@ + " kept returning "@ + reason
                &&& after.rate_limit == before.rate_limit
                &&& after.retry_after_sleeps == before.retry_after_sleeps
            } else {
                let nanos = match retry_after {
                    Some(d) => d.nanos as int,
                    None => retry::throttle_wait(
                        before.retry,
                        retry::throttle_level(before.rate_limit.level),
                        draw,
                    ),
                };
                &&& next matches Next::Wait { delay, reason: text, warning }
                &&& delay.nanos == nanos
                &&& text@ == reason
                &&& json::text_view(warning) == (if nanos >= LONG_RETRY_NANOS {
                    Some(
                        refusal_warning(
                            reason,
                            nanos,
                            attempt,
                            before.retry.max_retries,
                            after.rate_limit.level,
                        ),
                    )
                } else {
                    None
                })
                &&& after.retry_after_sleeps == (if retry_after is Some {
                    counted(before.retry_after_sleeps)
                } else {
                    before.retry_after_sleeps as int
                })
                &&& after.rate_limit.level == (before.rate_limit.level + 1) % 0x1_0000_0000
                &&& retry::moment(after.rate_limit.cooldown.until) == Some(
                    retry::armed(retry::moment(before.rate_limit.cooldown.until), now + nanos),
                )
            }
        },
    }
}

/// What a failure below HTTP leads to. `draw` is the drawn number.
pub open spec fn after_failure(
    before: HttpClient,
    after: HttpClient,
    call: Call,
    attempt: int,
    failure: JmapError,
    draw: u64,
    next: Next,
) -> bool {
    if failure is Connect {
        &&& next matches Next::Fail(e)
        &&& e == failure
        &&& after == before
        &&& attempt == call.attempt
    } else {
        &&& attempt == call.attempt + 1
        &&& after.retries_total == counted(before.retries_total)
        &&& after.retry_after_sleeps == before.retry_after_sleeps
        &&& after.rate_limit == before.rate_limit
        &&& same_settings(before, after)
        &&& if attempt > before.retry.max_retries {
            &&& next matches Next::Fail(JmapError::RetriesExhausted(m))
            &&& m@ == call.method@ + " "@ + call.url@ + ": "@ + error::jmap_text(failure)
        } else {
            let nanos = retry::spread(retry::backoff_span(before.retry, attempt), draw);
            &&& next matches Next::Wait { delay, reason: text, warning }
            &&& delay.nanos == nanos
            &&& text@ == error::jmap_text(failure)
            &&& json::text_view(warning) == (if nanos >= LONG_RETRY_NANOS {
                Some(
                    transport_warning(
                        error::jmap_text(failure),
                        nanos,
                        attempt,
                        before.retry.max_retries,
                    ),
                )
            } else {
                None
            })
        }
    }
}

/// The length of time over which the wait after an attempt is spread, if there
/// is a wait.
pub open spec fn wait_span(before: HttpClient, outcome: Attempt, attempt: int) -> int {
    match outcome {
        Attempt::Answer { status, body, retry_after, rate_limit_headers } => retry::asked_span(
            before.retry,
            before.rate_limit.level,
            retry_after,
        ),
        Attempt::Transport(_) => retry::backoff_span(before.retry, attempt),
    }
}

impl HttpClient {
    /// A client that has sent nothing yet. Digest authorization needs a
    /// challenge, which only DAV servers are asked for.
    pub fn new(auth: Auth, retry: RetryPolicy, allow_invalid_certs: bool) -> (r: HttpClient)
        requires
            !(auth is Digest),
        ensures
            r.auth == auth,
            r.retry == retry,
            r.allow_invalid_certs == allow_invalid_certs,
            r.rate_limit.level == 0,
            r.rate_limit.cooldown.until is None,
            r.max_concurrent_requests is None,
            r.max_concurrent_upload is None,
            r.max_upload_bytes == 0,
            r.retries_total == 0,
            r.retry_after_sleeps == 0,
    {
        HttpClient {
            auth,
            retry,
            allow_invalid_certs,
            rate_limit: RateLimitState::new(),
            max_concurrent_requests: None,
            max_concurrent_upload: None,
            max_upload_bytes: 0,
            retries_total: 0,
            retry_after_sleeps: 0,
        }
    }

    /// Takes over the limits of a server. How many requests may run side by
    /// side is settled the first time.
    pub fn set_limits(&mut self, limits: &Limits)
        ensures
            final(self).max_concurrent_requests == (match old(self).max_concurrent_requests {
                Some(n) => Some(n),
                None => Some(limits.max_concurrent_requests),
            }),
            final(self).max_concurrent_upload == (match old(self).max_concurrent_upload {
                Some(n) => Some(n),
                None => Some(limits.max_concurrent_upload),
            }),
            final(self).max_upload_bytes == limits.max_size_upload,
            final(self).auth == old(self).auth,
            final(self).retry == old(self).retry,
            final(self).allow_invalid_certs == old(self).allow_invalid_certs,
            final(self).rate_limit == old(self).rate_limit,
            final(self).retries_total == old(self).retries_total,
            final(self).retry_after_sleeps == old(self).retry_after_sleeps,
    {
        if self.max_concurrent_requests.is_none() {
            self.max_concurrent_requests = Some(limits.max_concurrent_requests);
        }
        if self.max_concurrent_upload.is_none() {
            self.max_concurrent_upload = Some(limits.max_concurrent_upload);
        }
        self.max_upload_bytes = limits.max_size_upload;
    }

    /// How many requests were sent again.
    pub fn retries_observed(&self) -> (r: u64)
        ensures
            r == self.retries_total,
    {
        self.retries_total
    }

    /// How many waits were as long as the server asked.
    pub fn retry_after_sleeps(&self) -> (r: u64)
        ensures
            r == self.retry_after_sleeps,
    {
        self.retry_after_sleeps
    }

    pub fn auth(&self) -> (r: &Auth)
        ensures
            *r == self.auth,
    {
        &self.auth
    }

    pub fn retry(&self) -> (r: &RetryPolicy)
        ensures
            *r == self.retry,
    {
        &self.retry
    }

    pub fn allow_invalid_certs(&self) -> (r: bool)
        ensures
            r == self.allow_invalid_certs,
    {
        self.allow_invalid_certs
    }

    pub fn rate_limit(&self) -> (r: &RateLimitState)
        ensures
            *r == self.rate_limit,
    {
        &self.rate_limit
    }

    pub fn throttle_level(&self) -> (r: u32)
        ensures
            r == self.rate_limit.level,
    {
        self.rate_limit.level()
    }

    /// What a status and its body mean.
    pub fn status_disposition(&self, status: u16, body: &[u8]) -> (r: StatusOutcome)
        ensures
            r == outcome_of(status, body_value(body@)),
    {
        match json::parse(body) {
            Ok(v) => problem_outcome(status, Some(&v)),
            Err(_) => problem_outcome(status, None),
        }
    }

    fn request(
        &self,
        method: &str,
        url: &str,
        body: Option<Vec<u8>>,
        content_type: Option<&str>,
        is_upload: bool,
    ) -> (r: Request)
        requires
            !(self.auth is Digest),
        ensures
            r.method@ == method@,
            r.url@ == url@,
            Some(r.authorization@) == authorization(self.auth),
            r.body == body,
            json::text_view(r.content_type) == json::str_view(content_type),
            r.is_upload == is_upload,
    {
        let authorization: String = match self.auth.header_value() {
            Some(h) => h,
            None => String::new(),
        };
        Request {
            method: method.to_owned(),
            url: url.to_owned(),
            authorization,
            content_type: match content_type {
                Some(t) => Some(t.to_owned()),
                None => None,
            },
            body,
            is_upload,
        }
    }

    /// The request that reads a document.
    pub fn get(&self, url: &str) -> (r: Request)
        requires
            !(self.auth is Digest),
        ensures
            r.method@ == "GET"@,
            r.url@ == url@,
            Some(r.authorization@) == authorization(self.auth),
            r.body is None,
            r.content_type is None,
            !r.is_upload,
    {
        self.request("GET", url, None, None, false)
    }

    /// The request that posts a JSON document.
    pub fn post_json(&self, url: &str, payload: Vec<u8>) -> (r: Request)
        requires
            !(self.auth is Digest),
        ensures
            r.method@ == "POST"@,
            r.url@ == url@,
            Some(r.authorization@) == authorization(self.auth),
            r.body == Some(payload),
            r.content_type matches Some(t) && t@ == "application/json"@,
            !r.is_upload,
    {
        self.request("POST", url, Some(payload), Some("application/json"), false)
    }

    /// The request that uploads a blob, unless the blob is larger than the
    /// server takes.
    pub fn upload(&self, upload_url: &str, content_type: &str, bytes: Vec<u8>) -> (r: Result<
        Request,
        JmapError,
    >)
        requires
            !(self.auth is Digest),
        ensures
            match r {
                Ok(q) => {
                    &&& self.max_upload_bytes == 0 || bytes@.len() <= self.max_upload_bytes
                    &&& q.method@ == "POST"@
                    &&& q.url@ == upload_url@
                    &&& Some(q.authorization@) == authorization(self.auth)
                    &&& q.body == Some(bytes)
                    &&& q.content_type matches Some(t)
                    &&& t@ == content_type@
                    &&& q.is_upload
                },
                Err(e) => {
                    &&& self.max_upload_bytes > 0 && bytes@.len() > self.max_upload_bytes
                    &&& e matches JmapError::SingleObjectTooLarge(m)
                    &&& m@ == "blob upload of "@ + text::dec(bytes@.len())
                        + " bytes exceeds maxSizeUpload ("@ + text::dec(
                        self.max_upload_bytes as nat,
                    ) + ")"@
                },
            },
    {
        let cap: u64 = self.max_upload_bytes;
        if cap > 0 && bytes.len() as u64 > cap {
            let mut m: String = "blob upload of ".to_owned();
            m.append(text::decimal(bytes.len() as u64).as_str());
            m.append(" bytes exceeds maxSizeUpload (");
            m.append(text::decimal(cap).as_str());
            m.append(")");
            return Err(JmapError::SingleObjectTooLarge(m));
        }
        Ok(self.request("POST", upload_url, Some(bytes), Some(content_type), true))
    }

    /// The request that downloads a blob.
    pub fn download(&self, url: &str) -> (r: Request)
        requires
            !(self.auth is Digest),
        ensures
            r.method@ == "GET"@,
            r.url@ == url@,
            Some(r.authorization@) == authorization(self.auth),
            r.body is None,
            r.content_type is None,
            !r.is_upload,
    {
        self.request("GET", url, None, None, false)
    }

    /// Decides what follows an attempt that was made at the moment `now`, in
    /// nanoseconds of the clock of the shared cooldown: the request is done,
    /// it has failed, or it is sent again after a wait.
    pub fn after_attempt(
        &mut self,
        call: &mut Call,
        outcome: Attempt,
        now: u128,
        rng: &mut Jitter,
    ) -> (next: Next)
        requires
            old(call).attempt < u32::MAX,
            outcome matches Attempt::Answer { status, body, retry_after, rate_limit_headers } ==>
                now + retry::longest_wait(old(self).retry, retry_after) <= u128::MAX,
        ensures
            final(rng).state == (if next is Wait {
                retry::drawn(
                    old(rng).state,
                    wait_span(*old(self), outcome, final(call).attempt as int),
                )
            } else {
                old(rng).state
            }),
            final(call).method == old(call).method,
            final(call).url == old(call).url,
            match outcome {
                Attempt::Answer { status, body, retry_after, rate_limit_headers } => if 200 <= status
                    < 300 {
                    &&& next == Next::Done(body)
                    &&& final(call).attempt == old(call).attempt
                    &&& same_settings(*old(self), *final(self))
                    &&& final(self).retries_total == old(self).retries_total
                    &&& final(self).retry_after_sleeps == old(self).retry_after_sleeps
                    &&& final(self).rate_limit.level == 0
                    &&& final(self).rate_limit.cooldown == old(self).rate_limit.cooldown
                } else {
                    after_answer(
                        *old(self),
                        *final(self),
                        *old(call),
                        final(call).attempt as int,
                        status,
                        body@,
                        retry_after,
                        rate_limit_headers@,
                        now as int,
                        retry::next_number(old(rng).state),
                        next,
                    )
                },
                Attempt::Transport(failure) => after_failure(
                    *old(self),
                    *final(self),
                    *old(call),
                    final(call).attempt as int,
                    failure,
                    retry::next_number(old(rng).state),
                    next,
                ),
            },
    {
        match outcome {
            Attempt::Answer { status, body, retry_after, rate_limit_headers } => {
                if status >= 200 && status < 300 {
                    self.rate_limit.on_success();
                    return Next::Done(body);
                }
                match self.status_disposition(status, body.as_slice()) {
                    StatusOutcome::Auth => {
                        let shown: String = encoding::truncate(body.as_slice());
                        let mut m: String = "server returned ".to_owned();
                        m.append(text::decimal(status as u64).as_str());
                        m.append(": ");
                        m.append(shown.as_str());
                        Next::Fail(JmapError::Auth(m))
                    },
                    StatusOutcome::RequestTooLarge => Next::Fail(JmapError::RequestTooLarge),
                    StatusOutcome::Fatal => Next::Fail(
                        JmapError::HttpStatus { status, body: encoding::truncate(body.as_slice()) },
                    ),
                    StatusOutcome::Retryable => {
                        call.attempt = call.attempt + 1;
                        self.retries_total = count(self.retries_total);
                        let reason: String = refusal_reason(
                            status,
                            body.as_slice(),
                            &rate_limit_headers,
                        );
                        if call.attempt > self.retry.max_retries {
                            let mut m: String = call.method.clone();
                            m.append(" ");
                            m.append(call.url.as_str());
                            m.append(" kept returning ");
                            m.append(reason.as_str());
                            return Next::Fail(JmapError::RetriesExhausted(m));
                        }
                        if retry_after.is_some() {
                            self.retry_after_sleeps = count(self.retry_after_sleeps);
                        }
                        let policy: RetryPolicy = self.retry;
                        let delay: Delay = self.rate_limit.on_throttle(
                            &policy,
                            retry_after,
                            now,
                            rng,
                        );
                        let warning: Option<String> = if delay.nanos >= LONG_RETRY_NANOS {
                            Some(
                                warn_refusal(
                                    reason.as_str(),
                                    delay,
                                    call.attempt,
                                    self.retry.max_retries,
                                    self.rate_limit.level,
                                ),
                            )
                        } else {
                            None
                        };
                        Next::Wait { delay, reason, warning }
                    },
                }
            },
            Attempt::Transport(failure) => match transport_disposition(&failure) {
                Disposition::Fatal => Next::Fail(failure),
                Disposition::Retryable => {
                    call.attempt = call.attempt + 1;
                    self.retries_total = count(self.retries_total);
                    let told: String = failure.message();
                    if call.attempt > self.retry.max_retries {
                        let mut m: String = call.method.clone();
                        m.append(" ");
                        m.append(call.url.as_str());
                        m.append(": ");
                        m.append(told.as_str());
                        return Next::Fail(JmapError::RetriesExhausted(m));
                    }
                    let policy: RetryPolicy = self.retry;
                    let delay: Delay = retry::backoff_delay(&policy, call.attempt, rng);
                    let warning: Option<String> = if delay.nanos >= LONG_RETRY_NANOS {
                        Some(
                            warn_transport(
                                told.as_str(),
                                delay,
                                call.attempt,
                                self.retry.max_retries,
                            ),
                        )
                    } else {
                        None
                    };
                    Next::Wait { delay, reason: told, warning }
                },
            },
        }
    }
}

/// A request is sent at most once more than the policy allows retries: an
/// attempt that leads to a wait, whether it was refused or failed below HTTP,
/// raises the count of attempts, which never exceeds the policy's number.
pub proof fn retries_are_bounded(
    before: HttpClient,
    after: HttpClient,
    call: Call,
    attempt: int,
    outcome: Attempt,
    now: int,
    draw: u64,
    next: Next,
)
    requires
        match outcome {
            Attempt::Answer { status, body, retry_after, rate_limit_headers } => after_answer(
                before,
                after,
                call,
                attempt,
                status,
                body@,
                retry_after,
                rate_limit_headers@,
                now,
                draw,
                next,
            ),
            Attempt::Transport(failure) => after_failure(
                before,
                after,
                call,
                attempt,
                failure,
                draw,
                next,
            ),
        },
        next is Wait,
    ensures
        attempt == call.attempt + 1,
        attempt <= before.retry.max_retries,
{
}

/// Reads an answer as text.
pub fn text_reply(body: Vec<u8>) -> (r: Result<String, JmapError>)
    ensures
        match r {
            Ok(s) => vstd::utf8::valid_utf8(body@) && s@ == vstd::utf8::decode_utf8(body@),
            Err(e) => {
                &&& !vstd::utf8::valid_utf8(body@)
                &&& e matches JmapError::Malformed(m)
                &&& m@ == "non-utf8 body: "@ + encoding::utf8_fault(body@)
            },
        },
{
    match encoding::read_utf8(body.as_slice()) {
        Ok(s) => Ok(s.to_owned()),
        Err(e) => Err(JmapError::Malformed(text::joined("non-utf8 body: ", e.as_str()))),
    }
}

fn read_reply(body: &[u8], complaint: &str) -> (r: Result<Json, JmapError>)
    ensures
        match r {
            Ok(v) => json::json_of(body@) == Ok::<Val, Seq<char>>(v@),
            Err(e) => json::json_of(body@) matches Err(t) && e matches JmapError::Malformed(m)
                && m@ == complaint@ + t,
        },
{
    match json::parse(body) {
        Ok(v) => Ok(v),
        Err(e) => Err(JmapError::Malformed(text::joined(complaint, e.as_str()))),
    }
}

/// Reads an answer as JSON.
pub fn json_reply(body: &[u8]) -> (r: Result<Json, JmapError>)
    ensures
        match r {
            Ok(v) => json::json_of(body@) == Ok::<Val, Seq<char>>(v@),
            Err(e) => json::json_of(body@) matches Err(t) && e matches JmapError::Malformed(m)
                && m@ == "response is not valid json: "@ + t,
        },
{
    read_reply(body, "response is not valid json: ")
}

/// Reads the answer to an upload.
pub fn upload_reply(body: &[u8]) -> (r: Result<Json, JmapError>)
    ensures
        match r {
            Ok(v) => json::json_of(body@) == Ok::<Val, Seq<char>>(v@),
            Err(e) => json::json_of(body@) matches Err(t) && e matches JmapError::Malformed(m)
                && m@ == "upload response is not valid json: "@ + t,
        },
{
    read_reply(body, "upload response is not valid json: ")
}

} // verus!

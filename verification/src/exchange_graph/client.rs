//! Requests to Microsoft Graph: what an answer means and when a request is
//! sent again.

use crate::delay::Delay;
use crate::encoding;
use crate::exchange_graph::error;
use crate::exchange_graph::error::GraphError;
use crate::exchange_graph::retry as graph_retry;
use crate::exchange_graph::retry::HttpClass;
use crate::jmap::http;
use crate::jmap::http::{Fault, RetryPolicy};
use crate::jmap::retry;
use crate::jmap::retry::{Jitter, RateLimitState};
use crate::json;
use crate::json::{Json, Val};
use crate::links;
use crate::text;
use vstd::prelude::*;

verus! {

/// The longest answer that is read.
pub const MAX_BODY: u64 = 268_435_456;

/// What form an answer is asked for in.
#[derive(Clone, Copy, PartialEq, Eq, Structural, Debug)]
pub enum Accept {
    Json,
    Text,
    Binary,
}

/// The `Accept` header that asks for a form.
pub open spec fn accept_text(a: Accept) -> Seq<char> {
    match a {
        Accept::Json => "application/json"@,
        Accept::Text => "text/plain"@,
        Accept::Binary => "application/octet-stream"@,
    }
}

impl Accept {
    /// The `Accept` header that asks for the form.
    pub fn header_value(self) -> (r: &'static str)
        ensures
            r@ == accept_text(self),
    {
        match self {
            Accept::Json => "application/json",
            Accept::Text => "text/plain",
            Accept::Binary => "application/octet-stream",
        }
    }
}

/// An answer.
#[derive(Debug)]
pub struct GraphResponse {
    pub status: u16,
    pub body: Vec<u8>,
    pub content_type: Option<String>,
}

impl GraphResponse {
    /// The answer as text.
    pub fn as_str(&self) -> (r: Result<&str, GraphError>)
        ensures
            match r {
                Ok(s) => vstd::utf8::valid_utf8(self.body@) && s@ == vstd::utf8::decode_utf8(
                    self.body@,
                ),
                Err(e) => {
                    &&& !vstd::utf8::valid_utf8(self.body@)
                    &&& e matches GraphError::Malformed(m)
                    &&& m@ == "response is not utf-8: "@ + encoding::utf8_fault(self.body@)
                },
            },
    {
        match encoding::read_utf8(self.body.as_slice()) {
            Ok(s) => Ok(s),
            Err(e) => Err(
                GraphError::Malformed(text::joined("response is not utf-8: ", e.as_str())),
            ),
        }
    }

    /// The answer as JSON.
    pub fn json(&self) -> (r: Result<Json, GraphError>)
        ensures
            match r {
                Ok(v) => json::json_of(self.body@) == Ok::<Val, Seq<char>>(v@),
                Err(e) => json::json_of(self.body@) matches Err(t) && e matches
                    GraphError::Malformed(m) && m@ == "response is not valid json: "@ + t,
            },
    {
        match json::parse(self.body.as_slice()) {
            Ok(v) => Ok(v),
            Err(e) => Err(
                GraphError::Malformed(text::joined("response is not valid json: ", e.as_str())),
            ),
        }
    }
}

/// What one attempt came to.
#[derive(Debug)]
pub enum Attempt {
    Answer {
        status: u16,
        body: Vec<u8>,
        retry_after: Option<Delay>,
        content_type: Option<String>,
    },
    Transport(GraphError),
}

/// What to do after an attempt.
#[derive(Debug)]
pub enum Next {
    Done(GraphResponse),
    Fail(GraphError),
    /// Wait, then try again. The warning is for the user.
    Wait { delay: Delay, warning: Option<String> },
}

/// A request as it is sent.
#[derive(Debug)]
pub struct GraphRequest {
    pub url: String,
    pub authorization: String,
    pub accept: &'static str,
    pub prefer: Vec<String>,
}

/// The state that all requests share.
#[derive(Debug)]
pub struct GraphClient {
    pub bearer: String,
    pub retry: RetryPolicy,
    pub allow_invalid_certs: bool,
    pub rate_limit: RateLimitState,
    pub retries_total: u64,
    pub retry_after_sleeps: u64,
    pub requests_total: u64,
}

/// Whether the parts of a client that an attempt does not change are the same.
pub open spec fn same_settings(a: GraphClient, b: GraphClient) -> bool {
    &&& a.bearer == b.bearer
    &&& a.retry == b.retry
    &&& a.allow_invalid_certs == b.allow_invalid_certs
    &&& a.requests_total == b.requests_total
}

/// The warning about a long wait.
pub open spec fn wait_warning(
    status: u16,
    nanos: int,
    attempt: int,
    max: u32,
    level: u32,
) -> Seq<char> {
    "graph rate-limited (http "@ + text::dec(status as nat) + "); waiting "@ + http::wait_text(
        (nanos / 1_000_000_000) as nat,
    ) + " before retry "@ + text::dec(attempt as nat) + "/"@ + text::dec(max as nat)
        + " (shared level "@ + text::dec(level as nat) + ")"@
}

fn warn_wait(status: u16, delay: Delay, attempt: u32, max: u32, level: u32) -> (r: String)
    ensures
        r@ == wait_warning(status, delay.nanos as int, attempt as int, max, level),
{
    let wait: String = http::format_retry_wait(delay);
    let mut s: String = "graph rate-limited (http ".to_owned();
    s.append(text::decimal(status as u64).as_str());
    s.append("); waiting ");
    s.append(wait.as_str());
    s.append(" before retry ");
    s.append(text::decimal(attempt as u64).as_str());
    s.append("/");
    s.append(text::decimal(max as u64).as_str());
    s.append(" (shared level ");
    s.append(text::decimal(level as u64).as_str());
    s.append(")");
    s
}

fn warn_transport(failure: &str, delay: Delay, attempt: u32, max: u32) -> (r: String)
    ensures
        r@ == http::transport_warning(failure@, delay.nanos as int, attempt as int, max),
{
    let wait: String = http::format_retry_wait(delay);
    let mut s: String = text::joined("transient transport failure (", failure);
    s.append("); waiting ");
    s.append(wait.as_str());
    s.append(" before retry ");
    s.append(text::decimal(attempt as u64).as_str());
    s.append("/");
    s.append(text::decimal(max as u64).as_str());
    s
}

fn count(n: u64) -> (r: u64)
    ensures
        r == http::counted(n),
{
    if n == 0xffff_ffff_ffff_ffff {
        0
    } else {
        n + 1
    }
}

/// How long a request waits that may succeed later: as long as the server
/// asks, else longer from refusal to refusal where it throttles, else longer
/// from attempt to attempt.
pub open spec fn retry_wait(
    before: GraphClient,
    attempt: int,
    status: u16,
    retry_after: Option<Delay>,
    draw: u64,
) -> int {
    match retry_after {
        Some(d) => d.nanos as int,
        None => if status == 429 || status == 503 {
            retry::throttle_wait(
                before.retry,
                retry::throttle_level(before.rate_limit.level),
                draw,
            )
        } else {
            retry::spread(retry::backoff_span(before.retry, attempt), draw)
        },
    }
}

/// What an answer leads to. `draw` is the number drawn where the server does
/// not say how long to wait.
pub open spec fn after_answer(
    before: GraphClient,
    after: GraphClient,
    method: Seq<char>,
    url: Seq<char>,
    tried: u32,
    attempt: int,
    response: GraphResponse,
    retry_after: Option<Delay>,
    now: int,
    draw: u64,
    next: Next,
) -> bool {
    let status = response.status;
    let shown = encoding::shortened(encoding::lossy_text(response.body@));
    match graph_retry::class_of(status) {
        HttpClass::Success => {
            &&& next == Next::Done(response)
            &&& attempt == tried
            &&& same_settings(before, after)
            &&& after.retries_total == before.retries_total
            &&& after.retry_after_sleeps == before.retry_after_sleeps
            &&& after.rate_limit.level == 0
            &&& after.rate_limit.cooldown == before.rate_limit.cooldown
        },
        HttpClass::Vanished => {
            &&& next == Next::Fail(GraphError::Vanished)
            &&& after == before
            &&& attempt == tried
        },
        HttpClass::Auth => {
            &&& next matches Next::Fail(GraphError::Auth(m))
            &&& m@ == "server returned "@ + text::dec(status as nat) + ": "@ + shown
            &&& after == before
            &&& attempt == tried
        },
        HttpClass::Fatal => {
            &&& next matches Next::Fail(GraphError::HttpStatus { status: s, body: b })
            &&& s == status
            &&& b@ == shown
            &&& after == before
            &&& attempt == tried
        },
        HttpClass::Retryable => {
            &&& attempt == tried + 1
            &&& after.retries_total == http::counted(before.retries_total)
            &&& same_settings(before, after)
            &&& if attempt > before.retry.max_retries {
                &&& next matches Next::Fail(GraphError::RetriesExhausted(m))
                &&& m@ == method + " "@ + url + " kept returning http "@ + text::dec(
                    status as nat,
                )
                &&& after.rate_limit == before.rate_limit
                &&& after.retry_after_sleeps == before.retry_after_sleeps
            } else {
                let nanos = retry_wait(before, attempt, status, retry_after, draw);
                &&& next matches Next::Wait { delay, warning }
                &&& delay.nanos == nanos
                &&& json::text_view(warning) == (if nanos >= http::LONG_RETRY_NANOS {
                    Some(
                        wait_warning(
                            status,
                            nanos,
                            attempt,
                            before.retry.max_retries,
                            after.rate_limit.level,
                        ),
                    )
                } else {
                    None
                })
                &&& after.retry_after_sleeps == (if retry_after is Some {
                    http::counted(before.retry_after_sleeps)
                } else {
                    before.retry_after_sleeps as int
                })
                &&& if status == 429 || status == 503 {
                    &&& after.rate_limit.level == (before.rate_limit.level + 1) % 0x1_0000_0000
                    &&& retry::moment(after.rate_limit.cooldown.until) == Some(
                        retry::armed(retry::moment(before.rate_limit.cooldown.until), now + nanos),
                    )
                } else {
                    after.rate_limit == before.rate_limit
                }
            }
        },
    }
}

/// What a failure below HTTP leads to. `draw` is the drawn number.
pub open spec fn after_failure(
    before: GraphClient,
    after: GraphClient,
    method: Seq<char>,
    url: Seq<char>,
    tried: u32,
    attempt: int,
    failure: GraphError,
    draw: u64,
    next: Next,
) -> bool {
    if failure is Connect {
        &&& next == Next::Fail(failure)
        &&& after == before
        &&& attempt == tried
    } else {
        &&& attempt == tried + 1
        &&& after.retries_total == http::counted(before.retries_total)
        &&& after.retry_after_sleeps == before.retry_after_sleeps
        &&& after.rate_limit == before.rate_limit
        &&& same_settings(before, after)
        &&& if attempt > before.retry.max_retries {
            &&& next matches Next::Fail(GraphError::RetriesExhausted(m))
            &&& m@ == method + " "@ + url + ": "@ + error::graph_text(failure)
        } else {
            let nanos = retry::spread(retry::backoff_span(before.retry, attempt), draw);
            &&& next matches Next::Wait { delay, warning }
            &&& delay.nanos == nanos
            &&& json::text_view(warning) == (if nanos >= http::LONG_RETRY_NANOS {
                Some(
                    http::transport_warning(
                        error::graph_text(failure),
                        nanos,
                        attempt,
                        before.retry.max_retries,
                    ),
                )
            } else {
                None
            })
        }
    }
}

/// The length of time over which the wait after an attempt is spread, if there
/// is a wait.
pub open spec fn wait_span(before: GraphClient, outcome: Attempt, attempt: int) -> int {
    match outcome {
        Attempt::Answer { status, body, retry_after, content_type } => if retry_after is Some {
            0
        } else if status == 429 || status == 503 {
            retry::asked_span(before.retry, before.rate_limit.level, retry_after)
        } else {
            retry::backoff_span(before.retry, attempt)
        },
        Attempt::Transport(_) => retry::backoff_span(before.retry, attempt),
    }
}

/// The characters of each of several texts.
pub open spec fn prefer_texts(v: Seq<&str>) -> Seq<Seq<char>> {
    Seq::new(v.len(), |i: int| v[i]@)
}

impl GraphClient {
    /// A client that has sent nothing yet.
    pub fn new(bearer: String, retry: RetryPolicy, allow_invalid_certs: bool) -> (r: GraphClient)
        ensures
            r.bearer == bearer,
            r.retry == retry,
            r.allow_invalid_certs == allow_invalid_certs,
            r.rate_limit.level == 0,
            r.rate_limit.cooldown.until is None,
            r.retries_total == 0,
            r.retry_after_sleeps == 0,
            r.requests_total == 0,
    {
        GraphClient {
            bearer,
            retry,
            allow_invalid_certs,
            rate_limit: RateLimitState::new(),
            retries_total: 0,
            retry_after_sleeps: 0,
            requests_total: 0,
        }
    }

    /// Takes a new token.
    pub fn set_bearer(&mut self, bearer: String)
        ensures
            final(self).bearer == bearer,
            final(self).retry == old(self).retry,
            final(self).allow_invalid_certs == old(self).allow_invalid_certs,
            final(self).rate_limit == old(self).rate_limit,
            final(self).retries_total == old(self).retries_total,
            final(self).retry_after_sleeps == old(self).retry_after_sleeps,
            final(self).requests_total == old(self).requests_total,
    {
        self.bearer = bearer;
    }

    /// The `Authorization` header.
    pub fn auth_header(&self) -> (r: String)
        ensures
            r@ == "Bearer "@ + self.bearer@,
    {
        text::joined("Bearer ", self.bearer.as_str())
    }

    /// How many requests were sent again.
    pub fn retries_observed(&self) -> (r: u64)
        ensures
            r == self.retries_total,
    {
        self.retries_total
    }

    /// How many waits were as long as the server asked.
    pub fn retry_after_sleeps(&self) -> (r: u64)
        ensures
            r == self.retry_after_sleeps,
    {
        self.retry_after_sleeps
    }

    /// How many requests were sent.
    pub fn requests_observed(&self) -> (r: u64)
        ensures
            r == self.requests_total,
    {
        self.requests_total
    }

    pub fn rate_limit(&self) -> (r: &RateLimitState)
        ensures
            *r == self.rate_limit,
    {
        &self.rate_limit
    }

    /// Counts a request and says how it is sent. Nothing but reading is
    /// supported.
    pub fn request(
        &mut self,
        method: &str,
        url: &str,
        accept: Accept,
        extra_prefer: &Vec<&str>,
    ) -> (r: Result<GraphRequest, GraphError>)
        ensures
            final(self).requests_total == http::counted(old(self).requests_total),
            final(self).bearer == old(self).bearer,
            final(self).retry == old(self).retry,
            final(self).allow_invalid_certs == old(self).allow_invalid_certs,
            final(self).rate_limit == old(self).rate_limit,
            final(self).retries_total == old(self).retries_total,
            final(self).retry_after_sleeps == old(self).retry_after_sleeps,
            if method@ == "GET"@ {
                &&& r matches Ok(q)
                &&& q.url@ == url@
                &&& q.authorization@ == "Bearer "@ + old(self).bearer@
                &&& q.accept@ == accept_text(accept)
                &&& text::texts(q.prefer@) == seq!["IdType=\"ImmutableId\""@] + prefer_texts(
                    extra_prefer@,
                )
            } else {
                &&& r matches Err(GraphError::Connect(m))
                &&& m@ == "unsupported method "@ + method@ + " (graph importer is read-only)"@
            },
    {
        self.requests_total = count(self.requests_total);
        if !text::same(method, "GET") {
            let mut m: String = text::joined("unsupported method ", method);
            m.append(" (graph importer is read-only)");
            return Err(GraphError::Connect(m));
        }
        let mut prefer: Vec<String> = Vec::new();
        prefer.push("IdType=\"ImmutableId\"".to_owned());
        let mut i: usize = 0;
        while i < extra_prefer.len()
            invariant
                i <= extra_prefer@.len(),
                prefer@.len() == i + 1,
                prefer@[0]@ == "IdType=\"ImmutableId\""@,
                forall|k: int| 1 <= k <= i ==> (#[trigger] prefer@[k])@ == extra_prefer@[k - 1]@,
            decreases extra_prefer@.len() - i,
        {
            prefer.push(extra_prefer[i].to_owned());
            i = i + 1;
        }
        proof {
            let want = seq!["IdType=\"ImmutableId\""@] + prefer_texts(extra_prefer@);
            assert(text::texts(prefer@) =~= want);
        }
        Ok(
            GraphRequest {
                url: url.to_owned(),
                authorization: self.auth_header(),
                accept: accept.header_value(),
                prefer,
            },
        )
    }

    /// Decides what follows an attempt that was made at the moment `now`, in
    /// nanoseconds of the clock of the shared cooldown: the request is done,
    /// it has failed, or it is sent again after a wait.
    pub fn after_attempt(
        &mut self,
        method: &str,
        url: &str,
        attempt: &mut u32,
        outcome: Attempt,
        now: u128,
        rng: &mut Jitter,
    ) -> (next: Next)
        requires
            *old(attempt) < u32::MAX,
            outcome matches Attempt::Answer { status, body, retry_after, content_type } ==> now
                + retry::longest_wait(old(self).retry, retry_after) <= u128::MAX,
        ensures
            final(rng).state == (if next is Wait {
                retry::drawn(
                    old(rng).state,
                    wait_span(*old(self), outcome, *final(attempt) as int),
                )
            } else {
                old(rng).state
            }),
            match outcome {
                Attempt::Answer { status, body, retry_after, content_type } => after_answer(
                    *old(self),
                    *final(self),
                    method@,
                    url@,
                    *old(attempt),
                    *final(attempt) as int,
                    (GraphResponse { status, body, content_type }),
                    retry_after,
                    now as int,
                    retry::next_number(old(rng).state),
                    next,
                ),
                Attempt::Transport(failure) => after_failure(
                    *old(self),
                    *final(self),
                    method@,
                    url@,
                    *old(attempt),
                    *final(attempt) as int,
                    failure,
                    retry::next_number(old(rng).state),
                    next,
                ),
            },
    {
        match outcome {
            Attempt::Answer { status, body, retry_after, content_type } => {
                match graph_retry::classify_http_status(status) {
                    HttpClass::Success => {
                        self.rate_limit.on_success();
                        Next::Done(GraphResponse { status, body, content_type })
                    },
                    HttpClass::Vanished => Next::Fail(GraphError::Vanished),
                    HttpClass::Auth => {
                        let shown: String = encoding::truncate(body.as_slice());
                        let mut m: String = "server returned ".to_owned();
                        m.append(text::decimal(status as u64).as_str());
                        m.append(": ");
                        m.append(shown.as_str());
                        Next::Fail(GraphError::Auth(m))
                    },
                    HttpClass::Fatal => Next::Fail(
                        GraphError::HttpStatus {
                            status,
                            body: encoding::truncate(body.as_slice()),
                        },
                    ),
                    HttpClass::Retryable => {
                        *attempt = *attempt + 1;
                        self.retries_total = count(self.retries_total);
                        if *attempt > self.retry.max_retries {
                            let mut m: String = text::joined(method, " ");
                            m.append(url);
                            m.append(" kept returning http ");
                            m.append(text::decimal(status as u64).as_str());
                            return Next::Fail(GraphError::RetriesExhausted(m));
                        }
                        if retry_after.is_some() {
                            self.retry_after_sleeps = count(self.retry_after_sleeps);
                        }
                        let policy: RetryPolicy = self.retry;
                        let delay: Delay = if graph_retry::is_throttled(status) {
                            self.rate_limit.on_throttle(&policy, retry_after, now, rng)
                        } else {
                            match retry_after {
                                Some(d) => d,
                                None => retry::backoff_delay(&policy, *attempt, rng),
                            }
                        };
                        let warning: Option<String> = if delay.nanos >= http::LONG_RETRY_NANOS {
                            Some(
                                warn_wait(
                                    status,
                                    delay,
                                    *attempt,
                                    self.retry.max_retries,
                                    self.rate_limit.level,
                                ),
                            )
                        } else {
                            None
                        };
                        Next::Wait { delay, warning }
                    },
                }
            },
            Attempt::Transport(failure) => {
                if let GraphError::Connect(_) = &failure {
                    return Next::Fail(failure);
                }
                *attempt = *attempt + 1;
                self.retries_total = count(self.retries_total);
                let told: String = failure.message();
                if *attempt > self.retry.max_retries {
                    let mut m: String = text::joined(method, " ");
                    m.append(url);
                    m.append(": ");
                    m.append(told.as_str());
                    return Next::Fail(GraphError::RetriesExhausted(m));
                }
                let policy: RetryPolicy = self.retry;
                let delay: Delay = retry::backoff_delay(&policy, *attempt, rng);
                let warning: Option<String> = if delay.nanos >= http::LONG_RETRY_NANOS {
                    Some(
                        warn_transport(told.as_str(), delay, *attempt, self.retry.max_retries),
                    )
                } else {
                    None
                };
                Next::Wait { delay, warning }
            },
        }
    }
}

/// A request is sent at most once more than the policy allows retries: an
/// attempt that leads to a wait, whether it was refused or failed below HTTP,
/// raises the count of attempts, which never exceeds the policy's number.
pub proof fn retries_are_bounded(
    before: GraphClient,
    after: GraphClient,
    method: Seq<char>,
    url: Seq<char>,
    tried: u32,
    attempt: int,
    outcome: Attempt,
    now: int,
    draw: u64,
    next: Next,
)
    requires
        match outcome {
            Attempt::Answer { status, body, retry_after, content_type } => after_answer(
                before,
                after,
                method,
                url,
                tried,
                attempt,
                (GraphResponse { status, body, content_type }),
                retry_after,
                now,
                draw,
                next,
            ),
            Attempt::Transport(failure) => after_failure(
                before,
                after,
                method,
                url,
                tried,
                attempt,
                failure,
                draw,
                next,
            ),
        },
        next is Wait,
    ensures
        attempt == tried + 1,
        attempt <= before.retry.max_retries,
{
}

/// Whether what failed below HTTP may go away by itself, and how it is
/// reported.
pub open spec fn is_fault_error(f: Fault, e: GraphError) -> bool {
    match f {
        Fault::Io(m) => e matches GraphError::Transport(t) && t@ == "io: "@ + m@,
        Fault::Timeout(m) => e matches GraphError::Transport(t) && t@ == "timeout: "@ + m@,
        Fault::HostNotFound => e matches GraphError::Transport(t) && t@ == "host not found"@,
        Fault::ConnectionFailed => e matches GraphError::Transport(t) && t@ == "connection failed"@,
        Fault::BodyStalled => e matches GraphError::Transport(t) && t@ == "body stalled"@,
        Fault::Tls(m) => e matches GraphError::Transport(t) && t@ == "tls: "@ + m@,
        Fault::TooManyRedirects => e matches GraphError::Connect(t) && t@ == "too many redirects"@,
        Fault::RedirectFailed => e matches GraphError::Connect(t) && t@ == "redirect failed"@,
        Fault::TlsRequired => e matches GraphError::Connect(t) && t@
            == "server requires TLS but transport is unsecured"@,
        Fault::Body(m) => e matches GraphError::Transport(t) && t@ == "reading response body: "@
            + m@,
        Fault::Other(m) => e matches GraphError::Connect(t) && t@ == m@,
    }
}

/// Reports what failed below HTTP.
pub fn fault_error(f: Fault) -> (e: GraphError)
    ensures
        is_fault_error(f, e),
{
    match f {
        Fault::Io(m) => GraphError::Transport(text::joined("io: ", m.as_str())),
        Fault::Timeout(m) => GraphError::Transport(text::joined("timeout: ", m.as_str())),
        Fault::HostNotFound => GraphError::Transport("host not found".to_owned()),
        Fault::ConnectionFailed => GraphError::Transport("connection failed".to_owned()),
        Fault::BodyStalled => GraphError::Transport("body stalled".to_owned()),
        Fault::Tls(m) => GraphError::Transport(text::joined("tls: ", m.as_str())),
        Fault::TooManyRedirects => GraphError::Connect("too many redirects".to_owned()),
        Fault::RedirectFailed => GraphError::Connect("redirect failed".to_owned()),
        Fault::TlsRequired => GraphError::Connect(
            "server requires TLS but transport is unsecured".to_owned(),
        ),
        Fault::Body(m) => GraphError::Transport(
            text::joined("reading response body: ", m.as_str()),
        ),
        Fault::Other(m) => GraphError::Connect(m),
    }
}

/// The host of a URL, where it has one.
pub open spec fn url_host(url: Seq<char>) -> Option<Seq<char>> {
    match links::url_parts(url) {
        Ok(p) => p.host,
        Err(_) => None,
    }
}

fn read_host(url: &str) -> (r: Option<String>)
    ensures
        json::text_view(r) == url_host(url@),
{
    match links::read_url(url) {
        Ok(p) => p.host,
        Err(_) => None,
    }
}

/// The warning about a request that ended up on another host than the one it
/// was sent to, given the hosts. Downloads are expected to.
pub open spec fn redirect_text(
    method: Seq<char>,
    requested: Seq<char>,
    from: Option<Seq<char>>,
    to: Option<Seq<char>>,
) -> Option<Seq<char>> {
    if text::has_suffix(requested, "/content"@) {
        None
    } else {
        match (from, to) {
            (Some(a), Some(b)) => if a == b {
                None
            } else {
                Some(
                    method + " "@ + requested + " was redirected across hosts to "@ + b
                        + "; verify the Graph endpoint host is reachable directly without redirection"@,
                )
            },
            _ => None,
        }
    }
}

/// Words the warning about a redirection, given the hosts.
pub fn redirect_warning(
    method: &str,
    requested: &str,
    from: Option<String>,
    to: Option<String>,
) -> (r: Option<String>)
    ensures
        json::text_view(r) == redirect_text(
            method@,
            requested@,
            json::text_view(from),
            json::text_view(to),
        ),
{
    if text::ends_with(requested, "/content") {
        return None;
    }
    match (from, to) {
        (Some(a), Some(b)) => {
            if text::same(a.as_str(), b.as_str()) {
                return None;
            }
            let mut m: String = text::joined(method, " ");
            m.append(requested);
            m.append(" was redirected across hosts to ");
            m.append(b.as_str());
            m.append(
                "; verify the Graph endpoint host is reachable directly without redirection",
            );
            Some(m)
        },
        _ => None,
    }
}

/// Warns about a request that ended up on another host.
pub fn warn_on_redirect(method: &str, requested: &str, landed: &str) -> (r: Option<String>)
    ensures
        json::text_view(r) == redirect_text(
            method@,
            requested@,
            url_host(requested@),
            url_host(landed@),
        ),
{
    redirect_warning(method, requested, read_host(requested), read_host(landed))
}

} // verus!

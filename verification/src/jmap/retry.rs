//! When a request is tried again, and how long it waits before that.

use crate::delay;
use crate::delay::Delay;
use crate::jmap::http::RetryPolicy;
use crate::text;
use vstd::prelude::*;

verus! {

/// The first wait of a throttled request, in nanoseconds.
pub const THROTTLE_BASE_NANOS: u128 = 1_000_000_000;

/// The level beyond which a throttled request does not wait longer.
pub const THROTTLE_LEVEL_CAP: u32 = 16;

/// Whether a failure may go away by itself.
#[derive(Clone, Copy, PartialEq, Eq, Structural, Debug)]
pub enum Disposition {
    Retryable,
    Fatal,
}

/// Whether a request that was answered with an HTTP status is tried again.
pub fn classify_http_status(status: u16) -> (r: Disposition)
    ensures
        r == (if status == 429 || status == 502 || status == 503 || status == 504 {
            Disposition::Retryable
        } else {
            Disposition::Fatal
        }),
{
    if status == 429 || status == 502 || status == 503 || status == 504 {
        Disposition::Retryable
    } else {
        Disposition::Fatal
    }
}

/// What a method call does.
#[derive(Clone, Copy, PartialEq, Eq, Structural, Debug)]
pub enum MethodCallKind {
    Read,
    SingleObjectWrite,
}

/// Whether a method call that failed is tried again: a write that may have
/// happened in part is not.
pub open spec fn method_disposition(error_type: Seq<char>, kind: MethodCallKind) -> Disposition {
    if error_type == "serverUnavailable"@ || (error_type == "serverPartialFail"@ && kind
        == MethodCallKind::Read) {
        Disposition::Retryable
    } else {
        Disposition::Fatal
    }
}

/// Whether a method call that failed is tried again.
pub fn jmap_method_disposition(error_type: &str, kind: MethodCallKind) -> (r: Disposition)
    ensures
        r == method_disposition(error_type@, kind),
{
    if text::same(error_type, "serverUnavailable") {
        Disposition::Retryable
    } else if text::same(error_type, "serverPartialFail") && kind == MethodCallKind::Read {
        Disposition::Retryable
    } else {
        Disposition::Fatal
    }
}

/// Seconds since 1970 at the moment that an HTTP date names.
pub uninterp spec fn http_date(s: Seq<char>) -> Option<i64>;

/// `time::PrimitiveDateTime::parse` with the format of an HTTP date, such as
/// `Sun, 06 Nov 1994 08:49:47 GMT`, taken as UTC. What it reads depends on the
/// text alone.
#[verifier::external_body]
fn parse_http_date(s: &str) -> (r: Option<i64>)
    ensures
        r == http_date(s@),
{
    let format = time::format_description::parse(
        "[weekday repr:short], [day] [month repr:short] [year] [hour]:[minute]:[second] GMT",
    ).ok()?;
    time::PrimitiveDateTime::parse(s, &format).ok().map(|t| t.assume_utc().unix_timestamp())
}

/// How long a `Retry-After` header asks to wait, at a moment given in
/// nanoseconds since 1970.
pub open spec fn retry_after(value: Seq<char>, now: int) -> Option<int> {
    let t = text::trimmed(value);
    match text::parsed_unsigned(t, u64::MAX as nat) {
        Some(secs) => Some(secs as int * 1_000_000_000),
        None => match http_date(t) {
            Some(secs) => if secs * 1_000_000_000 >= now {
                Some(secs * 1_000_000_000 - now)
            } else {
                None
            },
            None => None,
        },
    }
}

/// An optional length of time in nanoseconds.
pub open spec fn opt_nanos(d: Option<Delay>) -> Option<int> {
    match d {
        Some(x) => Some(x.nanos as int),
        None => None,
    }
}

/// Reads a `Retry-After` header: a number of seconds, or a date that has not
/// passed at the moment `now`, in nanoseconds since 1970.
pub fn parse_retry_after(value: &str, now: u64) -> (r: Option<Delay>)
    ensures
        opt_nanos(r) == retry_after(value@, now as int),
{
    let t: String = text::trim(value);
    match text::parse_unsigned(t.as_str(), 0xffff_ffff_ffff_ffff) {
        Some(secs) => Some(Delay::from_secs(secs)),
        None => match parse_http_date(t.as_str()) {
            Some(secs) => {
                let target: i128 = secs as i128 * 1_000_000_000;
                if target >= now as i128 {
                    Some(Delay { nanos: (target - now as i128) as u128 })
                } else {
                    None
                }
            },
            None => None,
        },
    }
}

/// A generator of numbers by which waits are spread.
#[derive(Debug)]
pub struct Jitter {
    pub state: u64,
}

/// The next number of the generator.
pub open spec fn next_number(x: u64) -> u64 {
    let a = x ^ (x << 13);
    let b = a ^ (a >> 7);
    b ^ (b << 17)
}

impl Jitter {
    /// A generator that starts from the clock and the thread.
    pub fn seeded(nanos: u64, thread: u64) -> (r: Jitter)
        ensures
            r.state == (if nanos ^ thread == 0 {
                1
            } else {
                nanos ^ thread
            }),
            r.state != 0,
    {
        let s: u64 = nanos ^ thread;
        Jitter {
            state: if s == 0 {
                1
            } else {
                s
            },
        }
    }

    /// Draws the next number.
    pub fn next_u64(&mut self) -> (r: u64)
        ensures
            r == next_number(old(self).state),
            final(self).state == r,
    {
        let mut x: u64 = self.state;
        x = x ^ (x << 13);
        x = x ^ (x >> 7);
        x = x ^ (x << 17);
        self.state = x;
        x
    }
}

/// A generator that did not start at zero never gets there, where it would
/// stay.
pub proof fn the_generator_never_stops(x: u64)
    requires
        x != 0,
    ensures
        next_number(x) != 0,
{
    let a = x ^ (x << 13);
    let b = a ^ (a >> 7);
    assert(x != 0 ==> x ^ (x << 13) != 0) by (bit_vector);
    assert(a != 0 ==> a ^ (a >> 7) != 0) by (bit_vector);
    assert(b != 0 ==> b ^ (b << 17) != 0) by (bit_vector);
}

/// A part of a length of time, picked by a drawn number.
pub open spec fn spread(span: int, draw: u64) -> int {
    if span == 0 {
        0
    } else {
        draw as int % (span + 1)
    }
}

fn jitter_uniform(span: Delay, rng: &mut Jitter) -> (r: Delay)
    requires
        span.nanos < u128::MAX,
    ensures
        span.nanos == 0 ==> r.nanos == 0 && final(rng).state == old(rng).state,
        span.nanos > 0 ==> r.nanos == spread(span.nanos as int, next_number(old(rng).state))
            && final(rng).state == next_number(old(rng).state),
        r.nanos <= span.nanos,
{
    if span.nanos == 0 {
        return Delay { nanos: 0 };
    }
    let draw: u64 = rng.next_u64();
    Delay { nanos: draw as u128 % (span.nanos + 1) }
}

/// The longest wait before an attempt.
pub open spec fn backoff_span(policy: RetryPolicy, attempt: int) -> int {
    let shift = delay::least(
        if attempt > 0 {
            attempt - 1
        } else {
            0
        },
        32,
    );
    delay::least(
        delay::least(
            policy.base.nanos * delay::growth(shift as nat),
            delay::MAX_NANOS as int,
        ),
        policy.cap.nanos as int,
    )
}

/// The state of the generator after a wait was spread over a length of time: a
/// number is drawn unless there is nothing to spread.
pub open spec fn drawn(state: u64, span: int) -> u64 {
    if span == 0 {
        state
    } else {
        next_number(state)
    }
}

/// How long to wait before an attempt: a random part of a wait that doubles
/// from attempt to attempt, up to the policy's cap.
pub fn backoff_delay(policy: &RetryPolicy, attempt: u32, rng: &mut Jitter) -> (r: Delay)
    ensures
        r.nanos == spread(backoff_span(*policy, attempt as int), next_number(old(rng).state)),
        r.nanos <= backoff_span(*policy, attempt as int) <= policy.cap.nanos,
        final(rng).state == drawn(old(rng).state, backoff_span(*policy, attempt as int)),
{
    let before: u32 = if attempt > 0 {
        attempt - 1
    } else {
        0
    };
    let shift: u32 = if before < 32 {
        before
    } else {
        32
    };
    let scaled: Delay = policy.base.saturating_mul(delay::doublings(shift));
    jitter_uniform(scaled.shorter(policy.cap), rng)
}

/// The moment until which every request waits, in nanoseconds of some clock.
#[derive(Debug)]
pub struct Cooldown {
    pub until: Option<u128>,
}

/// A moment of the clock, if there is one.
pub open spec fn moment(until: Option<u128>) -> Option<int> {
    match until {
        Some(t) => Some(t as int),
        None => None,
    }
}

/// The moment until which requests wait, once another wait was asked for.
pub open spec fn armed(until: Option<int>, target: int) -> int {
    match until {
        Some(cur) => if target > cur {
            target
        } else {
            cur
        },
        None => target,
    }
}

/// How long requests still wait at a moment.
pub open spec fn left(until: Option<int>, now: int) -> Option<int> {
    match until {
        Some(t) => if t > now {
            Some(t - now)
        } else {
            None
        },
        None => None,
    }
}

impl Cooldown {
    /// No wait.
    pub fn new() -> (r: Cooldown)
        ensures
            r.until is None,
    {
        Cooldown { until: None }
    }

    /// Asks every request to wait; a longer wait that was asked for before
    /// stands.
    pub fn arm(&mut self, now: u128, delay: Delay)
        requires
            now + delay.nanos <= u128::MAX,
        ensures
            moment(final(self).until) == Some(armed(moment(old(self).until), now + delay.nanos)),
    {
        let target: u128 = now + delay.nanos;
        let extend: bool = match self.until {
            Some(cur) => target > cur,
            None => true,
        };
        if extend {
            self.until = Some(target);
        }
    }

    /// How long a request still has to wait.
    pub fn remaining(&self, now: u128) -> (r: Option<Delay>)
        ensures
            opt_nanos(r) == left(moment(self.until), now as int),
    {
        match self.until {
            Some(until) => if until > now {
                Some(Delay { nanos: until - now })
            } else {
                None
            },
            None => None,
        }
    }
}

/// Arming never shortens a wait: what remained before still remains.
pub proof fn cooldowns_only_grow(before: Option<int>, target: int)
    ensures
        armed(before, target) >= target,
        before matches Some(cur) ==> armed(before, target) >= cur,
{
}

/// Of two waits that were asked for the one that ends later counts, and without
/// any nothing remains.
pub proof fn the_later_end_counts(t1: int, d1: int, t2: int, d2: int, now: int)
    ensures
        left(None, now) is None,
        left(Some(armed(Some(armed(None, t1 + d1)), t2 + d2)), now) == ({
            let end = if t1 + d1 > t2 + d2 {
                t1 + d1
            } else {
                t2 + d2
            };
            if end > now {
                Some(end - now)
            } else {
                None
            }
        }),
{
}

/// How hard a server throttles, shared by all requests to it.
#[derive(Debug)]
pub struct RateLimitState {
    pub cooldown: Cooldown,
    pub level: u32,
}

/// The level after one more refusal, as far as it makes waits longer.
pub open spec fn throttle_level(level: u32) -> int {
    delay::least(level + 1, THROTTLE_LEVEL_CAP as int)
}

/// The longest wait at a level.
pub open spec fn throttle_span(policy: RetryPolicy, level: int) -> int {
    let shift = delay::least(
        if level > 0 {
            level - 1
        } else {
            0
        },
        20,
    );
    delay::least(
        delay::least(
            THROTTLE_BASE_NANOS * delay::growth(shift as nat),
            delay::MAX_NANOS as int,
        ),
        policy.cap.nanos as int,
    )
}

/// The length of time over which the wait after one more refusal is spread:
/// none where the server says how long to wait.
pub open spec fn asked_span(policy: RetryPolicy, level: u32, retry_after: Option<Delay>) -> int {
    match retry_after {
        Some(_) => 0,
        None => throttle_span(policy, throttle_level(level)),
    }
}

/// The longest wait after a refusal: what the server asks for, else the
/// policy's cap.
pub open spec fn longest_wait(policy: RetryPolicy, retry_after: Option<Delay>) -> int {
    match retry_after {
        Some(d) => d.nanos as int,
        None => policy.cap.nanos as int,
    }
}

/// The wait at a level for a drawn number: at least half the longest one.
pub open spec fn throttle_wait(policy: RetryPolicy, level: int, draw: u64) -> int {
    let span = throttle_span(policy, level);
    span / 2 + spread(span - span / 2, draw)
}

/// How long to wait at a level: half of a wait that doubles from level to
/// level, up to the policy's cap, and a random part of the other half.
pub fn throttle_backoff(policy: &RetryPolicy, level: u32, rng: &mut Jitter) -> (r: Delay)
    ensures
        r.nanos == throttle_wait(*policy, level as int, next_number(old(rng).state)),
        throttle_span(*policy, level as int) / 2 <= r.nanos <= throttle_span(
            *policy,
            level as int,
        ),
        throttle_span(*policy, level as int) <= policy.cap.nanos,
        final(rng).state == drawn(old(rng).state, throttle_span(*policy, level as int)),
{
    let before: u32 = if level > 0 {
        level - 1
    } else {
        0
    };
    let shift: u32 = if before < 20 {
        before
    } else {
        20
    };
    let base: Delay = Delay { nanos: THROTTLE_BASE_NANOS };
    let scaled: Delay = base.saturating_mul(delay::doublings(shift)).shorter(policy.cap);
    let half: u128 = scaled.nanos / 2;
    let rest: Delay = Delay { nanos: scaled.nanos - half };
    let part: Delay = jitter_uniform(rest, rng);
    Delay { nanos: half + part.nanos }
}

impl RateLimitState {
    pub fn new() -> (r: RateLimitState)
        ensures
            r.cooldown.until is None,
            r.level == 0,
    {
        RateLimitState { cooldown: Cooldown::new(), level: 0 }
    }

    pub fn cooldown(&self) -> (r: &Cooldown)
        ensures
            *r == self.cooldown,
    {
        &self.cooldown
    }

    pub fn level(&self) -> (r: u32)
        ensures
            r == self.level,
    {
        self.level
    }

    /// Takes note of a request that was served.
    pub fn on_success(&mut self)
        ensures
            final(self).level == 0,
            final(self).cooldown == old(self).cooldown,
    {
        self.level = 0;
    }

    /// Takes note of a request that was refused, and says how long to wait: as
    /// long as the server asks, else longer from time to time.
    pub fn on_throttle(
        &mut self,
        policy: &RetryPolicy,
        retry_after: Option<Delay>,
        now: u128,
        rng: &mut Jitter,
    ) -> (r: Delay)
        requires
            now + longest_wait(*policy, retry_after) <= u128::MAX,
        ensures
            r.nanos == (match retry_after {
                Some(d) => d.nanos as int,
                None => throttle_wait(
                    *policy,
                    throttle_level(old(self).level),
                    next_number(old(rng).state),
                ),
            }),
            final(self).level == (old(self).level + 1) % 0x1_0000_0000,
            moment(final(self).cooldown.until) == Some(
                armed(moment(old(self).cooldown.until), now + r.nanos),
            ),
            final(rng).state == drawn(
                old(rng).state,
                asked_span(*policy, old(self).level, retry_after),
            ),
    {
        let level: u32 = self.level;
        let n: u32 = if level < THROTTLE_LEVEL_CAP {
            level + 1
        } else {
            THROTTLE_LEVEL_CAP
        };
        self.level = if level == 0xffff_ffff {
            0
        } else {
            level + 1
        };
        let wait: Delay = match retry_after {
            Some(d) => d,
            None => throttle_backoff(policy, n, rng),
        };
        self.cooldown.arm(now, wait);
        wait
    }
}

/// A server that refuses without saying how long to wait is left alone for at
/// least half, and at most all, of a wait that doubles with each refusal up to
/// the policy's cap; and no wait that was asked for before becomes shorter.
pub proof fn refusals_double_the_wait(
    policy: RetryPolicy,
    level: u32,
    draw: u64,
    until: Option<int>,
    now: int,
)
    ensures
        ({
            let n = throttle_level(level);
            let longest = delay::least(
                THROTTLE_BASE_NANOS * delay::two_to((n - 1) as nat),
                policy.cap.nanos as int,
            );
            let wait = throttle_wait(policy, n, draw);
            &&& longest / 2 <= wait <= longest
            &&& armed(until, now + wait) >= now + wait
            &&& until matches Some(cur) ==> armed(until, now + wait) >= cur
        }),
{
    let n = throttle_level(level);
    delay::lemma_two_to_bound((n - 1) as nat);
    let span = throttle_span(policy, n);
    let rest = span - span / 2;
    if rest > 0 {
        assert(0 <= draw as int % (rest + 1) <= rest);
    }
}

} // verus!

//! What answers of a server mean, and how long a request waits after them.

use crate::delay;
use crate::encoding;
use crate::jmap::connect;
use crate::jmap::http;
use crate::jmap::http::{Auth, RetryPolicy};
use crate::jmap::retry;
use crate::jmap::session;
use crate::jmap::session::SessionVal;
use crate::json::Val;
use crate::text;
use crate::types;
use crate::types::ObjectType;
use vstd::prelude::*;

verus! {

/// Whether an answer says that a kind of limit was reached.
pub open spec fn is_problem(problem: Option<Val>, kind: Seq<char>) -> bool {
    problem matches Some(p) && (p.text_at("type"@) matches Some(t) && t.len() >= kind.len() && t.skip(
        t.len() - kind.len(),
    ) == kind)
}

/// Whether an answer names a limit.
pub open spec fn names_limit(problem: Option<Val>, limit: Seq<char>) -> bool {
    problem matches Some(p) && p.text_at("limit"@) == Some(limit)
}

/// Whether a status asks to come back later.
pub open spec fn is_busy(status: u16) -> bool {
    status == 429 || 502 <= status <= 504
}

/// An answer means that the credentials were refused exactly where its status
/// is 401 or 403. It means that the request was too large where its status is
/// 413, or where it says so, or where it names a limit of size. One that names a
/// limit of concurrency asks to come back later, and so does one without a
/// problem whose status says so; any other without a problem is final.
pub proof fn answers_mean_what_they_say(status: u16, problem: Option<Val>)
    ensures
        http::outcome_of(status, problem) is Auth <==> status == 401 || status == 403,
        status == 413 ==> http::outcome_of(status, problem) is RequestTooLarge,
        status != 401 && status != 403 && status != 413 ==> {
            &&& is_problem(problem, ":requestTooLarge"@) ==> http::outcome_of(
                status,
                problem,
            ) is RequestTooLarge
            &&& is_problem(problem, ":limit"@) && !is_problem(problem, ":requestTooLarge"@) ==> {
                &&& names_limit(problem, "maxSizeRequest"@) || names_limit(problem, "maxSizeUpload"@)
                    ==> http::outcome_of(status, problem) is RequestTooLarge
                &&& names_limit(problem, "maxConcurrentRequests"@) || names_limit(
                    problem,
                    "maxConcurrentUpload"@,
                ) ==> http::outcome_of(status, problem) is Retryable
                &&& (problem->0.text_at("limit"@) is None && problem->0.text_at("subType"@) == Some(
                    "rateLimit"@,
                )) ==> http::outcome_of(status, problem) is Retryable
            }
            &&& problem is None || problem->0.text_at("type"@) is None ==> (http::outcome_of(
                status,
                problem,
            ) is Retryable <==> is_busy(status))
            &&& problem is None || problem->0.text_at("type"@) is None ==> (http::outcome_of(
                status,
                problem,
            ) is Fatal <==> !is_busy(status))
        },
{
    lemma_limits();
    if let Some(p) = problem {
        if let Some(t) = p.text_at("type"@) {
            let a = ":requestTooLarge"@;
            let b = ":limit"@;
            if t.len() >= a.len() {
                assert(t.skip(t.len() - a.len()) =~= t.subrange(t.len() - a.len(), t.len() as int));
            }
            if t.len() >= b.len() {
                assert(t.skip(t.len() - b.len()) =~= t.subrange(t.len() - b.len(), t.len() as int));
            }
        }
    }
}

proof fn lemma_limits()
    ensures
        "maxSizeRequest"@ != "maxSizeUpload"@,
        "maxSizeRequest"@ != "maxConcurrentRequests"@,
        "maxSizeRequest"@ != "maxConcurrentUpload"@,
        "maxSizeRequest"@ != ""@,
        "maxSizeUpload"@ != "maxConcurrentRequests"@,
        "maxSizeUpload"@ != "maxConcurrentUpload"@,
        "maxSizeUpload"@ != ""@,
        "maxConcurrentRequests"@ != "maxConcurrentUpload"@,
        "maxConcurrentRequests"@ != ""@,
        "maxConcurrentUpload"@ != ""@,
{
    reveal_strlit("maxSizeRequest");
    reveal_strlit("maxSizeUpload");
    reveal_strlit("maxConcurrentRequests");
    reveal_strlit("maxConcurrentUpload");
    reveal_strlit("");
    assert("maxSizeRequest"@.len() == 14);
    assert("maxSizeUpload"@.len() == 13);
    assert("maxConcurrentRequests"@.len() == 21);
    assert("maxConcurrentUpload"@.len() == 19);
    assert(""@.len() == 0);
}

/// A request carries the user and the password, or the token, that it is given.
pub proof fn requests_carry_their_credentials(auth: Auth)
    ensures
        auth matches Auth::Bearer { token } ==> http::authorization(auth) == Some(
            "Bearer "@ + token@,
        ),
        auth matches Auth::Basic { user, password } ==> http::authorization(auth) == Some(
            "Basic "@ + encoding::base64_text(
                vstd::utf8::encode_utf8(user@ + seq![':'] + password@),
            ),
        ),
        auth is Digest <==> http::authorization(auth) is None,
{
    reveal_strlit(":");
    assert(":"@ =~= seq![':']);
}

/// What a time is written as: hours, minutes and seconds, without those before
/// the first that is not zero.
pub open spec fn is_written(s: Seq<char>, hours: nat, minutes: nat, seconds: nat) -> bool {
    if hours > 0 {
        s == text::dec(hours) + "h"@ + text::padded(minutes, 2) + "m"@ + text::padded(seconds, 2)
            + "s"@
    } else if minutes > 0 {
        s == text::dec(minutes) + "m"@ + text::padded(seconds, 2) + "s"@
    } else {
        s == text::dec(seconds) + "s"@
    }
}

/// The hours, minutes and seconds that a wait is written as add up to it.
pub proof fn waits_are_written_whole(
    total: nat,
    hours: nat,
    minutes: nat,
    seconds: nat,
)
    requires
        total == 3600 * hours + 60 * minutes + seconds,
        minutes < 60,
        seconds < 60,
    ensures
        is_written(http::wait_text(total), hours, minutes, seconds),
{
}

/// What is told of a refusal are its headers, save for the type of its contents.
pub proof fn refusals_show_every_header(headers: Seq<(String, String)>, t: Seq<char>)
    ensures
        http::rate_parts(headers).contains(t) <==> exists|i: int| 0 <= i < headers.len() && is_told((#[trigger] headers[i]), t),
    decreases headers.len(),
{
    if headers.len() > 0 {
        let rest = headers.drop_last();
        refusals_show_every_header(rest, t);
        let before = http::rate_parts(rest);
        let after = http::rate_parts(headers);
        assert(headers[headers.len() - 1] == headers.last());
        assert(forall|i: int| 0 <= i < rest.len() ==> #[trigger] rest[i] == headers[i]);
        if before.contains(t) {
            let k = choose|k: int| 0 <= k < before.len() && before[k] == t;
            assert(after[k] == t);
            let i = choose|i: int| 0 <= i < rest.len() && is_told((#[trigger] rest[i]), t);
            assert(is_told(headers[i], t));
        }
        if is_told(headers.last(), t) {
            assert(after[after.len() - 1] == t);
        }
        if after.contains(t) && !(is_told(headers.last(), t)) {
            let k = choose|k: int| 0 <= k < after.len() && after[k] == t;
            assert(before[k] == t);
        }
        if exists|i: int| 0 <= i < headers.len() && is_told((#[trigger] headers[i]), t) {
            let i = choose|i: int| 0 <= i < headers.len() && is_told((#[trigger] headers[i]), t);
            if i < rest.len() {
                assert(is_told(rest[i], t));
            }
        }
    }
}

/// Whether a header is told, and how.
pub open spec fn is_told(h: (String, String), t: Seq<char>) -> bool {
    h.0@ != "content-type"@ && t == h.0@ + "="@ + h.1@
}

/// What is told of a problem is its title, then its detail, as far as it has
/// them.
pub proof fn problems_are_told(problem: Val, title: Seq<char>, detail: Seq<char>)
    ensures
        problem.text_at("title"@) == Some(title) && problem.text_at("detail"@) == Some(detail)
            ==> http::problem_text(problem) == Some(title + ": "@ + detail),
        problem.text_at("title"@) == Some(title) && problem.text_at("detail"@) is None
            ==> http::problem_text(problem) == Some(title),
        problem.text_at("title"@) is None ==> http::problem_text(problem) == problem.text_at(
            "detail"@,
        ),
{
}

/// A spread wait is never longer than its span, and any wait up to that may be
/// drawn.
pub proof fn waits_stay_within_their_span(span: int, draw: u64)
    requires
        span >= 0,
    ensures
        0 <= retry::spread(span, draw) <= span,
        draw <= span ==> retry::spread(span, draw) == draw,
{
    if span > 0 {
        vstd::arithmetic::div_mod::lemma_mod_bound(draw as int, span + 1);
        if draw <= span {
            vstd::arithmetic::div_mod::lemma_small_mod(draw as nat, (span + 1) as nat);
        }
    }
}

/// A request that failed waits up to the first span, and from then on up to
/// twice as long each time, as far as the longest one.
pub proof fn failures_double_the_wait(policy: RetryPolicy, attempt: int)
    requires
        1 <= attempt <= 31,
        policy.base.nanos * delay::two_to(attempt as nat) <= delay::MAX_NANOS,
    ensures
        retry::backoff_span(policy, 1) == delay::least(
            policy.base.nanos as int,
            policy.cap.nanos as int,
        ),
        retry::backoff_span(policy, attempt + 1) == delay::least(
            2 * retry::backoff_span(policy, attempt),
            policy.cap.nanos as int,
        ),
{
    let b = policy.base.nanos as int;
    let g = delay::two_to((attempt - 1) as nat) as int;
    assert(delay::two_to(attempt as nat) == 2 * g);
    assert(b * (2 * g) == 2 * (b * g)) by (nonlinear_arith);
    assert(b * g >= 0) by (nonlinear_arith)
        requires
            b >= 0,
            g >= 0,
    ;
    lemma_least(b, attempt as nat);
    let one = delay::growth(0) as int;
    assert(b * one == b) by (nonlinear_arith)
        requires
            one == 1,
    ;
}

proof fn lemma_least(b: int, n: nat)
    requires
        b >= 0,
        b * delay::two_to(n) <= delay::MAX_NANOS,
    ensures
        b <= delay::MAX_NANOS,
        delay::two_to(n) >= 1,
    decreases n,
{
    if n > 0 {
        let g = delay::two_to((n - 1) as nat) as int;
        assert(b * (2 * g) == 2 * (b * g)) by (nonlinear_arith);
        assert(b * g >= 0) by (nonlinear_arith)
            requires
                b >= 0,
                g >= 0,
        ;
        lemma_least(b, (n - 1) as nat);
    } else {
        let one = delay::two_to(n) as int;
        assert(b * one == b) by (nonlinear_arith)
            requires
                one == 1,
        ;
    }
}

/// What mail, contacts, calendars and files need of an account.
pub open spec fn capability(area: Seq<char>) -> Seq<char> {
    "urn:ietf:params:jmap:"@ + area
}

/// Mailboxes and messages need mail, identities submission, scripts sieve,
/// address books and cards contacts, calendars and what is in them calendars,
/// files file nodes.
pub proof fn kinds_need_their_capability(ty: ObjectType)
    ensures
        types::type_capability(ty) == capability(
            if ty == ObjectType::Mailbox || ty == ObjectType::Email {
                "mail"@
            } else if ty == ObjectType::AddressBook || ty == ObjectType::ContactCard {
                "contacts"@
            } else if ty == ObjectType::Identity {
                "submission"@
            } else if ty == ObjectType::SieveScript {
                "sieve"@
            } else if ty == ObjectType::FileNode {
                "filenode"@
            } else {
                "calendars"@
            },
        ),
{
    reveal_strlit("urn:ietf:params:jmap:");
    reveal_strlit("urn:ietf:params:jmap:mail");
    reveal_strlit("urn:ietf:params:jmap:contacts");
    reveal_strlit("urn:ietf:params:jmap:submission");
    reveal_strlit("urn:ietf:params:jmap:sieve");
    reveal_strlit("urn:ietf:params:jmap:filenode");
    reveal_strlit("urn:ietf:params:jmap:calendars");
    reveal_strlit("mail");
    reveal_strlit("contacts");
    reveal_strlit("submission");
    reveal_strlit("sieve");
    reveal_strlit("filenode");
    reveal_strlit("calendars");
    assert("urn:ietf:params:jmap:mail"@ =~= capability("mail"@));
    assert("urn:ietf:params:jmap:contacts"@ =~= capability("contacts"@));
    assert("urn:ietf:params:jmap:submission"@ =~= capability("submission"@));
    assert("urn:ietf:params:jmap:sieve"@ =~= capability("sieve"@));
    assert("urn:ietf:params:jmap:filenode"@ =~= capability("filenode"@));
    assert("urn:ietf:params:jmap:calendars"@ =~= capability("calendars"@));
}

/// Whether a kind may be tried with an account: the session does not list it,
/// or it has the capability.
pub open spec fn may_be_tried(s: SessionVal, account: Seq<char>, ty: ObjectType) -> bool {
    match session::entry(s.accounts, account) {
        Some(a) => crate::json::lookup(a.capabilities, types::type_capability(ty)) is Some,
        None => true,
    }
}

/// Exactly the kinds are tried that the account supports, or may support.
pub proof fn supported_kinds_are_tried(s: SessionVal, account: Seq<char>, all: Seq<ObjectType>, ty: ObjectType)
    ensures
        connect::tried_types(s, account, all).contains(ty) <==> exists|i: int| 0 <= i < all.len() && (#[trigger] all[i]) == ty && may_be_tried(s, account, ty),
    decreases all.len(),
{
    if all.len() > 0 {
        let rest = all.drop_last();
        supported_kinds_are_tried(s, account, rest, ty);
        let before = connect::tried_types(s, account, rest);
        let after = connect::tried_types(s, account, all);
        assert(all[all.len() - 1] == all.last());
        assert(forall|i: int| 0 <= i < rest.len() ==> #[trigger] rest[i] == all[i]);
        if before.contains(ty) {
            let k = choose|k: int| 0 <= k < before.len() && before[k] == ty;
            assert(after[k] == ty);
            let i = choose|i: int| 0 <= i < rest.len() && (#[trigger] rest[i]) == ty && may_be_tried(s, account, ty);
            assert(all[i] == ty && may_be_tried(s, account, ty));
        }
        if all.last() == ty && may_be_tried(s, account, ty) {
            assert(after[after.len() - 1] == ty);
        }
        if after.contains(ty) && !(all.last() == ty && may_be_tried(s, account, ty)) {
            let k = choose|k: int| 0 <= k < after.len() && after[k] == ty;
            assert(before[k] == ty);
        }
        if exists|i: int| 0 <= i < all.len() && (#[trigger] all[i]) == ty && may_be_tried(s, account, ty) {
            let i = choose|i: int| 0 <= i < all.len() && (#[trigger] all[i]) == ty && may_be_tried(s, account, ty);
            if i < rest.len() {
                assert(rest[i] == ty && may_be_tried(s, account, ty));
            }
        }
    }
}

} // verus!

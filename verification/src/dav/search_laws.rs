//! What a search for collections finds, and where it looks.

use crate::dav::discover;
use crate::dav::discover::{
    DavKind, DavResponse, DiscoveryError, Multistatus, Phase, Progress,
    ResourceProps, Search, Spot,
};
use crate::dav::xml;
use crate::jmap::error::JmapError;
use crate::json;
use vstd::prelude::*;

verus! {

/// Whether a resource names a home set for calendars, where calendars are
/// looked for, or for address books, where those are.
pub open spec fn names_home(kind: DavKind, props: ResourceProps, href: Seq<char>) -> bool {
    ||| kind == DavKind::Caldav && json::text_view(props.calendar_home_set) == Some(href)
    ||| kind == DavKind::Carddav && json::text_view(props.addressbook_home_set) == Some(href)
}

/// Whether a resource names any home set for what is looked for.
pub open spec fn has_home(kind: DavKind, props: ResourceProps) -> bool {
    ||| kind == DavKind::Caldav && props.calendar_home_set is Some
    ||| kind == DavKind::Carddav && props.addressbook_home_set is Some
}

/// Whether a resource is a calendar, where calendars are looked for, or an
/// address book, where those are.
pub open spec fn is_sought(kind: DavKind, props: ResourceProps) -> bool {
    ||| kind == DavKind::Caldav && props.is_calendar
    ||| kind == DavKind::Carddav && props.is_addressbook
}

/// Whether a resource is a calendar for something else than events, tasks and
/// notes.
pub open spec fn is_for_nothing(props: ResourceProps) -> bool {
    &&& props.is_calendar
    &&& props.supported_components@.len() > 0
    &&& forall|i: int|
        0 <= i < props.supported_components@.len() ==> (#[trigger] props.supported_components@[i])@
            != "VEVENT"@ && props.supported_components@[i]@ != "VTODO"@
            && props.supported_components@[i]@ != "VJOURNAL"@
}

proof fn lemma_first_home(kind: DavKind, rs: Seq<DavResponse>, k: int, href: Seq<char>)
    requires
        0 <= k < rs.len(),
        names_home(kind, rs[k].props, href),
        forall|i: int| 0 <= i < k ==> !has_home(kind, (#[trigger] rs[i]).props),
    ensures
        discover::home_set_in(kind, rs) == Some(href),
    decreases k,
{
    if k > 0 {
        let rest = rs.skip(1);
        assert(rest[k - 1] == rs[k]);
        assert forall|i: int| 0 <= i < k - 1 implies !has_home(kind, (#[trigger] rest[i]).props) by {
            assert(rest[i] == rs[i + 1]);
        }
        lemma_first_home(kind, rest, k - 1, href);
        assert(!has_home(kind, rs[0].props));
    }
}

proof fn lemma_no_home(kind: DavKind, rs: Seq<DavResponse>)
    requires
        forall|i: int|
            0 <= i < rs.len() ==> !has_home(kind, (#[trigger] rs[i]).props),
    ensures
        discover::home_set_in(kind, rs) is None,
    decreases rs.len(),
{
    if rs.len() > 0 {
        let rest = rs.skip(1);
        assert forall|i: int| 0 <= i < rest.len() implies !has_home(kind, (#[trigger] rest[i]).props) by {
            assert(rest[i] == rs[i + 1]);
        }
        lemma_no_home(kind, rest);
        assert(!has_home(kind, rs[0].props));
    }
}

/// The first home set that an answer names for what is looked for is where the
/// search goes on: its collections are listed next, those of calendars for
/// calendars and those of address books for address books.
pub proof fn searches_go_on_at_the_home_set(
    s: Search,
    ms: Multistatus,
    p: Progress,
    k: int,
    href: Seq<char>,
    home: Seq<char>,
)
    requires
        discover::follows(s, Ok(ms), p),
        s.phase is Combined || s.phase is HomeSet,
        0 <= k < ms.responses@.len(),
        names_home(s.kind, ms.responses@[k].props, href),
        forall|i: int|
            0 <= i < k ==> !has_home(s.kind, (#[trigger] ms.responses@[i]).props),
        discover::url_join(ms.final_url@, href) == Ok::<Seq<char>, Seq<char>>(home),
    ensures
        p matches Progress::Ask(next, q) && {
            &&& q.url@ == home
            &&& q.depth == 1
            &&& q.body@ == (if s.kind == DavKind::Caldav {
                xml::CALENDAR_COLLECTIONS@
            } else {
                xml::ADDRESSBOOK_COLLECTIONS@
            })
            &&& next.kind == s.kind
            &&& next.user_url@ == s.user_url@
            &&& next.phase matches Phase::Homes { principal_url, home_set_url } && home_set_url@
                == home
        },
{
    lemma_first_home(s.kind, ms.responses@, k, href);
}

/// Without a home set for what is looked for no home set is listed.
pub proof fn other_home_sets_are_left_alone(s: Search, ms: Multistatus, p: Progress)
    requires
        discover::follows(s, Ok(ms), p),
        s.phase is Combined || s.phase is HomeSet,
        forall|i: int|
            0 <= i < ms.responses@.len() ==> !has_home(s.kind, (#[trigger] ms.responses@[i]).props),
    ensures
        p matches Progress::Ask(next, q) ==> !(next.phase is Homes),
        !(p is Found),
{
    lemma_no_home(s.kind, ms.responses@);
}

proof fn lemma_kept(kind: DavKind, rs: Seq<DavResponse>, own: Option<String>, j: int)
    requires
        0 <= j < rs.len(),
        is_sought(kind, rs[j].props),
        !is_for_nothing(rs[j].props),
    ensures
        exists|i: int|
            0 <= i < discover::kept(kind, rs, own).len() && #[trigger] discover::kept(
                kind,
                rs,
                own,
            )[i] == rs[j],
    decreases rs.len(),
{
    let rest = discover::kept(kind, rs.drop_last(), own);
    let all = discover::kept(kind, rs, own);
    if j < rs.len() - 1 {
        lemma_kept(kind, rs.drop_last(), own, j);
        let i = choose|i: int| 0 <= i < rest.len() && #[trigger] rest[i] == rs.drop_last()[j];
        assert(all[i] == rs[j]);
    } else {
        if discover::is_free_busy_only(rs[j].props) {
            assert forall|i: int| 0 <= i < rs[j].props.supported_components@.len() implies (
            #[trigger] rs[j].props.supported_components@[i])@ != "VEVENT"@
                && rs[j].props.supported_components@[i]@ != "VTODO"@
                && rs[j].props.supported_components@[i]@ != "VJOURNAL"@ by {
                assert(!discover::is_useful(rs[j].props.supported_components@[i]@));
            }
        }
        assert(all[all.len() - 1] == rs[j]);
    }
}

proof fn lemma_kept_only(kind: DavKind, rs: Seq<DavResponse>, own: Option<String>, i: int)
    requires
        0 <= i < discover::kept(kind, rs, own).len(),
        kind != DavKind::Webdav,
    ensures
        is_sought(kind, discover::kept(kind, rs, own)[i].props),
        !is_for_nothing(discover::kept(kind, rs, own)[i].props),
        exists|j: int| 0 <= j < rs.len() && #[trigger] rs[j] == discover::kept(kind, rs, own)[i],
    decreases rs.len(),
{
    let rest = discover::kept(kind, rs.drop_last(), own);
    let all = discover::kept(kind, rs, own);
    if i < rest.len() {
        lemma_kept_only(kind, rs.drop_last(), own, i);
        let j = choose|j: int|
            0 <= j < rs.drop_last().len() && #[trigger] rs.drop_last()[j] == rest[i];
        assert(rs[j] == all[i]);
    } else {
        let r = rs.last();
        assert(rs[rs.len() - 1] == all[i]);
        if is_for_nothing(r.props) {
            assert forall|n: int| 0 <= n < r.props.supported_components@.len() implies !discover::is_useful(
                (#[trigger] r.props.supported_components@[n])@,
            ) by {}
        }
    }
}

/// What is found in a home set is the calendars, or the address books, that its
/// listing holds: each of them, with its URL, and nothing else. The home set is
/// the one that was listed.
pub proof fn home_sets_give_what_they_hold(
    s: Search,
    ms: Multistatus,
    p: Progress,
    home: Seq<char>,
    j: int,
)
    requires
        discover::follows(s, Ok(ms), p),
        s.kind != DavKind::Webdav,
        s.phase matches Phase::Homes { principal_url, home_set_url } && home_set_url@ == home,
        0 <= j < ms.responses@.len(),
        is_sought(s.kind, ms.responses@[j].props),
        !is_for_nothing(ms.responses@[j].props),
        forall|i: int|
            0 <= i < ms.responses@.len() ==> discover::url_join(
                home,
                (#[trigger] ms.responses@[i]).href@,
            ) is Ok,
    ensures
        p matches Progress::Found(d) && {
            &&& d.home_set_url@ == home
            &&& exists|i: int|
                0 <= i < d.collections@.len() && (#[trigger] d.collections@[i]).href@
                    == ms.responses@[j].href@ && d.collections@[i].props == ms.responses@[j].props
                    && discover::url_join(home, ms.responses@[j].href@) == Ok::<
                    Seq<char>,
                    Seq<char>,
                >(d.collections@[i].url@)
            &&& forall|i: int|
                0 <= i < d.collections@.len() ==> is_sought(
                    s.kind,
                    (#[trigger] d.collections@[i]).props,
                ) && !is_for_nothing(d.collections@[i].props)
        },
{
    let rs = ms.responses@;
    let own = ms.self_href;
    let ks = discover::kept(s.kind, rs, own);
    lemma_kept(s.kind, rs, own, j);
    let k = choose|i: int| 0 <= i < ks.len() && #[trigger] ks[i] == rs[j];
    assert forall|i: int| 0 <= i < ks.len() implies discover::url_join(
        home,
        (#[trigger] ks[i]).href@,
    ) is Ok by {
        lemma_kept_only(s.kind, rs, own, i);
        let m = choose|m: int| 0 <= m < rs.len() && #[trigger] rs[m] == ks[i];
    }
    if let Progress::Found(d) = p {
        assert(discover::is_collection_of(d.collections@[k], ks[k], home));
        assert(d.collections@[k].href@ == rs[j].href@);
        assert forall|i: int| 0 <= i < d.collections@.len() implies is_sought(
            s.kind,
            (#[trigger] d.collections@[i]).props,
        ) && !is_for_nothing(d.collections@[i].props) by {
            assert(discover::is_collection_of(d.collections@[i], ks[i], home));
            lemma_kept_only(s.kind, rs, own, i);
        }
    }
}

/// Calendars and address books that lie right below the URL are found there:
/// once the principal was asked for, they are the result, with the principal
/// where the server names one.
pub proof fn collections_below_the_url_are_taken(
    s: Search,
    ms: Multistatus,
    p: Progress,
    j: int,
)
    requires
        discover::follows(s, Ok(ms), p),
        s.phase is Listing,
        s.kind != DavKind::Webdav,
        0 <= j < ms.responses@.len(),
        is_sought(s.kind, ms.responses@[j].props),
        !is_for_nothing(ms.responses@[j].props),
        forall|i: int|
            0 <= i < ms.responses@.len() ==> discover::url_join(
                s.url@,
                (#[trigger] ms.responses@[i]).href@,
            ) is Ok,
    ensures
        p matches Progress::Ask(next, q) && {
            &&& q.url@ == s.url@
            &&& q.depth == 0
            &&& next.phase matches Phase::Principal(list) && exists|i: int|
                0 <= i < list@.len() && (#[trigger] list@[i]).href@ == ms.responses@[j].href@
                    && list@[i].props == ms.responses@[j].props && discover::url_join(
                    s.url@,
                    ms.responses@[j].href@,
                ) == Ok::<Seq<char>, Seq<char>>(list@[i].url@)
        },
{
    let rs = ms.responses@;
    let own = ms.self_href;
    let ks = discover::kept(s.kind, rs, own);
    lemma_kept(s.kind, rs, own, j);
    let k = choose|i: int| 0 <= i < ks.len() && #[trigger] ks[i] == rs[j];
    assert forall|i: int| 0 <= i < ks.len() implies discover::url_join(
        s.url@,
        (#[trigger] ks[i]).href@,
    ) is Ok by {
        lemma_kept_only(s.kind, rs, own, i);
        let m = choose|m: int| 0 <= m < rs.len() && #[trigger] rs[m] == ks[i];
    }
    if let Progress::Ask(next, q) = p {
        if let Phase::Principal(list) = next.phase {
            assert(discover::is_collection_of(list@[k], ks[k], s.url@));
            assert(list@[k].href@ == rs[j].href@);
        }
    }
}

/// What was found below the URL is the result whatever is said of the
/// principal, and the principal that is named first is reported.
pub proof fn the_principal_changes_no_collection(
    s: Search,
    reply: Result<Multistatus, JmapError>,
    p: Progress,
)
    requires
        discover::follows(s, reply, p),
        s.phase is Principal,
    ensures
        p matches Progress::Found(d) ==> d.collections == (s.phase->Principal_0)
            && d.home_set_url@ == s.url@,
        reply matches Ok(ms) && ms.responses@.len() > 0
            && ms.responses@[0].props.current_user_principal is Some ==> match discover::url_join(
            (reply->Ok_0).final_url@,
            ((reply->Ok_0).responses@[0].props.current_user_principal->0)@,
        ) {
            Ok(url) => p matches Progress::Found(d) && json::text_view(d.principal_url) == Some(
                url,
            ),
            Err(m) => p matches Progress::Failed(DiscoveryError::Href(t)) && t@ == m,
        },
        reply matches Ok(ms) && (forall|i: int|
            0 <= i < ms.responses@.len() ==> (
            #[trigger] ms.responses@[i]).props.current_user_principal is None) ==> (
        p matches Progress::Found(d) && d.principal_url is None),
{
    if let Ok(ms) = reply {
        if forall|i: int|
            0 <= i < ms.responses@.len() ==> (
            #[trigger] ms.responses@[i]).props.current_user_principal is None {
            lemma_no_principal(ms.responses@);
        }
    }
}

proof fn lemma_no_principal(rs: Seq<DavResponse>)
    requires
        forall|i: int|
            0 <= i < rs.len() ==> (#[trigger] rs[i]).props.current_user_principal is None,
    ensures
        discover::principal_in(rs) is None,
    decreases rs.len(),
{
    if rs.len() > 0 {
        let rest = rs.skip(1);
        assert forall|i: int| 0 <= i < rest.len() implies (
        #[trigger] rest[i]).props.current_user_principal is None by {
            assert(rest[i] == rs[i + 1]);
        }
        lemma_no_principal(rest);
    }
}

/// Whether an answer says that there is nothing where it was asked: a refusal
/// that names the client, or, of a question about the principal, the server; an
/// answer that cannot be read; or none after several attempts.
pub open spec fn says_nothing_is_there(phase: Phase, e: JmapError) -> bool {
    match e {
        JmapError::HttpStatus { status, body } => 400 <= status && (status < 500 || (status < 600
            && !(phase is Listing))),
        JmapError::Malformed(_) => true,
        JmapError::RetriesExhausted(_) => true,
        _ => false,
    }
}

/// A search gives up with the error of an answer that says something else than
/// that there is nothing; from one that does, it goes on to another question or
/// says that nothing was found.
pub proof fn only_other_errors_end_a_search(s: Search, e: JmapError, p: Progress)
    requires
        discover::follows(s, Err(e), p),
        !(s.phase is Homes),
    ensures
        p matches Progress::Failed(DiscoveryError::Transport(t)) <==> !says_nothing_is_there(
            s.phase,
            e,
        ),
        !says_nothing_is_there(s.phase, e) ==> p == Progress::Failed(DiscoveryError::Transport(e)),
{
}

/// Where nothing is said of the principal at the URL that was given, it is asked
/// for at the place that every server has for it, and there the collections are
/// listed last; only then nothing is found.
pub proof fn the_well_known_place_comes_second(
    s: Search,
    reply: Result<Multistatus, JmapError>,
    p: Progress,
    url: Seq<char>,
)
    requires
        discover::follows(s, reply, p),
        s.kind != DavKind::Webdav,
        discover::url_join(
            s.user_url@,
            if s.kind == DavKind::Caldav {
                "/.well-known/caldav"@
            } else {
                "/.well-known/carddav"@
            },
        ) == Ok::<Seq<char>, Seq<char>>(url),
    ensures
        p matches Progress::Failed(DiscoveryError::NotFound { url: u }) ==> s.spot
            == Spot::WellKnown && s.phase is Listing && u@ == s.user_url@,
        s.spot == Spot::Given && (p matches Progress::Ask(next, _) && next.spot == Spot::WellKnown)
            ==> (p matches Progress::Ask(next, q) && q.url@ == url && q.depth == 0
            && next.phase is Combined),
        s.spot == Spot::Given && s.phase is Combined && (reply matches Err(e)
            && says_nothing_is_there(s.phase, e)) ==> (p matches Progress::Ask(next, q) && q.url@
            == url && next.spot == Spot::WellKnown),
        s.spot == Spot::WellKnown && s.phase is Combined && (reply matches Err(e)
            && says_nothing_is_there(s.phase, e)) ==> (p matches Progress::Ask(next, q) && q.url@
            == s.url@ && q.depth == 1 && next.phase is Listing),
        s.spot == Spot::Given && s.phase is Listing && (reply matches Err(e)
            && says_nothing_is_there(s.phase, e)) ==> (p matches Progress::Ask(next, q) && q.url@
            == s.url@ && q.depth == 0 && next.phase is Combined),
{
}

} // verus!

//! How the collections of a user are found: at the URL that the user gave, by
//! way of the principal that the server names there, or at the well-known
//! place.

use crate::dav::xml;
use crate::jmap::error::JmapError;
use crate::json;
use crate::text;
use vstd::prelude::*;

verus! {

/// Which DAV protocol is spoken.
#[derive(Clone, Copy, PartialEq, Eq, Structural, Debug)]
pub enum DavKind {
    Caldav,
    Carddav,
    Webdav,
}

/// What a server says of a resource, as far as it matters here.
#[derive(Default, Debug)]
pub struct ResourceProps {
    pub is_collection: bool,
    pub is_calendar: bool,
    pub is_addressbook: bool,
    pub supported_components: Vec<String>,
    pub current_user_principal: Option<String>,
    pub calendar_home_set: Option<String>,
    pub addressbook_home_set: Option<String>,
}

/// The home set of a protocol that a resource names.
pub open spec fn home_set_of(kind: DavKind, props: ResourceProps) -> Option<Seq<char>> {
    match kind {
        DavKind::Caldav => json::text_view(props.calendar_home_set),
        DavKind::Carddav => json::text_view(props.addressbook_home_set),
        DavKind::Webdav => None,
    }
}

/// Whether a resource is a collection of the protocol.
pub open spec fn is_item(kind: DavKind, props: ResourceProps) -> bool {
    match kind {
        DavKind::Caldav => props.is_calendar,
        DavKind::Carddav => props.is_addressbook,
        DavKind::Webdav => props.is_collection,
    }
}

/// The place at which a server tells where its collections are.
pub open spec fn well_known_path(kind: DavKind) -> Option<Seq<char>> {
    match kind {
        DavKind::Caldav => Some("/.well-known/caldav"@),
        DavKind::Carddav => Some("/.well-known/carddav"@),
        DavKind::Webdav => None,
    }
}

/// The request that lists collections.
pub open spec fn listing_text(kind: DavKind) -> Seq<char> {
    match kind {
        DavKind::Caldav => xml::CALENDAR_COLLECTIONS@,
        DavKind::Carddav => xml::ADDRESSBOOK_COLLECTIONS@,
        DavKind::Webdav => xml::WEBDAV_LISTING@,
    }
}

/// The request for the home set.
pub open spec fn home_set_text(kind: DavKind) -> Option<Seq<char>> {
    match kind {
        DavKind::Caldav => Some(xml::CALENDAR_HOME_SET@),
        DavKind::Carddav => Some(xml::ADDRESSBOOK_HOME_SET@),
        DavKind::Webdav => None,
    }
}

/// The request for the principal and the home set.
pub open spec fn combined_text(kind: DavKind) -> Option<Seq<char>> {
    match kind {
        DavKind::Caldav => Some(xml::PRINCIPAL_AND_CALENDAR_HOME_SET@),
        DavKind::Carddav => Some(xml::PRINCIPAL_AND_ADDRESSBOOK_HOME_SET@),
        DavKind::Webdav => None,
    }
}

impl DavKind {
    /// The place at which a server tells where its collections are.
    pub fn well_known_uri(self) -> (r: Option<&'static str>)
        ensures
            json::str_view(r) == well_known_path(self),
    {
        match self {
            DavKind::Caldav => Some("/.well-known/caldav"),
            DavKind::Carddav => Some("/.well-known/carddav"),
            DavKind::Webdav => None,
        }
    }

    /// The request for the home set.
    pub fn home_set_body(self) -> (r: Option<String>)
        ensures
            json::text_view(r) == home_set_text(self),
    {
        match self {
            DavKind::Caldav => Some(xml::CALENDAR_HOME_SET.to_owned()),
            DavKind::Carddav => Some(xml::ADDRESSBOOK_HOME_SET.to_owned()),
            DavKind::Webdav => None,
        }
    }

    /// The request for the principal and the home set.
    pub fn principal_and_home_set_body(self) -> (r: Option<String>)
        ensures
            json::text_view(r) == combined_text(self),
    {
        match self {
            DavKind::Caldav => Some(xml::PRINCIPAL_AND_CALENDAR_HOME_SET.to_owned()),
            DavKind::Carddav => Some(xml::PRINCIPAL_AND_ADDRESSBOOK_HOME_SET.to_owned()),
            DavKind::Webdav => None,
        }
    }

    /// The request that lists collections.
    pub fn collection_listing_body(self) -> (r: String)
        ensures
            r@ == listing_text(self),
    {
        match self {
            DavKind::Caldav => xml::CALENDAR_COLLECTIONS.to_owned(),
            DavKind::Carddav => xml::ADDRESSBOOK_COLLECTIONS.to_owned(),
            DavKind::Webdav => xml::WEBDAV_LISTING.to_owned(),
        }
    }

    /// The home set of the protocol that a resource names.
    pub fn extract_home_set(self, props: &ResourceProps) -> (r: Option<&str>)
        ensures
            json::str_view(r) == home_set_of(self, *props),
    {
        match self {
            DavKind::Caldav => match &props.calendar_home_set {
                Some(t) => Some(t.as_str()),
                None => None,
            },
            DavKind::Carddav => match &props.addressbook_home_set {
                Some(t) => Some(t.as_str()),
                None => None,
            },
            DavKind::Webdav => None,
        }
    }

    /// Whether a resource is a collection of the protocol.
    pub fn item_resourcetype_matches(self, props: &ResourceProps) -> (r: bool)
        ensures
            r == is_item(self, *props),
    {
        match self {
            DavKind::Caldav => props.is_calendar,
            DavKind::Carddav => props.is_addressbook,
            DavKind::Webdav => props.is_collection,
        }
    }
}

/// A resource within an answer, under its normalised path.
#[derive(Debug)]
pub struct DavResponse {
    pub href: String,
    pub props: ResourceProps,
}

/// An answer about several resources: the URL that gave it in the end, and the
/// normalised path of that which was asked for.
#[derive(Debug)]
pub struct Multistatus {
    pub final_url: String,
    pub self_href: Option<String>,
    pub responses: Vec<DavResponse>,
}

/// A collection that was found.
#[derive(Debug)]
pub struct DiscoveredCollection {
    pub url: String,
    pub href: String,
    pub props: ResourceProps,
}

/// What was found.
#[derive(Debug)]
pub struct Discovery {
    pub principal_url: Option<String>,
    pub home_set_url: String,
    pub collections: Vec<DiscoveredCollection>,
}

/// Why nothing was found.
#[derive(Debug)]
pub enum DiscoveryError {
    Transport(JmapError),
    Parse(String),
    Href(String),
    NotFound { url: String },
}

/// What an error says.
pub open spec fn discovery_text(e: DiscoveryError) -> Seq<char> {
    match e {
        DiscoveryError::Transport(t) => "transport: "@ + crate::jmap::error::jmap_text(t),
        DiscoveryError::Parse(m) => "xml: "@ + m@,
        DiscoveryError::Href(m) => "href: "@ + m@,
        DiscoveryError::NotFound { url } => "no DAV collections found under "@ + url@,
    }
}

impl DiscoveryError {
    /// What the error says.
    pub fn message(&self) -> (r: String)
        ensures
            r@ == discovery_text(*self),
    {
        match self {
            DiscoveryError::Transport(t) => text::joined("transport: ", t.message().as_str()),
            DiscoveryError::Parse(m) => text::joined("xml: ", m.as_str()),
            DiscoveryError::Href(m) => text::joined("href: ", m.as_str()),
            DiscoveryError::NotFound { url } => text::joined(
                "no DAV collections found under ",
                url.as_str(),
            ),
        }
    }
}

/// A reference, as the `url` crate joins it to a base.
pub uninterp spec fn url_join(base: Seq<char>, reference: Seq<char>) -> Result<Seq<char>, Seq<char>>;

/// `url::Url::parse` of the base and `join`: the URL that a reference names, or
/// the text of the error.
#[verifier::external_body]
fn join_url(base: &str, reference: &str) -> (r: Result<String, String>)
    ensures
        match r {
            Ok(u) => url_join(base@, reference@) == Ok::<Seq<char>, Seq<char>>(u@),
            Err(e) => url_join(base@, reference@) == Err::<Seq<char>, Seq<char>>(e@),
        },
{
    let joined = url::Url::parse(base).and_then(|b| b.join(reference));
    joined.map(|u| u.to_string()).map_err(|e| e.to_string())
}

/// Whether a component is one that a calendar is kept for.
pub open spec fn is_useful(component: Seq<char>) -> bool {
    component == "VEVENT"@ || component == "VTODO"@ || component == "VJOURNAL"@
}

/// Whether a calendar names its components, and none of them is one that a
/// calendar is kept for.
pub open spec fn is_free_busy_only(props: ResourceProps) -> bool {
    &&& props.is_calendar
    &&& props.supported_components@.len() > 0
    &&& forall|i: int|
        0 <= i < props.supported_components@.len() ==> !is_useful(
            (#[trigger] props.supported_components@[i])@,
        )
}

/// Whether a calendar holds nothing but free-busy times.
pub fn calendar_supports_only_vfreebusy(props: &ResourceProps) -> (r: bool)
    ensures
        r == is_free_busy_only(*props),
{
    if !props.is_calendar || props.supported_components.len() == 0 {
        return false;
    }
    let mut i: usize = 0;
    while i < props.supported_components.len()
        invariant
            i <= props.supported_components@.len(),
            forall|k: int|
                0 <= k < i ==> !is_useful((#[trigger] props.supported_components@[k])@),
        decreases props.supported_components@.len() - i,
    {
        let c: &str = props.supported_components[i].as_str();
        if text::same(c, "VEVENT") || text::same(c, "VTODO") || text::same(c, "VJOURNAL") {
            assert(is_useful(props.supported_components@[i as int]@));
            return false;
        }
        i = i + 1;
    }
    true
}

/// Whether a resource of a listing is kept: over WebDAV the collection that was
/// asked for, else each collection of the protocol that is of use.
pub open spec fn is_kept(kind: DavKind, r: DavResponse, self_href: Option<String>) -> bool {
    if kind == DavKind::Webdav {
        r.props.is_collection && json::text_view(self_href) == Some(r.href@)
    } else {
        is_item(kind, r.props) && !is_free_busy_only(r.props)
    }
}

/// The resources of a listing that are kept.
pub open spec fn kept(
    kind: DavKind,
    rs: Seq<DavResponse>,
    self_href: Option<String>,
) -> Seq<DavResponse>
    decreases rs.len(),
{
    if rs.len() == 0 {
        Seq::empty()
    } else if is_kept(kind, rs.last(), self_href) {
        kept(kind, rs.drop_last(), self_href).push(rs.last())
    } else {
        kept(kind, rs.drop_last(), self_href)
    }
}

/// Whether a collection is a resource of a listing, with its URL.
pub open spec fn is_collection_of(c: DiscoveredCollection, r: DavResponse, url: Seq<char>) -> bool {
    &&& c.href@ == r.href@
    &&& c.props == r.props
    &&& url_join(url, r.href@) == Ok::<Seq<char>, Seq<char>>(c.url@)
}

/// Whether collections are the resources of a listing that are kept.
pub open spec fn are_collections_of(
    list: Seq<DiscoveredCollection>,
    kind: DavKind,
    ms: Multistatus,
    url: Seq<char>,
) -> bool {
    let rs = kept(kind, ms.responses@, ms.self_href);
    &&& list.len() == rs.len()
    &&& forall|i: int| 0 <= i < list.len() ==> is_collection_of(#[trigger] list[i], rs[i], url)
}

/// Whether the first resource that is kept and has no URL has this error.
pub open spec fn has_bad_href(kind: DavKind, ms: Multistatus, url: Seq<char>, m: Seq<char>) -> bool {
    let rs = kept(kind, ms.responses@, ms.self_href);
    exists|i: int|
        0 <= i < rs.len() && url_join(url, (#[trigger] rs[i]).href@) == Err::<Seq<char>, Seq<char>>(
            m,
        ) && (forall|k: int| 0 <= k < i ==> url_join(url, (#[trigger] rs[k]).href@) is Ok)
}

/// What is said of a calendar that is skipped.
pub open spec fn skip_text(r: DavResponse) -> Seq<char> {
    "calendar "@ + r.href@ + " supports only ["@ + text::join(
        Seq::new(
            r.props.supported_components@.len(),
            |i: int| text::debug_text(r.props.supported_components@[i]@),
        ),
        ", "@,
    ) + "]; skipping"@
}

/// Warns about a calendar that is skipped.
pub fn skip_warning(r: &DavResponse) -> (w: String)
    ensures
        w@ == skip_text(*r),
{
    let mut names: Vec<String> = Vec::new();
    let mut i: usize = 0;
    while i < r.props.supported_components.len()
        invariant
            i <= r.props.supported_components@.len(),
            names@.len() == i,
            forall|k: int|
                0 <= k < i ==> (#[trigger] names@[k])@ == text::debug_text(
                    r.props.supported_components@[k]@,
                ),
        decreases r.props.supported_components@.len() - i,
    {
        names.push(text::quoted(r.props.supported_components[i].as_str()));
        i = i + 1;
    }
    assert(text::texts(names@) =~= Seq::new(
        r.props.supported_components@.len(),
        |i: int| text::debug_text(r.props.supported_components@[i]@),
    ));
    let list: String = text::join_texts(&names, ", ");
    let mut w: String = text::joined("calendar ", r.href.as_str());
    w.append(" supports only [");
    w.append(list.as_str());
    w.append("]; skipping");
    w
}

proof fn lemma_kept_step(kind: DavKind, rs: Seq<DavResponse>, self_href: Option<String>, i: int)
    requires
        0 <= i <= rs.len(),
    ensures
        kept(kind, rs.take(i), self_href).len() <= kept(kind, rs, self_href).len(),
        forall|k: int|
            0 <= k < kept(kind, rs.take(i), self_href).len() ==> kept(kind, rs, self_href)[k]
                == #[trigger] kept(kind, rs.take(i), self_href)[k],
    decreases rs.len() - i,
{
    if i < rs.len() {
        assert(rs.take(i + 1).drop_last() =~= rs.take(i));
        lemma_kept_step(kind, rs, self_href, i + 1);
        assert forall|k: int|
            0 <= k < kept(kind, rs.take(i), self_href).len() implies kept(kind, rs, self_href)[k]
            == #[trigger] kept(kind, rs.take(i), self_href)[k] by {
            assert(kept(kind, rs.take(i + 1), self_href)[k] == kept(kind, rs.take(i), self_href)[k]);
        }
    } else {
        assert(rs.take(i) =~= rs);
    }
}

/// Reads the collections out of a listing.
pub fn listed_collections(kind: DavKind, url: &str, ms: Multistatus) -> (r: Result<
    Vec<DiscoveredCollection>,
    String,
>)
    ensures
        match r {
            Ok(list) => are_collections_of(list@, kind, ms, url@),
            Err(m) => has_bad_href(kind, ms, url@, m@),
        },
{
    let ghost all = ms.responses@;
    let ghost own = ms.self_href;
    let mut responses: Vec<DavResponse> = ms.responses;
    let total: usize = responses.len();
    let mut out: Vec<DiscoveredCollection> = Vec::new();
    let mut done: usize = 0;
    proof {
        assert(all.take(0) =~= Seq::empty());
        assert(all.skip(0) =~= all);
    }
    while responses.len() > 0
        invariant
            done <= all.len(),
            responses@ == all.skip(done as int),
            own == ms.self_href,
            all == ms.responses@,
            all.len() == total,
            out@.len() == kept(kind, all.take(done as int), own).len(),
            forall|i: int|
                0 <= i < out@.len() ==> is_collection_of(
                    #[trigger] out@[i],
                    kept(kind, all.take(done as int), own)[i],
                    url@,
                ),
        decreases responses@.len(),
    {
        proof {
            assert(all.take(done as int + 1).drop_last() =~= all.take(done as int));
            assert(all.take(done as int + 1).last() == responses@[0]);
            assert(all.skip(done as int + 1) =~= all.skip(done as int).skip(1));
        }
        let r: DavResponse = responses.remove(0);
        assert(responses@ =~= all.skip(done as int + 1));
        let wanted: bool = match kind {
            DavKind::Webdav => r.props.is_collection && (match &ms.self_href {
                Some(t) => text::same(t.as_str(), r.href.as_str()),
                None => false,
            }),
            _ => kind.item_resourcetype_matches(&r.props) && !calendar_supports_only_vfreebusy(
                &r.props,
            ),
        };
        assert(wanted == is_kept(kind, r, own));
        if wanted {
            match join_url(url, r.href.as_str()) {
                Ok(abs) => {
                    out.push(DiscoveredCollection { url: abs, href: r.href, props: r.props });
                },
                Err(m) => {
                    proof {
                        let ks = kept(kind, all.take(done as int + 1), own);
                        lemma_kept_step(kind, all, own, done as int + 1);
                        assert(ks.last() == r);
                        let rs = kept(kind, all, own);
                        assert(rs[ks.len() - 1] == ks[ks.len() - 1]);
                        assert forall|k: int| 0 <= k < ks.len() - 1 implies url_join(
                            url@,
                            (#[trigger] rs[k]).href@,
                        ) is Ok by {
                            assert(rs[k] == ks[k]);
                            assert(ks[k] == kept(kind, all.take(done as int), own)[k]);
                            assert(is_collection_of(
                                out@[k],
                                kept(kind, all.take(done as int), own)[k],
                                url@,
                            ));
                        }
                    }
                    return Err(m);
                },
            }
        }
        done = done + 1;
    }
    assert(all.take(done as int) =~= all);
    Ok(out)
}

/// The first principal that an answer names.
pub open spec fn principal_in(rs: Seq<DavResponse>) -> Option<Seq<char>>
    decreases rs.len(),
{
    if rs.len() == 0 {
        None
    } else if rs[0].props.current_user_principal is Some {
        json::text_view(rs[0].props.current_user_principal)
    } else {
        principal_in(rs.skip(1))
    }
}

/// The first home set that an answer names.
pub open spec fn home_set_in(kind: DavKind, rs: Seq<DavResponse>) -> Option<Seq<char>>
    decreases rs.len(),
{
    if rs.len() == 0 {
        None
    } else if home_set_of(kind, rs[0].props) is Some {
        home_set_of(kind, rs[0].props)
    } else {
        home_set_in(kind, rs.skip(1))
    }
}

fn find_principal(rs: &Vec<DavResponse>) -> (r: Option<String>)
    ensures
        json::text_view(r) == principal_in(rs@),
{
    let mut i: usize = 0;
    assert(rs@.skip(0) =~= rs@);
    while i < rs.len()
        invariant
            i <= rs@.len(),
            principal_in(rs@.skip(i as int)) == principal_in(rs@),
        decreases rs@.len() - i,
    {
        assert(rs@.skip(i as int).skip(1) =~= rs@.skip(i as int + 1));
        if let Some(t) = &rs[i].props.current_user_principal {
            return Some(t.clone());
        }
        i = i + 1;
    }
    None
}

fn find_home_set(kind: DavKind, rs: &Vec<DavResponse>) -> (r: Option<String>)
    ensures
        json::text_view(r) == home_set_in(kind, rs@),
{
    let mut i: usize = 0;
    assert(rs@.skip(0) =~= rs@);
    while i < rs.len()
        invariant
            i <= rs@.len(),
            home_set_in(kind, rs@.skip(i as int)) == home_set_in(kind, rs@),
        decreases rs@.len() - i,
    {
        assert(rs@.skip(i as int).skip(1) =~= rs@.skip(i as int + 1));
        if let Some(t) = kind.extract_home_set(&rs[i].props) {
            return Some(t.to_owned());
        }
        i = i + 1;
    }
    None
}

/// Where collections are being looked for.
#[derive(Clone, Copy, PartialEq, Eq, Structural, Debug)]
pub enum Spot {
    /// The URL that the user gave, before the well-known place.
    Given,
    /// The well-known place.
    WellKnown,
}

/// What was asked last.
#[derive(Debug)]
pub enum Phase {
    /// The collections right below the URL.
    Listing,
    /// The principal at the URL, with the collections found below it.
    Principal(Vec<DiscoveredCollection>),
    /// The principal and the home set at the URL.
    Combined,
    /// The home set of a principal.
    HomeSet(String),
    /// The collections in the home set of a principal.
    Homes { principal_url: String, home_set_url: String },
}

/// A search on its way.
#[derive(Debug)]
pub struct Search {
    pub kind: DavKind,
    pub user_url: String,
    pub spot: Spot,
    pub url: String,
    pub phase: Phase,
}

/// A PROPFIND request.
#[derive(Debug)]
pub struct Propfind {
    pub url: String,
    pub depth: u8,
    pub body: String,
}

/// How a search goes on.
#[derive(Debug)]
pub enum Progress {
    Ask(Search, Propfind),
    Found(Discovery),
    Failed(DiscoveryError),
}

/// Whether an error on a listing means that there is nothing at the URL.
pub open spec fn is_no_listing(e: JmapError) -> bool {
    match e {
        JmapError::HttpStatus { status, body } => 400 <= status < 500,
        JmapError::Malformed(_) => true,
        JmapError::RetriesExhausted(_) => true,
        _ => false,
    }
}

/// Whether an error on a question about the principal means that there is none.
pub open spec fn is_no_principal(e: JmapError) -> bool {
    match e {
        JmapError::HttpStatus { status, body } => 400 <= status < 600,
        JmapError::Malformed(_) => true,
        JmapError::RetriesExhausted(_) => true,
        _ => false,
    }
}

fn no_listing(e: &JmapError) -> (r: bool)
    ensures
        r == is_no_listing(*e),
{
    match e {
        JmapError::HttpStatus { status, body } => *status >= 400 && *status < 500,
        JmapError::Malformed(_) => true,
        JmapError::RetriesExhausted(_) => true,
        _ => false,
    }
}

fn no_principal(e: &JmapError) -> (r: bool)
    ensures
        r == is_no_principal(*e),
{
    match e {
        JmapError::HttpStatus { status, body } => *status >= 400 && *status < 600,
        JmapError::Malformed(_) => true,
        JmapError::RetriesExhausted(_) => true,
        _ => false,
    }
}

/// Whether a step asks a question next.
pub open spec fn asks(
    p: Progress,
    kind: DavKind,
    user_url: Seq<char>,
    spot: Spot,
    url: Seq<char>,
    to: Seq<char>,
    depth: u8,
    body: Seq<char>,
) -> bool {
    &&& p matches Progress::Ask(s, q)
    &&& s.kind == kind
    &&& s.user_url@ == user_url
    &&& s.spot == spot
    &&& s.url@ == url
    &&& q.url@ == to
    &&& q.depth == depth
    &&& q.body@ == body
}

/// Whether a step lists what is right below a URL.
pub open spec fn asks_listing(
    p: Progress,
    kind: DavKind,
    user_url: Seq<char>,
    spot: Spot,
    url: Seq<char>,
) -> bool {
    asks(p, kind, user_url, spot, url, url, 1, listing_text(kind)) && (p->Ask_0).phase is Listing
}

/// Whether a step asks for the principal and the home set at a URL.
pub open spec fn asks_combined(
    p: Progress,
    kind: DavKind,
    user_url: Seq<char>,
    spot: Spot,
    url: Seq<char>,
) -> bool {
    combined_text(kind) matches Some(body) && asks(
        p,
        kind,
        user_url,
        spot,
        url,
        url,
        0,
        body,
    ) && (p->Ask_0).phase is Combined
}

/// Whether a search has failed for good.
pub open spec fn is_not_found(p: Progress, user_url: Seq<char>) -> bool {
    p matches Progress::Failed(DiscoveryError::NotFound { url }) && url@ == user_url
}

/// Whether a search goes on as it does when the listing at a spot is of no use:
/// from the given URL to the principal, or to the well-known place where there
/// is no principal to ask for; from the well-known place nowhere.
pub open spec fn after_no_listing(p: Progress, s: Search) -> bool {
    match s.spot {
        Spot::Given => if combined_text(s.kind) is Some {
            asks_combined(p, s.kind, s.user_url@, Spot::Given, s.url@)
        } else {
            is_not_found(p, s.user_url@)
        },
        Spot::WellKnown => is_not_found(p, s.user_url@),
    }
}

/// Whether a search goes on as it does when the principal at a spot is of no
/// use: from the given URL to the principal at the well-known place, and from
/// there to the listing at it.
pub open spec fn after_no_principal(p: Progress, s: Search) -> bool {
    match s.spot {
        Spot::Given => match well_known_path(s.kind) {
            None => is_not_found(p, s.user_url@),
            Some(path) => match url_join(s.user_url@, path) {
                Ok(url) => asks_combined(p, s.kind, s.user_url@, Spot::WellKnown, url),
                Err(m) => p matches Progress::Failed(DiscoveryError::Href(t)) && t@ == m,
            },
        },
        Spot::WellKnown => asks_listing(p, s.kind, s.user_url@, Spot::WellKnown, s.url@),
    }
}

/// Whether a search lists a home set.
pub open spec fn asks_homes(
    p: Progress,
    s: Search,
    principal: Seq<char>,
    home: Seq<char>,
) -> bool {
    &&& asks(p, s.kind, s.user_url@, s.spot, s.url@, home, 1, listing_text(s.kind))
    &&& (p->Ask_0).phase matches Phase::Homes { principal_url, home_set_url }
    &&& principal_url@ == principal
    &&& home_set_url@ == home
}

/// Whether a step follows from the answer to the last question.
pub open spec fn follows(s: Search, reply: Result<Multistatus, JmapError>, p: Progress) -> bool {
    match (s.phase, reply) {
        (Phase::Listing, Err(e)) => if is_no_listing(e) {
            after_no_listing(p, s)
        } else {
            p == Progress::Failed(DiscoveryError::Transport(e))
        },
        (Phase::Listing, Ok(ms)) => {
            ||| (p matches Progress::Failed(DiscoveryError::Href(m)) && has_bad_href(
                s.kind,
                ms,
                s.url@,
                m@,
            ))
            ||| (kept(s.kind, ms.responses@, ms.self_href).len() == 0 && after_no_listing(p, s))
            ||| (kept(s.kind, ms.responses@, ms.self_href).len() > 0 && if s.kind
                == DavKind::Webdav {
                &&& p matches Progress::Found(d)
                &&& d.principal_url is None
                &&& d.home_set_url@ == s.url@
                &&& are_collections_of(d.collections@, s.kind, ms, s.url@)
            } else {
                &&& asks(
                    p,
                    s.kind,
                    s.user_url@,
                    s.spot,
                    s.url@,
                    s.url@,
                    0,
                    xml::CURRENT_USER_PRINCIPAL@,
                )
                &&& (p->Ask_0).phase matches Phase::Principal(list)
                &&& are_collections_of(list@, s.kind, ms, s.url@)
            })
        },
        (Phase::Principal(list), Err(e)) => if is_no_principal(e) {
            &&& p matches Progress::Found(d)
            &&& d.principal_url is None
            &&& d.home_set_url@ == s.url@
            &&& d.collections == list
        } else {
            p == Progress::Failed(DiscoveryError::Transport(e))
        },
        (Phase::Principal(list), Ok(ms)) => match principal_in(ms.responses@) {
            None => {
                &&& p matches Progress::Found(d)
                &&& d.principal_url is None
                &&& d.home_set_url@ == s.url@
                &&& d.collections == list
            },
            Some(href) => match url_join(ms.final_url@, href) {
                Ok(url) => {
                    &&& p matches Progress::Found(d)
                    &&& json::text_view(d.principal_url) == Some(url)
                    &&& d.home_set_url@ == s.url@
                    &&& d.collections == list
                },
                Err(m) => p matches Progress::Failed(DiscoveryError::Href(t)) && t@ == m,
            },
        },
        (Phase::Combined, Err(e)) => if is_no_principal(e) {
            after_no_principal(p, s)
        } else {
            p == Progress::Failed(DiscoveryError::Transport(e))
        },
        (Phase::Combined, Ok(ms)) => match home_set_in(s.kind, ms.responses@) {
            Some(href) => match url_join(ms.final_url@, href) {
                Ok(home) => asks_homes(p, s, ms.final_url@, home),
                Err(m) => p matches Progress::Failed(DiscoveryError::Href(t)) && t@ == m,
            },
            None => {
                let principal = match principal_in(ms.responses@) {
                    Some(href) => url_join(ms.final_url@, href),
                    None => Ok(ms.final_url@),
                };
                match (principal, home_set_text(s.kind)) {
                    (Err(m), _) => p matches Progress::Failed(DiscoveryError::Href(t)) && t@ == m,
                    (Ok(url), None) => after_no_principal(p, s),
                    (Ok(url), Some(body)) => {
                        &&& asks(p, s.kind, s.user_url@, s.spot, s.url@, url, 0, body)
                        &&& (p->Ask_0).phase matches Phase::HomeSet(u)
                        &&& u@ == url
                    },
                }
            },
        },
        (Phase::HomeSet(principal), Err(e)) => if is_no_principal(e) {
            after_no_principal(p, s)
        } else {
            p == Progress::Failed(DiscoveryError::Transport(e))
        },
        (Phase::HomeSet(principal), Ok(ms)) => match home_set_in(s.kind, ms.responses@) {
            None => after_no_principal(p, s),
            Some(href) => match url_join(ms.final_url@, href) {
                Ok(home) => asks_homes(p, s, principal@, home),
                Err(m) => p matches Progress::Failed(DiscoveryError::Href(t)) && t@ == m,
            },
        },
        (Phase::Homes { principal_url, home_set_url }, Err(e)) => p == Progress::Failed(
            DiscoveryError::Transport(e),
        ),
        (Phase::Homes { principal_url, home_set_url }, Ok(ms)) => {
            ||| (p matches Progress::Failed(DiscoveryError::Href(m)) && has_bad_href(
                s.kind,
                ms,
                home_set_url@,
                m@,
            ))
            ||| (kept(s.kind, ms.responses@, ms.self_href).len() == 0 && after_no_principal(p, s))
            ||| {
                &&& kept(s.kind, ms.responses@, ms.self_href).len() > 0
                &&& p matches Progress::Found(d)
                &&& d.principal_url == Some(principal_url)
                &&& d.home_set_url == home_set_url
                &&& are_collections_of(d.collections@, s.kind, ms, home_set_url@)
            }
        },
    }
}

fn not_found(user_url: String) -> (p: Progress)
    ensures
        is_not_found(p, user_url@),
{
    Progress::Failed(DiscoveryError::NotFound { url: user_url })
}

fn ask_listing(kind: DavKind, user_url: String, spot: Spot, url: String) -> (p: Progress)
    ensures
        asks_listing(p, kind, user_url@, spot, url@),
{
    let q: Propfind = Propfind { url: url.clone(), depth: 1, body: kind.collection_listing_body() };
    Progress::Ask(Search { kind, user_url, spot, url, phase: Phase::Listing }, q)
}

fn ask_combined(kind: DavKind, user_url: String, spot: Spot, url: String, body: String) -> (p:
    Progress)
    requires
        combined_text(kind) == Some(body@),
    ensures
        asks_combined(p, kind, user_url@, spot, url@),
{
    let q: Propfind = Propfind { url: url.clone(), depth: 0, body };
    Progress::Ask(Search { kind, user_url, spot, url, phase: Phase::Combined }, q)
}

fn give_up_listing(kind: DavKind, user_url: String, spot: Spot, url: String) -> (p: Progress)
    ensures
        forall|s: Search|
            s.kind == kind && s.user_url == user_url && s.spot == spot && s.url == url
                ==> #[trigger] after_no_listing(p, s),
        p matches Progress::Ask(s, q) ==> is_sound(s),
{
    match spot {
        Spot::Given => match kind.principal_and_home_set_body() {
            Some(body) => ask_combined(kind, user_url, Spot::Given, url, body),
            None => not_found(user_url),
        },
        Spot::WellKnown => not_found(user_url),
    }
}

fn give_up_principal(kind: DavKind, user_url: String, spot: Spot, url: String) -> (p: Progress)
    requires
        combined_text(kind) is Some,
    ensures
        forall|s: Search|
            s.kind == kind && s.user_url == user_url && s.spot == spot && s.url == url
                ==> #[trigger] after_no_principal(p, s),
        p matches Progress::Ask(s, q) ==> is_sound(s),
{
    match spot {
        Spot::Given => match kind.well_known_uri() {
            None => not_found(user_url),
            Some(path) => match join_url(user_url.as_str(), path) {
                Ok(place) => match kind.principal_and_home_set_body() {
                    Some(body) => ask_combined(kind, user_url, Spot::WellKnown, place, body),
                    None => not_found(user_url),
                },
                Err(m) => Progress::Failed(DiscoveryError::Href(m)),
            },
        },
        Spot::WellKnown => ask_listing(kind, user_url, Spot::WellKnown, url),
    }
}

fn ask_homes(
    kind: DavKind,
    user_url: String,
    spot: Spot,
    url: String,
    principal_url: String,
    home_set_url: String,
) -> (p: Progress)
    ensures
        forall|s: Search|
            s.kind == kind && s.user_url == user_url && s.spot == spot && s.url == url
                ==> #[trigger] asks_homes(p, s, principal_url@, home_set_url@),
        combined_text(kind) is Some ==> (p matches Progress::Ask(s, q) && is_sound(s)),
{
    let q: Propfind = Propfind {
        url: home_set_url.clone(),
        depth: 1,
        body: kind.collection_listing_body(),
    };
    Progress::Ask(
        Search { kind, user_url, spot, url, phase: Phase::Homes { principal_url, home_set_url } },
        q,
    )
}

/// Whether a search can be on its way like this: the principal is only asked
/// for where the protocol has one.
pub open spec fn is_sound(s: Search) -> bool {
    s.phase is Listing || combined_text(s.kind) is Some
}

/// Starts a search: with what is right below the URL.
pub fn discover(kind: DavKind, user_url: &str) -> (p: Progress)
    ensures
        asks_listing(p, kind, user_url@, Spot::Given, user_url@),
        is_sound(p->Ask_0),
{
    ask_listing(kind, user_url.to_owned(), Spot::Given, user_url.to_owned())
}

/// Takes a search one step further.
pub fn advance(search: Search, reply: Result<Multistatus, JmapError>) -> (p: Progress)
    requires
        is_sound(search),
    ensures
        follows(search, reply, p),
        p matches Progress::Ask(s, q) ==> is_sound(s),
{
    let kind: DavKind = search.kind;
    let spot: Spot = search.spot;
    let user_url: String = search.user_url;
    let url: String = search.url;
    match search.phase {
        Phase::Listing => match reply {
            Err(e) => {
                if no_listing(&e) {
                    give_up_listing(kind, user_url, spot, url)
                } else {
                    Progress::Failed(DiscoveryError::Transport(e))
                }
            },
            Ok(ms) => match listed_collections(kind, url.as_str(), ms) {
                Err(m) => Progress::Failed(DiscoveryError::Href(m)),
                Ok(list) => {
                    if list.len() == 0 {
                        return give_up_listing(kind, user_url, spot, url);
                    }
                    match kind {
                        DavKind::Webdav => Progress::Found(
                            Discovery { principal_url: None, home_set_url: url, collections: list },
                        ),
                        _ => {
                            let q: Propfind = Propfind {
                                url: url.clone(),
                                depth: 0,
                                body: xml::CURRENT_USER_PRINCIPAL.to_owned(),
                            };
                            Progress::Ask(
                                Search { kind, user_url, spot, url, phase: Phase::Principal(list) },
                                q,
                            )
                        },
                    }
                },
            },
        },
        Phase::Principal(list) => match reply {
            Err(e) => {
                if no_principal(&e) {
                    Progress::Found(
                        Discovery { principal_url: None, home_set_url: url, collections: list },
                    )
                } else {
                    Progress::Failed(DiscoveryError::Transport(e))
                }
            },
            Ok(ms) => match find_principal(&ms.responses) {
                None => Progress::Found(
                    Discovery { principal_url: None, home_set_url: url, collections: list },
                ),
                Some(href) => match join_url(ms.final_url.as_str(), href.as_str()) {
                    Ok(u) => Progress::Found(
                        Discovery { principal_url: Some(u), home_set_url: url, collections: list },
                    ),
                    Err(m) => Progress::Failed(DiscoveryError::Href(m)),
                },
            },
        },
        Phase::Combined => match reply {
            Err(e) => {
                if no_principal(&e) {
                    give_up_principal(kind, user_url, spot, url)
                } else {
                    Progress::Failed(DiscoveryError::Transport(e))
                }
            },
            Ok(ms) => match find_home_set(kind, &ms.responses) {
                Some(href) => match join_url(ms.final_url.as_str(), href.as_str()) {
                    Ok(home) => ask_homes(kind, user_url, spot, url, ms.final_url, home),
                    Err(m) => Progress::Failed(DiscoveryError::Href(m)),
                },
                None => {
                    let principal: String = match find_principal(&ms.responses) {
                        Some(href) => match join_url(ms.final_url.as_str(), href.as_str()) {
                            Ok(u) => u,
                            Err(m) => {
                                return Progress::Failed(DiscoveryError::Href(m));
                            },
                        },
                        None => ms.final_url,
                    };
                    match kind.home_set_body() {
                        None => give_up_principal(kind, user_url, spot, url),
                        Some(body) => {
                            let q: Propfind = Propfind { url: principal.clone(), depth: 0, body };
                            Progress::Ask(
                                Search {
                                    kind,
                                    user_url,
                                    spot,
                                    url,
                                    phase: Phase::HomeSet(principal),
                                },
                                q,
                            )
                        },
                    }
                },
            },
        },
        Phase::HomeSet(principal) => match reply {
            Err(e) => {
                if no_principal(&e) {
                    give_up_principal(kind, user_url, spot, url)
                } else {
                    Progress::Failed(DiscoveryError::Transport(e))
                }
            },
            Ok(ms) => match find_home_set(kind, &ms.responses) {
                None => give_up_principal(kind, user_url, spot, url),
                Some(href) => match join_url(ms.final_url.as_str(), href.as_str()) {
                    Ok(home) => ask_homes(kind, user_url, spot, url, principal, home),
                    Err(m) => Progress::Failed(DiscoveryError::Href(m)),
                },
            },
        },
        Phase::Homes { principal_url, home_set_url } => match reply {
            Err(e) => Progress::Failed(DiscoveryError::Transport(e)),
            Ok(ms) => match listed_collections(kind, home_set_url.as_str(), ms) {
                Err(m) => Progress::Failed(DiscoveryError::Href(m)),
                Ok(list) => {
                    if list.len() == 0 {
                        return give_up_principal(kind, user_url, spot, url);
                    }
                    Progress::Found(
                        Discovery {
                            principal_url: Some(principal_url),
                            home_set_url,
                            collections: list,
                        },
                    )
                },
            },
        },
    }
}

/// How many questions may still come after the one that was asked last.
pub open spec fn questions_left(s: Search) -> nat {
    match (s.spot, s.phase) {
        (Spot::Given, Phase::Listing) => 9,
        (Spot::Given, Phase::Combined) => 7,
        (Spot::Given, Phase::HomeSet(_)) => 6,
        (Spot::Given, Phase::Homes { principal_url, home_set_url }) => 5,
        (Spot::WellKnown, Phase::Combined) => 4,
        (Spot::WellKnown, Phase::HomeSet(_)) => 3,
        (Spot::WellKnown, Phase::Homes { principal_url, home_set_url }) => 2,
        (Spot::WellKnown, Phase::Listing) => 1,
        (_, Phase::Principal(_)) => 0,
    }
}

/// A search ends: every question leaves fewer to be asked, whatever the
/// server answers.
pub proof fn searches_end(s: Search, reply: Result<Multistatus, JmapError>, p: Progress)
    requires
        follows(s, reply, p),
        p is Ask,
    ensures
        questions_left(p->Ask_0) < questions_left(s),
{
}

proof fn lemma_kept_is_of_use(
    kind: DavKind,
    rs: Seq<DavResponse>,
    self_href: Option<String>,
    i: int,
)
    requires
        0 <= i < kept(kind, rs, self_href).len(),
    ensures
        is_kept(kind, kept(kind, rs, self_href)[i], self_href),
    decreases rs.len(),
{
    let before = kept(kind, rs.drop_last(), self_href);
    if i < before.len() {
        lemma_kept_is_of_use(kind, rs.drop_last(), self_href, i);
        assert(kept(kind, rs, self_href)[i] == before[i]);
    }
}

/// Every collection that a listing gives is one of the protocol, and no
/// calendar that holds nothing but free-busy times.
pub proof fn found_collections_are_of_use(
    list: Seq<DiscoveredCollection>,
    kind: DavKind,
    ms: Multistatus,
    url: Seq<char>,
    i: int,
)
    requires
        are_collections_of(list, kind, ms, url),
        0 <= i < list.len(),
    ensures
        is_item(kind, list[i].props),
        kind != DavKind::Webdav ==> !is_free_busy_only(list[i].props),
{
    let rs = kept(kind, ms.responses@, ms.self_href);
    lemma_kept_is_of_use(kind, ms.responses@, ms.self_href, i);
    assert(is_collection_of(list[i], rs[i], url));
}

} // verus!

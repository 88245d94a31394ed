//! An import from a DAV server: which server it may talk to, which source the
//! archive records and what is counted.

use crate::dav::discover::{DavKind, DavResponse, Discovery, DiscoveryError};
use crate::error::Error;
use crate::jmap::error;
use crate::jmap::error::JmapError;
use crate::jmap::http::Auth;
use crate::links;
use crate::links::UrlParts;
use crate::sync;
use crate::sync::{RunOutcome, Summary, TypeCounts};
use crate::text;
use vstd::prelude::*;

verus! {

/// Which DAV protocol is asked for.
#[derive(Clone, Copy, PartialEq, Eq, Structural, Debug)]
pub enum DavKindArg {
    Caldav,
    Carddav,
    Webdav,
}

/// The name under which the archive records a source.
pub open spec fn source_name(kind: DavKindArg) -> Seq<char> {
    match kind {
        DavKindArg::Caldav => "caldav"@,
        DavKindArg::Carddav => "carddav"@,
        DavKindArg::Webdav => "webdav"@,
    }
}

impl DavKindArg {
    /// The protocol that is spoken.
    pub fn kind(self) -> (r: DavKind)
        ensures
            r == (match self {
                DavKindArg::Caldav => DavKind::Caldav,
                DavKindArg::Carddav => DavKind::Carddav,
                DavKindArg::Webdav => DavKind::Webdav,
            }),
    {
        match self {
            DavKindArg::Caldav => DavKind::Caldav,
            DavKindArg::Carddav => DavKind::Carddav,
            DavKindArg::Webdav => DavKind::Webdav,
        }
    }

    /// The name under which the archive records the source.
    pub fn source_kind(self) -> (r: &'static str)
        ensures
            r@ == source_name(self),
    {
        match self {
            DavKindArg::Caldav => "caldav",
            DavKindArg::Carddav => "carddav",
            DavKindArg::Webdav => "webdav",
        }
    }
}

/// How requests are authorized.
#[derive(Debug)]
pub enum DavAuth {
    Basic { user: String, password: String },
    Bearer { token: String },
}

impl DavAuth {
    /// The same, as requests take it.
    pub fn to_jmap_auth(&self) -> (r: Auth)
        ensures
            match *self {
                DavAuth::Basic { user, password } => r matches Auth::Basic { user: u, password: p }
                    && u@ == user@ && p@ == password@,
                DavAuth::Bearer { token } => r matches Auth::Bearer { token: t } && t@ == token@,
            },
    {
        match self {
            DavAuth::Basic { user, password } => Auth::Basic {
                user: user.clone(),
                password: password.clone(),
            },
            DavAuth::Bearer { token } => Auth::Bearer { token: token.clone() },
        }
    }

    /// Who asks, as the archive records it.
    pub fn username(&self) -> (r: String)
        ensures
            r@ == (match *self {
                DavAuth::Basic { user, password } => user@,
                DavAuth::Bearer { token } => "(bearer)"@,
            }),
    {
        match self {
            DavAuth::Basic { user, password } => user.clone(),
            DavAuth::Bearer { token } => "(bearer)".to_owned(),
        }
    }
}

/// What an import is told.
#[derive(Debug)]
pub struct DavImportConfig {
    pub kind: DavKindArg,
    pub url: String,
    pub auth: DavAuth,
    pub allow_cleartext: bool,
    pub dav_connections: usize,
    pub multiget_batch: usize,
    pub allow_source_change: bool,
}

/// Whether a URL may be talked to, given its scheme.
pub open spec fn is_scheme_verdict(
    scheme: Seq<char>,
    allow_cleartext: bool,
    r: Result<(), Error>,
) -> bool {
    if scheme == "https"@ || (scheme == "http"@ && allow_cleartext) {
        r is Ok
    } else if scheme == "http"@ {
        r matches Err(Error::Connection(m)) && m@ == "http:// URL requires --allow-cleartext"@
    } else {
        r matches Err(Error::Usage(m)) && m@ == "--url scheme must be http or https, got "@ + scheme
    }
}

/// Decides whether a scheme may be used.
pub fn scheme_policy(scheme: &str, allow_cleartext: bool) -> (r: Result<(), Error>)
    ensures
        is_scheme_verdict(scheme@, allow_cleartext, r),
{
    if text::same(scheme, "https") {
        Ok(())
    } else if text::same(scheme, "http") {
        if allow_cleartext {
            Ok(())
        } else {
            Err(Error::Connection("http:// URL requires --allow-cleartext".to_owned()))
        }
    } else {
        Err(Error::Usage(text::joined("--url scheme must be http or https, got ", scheme)))
    }
}

/// Decides whether a URL may be talked to: encrypted, or in the clear where
/// that was allowed.
pub fn enforce_tls_policy(url: &str, allow_cleartext: bool) -> (r: Result<(), Error>)
    ensures
        match links::url_parts(url@) {
            Ok(p) => is_scheme_verdict(p.scheme, allow_cleartext, r),
            Err(e) => r matches Err(Error::Usage(m)) && m@ == "invalid --url "@ + text::debug_text(
                url@,
            ) + ": "@ + e,
        },
{
    match links::read_url(url) {
        Ok(p) => scheme_policy(p.scheme.as_str(), allow_cleartext),
        Err(e) => {
            let mut m: String = text::joined("invalid --url ", text::quoted(url).as_str());
            m.append(": ");
            m.append(e.as_str());
            Err(Error::Usage(m))
        },
    }
}

/// The scheme, the host and the port of a URL, as one text.
pub open spec fn base_of(p: links::PartsVal) -> Seq<char> {
    p.scheme + "://"@ + (match p.host {
        Some(h) => h,
        None => ""@,
    }) + (match p.port {
        Some(n) => ":"@ + text::dec(n as nat),
        None => ""@,
    })
}

/// Writes the scheme, the host and the port of a URL.
pub fn base_url(p: &UrlParts) -> (r: String)
    ensures
        r@ == base_of(p@),
{
    let mut s: String = text::joined(p.scheme.as_str(), "://");
    match &p.host {
        Some(h) => {
            s.append(h.as_str());
        },
        None => {
            s.append("");
        },
    }
    match p.port {
        Some(n) => {
            let port: String = text::joined(":", text::decimal(n as u64).as_str());
            s.append(port.as_str());
        },
        None => {
            s.append("");
        },
    }
    s
}

/// The server that a URL leads to, as the archive records it.
pub fn normalise_base_url(url: &str) -> (r: String)
    ensures
        r@ == (match links::url_parts(url@) {
            Ok(p) => base_of(p),
            Err(_) => url@,
        }),
{
    match links::read_url(url) {
        Ok(p) => base_url(&p),
        Err(_) => url.to_owned(),
    }
}

/// The URL of an account, as the archive records it: without query and
/// fragment, and with a slash at the end of its path.
pub open spec fn account_url(url: Seq<char>) -> Seq<char> {
    match links::url_without_query(url) {
        None => url,
        Some(p) => if text::has_suffix(p.0, "/"@) {
            p.1
        } else {
            match links::url_with_path(p.1, p.0 + "/"@) {
                Some(u) => u,
                None => p.1,
            }
        },
    }
}

/// Writes the URL of an account as the archive records it.
pub fn normalise_account_url(url: &str) -> (r: String)
    ensures
        r@ == account_url(url@),
{
    match links::strip_query(url) {
        None => url.to_owned(),
        Some((path, whole)) => {
            if text::ends_with(path.as_str(), "/") {
                return whole;
            }
            match links::set_path(whole.as_str(), text::joined(path.as_str(), "/").as_str()) {
                Some(u) => u,
                None => whole,
            }
        },
    }
}

/// A source as the archive records it.
#[derive(Debug)]
pub struct SourceKey {
    pub kind: String,
    pub session_url: String,
    pub account_id: String,
}

/// The source that an import is from: the server, and the principal that was
/// found there, or the place of the collections.
pub fn source_key(config: &DavImportConfig, discovery: &Discovery) -> (r: SourceKey)
    ensures
        r.kind@ == source_name(config.kind),
        r.session_url@ == (match links::url_parts(config.url@) {
            Ok(p) => base_of(p),
            Err(_) => config.url@,
        }),
        r.account_id@ == account_url(
            match discovery.principal_url {
                Some(u) => u@,
                None => discovery.home_set_url@,
            },
        ),
{
    let account: String = match &discovery.principal_url {
        Some(u) => normalise_account_url(u.as_str()),
        None => normalise_account_url(discovery.home_set_url.as_str()),
    };
    SourceKey {
        kind: config.kind.source_kind().to_owned(),
        session_url: normalise_base_url(config.url.as_str()),
        account_id: account,
    }
}

/// Refuses an import from another source than the one the archive records,
/// unless nothing is written or the change was allowed.
pub fn source_change(
    kind: DavKindArg,
    recorded: Option<(String, String)>,
    dry_run: bool,
    allow_source_change: bool,
) -> (r: Result<(), Error>)
    ensures
        if recorded is Some && !dry_run && !allow_source_change {
            let known = recorded->0;
            r matches Err(Error::SourceChange(m)) && m@ == "archive already records "@
                + source_name(kind) + " source ("@ + known.0@ + ", account "@ + known.1@
                + "); pass --allow-source-change to import a different account"@
        } else {
            r is Ok
        },
{
    if dry_run || allow_source_change {
        return Ok(());
    }
    match recorded {
        Some((url, account)) => {
            let mut m: String = text::joined("archive already records ", kind.source_kind());
            m.append(" source (");
            m.append(url.as_str());
            m.append(", account ");
            m.append(account.as_str());
            m.append("); pass --allow-source-change to import a different account");
            Err(Error::SourceChange(m))
        },
        None => Ok(()),
    }
}

/// What a search without result means for the run.
pub fn map_discovery_error(err: DiscoveryError) -> (r: Error)
    ensures
        match err {
            DiscoveryError::NotFound { url } => r matches Error::Usage(m) && m@
                == "no DAV collections found under --url "@ + text::debug_text(url@)
                + "; check the URL and that the account has access"@,
            DiscoveryError::Transport(e) => error::is_run_error(e, r),
            DiscoveryError::Parse(e) => r matches Error::Connection(m) && m@
                == "DAV discovery: malformed multistatus: "@ + e@,
            DiscoveryError::Href(e) => r matches Error::Connection(m) && m@
                == "DAV discovery: bad href: "@ + e@,
        },
{
    match err {
        DiscoveryError::NotFound { url } => {
            let mut m: String = text::joined(
                "no DAV collections found under --url ",
                text::quoted(url.as_str()).as_str(),
            );
            m.append("; check the URL and that the account has access");
            Error::Usage(m)
        },
        DiscoveryError::Transport(e) => error::run_error(e),
        DiscoveryError::Parse(e) => Error::Connection(
            text::joined("DAV discovery: malformed multistatus: ", e.as_str()),
        ),
        DiscoveryError::Href(e) => Error::Connection(
            text::joined("DAV discovery: bad href: ", e.as_str()),
        ),
    }
}

/// What the containers of a protocol are called.
pub open spec fn container_name(kind: DavKindArg) -> Seq<char> {
    match kind {
        DavKindArg::Caldav => "calendar"@,
        DavKindArg::Carddav => "addressbook"@,
        DavKindArg::Webdav => "filenode"@,
    }
}

/// What the items of a protocol are called.
pub open spec fn item_name(kind: DavKindArg) -> Seq<char> {
    match kind {
        DavKindArg::Caldav => "calendarevent"@,
        DavKindArg::Carddav => "contactcard"@,
        DavKindArg::Webdav => "filenode"@,
    }
}

/// What the containers of a protocol are called.
pub fn container_label(kind: DavKindArg) -> (r: &'static str)
    ensures
        r@ == container_name(kind),
{
    match kind {
        DavKindArg::Caldav => "calendar",
        DavKindArg::Carddav => "addressbook",
        DavKindArg::Webdav => "filenode",
    }
}

/// What the items of a protocol are called.
pub fn item_label(kind: DavKindArg) -> (r: &'static str)
    ensures
        r@ == item_name(kind),
{
    match kind {
        DavKindArg::Caldav => "calendarevent",
        DavKindArg::Carddav => "contactcard",
        DavKindArg::Webdav => "filenode",
    }
}

/// How many resources are no collections.
pub open spec fn item_count(rs: Seq<DavResponse>) -> nat
    decreases rs.len(),
{
    if rs.len() == 0 {
        0
    } else if rs.last().props.is_collection {
        item_count(rs.drop_last())
    } else {
        item_count(rs.drop_last()) + 1
    }
}

/// Counts the resources that are no collections.
pub fn count_items(rs: &Vec<DavResponse>) -> (r: u64)
    ensures
        r == item_count(rs@),
        r <= rs@.len(),
{
    let mut n: u64 = 0;
    let mut i: usize = 0;
    assert(rs@.take(0) =~= Seq::empty());
    while i < rs.len()
        invariant
            i <= rs@.len(),
            n <= i,
            n == item_count(rs@.take(i as int)),
        decreases rs@.len() - i,
    {
        assert(rs@.take(i as int + 1).drop_last() =~= rs@.take(i as int));
        if !rs[i].props.is_collection {
            n = n + 1;
        }
        i = i + 1;
    }
    assert(rs@.take(i as int) =~= rs@);
    n
}

/// What a run without effects would do.
#[derive(Debug)]
pub struct DryDiff {
    pub kind: DavKindArg,
    pub container: TypeCounts,
    pub items: TypeCounts,
}

/// How often a run without effects asks what a collection holds: once for each
/// calendar or address book, and once for the root of a file tree.
pub open spec fn listings_of(kind: DavKindArg, collections: nat) -> nat {
    if kind == DavKindArg::Webdav && collections > 1 {
        1
    } else {
        collections
    }
}

/// The warning about a collection that could not be listed.
pub open spec fn listing_warning(kind: DavKindArg, href: Seq<char>, e: Seq<char>) -> Seq<char> {
    container_name(kind) + " "@ + text::debug_text(href) + ": enumeration failed: "@ + e
}

impl DryDiff {
    /// Starts with the collections that were found: each would be created.
    pub fn new(kind: DavKindArg, collections: usize) -> (r: DryDiff)
        ensures
            r.kind == kind,
            r.container == (TypeCounts { created: collections as u64, ..sync::no_counts() }),
            r.items == sync::no_counts(),
    {
        let mut container: TypeCounts = TypeCounts::default();
        container.created = collections as u64;
        DryDiff { kind, container, items: TypeCounts::default() }
    }

    /// How many collections are asked for what they hold.
    pub fn listings(kind: DavKindArg, collections: usize) -> (r: usize)
        ensures
            r == listings_of(kind, collections as nat),
    {
        match kind {
            DavKindArg::Webdav => {
                if collections > 1 {
                    1
                } else {
                    collections
                }
            },
            _ => collections,
        }
    }

    /// Takes note of what a collection holds. An error on one collection is
    /// counted and told; an error of the archive ends the run.
    pub fn take(
        &mut self,
        href: &str,
        reply: Result<Vec<DavResponse>, JmapError>,
    ) -> (r: Result<Option<String>, Error>)
        requires
            reply matches Ok(rs) ==> old(self).items.created + rs@.len() <= u64::MAX,
            old(self).items.failed < u64::MAX,
            old(self).container.failed < u64::MAX,
        ensures
            final(self).kind == old(self).kind,
            match reply {
                Ok(rs) => {
                    &&& r matches Ok(None)
                    &&& final(self).container == old(self).container
                    &&& final(self).items == (TypeCounts {
                        created: (old(self).items.created + item_count(rs@)) as u64,
                        ..old(self).items
                    })
                },
                Err(JmapError::Sqlite(m)) => {
                    &&& r matches Err(Error::Db(t))
                    &&& t@ == m@
                    &&& final(self).container == old(self).container
                    &&& final(self).items == old(self).items
                },
                Err(e) => {
                    &&& r matches Ok(Some(w))
                    &&& w@ == listing_warning(
                        old(self).kind,
                        href@,
                        "partial failure: "@ + error::jmap_text(e),
                    )
                    &&& if old(self).kind == DavKindArg::Webdav {
                        &&& final(self).container == (TypeCounts {
                            failed: (old(self).container.failed + 1) as u64,
                            ..old(self).container
                        })
                        &&& final(self).items == old(self).items
                    } else {
                        &&& final(self).container == old(self).container
                        &&& final(self).items == (TypeCounts {
                            failed: (old(self).items.failed + 1) as u64,
                            ..old(self).items
                        })
                    }
                },
            },
    {
        match reply {
            Ok(rs) => {
                self.items.created = self.items.created + count_items(&rs);
                Ok(None)
            },
            Err(e) => {
                let mapped: Error = error::per_collection_failure(e);
                if mapped.aborts_run() {
                    return Err(mapped);
                }
                let mut w: String = text::joined(container_label(self.kind), " ");
                w.append(text::quoted(href).as_str());
                w.append(": enumeration failed: ");
                w.append(mapped.message().as_str());
                match self.kind {
                    DavKindArg::Webdav => {
                        self.container.failed = self.container.failed + 1;
                    },
                    _ => {
                        self.items.failed = self.items.failed + 1;
                    },
                }
                Ok(Some(w))
            },
        }
    }

    /// Reports what would be done. The files of a tree are not reported apart
    /// from it.
    pub fn report(&self, summary: &mut Summary)
        ensures
            final(summary).retries_observed == old(summary).retries_observed,
            final(summary).retry_after_sleeps == old(summary).retry_after_sleeps,
            final(summary).per_type@.len() == old(summary).per_type@.len() + (if self.kind
                == DavKindArg::Webdav {
                1int
            } else {
                2
            }),
            forall|i: int|
                0 <= i < old(summary).per_type@.len() ==> final(summary).per_type@[i]
                    == #[trigger] old(summary).per_type@[i],
            ({
                let n = old(summary).per_type@.len() as int;
                let first = final(summary).per_type@[n];
                &&& first.0@ == container_name(self.kind)
                &&& first.1 == self.container
                &&& self.kind != DavKindArg::Webdav ==> {
                    let second = final(summary).per_type@[n + 1];
                    second.0@ == item_name(self.kind) && second.1 == self.items
                }
            }),
    {
        summary.per_type.push((container_label(self.kind), self.container));
        match self.kind {
            DavKindArg::Webdav => {},
            _ => {
                summary.per_type.push((item_label(self.kind), self.items));
            },
        }
    }
}

/// What was counted of the containers and the items of an import.
#[derive(Clone, Copy, PartialEq, Eq, Structural, Debug)]
pub struct PhaseCounts {
    pub container: TypeCounts,
    pub items: TypeCounts,
}

impl PhaseCounts {
    pub fn new() -> (r: PhaseCounts)
        ensures
            r.container == sync::no_counts(),
            r.items == sync::no_counts(),
    {
        PhaseCounts { container: TypeCounts::default(), items: TypeCounts::default() }
    }

    /// Takes note of how the items of one collection went: an error that
    /// concerns them alone is counted and told, another one ends the run.
    pub fn after_items(
        &mut self,
        kind: DavKindArg,
        collection_href: &str,
        result: Result<(), Error>,
    ) -> (r: Result<Option<String>, Error>)
        requires
            old(self).items.failed < u64::MAX,
        ensures
            final(self).container == old(self).container,
            match result {
                Ok(_) => r matches Ok(None) && final(self).items == old(self).items,
                Err(Error::Partial(m)) => {
                    &&& r matches Ok(Some(w))
                    &&& w@ == container_name(kind) + " "@ + text::debug_text(collection_href@)
                        + ": items failed: "@ + "partial failure: "@ + m@
                    &&& final(self).items == (TypeCounts {
                        failed: (old(self).items.failed + 1) as u64,
                        ..old(self).items
                    })
                },
                Err(e) => r == Err::<Option<String>, Error>(e) && final(self).items
                    == old(self).items,
            },
    {
        match result {
            Ok(_) => Ok(None),
            Err(e) => {
                if e.aborts_run() {
                    return Err(e);
                }
                let mut w: String = text::joined(container_label(kind), " ");
                w.append(text::quoted(collection_href).as_str());
                w.append(": items failed: ");
                let told: String = e.message();
                let ghost before = w@;
                w.append(told.as_str());
                proof {
                    if let Error::Partial(m) = e {
                        assert(w@ =~= before + "partial failure: "@ + m@);
                    }
                }
                self.items.failed = self.items.failed + 1;
                Ok(Some(w))
            },
        }
    }

    /// The outcome of an import of calendars or address books.
    pub fn outcome(&self, kind: DavKindArg, failure: Option<Error>) -> (r: RunOutcome)
        ensures
            r.error == failure,
            r.summary.retries_observed == 0,
            r.summary.retry_after_sleeps == 0,
            r.summary.per_type@.len() == 2,
            r.summary.per_type@[0].0@ == container_name(kind),
            r.summary.per_type@[0].1 == self.container,
            r.summary.per_type@[1].0@ == item_name(kind),
            r.summary.per_type@[1].1 == self.items,
    {
        let mut summary: Summary = Summary::default();
        summary.per_type.push((container_label(kind), self.container));
        summary.per_type.push((item_label(kind), self.items));
        RunOutcome { summary, error: failure }
    }
}

/// A collection and the object of the archive that stands for it.
#[derive(Debug)]
pub struct StoredCollection {
    pub href: String,
    pub local_id: i64,
}

/// The items of collections on their way into the archive: collection by
/// collection, until one of them shows that the archive or the server is out
/// of reach.
#[derive(Debug)]
pub struct ItemRun {
    pub kind: DavKindArg,
    pub collections: Vec<StoredCollection>,
    pub index: usize,
    pub counts: PhaseCounts,
    pub failure: Option<Error>,
}

impl ItemRun {
    /// Whether the run is at one of its collections or at their end.
    pub open spec fn wf(self) -> bool {
        self.index <= self.collections@.len()
    }

    /// The collections that are still to be looked at.
    pub open spec fn left(self) -> Seq<StoredCollection> {
        if self.failure is Some {
            Seq::empty()
        } else {
            self.collections@.skip(self.index as int)
        }
    }

    /// A run over the collections that were stored; none were where storing
    /// them failed.
    pub fn begin(
        kind: DavKindArg,
        container: TypeCounts,
        stored: Result<Vec<StoredCollection>, Error>,
    ) -> (r: ItemRun)
        ensures
            r.wf(),
            r.kind == kind,
            r.counts.container == container,
            r.counts.items == sync::no_counts(),
            match stored {
                Ok(v) => r.left() == v@ && r.failure is None,
                Err(e) => r.left().len() == 0 && r.failure == Some(e),
            },
    {
        let counts: PhaseCounts = PhaseCounts { container, items: TypeCounts::default() };
        match stored {
            Ok(collections) => {
                assert(collections@.skip(0) =~= collections@);
                ItemRun { kind, collections, index: 0, counts, failure: None }
            },
            Err(e) => ItemRun { kind, collections: Vec::new(), index: 0, counts, failure: Some(e) },
        }
    }

    /// The collection whose items come next.
    pub fn next(&self) -> (r: Option<&StoredCollection>)
        requires
            self.wf(),
        ensures
            match r {
                Some(c) => self.left().len() > 0 && *c == self.left()[0],
                None => self.left().len() == 0,
            },
    {
        if self.failure.is_some() || self.index == self.collections.len() {
            return None;
        }
        Some(&self.collections[self.index])
    }

    /// Goes on after the items of a collection, with the counts of all items
    /// so far.
    pub fn after(&mut self, items: TypeCounts, result: Result<(), Error>) -> (r: Option<String>)
        requires
            old(self).wf(),
            old(self).left().len() > 0,
            items.failed < u64::MAX,
        ensures
            final(self).wf(),
            final(self).kind == old(self).kind,
            final(self).counts.container == old(self).counts.container,
            match result {
                Ok(_) => {
                    &&& r is None
                    &&& final(self).counts.items == items
                    &&& final(self).left() == old(self).left().drop_first()
                    &&& final(self).failure is None
                },
                Err(Error::Partial(m)) => {
                    &&& r matches Some(w)
                    &&& w@ == container_name(old(self).kind) + " "@ + text::debug_text(
                        old(self).left()[0].href@,
                    ) + ": items failed: "@ + "partial failure: "@ + m@
                    &&& final(self).counts.items == (TypeCounts {
                        failed: (items.failed + 1) as u64,
                        ..items
                    })
                    &&& final(self).left() == old(self).left().drop_first()
                    &&& final(self).failure is None
                },
                Err(e) => {
                    &&& r is None
                    &&& final(self).counts.items == items
                    &&& final(self).left().len() == 0
                    &&& final(self).failure == Some(e)
                },
            },
    {
        let ghost before = *self;
        let i: usize = self.index;
        let n: usize = self.collections.len();
        assert(i < n);
        self.counts.items = items;
        let href: String = self.collections[i].href.clone();
        match self.counts.after_items(self.kind, href.as_str(), result) {
            Ok(w) => {
                self.index = i + 1;
                assert(self.left() =~= before.left().drop_first());
                w
            },
            Err(e) => {
                self.failure = Some(e);
                None
            },
        }
    }

    /// The outcome of the run.
    pub fn finish(self) -> (r: RunOutcome)
        ensures
            r.error == self.failure,
            r.summary.retries_observed == 0,
            r.summary.retry_after_sleeps == 0,
            r.summary.per_type@.len() == 2,
            r.summary.per_type@[0].0@ == container_name(self.kind),
            r.summary.per_type@[0].1 == self.counts.container,
            r.summary.per_type@[1].0@ == item_name(self.kind),
            r.summary.per_type@[1].1 == self.counts.items,
    {
        let counts: PhaseCounts = self.counts;
        counts.outcome(self.kind, self.failure)
    }
}

/// The outcome of an import of files.
pub fn file_outcome(counts: TypeCounts, failure: Option<Error>) -> (r: RunOutcome)
    ensures
        r.error == failure,
        r.summary.retries_observed == 0,
        r.summary.retry_after_sleeps == 0,
        r.summary.per_type@.len() == 1,
        r.summary.per_type@[0].0@ == "filenode"@,
        r.summary.per_type@[0].1 == counts,
{
    let mut summary: Summary = Summary::default();
    summary.per_type.push(("filenode", counts));
    RunOutcome { summary, error: failure }
}

/// Ends a run: with what it counted and how often its requests were repeated.
/// Blobs that nothing refers to are collected where nothing failed.
pub fn finish(phase: RunOutcome, retries_observed: u64, retry_after_sleeps: u64) -> (r: (
    RunOutcome,
    bool,
))
    ensures
        r.0.error == phase.error,
        r.0.summary.per_type == phase.summary.per_type,
        r.0.summary.retries_observed == retries_observed,
        r.0.summary.retry_after_sleeps == retry_after_sleeps,
        r.1 == (phase.error is None && !sync::has_failures(phase.summary)),
{
    let collect: bool = match &phase.error {
        Some(_) => false,
        None => !phase.summary.any_failed(),
    };
    (
        RunOutcome {
            summary: Summary {
                per_type: phase.summary.per_type,
                retries_observed,
                retry_after_sleeps,
            },
            error: phase.error,
        },
        collect,
    )
}

/// An error of a JMAP request on one collection never ends a run, unless the
/// archive could not be written.
pub proof fn only_the_archive_ends_a_run(e: JmapError, r: Error)
    requires
        match e {
            JmapError::Sqlite(m) => r matches Error::Db(t) && t@ == m@,
            _ => r matches Error::Partial(t) && t@ == error::jmap_text(e),
        },
    ensures
        !(r is Partial) <==> e is Sqlite,
{
}

} // verus!

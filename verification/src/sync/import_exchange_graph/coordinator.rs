//! What an import from Microsoft Graph takes, from which source, and what it
//! reports.

use crate::exchange_graph::error::GraphError;
use crate::exchange_graph::types::{
    EventBodyFormat, MailboxKind, ResolvedPrincipal, Surfaces,
};
use crate::error::Error;
use crate::json;
use crate::json::{Json, Val};
use crate::sync;
use crate::sync::import_exchange_graph::calendar;
use crate::sync::{Summary, TypeCounts};
use crate::text;
use vstd::prelude::*;

verus! {

/// How many objects are written in one go.
pub const CHUNK_SIZE: usize = 100;

/// Where Microsoft Graph is.
pub const DEFAULT_API_BASE: &'static str = "https://graph.microsoft.com/v1.0";

/// Where a token is asked for, unless another place is given.
pub const DEFAULT_AUTHORITY: &'static str = "https://login.microsoftonline.com/common";

/// How a token is had.
#[derive(Debug)]
pub enum GraphAuth {
    PreAcquired { token: String },
    DeviceCode { authority: String, client_id: String },
}

/// What an import is told.
#[derive(Debug)]
pub struct GraphImportConfig {
    pub auth: GraphAuth,
    pub api_base: String,
    pub user_target: Option<String>,
    pub mailbox_kind: MailboxKind,
    pub surfaces: Surfaces,
    pub event_body_format: EventBodyFormat,
    pub graph_connections: usize,
    pub top: usize,
    pub exception_window_years: i32,
    pub contact_photos: bool,
    pub event_attachments: bool,
    pub allow_source_change: bool,
}

/// Where Microsoft Graph is.
pub fn default_api_base() -> (r: String)
    ensures
        r@ == DEFAULT_API_BASE@,
{
    DEFAULT_API_BASE.to_owned()
}

/// Whether a character is a hexadecimal digit.
pub open spec fn is_hex(c: char) -> bool {
    text::is_digit(c) || 'a' <= c <= 'f' || 'A' <= c <= 'F'
}

/// Whether a character may stand at a place of a UUID.
pub open spec fn is_uuid_char(i: int, c: char) -> bool {
    if i == 8 || i == 13 || i == 18 || i == 23 {
        c == '-'
    } else {
        is_hex(c)
    }
}

/// Whether a text is a UUID.
pub open spec fn is_uuid(s: Seq<char>) -> bool {
    s.len() == 36 && forall|i: int| 0 <= i < 36 ==> is_uuid_char(i, #[trigger] s[i])
}

/// Whether a text looks like the id of a user.
pub fn looks_like_uuid(s: &str) -> (r: bool)
    ensures
        r == is_uuid(s@),
{
    let v: Vec<char> = text::chars_of(s);
    if v.len() != 36 {
        return false;
    }
    let mut i: usize = 0;
    while i < 36
        invariant
            i <= 36,
            v@ == s@,
            v@.len() == 36,
            forall|k: int| 0 <= k < i ==> is_uuid_char(k, #[trigger] s@[k]),
        decreases 36 - i,
    {
        let c: char = v[i];
        let fits: bool = if i == 8 || i == 13 || i == 18 || i == 23 {
            c == '-'
        } else {
            text::digit(c) || (c >= 'a' && c <= 'f') || (c >= 'A' && c <= 'F')
        };
        if !fits {
            assert(!is_uuid_char(i as int, s@[i as int]));
            return false;
        }
        i = i + 1;
    }
    true
}

/// Where a user is looked up.
pub fn user_lookup_url(api_base: &str, upn_or_id: &str) -> (r: String)
    ensures
        r@ == text::without_end(api_base@, '/') + "/users/"@ + upn_or_id@
            + "?$select=id,userPrincipalName"@,
{
    let mut s: String = text::drop_end(api_base, '/');
    s.append("/users/");
    s.append(upn_or_id);
    s.append("?$select=id,userPrincipalName");
    s
}

/// Reads the id of a user that was looked up.
pub fn user_id(body: &Json) -> (r: Result<String, GraphError>)
    ensures
        match body@.text_at("id"@) {
            Some(id) => r matches Ok(t) && t@ == id,
            None => r matches Err(GraphError::Malformed(m)) && m@ == "user resolution missing id"@,
        },
{
    match body.text_at("id") {
        Some(t) => Ok(t.to_owned()),
        None => Err(GraphError::Malformed("user resolution missing id".to_owned())),
    }
}

/// Reads whose mailbox it is.
pub fn principal_from(value: &Json, fallback_upn: Option<&str>) -> (r: Result<
    ResolvedPrincipal,
    Error,
>)
    ensures
        match value@.text_at("id"@) {
            None => r matches Err(Error::Connection(m)) && m@ == "graph principal has no id"@,
            Some(id) => r matches Ok(p) && p.id@ == id && p.user_principal_name@ == (
            match value@.text_at("userPrincipalName"@) {
                Some(t) => t,
                None => match fallback_upn {
                    Some(t) => t@,
                    None => ""@,
                },
            }),
        },
{
    let id: String = match value.text_at("id") {
        Some(t) => t.to_owned(),
        None => {
            return Err(Error::Connection("graph principal has no id".to_owned()));
        },
    };
    let upn: String = match value.text_at("userPrincipalName") {
        Some(t) => t.to_owned(),
        None => match fallback_upn {
            Some(t) => t.to_owned(),
            None => "".to_owned(),
        },
    };
    Ok(ResolvedPrincipal { id, user_principal_name: upn })
}

/// The source that the archive records: where the token is from, and where
/// Microsoft Graph is.
pub fn canonical_session_url(config: &GraphImportConfig) -> (r: String)
    ensures
        r@ == text::without_end(
            match config.auth {
                GraphAuth::DeviceCode { authority, client_id } => authority@,
                GraphAuth::PreAcquired { token } => DEFAULT_AUTHORITY@,
            },
            '/',
        ) + "|"@ + text::without_end(config.api_base@, '/'),
{
    let mut s: String = match &config.auth {
        GraphAuth::DeviceCode { authority, client_id } => text::drop_end(authority.as_str(), '/'),
        GraphAuth::PreAcquired { token } => text::drop_end(DEFAULT_AUTHORITY, '/'),
    };
    s.append("|");
    s.append(text::drop_end(config.api_base.as_str(), '/').as_str());
    s
}

/// Refuses an import from another source than the one the archive records,
/// unless nothing is written or the change was allowed.
pub fn source_change(
    recorded: Option<(String, String)>,
    dry_run: bool,
    allow_source_change: bool,
) -> (r: Result<(), Error>)
    ensures
        if recorded is Some && !dry_run && !allow_source_change {
            let known = recorded->0;
            r matches Err(Error::SourceChange(m)) && m@
                == "archive already records exchange_graph source ("@ + known.0@ + ", account "@
                + known.1@ + "); pass --allow-source-change to import a different account"@
        } else {
            r is Ok
        },
{
    if dry_run || allow_source_change {
        return Ok(());
    }
    match recorded {
        Some((url, account)) => {
            let mut m: String = text::joined(
                "archive already records exchange_graph source (",
                url.as_str(),
            );
            m.append(", account ");
            m.append(account.as_str());
            m.append("); pass --allow-source-change to import a different account");
            Err(Error::SourceChange(m))
        },
        None => Ok(()),
    }
}

/// What is taken: an archive mailbox holds nothing but mail.
pub fn wanted_surfaces(config: &GraphImportConfig) -> (r: Surfaces)
    ensures
        r.mail == config.surfaces.mail,
        config.mailbox_kind == MailboxKind::Archive ==> !r.calendar && !r.contacts && !r.files,
        config.mailbox_kind != MailboxKind::Archive ==> r == config.surfaces,
{
    let primary: bool = config.mailbox_kind != MailboxKind::Archive;
    Surfaces {
        mail: config.surfaces.mail,
        calendar: config.surfaces.calendar && primary,
        contacts: config.surfaces.contacts && primary,
        files: config.surfaces.files && primary,
    }
}

/// The warning about an archive mailbox.
pub fn archive_warning(kind: MailboxKind) -> (r: Option<String>)
    ensures
        json::text_view(r) == (if kind == MailboxKind::Archive {
            Some(
                "--mailbox-kind archive: Microsoft Online Archive holds only mail; calendar and contact surfaces are skipped for this run"@,
            )
        } else {
            None
        }),
{
    if kind == MailboxKind::Archive {
        Some(
            "--mailbox-kind archive: Microsoft Online Archive holds only mail; calendar and contact surfaces are skipped for this run".to_owned(),
        )
    } else {
        None
    }
}

/// A number within bounds.
pub open spec fn within(n: int, low: int, high: int) -> int {
    if n < low {
        low
    } else if n > high {
        high
    } else {
        n
    }
}

/// How many entries a page holds: from one to a thousand.
pub fn page_size(top: usize) -> (r: usize)
    ensures
        r == within(top as int, 1, 1000),
{
    if top < 1 {
        1
    } else if top > 1000 {
        1000
    } else {
        top
    }
}

/// How many requests run side by side: from one to sixteen.
pub fn worker_count(connections: usize) -> (r: usize)
    ensures
        r == within(connections as int, 1, 16),
{
    if connections < 1 {
        1
    } else if connections > 16 {
        16
    } else {
        connections
    }
}

/// What was counted of each kind of object.
#[derive(Clone, Copy, PartialEq, Eq, Structural, Debug)]
pub struct GraphCounts {
    pub mailbox: TypeCounts,
    pub email: TypeCounts,
    pub calendar: TypeCounts,
    pub event: TypeCounts,
    pub address_book: TypeCounts,
    pub contact: TypeCounts,
    pub file: TypeCounts,
}

/// The labels under which the kinds are reported, in order.
pub open spec fn report_labels() -> Seq<Seq<char>> {
    seq![
        "mailbox"@,
        "email"@,
        "calendar"@,
        "calendarevent"@,
        "addressbook"@,
        "contactcard"@,
        "filenode"@,
    ]
}

/// The counts of the kinds, in order.
pub open spec fn report_counts(c: GraphCounts) -> Seq<TypeCounts> {
    seq![c.mailbox, c.email, c.calendar, c.event, c.address_book, c.contact, c.file]
}

/// Reports what was counted.
pub fn summarize(c: &GraphCounts, retries_observed: u64, retry_after_sleeps: u64) -> (r: Summary)
    ensures
        r.retries_observed == retries_observed,
        r.retry_after_sleeps == retry_after_sleeps,
        r.per_type@.len() == 7,
        forall|i: int|
            0 <= i < 7 ==> (#[trigger] r.per_type@[i]).0@ == report_labels()[i] && r.per_type@[i].1
                == report_counts(*c)[i],
{
    let mut r: Summary = Summary::default();
    r.per_type.push(("mailbox", c.mailbox));
    r.per_type.push(("email", c.email));
    r.per_type.push(("calendar", c.calendar));
    r.per_type.push(("calendarevent", c.event));
    r.per_type.push(("addressbook", c.address_book));
    r.per_type.push(("contactcard", c.contact));
    r.per_type.push(("filenode", c.file));
    r.retries_observed = retries_observed;
    r.retry_after_sleeps = retry_after_sleeps;
    r
}

/// Reports what a run without effects found. Of an archive mailbox only the
/// folders are counted.
pub fn dry_summary(
    kind: MailboxKind,
    folders: usize,
    calendars: usize,
    address_books: usize,
) -> (r: Summary)
    ensures
        r.retries_observed == 0,
        r.retry_after_sleeps == 0,
        r.per_type@.len() == 3,
        r.per_type@[0].0@ == "mailbox"@,
        r.per_type@[0].1 == (TypeCounts { created: folders as u64, ..sync::no_counts() }),
        r.per_type@[1].0@ == "calendar"@,
        r.per_type@[1].1 == (TypeCounts {
            created: if kind == MailboxKind::Archive {
                0
            } else {
                calendars as u64
            },
            ..sync::no_counts()
        }),
        r.per_type@[2].0@ == "addressbook"@,
        r.per_type@[2].1 == (TypeCounts {
            created: if kind == MailboxKind::Archive {
                0
            } else {
                address_books as u64
            },
            ..sync::no_counts()
        }),
{
    let mut mailbox: TypeCounts = TypeCounts::default();
    let mut calendar: TypeCounts = TypeCounts::default();
    let mut book: TypeCounts = TypeCounts::default();
    mailbox.created = folders as u64;
    if kind != MailboxKind::Archive {
        calendar.created = calendars as u64;
        book.created = address_books as u64;
    }
    let mut r: Summary = Summary::default();
    r.per_type.push(("mailbox", mailbox));
    r.per_type.push(("calendar", calendar));
    r.per_type.push(("addressbook", book));
    r
}

/// A walk through folders, level by level.
#[derive(Debug)]
pub struct FolderWalk {
    pub all: Vec<Json>,
    pub frontier: Vec<String>,
    pub seen: Vec<String>,
}

/// What a walk holds.
pub struct WalkVal {
    pub all: Seq<Val>,
    pub frontier: Seq<Seq<char>>,
    pub seen: Seq<Seq<char>>,
}

impl View for FolderWalk {
    type V = WalkVal;

    open spec fn view(&self) -> WalkVal {
        WalkVal {
            all: json::list_view(self.all@),
            frontier: text::texts(self.frontier@),
            seen: text::texts(self.seen@),
        }
    }
}

/// A walk after one more folder: one that was seen, or has no id, is passed
/// over.
pub open spec fn with_folder(w: WalkVal, folder: Val) -> WalkVal {
    match folder.text_at("id"@) {
        Some(id) => if w.seen.contains(id) {
            w
        } else {
            WalkVal {
                all: w.all.push(folder),
                frontier: w.frontier.push(id),
                seen: w.seen.push(id),
            }
        },
        None => w,
    }
}

/// A walk after the folders of a level.
pub open spec fn with_folders(w: WalkVal, folders: Seq<Val>) -> WalkVal
    decreases folders.len(),
{
    if folders.len() == 0 {
        w
    } else {
        with_folder(with_folders(w, folders.drop_last()), folders.last())
    }
}

impl FolderWalk {
    /// A walk that has not begun.
    pub fn new() -> (r: FolderWalk)
        ensures
            r@.all.len() == 0,
            r@.frontier.len() == 0,
            r@.seen.len() == 0,
    {
        FolderWalk { all: Vec::new(), frontier: Vec::new(), seen: Vec::new() }
    }

    /// Takes the folders of a level.
    pub fn take(&mut self, folders: &Vec<Json>)
        ensures
            final(self)@ == with_folders(old(self)@, json::list_view(folders@)),
    {
        let ghost start = self@;
        let ghost all = json::list_view(folders@);
        let mut i: usize = 0;
        assert(all.take(0) =~= Seq::empty());
        while i < folders.len()
            invariant
                i <= folders@.len(),
                all == json::list_view(folders@),
                all.len() == folders@.len(),
                self@ == with_folders(start, all.take(i as int)),
            decreases folders@.len() - i,
        {
            assert(all.take(i as int + 1).drop_last() =~= all.take(i as int));
            assert(all.take(i as int + 1).last() == folders@[i as int]@);
            let ghost before = self@;
            if let Some(id) = folders[i].text_at("id") {
                if text::add_text(&mut self.seen, id) {
                    self.frontier.push(id.to_owned());
                    self.all.push(folders[i].dup());
                    assert(json::list_view(self.all@) =~= before.all.push(folders@[i as int]@));
                    assert(text::texts(self.frontier@) =~= before.frontier.push(id@));
                }
            }
            i = i + 1;
        }
        assert(all.take(i as int) =~= all);
    }

    /// The folder whose children come next.
    pub fn next(&mut self) -> (r: Option<String>)
        ensures
            match r {
                Some(t) => {
                    &&& old(self)@.frontier.len() > 0
                    &&& t@ == old(self)@.frontier.last()
                    &&& final(self)@ == (WalkVal {
                        frontier: old(self)@.frontier.drop_last(),
                        ..old(self)@
                    })
                },
                None => old(self)@.frontier.len() == 0 && final(self)@ == old(self)@,
            },
    {
        let ghost before = self.frontier@;
        let r: Option<String> = self.frontier.pop();
        proof {
            assert(text::texts(before).len() == before.len());
            if before.len() > 0 {
                assert(text::texts(self.frontier@) =~= text::texts(before).drop_last());
                assert(text::texts(before).last() == before.last()@);
            }
        }
        r
    }
}

/// Whether a walk has each folder once, under the ids that were seen.
pub open spec fn is_proper_walk(w: WalkVal) -> bool {
    &&& w.seen.no_duplicates()
    &&& w.all.len() == w.seen.len()
    &&& forall|i: int|
        0 <= i < w.all.len() ==> (#[trigger] w.all[i]).text_at("id"@) == Some(w.seen[i])
    &&& forall|i: int| 0 <= i < w.frontier.len() ==> w.seen.contains(#[trigger] w.frontier[i])
}

/// A walk never takes a folder twice, whatever the server lists.
pub proof fn folders_are_walked_once(w: WalkVal, folders: Seq<Val>)
    requires
        is_proper_walk(w),
    ensures
        is_proper_walk(with_folders(w, folders)),
        with_folders(w, folders).seen.len() >= w.seen.len(),
    decreases folders.len(),
{
    if folders.len() > 0 {
        folders_are_walked_once(w, folders.drop_last());
        let before = with_folders(w, folders.drop_last());
        let after = with_folder(before, folders.last());
        assert forall|i: int| 0 <= i < after.frontier.len() implies after.seen.contains(
            #[trigger] after.frontier[i],
        ) by {
            if i < before.frontier.len() {
                assert(before.seen.contains(before.frontier[i]));
                let k = choose|k: int|
                    0 <= k < before.seen.len() && before.seen[k] == before.frontier[i];
                assert(after.seen[k] == after.frontier[i]);
            } else {
                assert(after.seen[after.seen.len() - 1] == after.frontier[i]);
            }
        }
    }
}

/// When a token has to be renewed, in seconds since 1970: by how long it is
/// valid, else by when it says it expires.
pub fn initial_deadline(expires_in: Option<u64>, expires_at: Option<u64>, now: u64) -> (r: Option<
    u64,
>)
    requires
        expires_in matches Some(n) ==> now + n <= u64::MAX,
    ensures
        r == (match expires_in {
            Some(n) => Some((now + n) as u64),
            None => expires_at,
        }),
{
    match expires_in {
        Some(n) => Some(now + n),
        None => expires_at,
    }
}

/// When a renewed token has to be renewed again: by how long it is valid, else
/// by when it says it expires, else after fifty minutes.
pub fn next_deadline(expires_in: Option<u64>, expires_at: Option<u64>, now: u64) -> (r: u64)
    requires
        expires_in matches Some(n) ==> now + n <= u64::MAX,
        now + 3000 <= u64::MAX,
    ensures
        r == (match expires_in {
            Some(n) => now + n,
            None => match expires_at {
                Some(t) => if t >= now {
                    t as int
                } else {
                    now + 3000
                },
                None => now + 3000,
            },
        }),
{
    match expires_in {
        Some(n) => now + n,
        None => match expires_at {
            Some(t) => {
                if t >= now {
                    t
                } else {
                    now + 3000
                }
            },
            None => now + 3000,
        },
    }
}

/// How long to wait before a token is renewed: until a minute before it
/// expires.
pub fn refresh_wait(deadline: u64, now: u64) -> (r: u64)
    ensures
        r == (if deadline >= 60 + now {
            deadline - 60 - now
        } else {
            0
        }),
{
    let at: u64 = if deadline > 60 {
        deadline - 60
    } else {
        0
    };
    if at > now {
        at - now
    } else {
        0
    }
}

/// A renewed token.
#[derive(Debug)]
pub struct Renewed {
    pub access_token: String,
    pub refresh_token: Option<String>,
    pub expires_in: Option<u64>,
    pub expires_at: Option<u64>,
}

/// The token of a run, kept fresh.
#[derive(Debug)]
pub struct TokenRun {
    pub refresh_token: String,
    pub deadline: u64,
}

/// What follows an attempt to renew a token.
#[derive(Debug)]
pub enum AfterRenewal {
    /// The requests bear the new token.
    Bear(String),
    /// It is tried again after so many seconds; the warning is for the user.
    Wait { secs: u64, warning: String },
}

impl TokenRun {
    /// Begins to keep a token fresh. One that was given by the user is not,
    /// nor is one that cannot be renewed or that says of no end.
    pub fn begin(
        auth: &GraphAuth,
        refresh_token: Option<String>,
        expires_in: Option<u64>,
        expires_at: Option<u64>,
        now: u64,
    ) -> (r: Option<TokenRun>)
        requires
            expires_in matches Some(n) ==> now + n <= u64::MAX,
        ensures
            match r {
                Some(t) => {
                    &&& auth is DeviceCode
                    &&& refresh_token == Some(t.refresh_token)
                    &&& t.deadline == (match expires_in {
                        Some(n) => (now + n) as u64,
                        None => expires_at->0,
                    })
                },
                None => auth is PreAcquired || refresh_token is None || (expires_in is None
                    && expires_at is None),
            },
    {
        match auth {
            GraphAuth::PreAcquired { .. } => {
                return None;
            },
            GraphAuth::DeviceCode { .. } => {},
        }
        match (refresh_token, initial_deadline(expires_in, expires_at, now)) {
            (Some(t), Some(d)) => Some(TokenRun { refresh_token: t, deadline: d }),
            _ => None,
        }
    }

    /// How long to wait before the token is renewed.
    pub fn wait(&self, now: u64) -> (r: u64)
        ensures
            r == (if self.deadline >= 60 + now {
                self.deadline - 60 - now
            } else {
                0
            }),
    {
        refresh_wait(self.deadline, now)
    }

    /// Goes on after an attempt to renew the token, at the moment `now`. A
    /// server that gives no new refresh token goes on taking the old one.
    pub fn after(&mut self, result: Result<Renewed, String>, now: u64) -> (r: AfterRenewal)
        requires
            result matches Ok(t) ==> (t.expires_in matches Some(n) ==> now + n <= u64::MAX),
            now + 3000 <= u64::MAX,
        ensures
            match result {
                Ok(t) => {
                    &&& r == AfterRenewal::Bear(t.access_token)
                    &&& final(self).refresh_token == (match t.refresh_token {
                        Some(n) => n,
                        None => old(self).refresh_token,
                    })
                    &&& final(self).deadline == (match t.expires_in {
                        Some(n) => now + n,
                        None => match t.expires_at {
                            Some(e) => if e >= now {
                                e as int
                            } else {
                                now + 3000
                            },
                            None => now + 3000,
                        },
                    })
                },
                Err(e) => {
                    &&& *final(self) == *old(self)
                    &&& r matches AfterRenewal::Wait { secs, warning }
                    &&& secs == 60
                    &&& warning@ == "graph token refresh failed: "@ + e@
                        + "; sleeping 60s before retry"@
                },
            },
    {
        match result {
            Ok(t) => {
                if let Some(n) = t.refresh_token {
                    self.refresh_token = n;
                }
                self.deadline = next_deadline(t.expires_in, t.expires_at, now);
                AfterRenewal::Bear(t.access_token)
            },
            Err(e) => {
                let mut w: String = text::joined("graph token refresh failed: ", e.as_str());
                w.append("; sleeping 60s before retry");
                AfterRenewal::Wait { secs: 60, warning: w }
            },
        }
    }
}

/// What a run takes in one go: folders and what is in them.
#[derive(Clone, Copy, PartialEq, Eq, Structural, Debug)]
pub enum Surface {
    Mail,
    Calendar,
    Contacts,
    Files,
}

/// Whether a surface is taken.
pub open spec fn is_wanted(wanted: Surfaces, s: Surface) -> bool {
    match s {
        Surface::Mail => wanted.mail,
        Surface::Calendar => wanted.calendar,
        Surface::Contacts => wanted.contacts,
        Surface::Files => wanted.files,
    }
}

/// A surface, if it is taken.
pub open spec fn surface_if(wanted: Surfaces, s: Surface) -> Seq<Surface> {
    if is_wanted(wanted, s) {
        seq![s]
    } else {
        Seq::empty()
    }
}

/// The surfaces that a run takes, in order.
pub open spec fn surfaces_taken(wanted: Surfaces) -> Seq<Surface> {
    surface_if(wanted, Surface::Mail) + surfaces_from(wanted, Surface::Mail)
}

/// The surfaces that a run takes after one.
pub open spec fn surfaces_from(wanted: Surfaces, s: Surface) -> Seq<Surface> {
    match s {
        Surface::Mail => surface_if(wanted, Surface::Calendar) + surface_if(
            wanted,
            Surface::Contacts,
        ) + surface_if(wanted, Surface::Files),
        Surface::Calendar => surface_if(wanted, Surface::Contacts) + surface_if(
            wanted,
            Surface::Files,
        ),
        Surface::Contacts => surface_if(wanted, Surface::Files),
        Surface::Files => Seq::empty(),
    }
}

/// A run: what it still has to take, and what it counted.
#[derive(Debug)]
pub struct GraphRun {
    pub wanted: Surfaces,
    pub next: Option<Surface>,
    pub counts: GraphCounts,
}

/// What a run still has to take.
pub open spec fn left(run: GraphRun) -> Seq<Surface> {
    match run.next {
        Some(s) => seq![s] + surfaces_from(run.wanted, s),
        None => Seq::empty(),
    }
}

/// The counts once a surface was taken: of its folders and of what is in them.
/// The folders of files are counted among the files.
pub open spec fn with_counts(
    c: GraphCounts,
    s: Surface,
    folders: TypeCounts,
    items: TypeCounts,
) -> GraphCounts {
    match s {
        Surface::Mail => GraphCounts { mailbox: folders, email: items, ..c },
        Surface::Calendar => GraphCounts { calendar: folders, event: items, ..c },
        Surface::Contacts => GraphCounts { address_book: folders, contact: items, ..c },
        Surface::Files => GraphCounts { file: items, ..c },
    }
}

/// Counts that are all zero.
pub open spec fn nothing_counted() -> GraphCounts {
    GraphCounts {
        mailbox: sync::no_counts(),
        email: sync::no_counts(),
        calendar: sync::no_counts(),
        event: sync::no_counts(),
        address_book: sync::no_counts(),
        contact: sync::no_counts(),
        file: sync::no_counts(),
    }
}

fn later(wanted: Surfaces, s: Surface) -> (r: Option<Surface>)
    ensures
        match r {
            Some(n) => surfaces_from(wanted, s) == seq![n] + surfaces_from(wanted, n),
            None => surfaces_from(wanted, s) == Seq::<Surface>::empty(),
        },
{
    let r: Option<Surface> = match s {
        Surface::Mail => if wanted.calendar {
            Some(Surface::Calendar)
        } else if wanted.contacts {
            Some(Surface::Contacts)
        } else if wanted.files {
            Some(Surface::Files)
        } else {
            None
        },
        Surface::Calendar => if wanted.contacts {
            Some(Surface::Contacts)
        } else if wanted.files {
            Some(Surface::Files)
        } else {
            None
        },
        Surface::Contacts => if wanted.files {
            Some(Surface::Files)
        } else {
            None
        },
        Surface::Files => None,
    };
    proof {
        match r {
            Some(n) => {
                assert(surfaces_from(wanted, s) =~= seq![n] + surfaces_from(wanted, n));
            },
            None => {
                assert(surfaces_from(wanted, s) =~= Seq::empty());
            },
        }
    }
    r
}

impl GraphRun {
    /// A run that has taken nothing yet.
    pub fn begin(config: &GraphImportConfig) -> (r: GraphRun)
        ensures
            left(r) == surfaces_taken(r.wanted),
            r.wanted.mail == config.surfaces.mail,
            config.mailbox_kind == MailboxKind::Archive ==> !r.wanted.calendar
                && !r.wanted.contacts && !r.wanted.files,
            config.mailbox_kind != MailboxKind::Archive ==> r.wanted == config.surfaces,
            r.counts == nothing_counted(),
    {
        let wanted: Surfaces = wanted_surfaces(config);
        let next: Option<Surface> = if wanted.mail {
            Some(Surface::Mail)
        } else {
            later(wanted, Surface::Mail)
        };
        let counts: GraphCounts = GraphCounts {
            mailbox: TypeCounts::default(),
            email: TypeCounts::default(),
            calendar: TypeCounts::default(),
            event: TypeCounts::default(),
            address_book: TypeCounts::default(),
            contact: TypeCounts::default(),
            file: TypeCounts::default(),
        };
        let run: GraphRun = GraphRun { wanted, next, counts };
        assert(left(run) =~= surfaces_taken(wanted));
        run
    }

    /// Goes on after the next surface was taken. An error ends the run.
    pub fn after(&mut self, result: Result<(TypeCounts, TypeCounts), Error>) -> (r: Result<
        (),
        Error,
    >)
        requires
            old(self).next is Some,
        ensures
            match result {
                Ok((folders, items)) => {
                    &&& r is Ok
                    &&& left(*final(self)) == left(*old(self)).drop_first()
                    &&& final(self).wanted == old(self).wanted
                    &&& final(self).counts == with_counts(
                        old(self).counts,
                        old(self).next->0,
                        folders,
                        items,
                    )
                },
                Err(e) => r == Err::<(), Error>(e) && *final(self) == *old(self),
            },
    {
        let (folders, items) = match result {
            Ok(c) => c,
            Err(e) => {
                return Err(e);
            },
        };
        let ghost before = left(*self);
        if let Some(s) = self.next {
            match s {
                Surface::Mail => {
                    self.counts.mailbox = folders;
                    self.counts.email = items;
                },
                Surface::Calendar => {
                    self.counts.calendar = folders;
                    self.counts.event = items;
                },
                Surface::Contacts => {
                    self.counts.address_book = folders;
                    self.counts.contact = items;
                },
                Surface::Files => {
                    self.counts.file = items;
                },
            }
            self.next = later(self.wanted, s);
            assert(left(*self) =~= before.drop_first());
        }
        Ok(())
    }

    /// Reports a run that took everything, and says whether blobs that nothing
    /// refers to are taken out: only where nothing failed.
    pub fn finish(&self, retries_observed: u64, retry_after_sleeps: u64) -> (r: (Summary, bool))
        ensures
            r.0.retries_observed == retries_observed,
            r.0.retry_after_sleeps == retry_after_sleeps,
            r.0.per_type@.len() == 7,
            forall|i: int|
                0 <= i < 7 ==> (#[trigger] r.0.per_type@[i]).0@ == report_labels()[i]
                    && r.0.per_type@[i].1 == report_counts(self.counts)[i],
            r.1 == !sync::has_failures(r.0),
    {
        let summary: Summary = summarize(&self.counts, retries_observed, retry_after_sleeps);
        let clean: bool = !summary.any_failed();
        (summary, clean)
    }
}

} // verus!

//! The Session object: where the server's resources are, what it can do and
//! which accounts there are.

use crate::encoding;
use crate::encoding::Place;
use crate::error::Error;
use crate::jmap::error;
use crate::jmap::error::JmapError;
use crate::json;
use crate::json::{Json, Members, Val};
use crate::text;
use indexmap::IndexMap;
use vstd::prelude::*;

verus! {

/// The limits of a server.
#[derive(Clone, Copy, PartialEq, Eq, Structural, Debug)]
pub struct Limits {
    pub max_objects_in_get: u64,
    pub max_objects_in_set: u64,
    pub max_calls_in_request: u64,
    pub max_concurrent_requests: u64,
    pub max_concurrent_upload: u64,
    pub max_size_request: u64,
    pub max_size_upload: u64,
}

#[verifier::external_type_specification]
#[verifier::external_body]
#[verifier::reject_recursive_types(K)]
#[verifier::reject_recursive_types(V)]
#[verifier::reject_recursive_types(S)]
pub struct ExIndexMap<K, V, S>(IndexMap<K, V, S>);

/// The capabilities that a map holds, in the order in which they came.
pub uninterp spec fn capability_list(m: IndexMap<String, Json>) -> Members;

/// `IndexMap::new`: a map without entries.
#[verifier::external_body]
fn no_capabilities() -> (r: IndexMap<String, Json>)
    ensures
        capability_list(r) == Seq::<(Seq<char>, Val)>::empty(),
{
    IndexMap::new()
}

/// `IndexMap::insert`: a new key goes to the end, a known one keeps its place
/// and gets the new value.
#[verifier::external_body]
fn put_capability(m: &mut IndexMap<String, Json>, key: String, value: Json)
    ensures
        capability_list(*final(m)) == json::with_member(capability_list(*old(m)), key@, value@),
{
    m.insert(key, value);
}

/// `IndexMap::get`: the value of a key.
#[verifier::external_body]
fn capability_at<'a>(m: &'a IndexMap<String, Json>, key: &str) -> (r: Option<&'a Json>)
    ensures
        match r {
            Some(v) => json::lookup(capability_list(*m), key@) == Some(v@),
            None => json::lookup(capability_list(*m), key@) is None,
        },
{
    m.get(key)
}

/// Members put into a map one after the other.
pub open spec fn gathered(e: Members) -> Members
    decreases e.len(),
{
    if e.len() == 0 {
        Seq::empty()
    } else {
        json::with_member(gathered(e.drop_last()), e.last().0, e.last().1)
    }
}

fn gather(e: &Vec<(String, Json)>) -> (r: IndexMap<String, Json>)
    ensures
        capability_list(r) == gathered(json::members_view(e@)),
{
    let ghost all = json::members_view(e@);
    let mut m: IndexMap<String, Json> = no_capabilities();
    let mut i: usize = 0;
    assert(all.take(0) =~= Seq::empty());
    while i < e.len()
        invariant
            i <= e@.len(),
            all == json::members_view(e@),
            all.len() == e@.len(),
            capability_list(m) == gathered(all.take(i as int)),
        decreases e@.len() - i,
    {
        assert(all.take(i as int + 1).drop_last() =~= all.take(i as int));
        assert(all.take(i as int + 1).last() == (e@[i as int].0@, e@[i as int].1@));
        put_capability(&mut m, e[i].0.clone(), e[i].1.dup());
        i = i + 1;
    }
    assert(all.take(i as int) =~= all);
    m
}

/// An account of a session.
#[derive(Debug)]
pub struct Account {
    pub name: String,
    pub account_capabilities: IndexMap<String, Json>,
}

/// What an account holds.
pub struct AccountVal {
    pub name: Seq<char>,
    pub capabilities: Members,
}

impl View for Account {
    type V = AccountVal;

    open spec fn view(&self) -> AccountVal {
        AccountVal {
            name: self.name@,
            capabilities: capability_list(self.account_capabilities),
        }
    }
}

/// The accounts that a map holds, in the order in which they came.
pub uninterp spec fn account_list(m: IndexMap<String, Account>) -> Seq<(Seq<char>, AccountVal)>;

/// The entry for a key.
pub open spec fn entry(list: Seq<(Seq<char>, AccountVal)>, key: Seq<char>) -> Option<AccountVal>
    decreases list.len(),
{
    if list.len() == 0 {
        None
    } else if list.last().0 == key {
        Some(list.last().1)
    } else {
        entry(list.drop_last(), key)
    }
}

/// The entries after one was put in: in place of the one with its key, else at
/// the end.
pub open spec fn with_entry(
    list: Seq<(Seq<char>, AccountVal)>,
    key: Seq<char>,
    value: AccountVal,
) -> Seq<(Seq<char>, AccountVal)>
    decreases list.len(),
{
    if list.len() == 0 {
        seq![(key, value)]
    } else if list.last().0 == key {
        list.drop_last().push((key, value))
    } else if entry(list, key) is Some {
        with_entry(list.drop_last(), key, value).push(list.last())
    } else {
        list.push((key, value))
    }
}

/// `IndexMap::new`: a map without entries.
#[verifier::external_body]
fn no_accounts() -> (r: IndexMap<String, Account>)
    ensures
        account_list(r) == Seq::<(Seq<char>, AccountVal)>::empty(),
{
    IndexMap::new()
}

/// `IndexMap::insert`: a new key goes to the end, a known one keeps its place
/// and gets the new value.
#[verifier::external_body]
fn put_account(m: &mut IndexMap<String, Account>, key: String, account: Account)
    ensures
        account_list(*final(m)) == with_entry(account_list(*old(m)), key@, account@),
{
    m.insert(key, account);
}

/// `IndexMap::get`: the value of a key.
#[verifier::external_body]
fn account_at<'a>(m: &'a IndexMap<String, Account>, key: &str) -> (r: Option<&'a Account>)
    ensures
        match r {
            Some(a) => entry(account_list(*m), key@) == Some(a@),
            None => entry(account_list(*m), key@) is None,
        },
{
    m.get(key)
}

/// `IndexMap::is_empty`: whether there are no entries.
#[verifier::external_body]
fn has_no_accounts(m: &IndexMap<String, Account>) -> (r: bool)
    ensures
        r == (account_list(*m).len() == 0),
{
    m.is_empty()
}

/// A session.
#[derive(Debug)]
pub struct Session {
    pub api_url: String,
    pub upload_url: String,
    pub download_url: String,
    pub capabilities: IndexMap<String, Json>,
    pub accounts: IndexMap<String, Account>,
}

/// What a session holds.
pub struct SessionVal {
    pub api_url: Seq<char>,
    pub upload_url: Seq<char>,
    pub download_url: Seq<char>,
    pub capabilities: Members,
    pub accounts: Seq<(Seq<char>, AccountVal)>,
}

impl View for Session {
    type V = SessionVal;

    open spec fn view(&self) -> SessionVal {
        SessionVal {
            api_url: self.api_url@,
            upload_url: self.upload_url@,
            download_url: self.download_url@,
            capabilities: capability_list(self.capabilities),
            accounts: account_list(self.accounts),
        }
    }
}

/// An account as a member of the session's accounts describes it: an object
/// with a name and, where it has them, capabilities; or a list of the two.
pub open spec fn read_account(v: Val) -> Option<AccountVal> {
    match v {
        Val::Object(e) => match json::lookup(e, "name"@) {
            Some(Val::Text(name)) => match json::lookup(e, "accountCapabilities"@) {
                Some(Val::Object(c)) => Some(AccountVal { name, capabilities: gathered(c) }),
                Some(_) => None,
                None => Some(AccountVal { name, capabilities: Seq::empty() }),
            },
            _ => None,
        },
        Val::List(l) => if l.len() == 1 {
            match l[0] {
                Val::Text(name) => Some(AccountVal { name, capabilities: Seq::empty() }),
                _ => None,
            }
        } else if l.len() == 2 {
            match (l[0], l[1]) {
                (Val::Text(name), Val::Object(c)) => Some(
                    AccountVal { name, capabilities: gathered(c) },
                ),
                _ => None,
            }
        } else {
            None
        },
        _ => None,
    }
}

/// The accounts that an object describes, unless one is malformed.
pub open spec fn read_accounts(e: Members) -> Option<Seq<(Seq<char>, AccountVal)>>
    decreases e.len(),
{
    if e.len() == 0 {
        Some(Seq::empty())
    } else {
        match (read_accounts(e.drop_last()), read_account(e.last().1)) {
            (Some(list), Some(a)) => Some(with_entry(list, e.last().0, a)),
            _ => None,
        }
    }
}

/// The session that a JSON value describes.
pub open spec fn read_session(v: Val) -> Option<SessionVal> {
    match (v.text_at("apiUrl"@), v.text_at("uploadUrl"@), v.text_at("downloadUrl"@)) {
        (Some(api), Some(upload), Some(download)) => match (
            v.get("capabilities"@),
            v.get("accounts"@),
        ) {
            (Some(Val::Object(c)), Some(Val::Object(a))) => match read_accounts(a) {
                Some(accounts) => Some(
                    SessionVal {
                        api_url: api,
                        upload_url: upload,
                        download_url: download,
                        capabilities: gathered(c),
                        accounts,
                    },
                ),
                None => None,
            },
            _ => None,
        },
        _ => None,
    }
}

/// An optional session, seen through its view.
pub open spec fn session_view(s: Option<Session>) -> Option<SessionVal> {
    match s {
        Some(x) => Some(x@),
        None => None,
    }
}

fn account_from(v: &Json) -> (r: Option<Account>)
    ensures
        match r {
            Some(a) => read_account(v@) == Some(a@),
            None => read_account(v@) is None,
        },
{
    match v {
        Json::Object(e) => {
            let name: String = match v.get("name") {
                Some(Json::Text(t)) => t.clone(),
                _ => {
                    return None;
                },
            };
            match v.get("accountCapabilities") {
                Some(Json::Object(c)) => Some(
                    Account { name, account_capabilities: gather(c) },
                ),
                Some(_) => None,
                None => Some(Account { name, account_capabilities: no_capabilities() }),
            }
        },
        Json::List(l) => {
            assert(json::list_view(l@).len() == l@.len());
            if l.len() == 1 {
                assert(json::list_view(l@)[0] == l@[0]@);
                match &l[0] {
                    Json::Text(t) => Some(
                        Account { name: t.clone(), account_capabilities: no_capabilities() },
                    ),
                    _ => None,
                }
            } else if l.len() == 2 {
                assert(json::list_view(l@)[0] == l@[0]@);
                assert(json::list_view(l@)[1] == l@[1]@);
                match (&l[0], &l[1]) {
                    (Json::Text(t), Json::Object(c)) => Some(
                        Account { name: t.clone(), account_capabilities: gather(c) },
                    ),
                    _ => None,
                }
            } else {
                None
            }
        },
        _ => None,
    }
}

proof fn lemma_read_accounts_fails(e: Members, i: int)
    requires
        0 <= i <= e.len(),
        read_accounts(e.take(i)) is None,
    ensures
        read_accounts(e) is None,
    decreases e.len() - i,
{
    if i < e.len() {
        assert(e.take(i + 1).drop_last() =~= e.take(i));
        lemma_read_accounts_fails(e, i + 1);
    } else {
        assert(e.take(i) =~= e);
    }
}

fn accounts_from(e: &Vec<(String, Json)>) -> (r: Option<IndexMap<String, Account>>)
    ensures
        match r {
            Some(m) => read_accounts(json::members_view(e@)) == Some(account_list(m)),
            None => read_accounts(json::members_view(e@)) is None,
        },
{
    let ghost all = json::members_view(e@);
    let mut m: IndexMap<String, Account> = no_accounts();
    let mut i: usize = 0;
    assert(all.take(0) =~= Seq::empty());
    while i < e.len()
        invariant
            i <= e@.len(),
            all == json::members_view(e@),
            all.len() == e@.len(),
            read_accounts(all.take(i as int)) == Some(account_list(m)),
        decreases e@.len() - i,
    {
        proof {
            assert(all.take(i as int + 1).drop_last() =~= all.take(i as int));
            assert(all.take(i as int + 1).last() == (e@[i as int].0@, e@[i as int].1@));
        }
        match account_from(&e[i].1) {
            Some(a) => {
                put_account(&mut m, e[i].0.clone(), a);
            },
            None => {
                proof {
                    lemma_read_accounts_fails(all, i as int + 1);
                }
                return None;
            },
        }
        i = i + 1;
    }
    assert(all.take(i as int) =~= all);
    Some(m)
}

/// Reads a session from a JSON value.
pub fn session_from(v: &Json) -> (r: Option<Session>)
    ensures
        session_view(r) == read_session(v@),
{
    let api_url: String = match v.text_at("apiUrl") {
        Some(t) => t.to_owned(),
        None => {
            return None;
        },
    };
    let upload_url: String = match v.text_at("uploadUrl") {
        Some(t) => t.to_owned(),
        None => {
            return None;
        },
    };
    let download_url: String = match v.text_at("downloadUrl") {
        Some(t) => t.to_owned(),
        None => {
            return None;
        },
    };
    match (v.get("capabilities"), v.get("accounts")) {
        (Some(Json::Object(c)), Some(Json::Object(a))) => match accounts_from(a) {
            Some(accounts) => Some(
                Session {
                    api_url,
                    upload_url,
                    download_url,
                    capabilities: gather(c),
                    accounts,
                },
            ),
            None => None,
        },
        _ => None,
    }
}

/// The session that a text describes.
pub open spec fn session_of(body: Seq<char>) -> Option<SessionVal> {
    match json::json_of(vstd::utf8::encode_utf8(body)) {
        Ok(v) => read_session(v),
        Err(_) => None,
    }
}

/// Reads a session from the text of an answer.
pub fn parse_session(body: &str) -> (r: Option<Session>)
    ensures
        session_view(r) == session_of(body@),
{
    match json::parse(body.as_bytes()) {
        Ok(v) => session_from(&v),
        Err(_) => None,
    }
}

/// Where a session is looked for next.
pub fn well_known_url(base: &str) -> (r: String)
    ensures
        r@ == text::without_end(base@, '/') + "/.well-known/jmap"@,
{
    let trimmed: String = text::drop_end(base, '/');
    text::joined(trimmed.as_str(), "/.well-known/jmap")
}

/// Whether a character may stand in the scheme of a URL.
pub open spec fn is_scheme_char(c: char) -> bool {
    text::is_alnum(c) || c == '+' || c == '-' || c == '.'
}

/// Where the colon stands that ends a scheme, from `i` on.
pub open spec fn scheme_from(s: Seq<char>, i: int) -> Option<int>
    decreases s.len() - i,
{
    if i < 0 || i >= s.len() {
        None
    } else if s[i] == ':' {
        Some(i)
    } else if is_scheme_char(s[i]) {
        scheme_from(s, i + 1)
    } else {
        None
    }
}

/// Where the colon stands that ends the scheme of a URL.
pub open spec fn scheme_of(s: Seq<char>) -> Option<int> {
    if s.len() > 0 && text::is_alpha(s[0]) {
        scheme_from(s, 0)
    } else {
        None
    }
}

fn scheme_end(v: &Vec<char>) -> (r: Option<usize>)
    ensures
        match r {
            Some(i) => scheme_of(v@) == Some(i as int) && i < v@.len(),
            None => scheme_of(v@) is None,
        },
{
    if v.len() == 0 || !text::alpha(v[0]) {
        return None;
    }
    let mut i: usize = 0;
    while i < v.len()
        invariant
            i <= v@.len(),
            v@.len() > 0,
            text::is_alpha(v@[0]),
            scheme_of(v@) == scheme_from(v@, i as int),
        decreases v@.len() - i,
    {
        let c: char = v[i];
        if c == ':' {
            return Some(i);
        }
        if !(text::alnum(c) || c == '+' || c == '-' || c == '.') {
            return None;
        }
        i = i + 1;
    }
    None
}

/// Where the authority of a URL ends.
pub open spec fn authority_len(s: Seq<char>) -> int
    decreases s.len(),
{
    if s.len() == 0 || s[0] == '/' || s[0] == '?' || s[0] == '#' {
        0
    } else {
        1 + authority_len(s.skip(1))
    }
}

/// Where the path of a URL ends.
pub open spec fn path_len(s: Seq<char>) -> int
    decreases s.len(),
{
    if s.len() == 0 || s[0] == '?' || s[0] == '#' {
        0
    } else {
        1 + path_len(s.skip(1))
    }
}

/// A path up to its last slash.
pub open spec fn directory(path: Seq<char>) -> Seq<char> {
    let last = text::last_index(path, '/');
    if last >= 0 {
        path.take(last + 1)
    } else {
        "/"@
    }
}

/// A reference, as an absolute URL where the base is one.
pub open spec fn resolved(base: Seq<char>, reference: Seq<char>) -> Seq<char> {
    if reference.len() == 0 {
        base
    } else if scheme_of(reference) is Some {
        reference
    } else {
        match scheme_of(base) {
            None => reference,
            Some(k) => {
                let rest = base.skip(k + 1);
                if !text::has_prefix(rest, "//"@) {
                    reference
                } else {
                    let head = base.take(k + 1) + "//"@;
                    let place = rest.skip(2);
                    let n = authority_len(place);
                    if text::has_prefix(reference, "//"@) {
                        head + reference.skip(2)
                    } else if text::has_prefix(reference, "/"@) {
                        head + place.take(n) + reference
                    } else {
                        let below = place.skip(n);
                        head + place.take(n) + directory(below.take(path_len(below))) + reference
                    }
                }
            },
        }
    }
}

fn find_authority_end(v: &Vec<char>, from: usize) -> (r: usize)
    requires
        from <= v@.len(),
    ensures
        from <= r <= v@.len(),
        r == from + authority_len(v@.skip(from as int)),
{
    let mut i: usize = from;
    while i < v.len() && v[i] != '/' && v[i] != '?' && v[i] != '#'
        invariant
            from <= i <= v@.len(),
            i + authority_len(v@.skip(i as int)) == from + authority_len(v@.skip(from as int)),
        decreases v@.len() - i,
    {
        assert(v@.skip(i as int).skip(1) =~= v@.skip(i as int + 1));
        i = i + 1;
    }
    i
}

fn find_path_end(v: &Vec<char>, from: usize) -> (r: usize)
    requires
        from <= v@.len(),
    ensures
        from <= r <= v@.len(),
        r == from + path_len(v@.skip(from as int)),
{
    let mut i: usize = from;
    while i < v.len() && v[i] != '?' && v[i] != '#'
        invariant
            from <= i <= v@.len(),
            i + path_len(v@.skip(i as int)) == from + path_len(v@.skip(from as int)),
        decreases v@.len() - i,
    {
        assert(v@.skip(i as int).skip(1) =~= v@.skip(i as int + 1));
        i = i + 1;
    }
    i
}

fn directory_of(path: &str) -> (r: String)
    ensures
        r@ == directory(path@),
{
    let v: Vec<char> = text::chars_of(path);
    let n: usize = v.len();
    match text::find_last_char(&v, '/') {
        Some(last) => {
            assert(last < n);
            let r: String = text::string_of(&v, 0, last + 1);
            assert(r@ =~= path@.take(last + 1));
            r
        },
        None => "/".to_owned(),
    }
}

/// Resolves a reference against a base: an absolute one stays as it is.
pub fn resolve_reference(base: &str, reference: &str) -> (r: String)
    ensures
        r@ == resolved(base@, reference@),
{
    proof {
        reveal_strlit("//");
        reveal_strlit("/");
    }
    let target: Vec<char> = text::chars_of(reference);
    if target.len() == 0 {
        return base.to_owned();
    }
    if scheme_end(&target).is_some() {
        return reference.to_owned();
    }
    let v: Vec<char> = text::chars_of(base);
    let n: usize = v.len();
    let k: usize = match scheme_end(&v) {
        Some(k) => k,
        None => {
            return reference.to_owned();
        },
    };
    assert(k < n);
    let slashes: Vec<char> = text::chars_of("//");
    assert(v@.subrange(k as int + 1, v@.len() as int) =~= base@.skip(k as int + 1));
    if !text::prefix_at(&v, k + 1, &slashes) {
        return reference.to_owned();
    }
    let mut out: String = text::string_of(&v, 0, k + 1);
    assert(out@ =~= base@.take(k as int + 1));
    out.append("//");
    if text::starts_with(reference, "//") {
        let rest: String = text::string_of(&target, 2, target.len());
        assert(rest@ =~= reference@.skip(2));
        out.append(rest.as_str());
        return out;
    }
    let start: usize = k + 3;
    let end: usize = find_authority_end(&v, start);
    let ghost place = base@.skip(k as int + 1).skip(2);
    proof {
        assert(place =~= v@.skip(start as int));
    }
    let authority: String = text::string_of(&v, start, end);
    assert(authority@ =~= place.take(end - start));
    out.append(authority.as_str());
    if text::starts_with(reference, "/") {
        out.append(reference);
        return out;
    }
    let stop: usize = find_path_end(&v, end);
    proof {
        assert(place.skip(end - start) =~= v@.skip(end as int));
    }
    let path: String = text::string_of(&v, end, stop);
    assert(path@ =~= place.skip(end - start).take(stop - end));
    let dir: String = directory_of(path.as_str());
    out.append(dir.as_str());
    out.append(reference);
    out
}

proof fn lemma_scheme_from(a: Seq<char>, b: Seq<char>, i: int, k: int)
    requires
        0 <= i <= k < a.len(),
        k < b.len(),
        a.take(k + 1) == b.take(k + 1),
        scheme_from(a, i) == Some(k),
    ensures
        scheme_from(b, i) == Some(k),
    decreases k - i,
{
    assert(a[i] == a.take(k + 1)[i]);
    assert(b[i] == b.take(k + 1)[i]);
    lemma_scheme_bounds(a, i + 1);
    if i < k {
        lemma_scheme_from(a, b, i + 1, k);
    }
}

proof fn lemma_scheme_bounds(s: Seq<char>, i: int)
    requires
        0 <= i,
    ensures
        scheme_from(s, i) matches Some(k) ==> i <= k < s.len(),
    decreases s.len() - i,
{
    if i < s.len() && s[i] != ':' && is_scheme_char(s[i]) {
        lemma_scheme_bounds(s, i + 1);
    }
}

/// An absolute URL is resolved to itself, and resolving a reference twice is
/// resolving it once.
pub proof fn resolving_settles_a_reference(base: Seq<char>, reference: Seq<char>)
    ensures
        scheme_of(reference) is Some ==> resolved(base, reference) == reference,
        resolved(base, resolved(base, reference)) == resolved(base, reference),
{
    let r = resolved(base, reference);
    if reference.len() > 0 && scheme_of(reference) is None && scheme_of(base) is Some {
        let k = scheme_of(base)->0;
        lemma_scheme_bounds(base, 0);
        if text::has_prefix(base.skip(k + 1), "//"@) {
            assert(r.take(k + 1) =~= base.take(k + 1));
            assert(r[0] == r.take(k + 1)[0]);
            assert(base[0] == base.take(k + 1)[0]);
            lemma_scheme_from(base, r, 0, k);
        }
    }
}

/// The origin of a URL: its scheme, host and port, as the `url` crate writes
/// it, where the URL has one.
pub uninterp spec fn url_origin(url: Seq<char>) -> Option<Seq<char>>;

/// `url::Url::parse`, `origin` and `ascii_serialization`: the origin of a URL;
/// nothing where the URL is malformed or its origin is opaque.
#[verifier::external_body]
fn read_origin(url: &str) -> (r: Option<String>)
    ensures
        json::text_view(r) == url_origin(url@),
{
    let origin = url::Url::parse(url).ok()?.origin();
    match &origin {
        url::Origin::Tuple(..) => Some(origin.ascii_serialization()),
        url::Origin::Opaque(_) => None,
    }
}

/// The origin of a URL.
pub fn origin_of(url: &str) -> (r: Option<String>)
    ensures
        json::text_view(r) == url_origin(url@),
{
    read_origin(url)
}

/// URLs of a session that lead to another origin than the one connected to.
#[derive(Debug)]
pub struct OriginMismatch {
    pub fields: Vec<&'static str>,
    pub session_origin: String,
    pub connect_origin: String,
}

/// What a mismatch holds.
pub struct MismatchVal {
    pub fields: Seq<Seq<char>>,
    pub session_origin: Seq<char>,
    pub connect_origin: Seq<char>,
}

/// The characters of each of several texts.
pub open spec fn field_names(v: Seq<&'static str>) -> Seq<Seq<char>> {
    Seq::new(v.len(), |i: int| v[i]@)
}

impl View for OriginMismatch {
    type V = MismatchVal;

    open spec fn view(&self) -> MismatchVal {
        MismatchVal {
            fields: field_names(self.fields@),
            session_origin: self.session_origin@,
            connect_origin: self.connect_origin@,
        }
    }
}

/// What mismatches hold.
pub open spec fn mismatch_views(v: Seq<OriginMismatch>) -> Seq<MismatchVal> {
    Seq::new(v.len(), |i: int| v[i]@)
}

impl OriginMismatch {
    /// The warning about a mismatch.
    pub fn message(&self) -> (r: String)
        ensures
            r@ == "session advertises "@ + text::join(self@.fields, ", "@) + " on "@
                + self.session_origin@ + " (connected to "@ + self.connect_origin@
                + "); vandelay must use the advertised URL. If this is wrong, fix the server's advertised HTTP URL setting."@,
    {
        let mut names: Vec<String> = Vec::new();
        let mut i: usize = 0;
        while i < self.fields.len()
            invariant
                i <= self.fields@.len(),
                names@.len() == i,
                forall|k: int| 0 <= k < i ==> (#[trigger] names@[k])@ == self.fields@[k]@,
            decreases self.fields@.len() - i,
        {
            names.push(self.fields[i].to_owned());
            i = i + 1;
        }
        assert(text::texts(names@) =~= field_names(self.fields@));
        let list: String = text::join_texts(&names, ", ");
        let mut s: String = text::joined("session advertises ", list.as_str());
        s.append(" on ");
        s.append(self.session_origin.as_str());
        s.append(" (connected to ");
        s.append(self.connect_origin.as_str());
        s.append(
            "); vandelay must use the advertised URL. If this is wrong, fix the server's advertised HTTP URL setting.",
        );
        s
    }
}

/// Where an origin stands among mismatches; their number if it does not.
pub open spec fn origin_index(list: Seq<MismatchVal>, origin: Seq<char>) -> int
    decreases list.len(),
{
    if list.len() == 0 || list[0].session_origin == origin {
        0
    } else {
        1 + origin_index(list.skip(1), origin)
    }
}

/// The mismatches after one more URL was looked at.
pub open spec fn noted(
    list: Seq<MismatchVal>,
    field: Seq<char>,
    origin: Option<Seq<char>>,
    connect: Seq<char>,
) -> Seq<MismatchVal> {
    match origin {
        None => list,
        Some(o) => if o == connect {
            list
        } else {
            let i = origin_index(list, o);
            if i < list.len() {
                list.update(
                    i,
                    MismatchVal {
                        fields: list[i].fields.push(field),
                        session_origin: list[i].session_origin,
                        connect_origin: list[i].connect_origin,
                    },
                )
            } else {
                list.push(
                    MismatchVal {
                        fields: seq![field],
                        session_origin: o,
                        connect_origin: connect,
                    },
                )
            }
        },
    }
}

/// The mismatches of a session whose URLs have the given origins.
pub open spec fn mismatches_of(
    api: Option<Seq<char>>,
    upload: Option<Seq<char>>,
    download: Option<Seq<char>>,
    connect: Option<Seq<char>>,
) -> Seq<MismatchVal> {
    match connect {
        None => Seq::empty(),
        Some(c) => noted(
            noted(noted(Seq::empty(), "apiUrl"@, api, c), "uploadUrl"@, upload, c),
            "downloadUrl"@,
            download,
            c,
        ),
    }
}

proof fn lemma_origin_index(list: Seq<MismatchVal>, origin: Seq<char>, i: int)
    requires
        0 <= i <= list.len(),
        forall|k: int| 0 <= k < i ==> (#[trigger] list[k]).session_origin != origin,
        i < list.len() ==> list[i].session_origin == origin,
    ensures
        origin_index(list, origin) == i,
    decreases list.len(),
{
    if i > 0 {
        assert(list[0].session_origin != origin);
        let rest = list.skip(1);
        assert forall|k: int| 0 <= k < i - 1 implies (#[trigger] rest[k]).session_origin
            != origin by {
            assert(rest[k] == list[k + 1]);
        }
        lemma_origin_index(rest, origin, i - 1);
    }
}

proof fn lemma_origin_index_bounds(list: Seq<MismatchVal>, origin: Seq<char>)
    ensures
        0 <= origin_index(list, origin) <= list.len(),
        forall|k: int|
            0 <= k < origin_index(list, origin) ==> (#[trigger] list[k]).session_origin != origin,
        origin_index(list, origin) < list.len() ==> list[origin_index(list, origin)].session_origin
            == origin,
    decreases list.len(),
{
    if list.len() > 0 && list[0].session_origin != origin {
        let rest = list.skip(1);
        lemma_origin_index_bounds(rest, origin);
        assert forall|k: int| 0 <= k < origin_index(list, origin) implies (
        #[trigger] list[k]).session_origin != origin by {
            if k > 0 {
                assert(rest[k - 1] == list[k]);
            }
        }
    }
}

fn note_origin(
    list: &mut Vec<OriginMismatch>,
    field: &'static str,
    origin: Option<String>,
    connect: &str,
)
    ensures
        mismatch_views(final(list)@) == noted(
            mismatch_views(old(list)@),
            field@,
            json::text_view(origin),
            connect@,
        ),
{
    let o: String = match origin {
        Some(o) => o,
        None => {
            return ;
        },
    };
    if text::same(o.as_str(), connect) {
        return ;
    }
    let ghost before = list@;
    let ghost all = mismatch_views(before);
    let mut i: usize = 0;
    while i < list.len() && !text::same(list[i].session_origin.as_str(), o.as_str())
        invariant
            i <= list@.len(),
            list@ == before,
            all == mismatch_views(before),
            forall|k: int| 0 <= k < i ==> (#[trigger] all[k]).session_origin != o@,
        decreases list@.len() - i,
    {
        assert(all[i as int] == list@[i as int]@);
        i = i + 1;
    }
    proof {
        if i < before.len() {
            assert(all[i as int] == before[i as int]@);
        }
        lemma_origin_index(all, o@, i as int);
    }
    if i < list.len() {
        let mut m: OriginMismatch = list.remove(i);
        let ghost had = m.fields@;
        m.fields.push(field);
        assert(field_names(m.fields@) =~= field_names(had).push(field@));
        list.insert(i, m);
        assert(mismatch_views(list@) =~= noted(all, field@, Some(o@), connect@));
    } else {
        let fields: Vec<&'static str> = vec![field];
        assert(field_names(fields@) =~= seq![field@]);
        list.push(OriginMismatch { fields, session_origin: o, connect_origin: connect.to_owned() });
        assert(mismatch_views(list@) =~= noted(all, field@, Some(o@), connect@));
    }
}

/// Collects the mismatches of a session from the origins of its URLs.
pub fn collect_mismatches(
    api: Option<String>,
    upload: Option<String>,
    download: Option<String>,
    connect: Option<String>,
) -> (r: Vec<OriginMismatch>)
    ensures
        mismatch_views(r@) == mismatches_of(
            json::text_view(api),
            json::text_view(upload),
            json::text_view(download),
            json::text_view(connect),
        ),
{
    let mut list: Vec<OriginMismatch> = Vec::new();
    assert(mismatch_views(list@) =~= Seq::empty());
    if let Some(c) = connect {
        note_origin(&mut list, "apiUrl", api, c.as_str());
        note_origin(&mut list, "uploadUrl", upload, c.as_str());
        note_origin(&mut list, "downloadUrl", download, c.as_str());
    }
    list
}

/// Whether mismatches tell origins apart, and none is the one connected to.
pub open spec fn tells_origins_apart(list: Seq<MismatchVal>, connect: Seq<char>) -> bool {
    &&& forall|i: int|
        0 <= i < list.len() ==> (#[trigger] list[i]).session_origin != connect
            && list[i].connect_origin == connect
    &&& forall|i: int, j: int|
        0 <= i < j < list.len() ==> (#[trigger] list[i]).session_origin != (
        #[trigger] list[j]).session_origin
}

proof fn lemma_noted(
    list: Seq<MismatchVal>,
    field: Seq<char>,
    origin: Option<Seq<char>>,
    connect: Seq<char>,
)
    requires
        tells_origins_apart(list, connect),
    ensures
        tells_origins_apart(noted(list, field, origin, connect), connect),
{
    if let Some(o) = origin {
        lemma_origin_index_bounds(list, o);
        let after = noted(list, field, origin, connect);
        assert forall|i: int, j: int| 0 <= i < j < after.len() implies (
        #[trigger] after[i]).session_origin != (#[trigger] after[j]).session_origin by {
            if j < list.len() {
                assert(list[i].session_origin != list[j].session_origin);
            }
        }
    }
}

/// Each origin is reported once, with the URLs that lead to it, and the origin
/// that was connected to is never reported.
pub proof fn each_origin_is_reported_once(
    api: Option<Seq<char>>,
    upload: Option<Seq<char>>,
    download: Option<Seq<char>>,
    connect: Seq<char>,
)
    ensures
        tells_origins_apart(mismatches_of(api, upload, download, Some(connect)), connect),
        (api == Some(connect) && upload == Some(connect) && download == Some(connect))
            ==> mismatches_of(api, upload, download, Some(connect)).len() == 0,
{
    let none = Seq::<MismatchVal>::empty();
    lemma_noted(none, "apiUrl"@, api, connect);
    let one = noted(none, "apiUrl"@, api, connect);
    lemma_noted(one, "uploadUrl"@, upload, connect);
    lemma_noted(noted(one, "uploadUrl"@, upload, connect), "downloadUrl"@, download, connect);
}

/// A session with its URLs resolved.
pub open spec fn rebased(s: SessionVal, url: Seq<char>) -> SessionVal {
    SessionVal {
        api_url: resolved(url, s.api_url),
        upload_url: resolved(url, s.upload_url),
        download_url: resolved(url, s.download_url),
        capabilities: s.capabilities,
        accounts: s.accounts,
    }
}

/// What a session that names no account says.
pub open spec fn anonymous_text() -> Seq<char> {
    "session enumerates no accounts (anonymous session: authentication failed)"@
}

/// Whether a result is the session at a URL, or the refusal of an anonymous
/// one.
pub open spec fn is_settled(s: SessionVal, url: Seq<char>, r: Result<Session, JmapError>) -> bool {
    if s.accounts.len() == 0 {
        r matches Err(JmapError::Auth(m)) && m@ == anonymous_text()
    } else {
        r matches Ok(x) && x@ == rebased(s, url)
    }
}

/// The limits that a capability states: an object with all of them, or a list
/// of them.
pub open spec fn read_limits(v: Val) -> Option<Limits> {
    match v {
        Val::Object(e) => match (
            number_at(v, "maxObjectsInGet"@),
            number_at(v, "maxObjectsInSet"@),
            number_at(v, "maxCallsInRequest"@),
            number_at(v, "maxConcurrentRequests"@),
            number_at(v, "maxConcurrentUpload"@),
            number_at(v, "maxSizeRequest"@),
            number_at(v, "maxSizeUpload"@),
        ) {
            (Some(a), Some(b), Some(c), Some(d), Some(f), Some(g), Some(h)) => Some(
                Limits {
                    max_objects_in_get: a,
                    max_objects_in_set: b,
                    max_calls_in_request: c,
                    max_concurrent_requests: d,
                    max_concurrent_upload: f,
                    max_size_request: g,
                    max_size_upload: h,
                },
            ),
            _ => None,
        },
        Val::List(l) => if l.len() == 7 {
            match (
                l[0].as_u64(),
                l[1].as_u64(),
                l[2].as_u64(),
                l[3].as_u64(),
                l[4].as_u64(),
                l[5].as_u64(),
                l[6].as_u64(),
            ) {
                (Some(a), Some(b), Some(c), Some(d), Some(f), Some(g), Some(h)) => Some(
                    Limits {
                        max_objects_in_get: a,
                        max_objects_in_set: b,
                        max_calls_in_request: c,
                        max_concurrent_requests: d,
                        max_concurrent_upload: f,
                        max_size_request: g,
                        max_size_upload: h,
                    },
                ),
                _ => None,
            }
        } else {
            None
        },
        _ => None,
    }
}

/// A member that is an unsigned number.
pub open spec fn number_at(v: Val, key: Seq<char>) -> Option<u64> {
    match v.get(key) {
        Some(n) => n.as_u64(),
        None => None,
    }
}

fn unsigned_at(v: &Json, key: &str) -> (r: Option<u64>)
    ensures
        r == number_at(v@, key@),
{
    match v.get(key) {
        Some(n) => n.as_u64(),
        None => None,
    }
}

/// Whether a member of the capability is a limit.
pub open spec fn is_limit(name: Seq<char>) -> bool {
    ||| name == "maxObjectsInGet"@
    ||| name == "maxObjectsInSet"@
    ||| name == "maxCallsInRequest"@
    ||| name == "maxConcurrentRequests"@
    ||| name == "maxConcurrentUpload"@
    ||| name == "maxSizeRequest"@
    ||| name == "maxSizeUpload"@
}

/// The first value among them that is no unsigned number.
pub open spec fn first_odd(values: Seq<Val>) -> Option<Val>
    decreases values.len(),
{
    if values.len() == 0 {
        None
    } else {
        match first_odd(values.drop_last()) {
            Some(v) => Some(v),
            None => if values.last().as_u64() is None {
                Some(values.last())
            } else {
                None
            },
        }
    }
}

/// The first limit among the members that is no unsigned number.
pub open spec fn odd_limit(e: Members) -> Option<Val>
    decreases e.len(),
{
    if e.len() == 0 {
        None
    } else {
        match odd_limit(e.drop_last()) {
            Some(v) => Some(v),
            None => if is_limit(e.last().0) && e.last().1.as_u64() is None {
                Some(e.last().1)
            } else {
                None
            },
        }
    }
}

/// The first limit that an object lacks, given that it lacks one.
pub open spec fn missing_limit(v: Val) -> Seq<char> {
    if v.get("maxObjectsInGet"@) is None {
        "maxObjectsInGet"@
    } else if v.get("maxObjectsInSet"@) is None {
        "maxObjectsInSet"@
    } else if v.get("maxCallsInRequest"@) is None {
        "maxCallsInRequest"@
    } else if v.get("maxConcurrentRequests"@) is None {
        "maxConcurrentRequests"@
    } else if v.get("maxConcurrentUpload"@) is None {
        "maxConcurrentUpload"@
    } else if v.get("maxSizeRequest"@) is None {
        "maxSizeRequest"@
    } else {
        "maxSizeUpload"@
    }
}

/// What is said of a list of a wrong length.
pub open spec fn length_text(n: nat, expected: Seq<char>) -> Seq<char> {
    "invalid length "@ + text::dec(n) + ", expected "@ + expected
}

/// What is said of a capability that does not state the limits: of the first
/// that is no unsigned number, else of the first that is missing.
pub open spec fn limits_fault(v: Val) -> Seq<char> {
    match v {
        Val::Object(e) => match odd_limit(e) {
            Some(n) => json::unsigned_fault(json::held(n)),
            None => "missing field `"@ + missing_limit(v) + "`"@,
        },
        Val::List(l) => match first_odd(
            if l.len() <= 7 {
                l
            } else {
                l.take(7)
            },
        ) {
            Some(n) => json::unsigned_fault(json::held(n)),
            None => if l.len() < 7 {
                length_text(l.len(), "struct Limits with 7 elements"@)
            } else {
                length_text(l.len(), "fewer elements in array"@)
            },
        },
        _ => json::type_fault(json::held(v), "struct Limits"@),
    }
}

fn is_limit_name(name: &str) -> (r: bool)
    ensures
        r == is_limit(name@),
{
    text::same(name, "maxObjectsInGet") || text::same(name, "maxObjectsInSet") || text::same(
        name,
        "maxCallsInRequest",
    ) || text::same(name, "maxConcurrentRequests") || text::same(name, "maxConcurrentUpload")
        || text::same(name, "maxSizeRequest") || text::same(name, "maxSizeUpload")
}

fn lacking(v: &Json) -> (r: &'static str)
    ensures
        r@ == missing_limit(v@),
{
    if v.get("maxObjectsInGet").is_none() {
        "maxObjectsInGet"
    } else if v.get("maxObjectsInSet").is_none() {
        "maxObjectsInSet"
    } else if v.get("maxCallsInRequest").is_none() {
        "maxCallsInRequest"
    } else if v.get("maxConcurrentRequests").is_none() {
        "maxConcurrentRequests"
    } else if v.get("maxConcurrentUpload").is_none() {
        "maxConcurrentUpload"
    } else if v.get("maxSizeRequest").is_none() {
        "maxSizeRequest"
    } else {
        "maxSizeUpload"
    }
}

fn wrong_length(n: usize, expected: &str) -> (r: String)
    ensures
        r@ == length_text(n as nat, expected@),
{
    let mut m: String = text::joined("invalid length ", text::wide_decimal(n as u128).as_str());
    m.append(", expected ");
    m.append(expected);
    m
}

fn odd_in_object(e: &Vec<(String, Json)>) -> (r: Option<&Json>)
    ensures
        json::ref_view(r) == odd_limit(json::members_view(e@)),
{
    let ghost members = json::members_view(e@);
    let mut i: usize = 0;
    while i < e.len()
        invariant
            i <= e@.len(),
            members == json::members_view(e@),
            members.len() == e@.len(),
            odd_limit(members.take(i as int)) is None,
        decreases e@.len() - i,
    {
        assert(members[i as int] == (e@[i as int].0@, e@[i as int].1@));
        assert(members.take(i + 1).drop_last() =~= members.take(i as int));
        if is_limit_name(e[i].0.as_str()) && e[i].1.as_u64().is_none() {
            proof {
                lemma_odd_limit_stays(members, i + 1);
            }
            return Some(&e[i].1);
        }
        i = i + 1;
    }
    assert(members.take(i as int) =~= members);
    None
}

proof fn lemma_odd_limit_stays(e: Members, n: int)
    requires
        0 <= n <= e.len(),
        odd_limit(e.take(n)) is Some,
    ensures
        odd_limit(e) == odd_limit(e.take(n)),
    decreases e.len() - n,
{
    if n < e.len() {
        assert(e.take(n + 1).drop_last() =~= e.take(n));
        lemma_odd_limit_stays(e, n + 1);
    } else {
        assert(e.take(n) =~= e);
    }
}

proof fn lemma_first_odd_stays(l: Seq<Val>, n: int)
    requires
        0 <= n <= l.len(),
        first_odd(l.take(n)) is Some,
    ensures
        first_odd(l) == first_odd(l.take(n)),
    decreases l.len() - n,
{
    if n < l.len() {
        assert(l.take(n + 1).drop_last() =~= l.take(n));
        lemma_first_odd_stays(l, n + 1);
    } else {
        assert(l.take(n) =~= l);
    }
}

fn odd_in_list(l: &Vec<Json>, n: usize) -> (r: Option<&Json>)
    requires
        n <= l@.len(),
    ensures
        json::ref_view(r) == first_odd(json::list_view(l@).take(n as int)),
{
    let ghost values = json::list_view(l@).take(n as int);
    let mut i: usize = 0;
    while i < n
        invariant
            i <= n <= l@.len(),
            values == json::list_view(l@).take(n as int),
            json::list_view(l@).len() == l@.len(),
            first_odd(values.take(i as int)) is None,
        decreases n - i,
    {
        assert(json::list_view(l@)[i as int] == l@[i as int]@);
        assert(values.take(i + 1).drop_last() =~= values.take(i as int));
        if l[i].as_u64().is_none() {
            proof {
                lemma_first_odd_stays(values, i + 1);
            }
            return Some(&l[i]);
        }
        i = i + 1;
    }
    assert(values.take(i as int) =~= values);
    None
}

fn limits_error(v: &Json) -> (r: String)
    ensures
        r@ == limits_fault(v@),
{
    match v {
        Json::Object(e) => match odd_in_object(e) {
            Some(n) => json::not_unsigned(n),
            None => {
                let mut m: String = text::joined("missing field `", lacking(v));
                m.append("`");
                m
            },
        },
        Json::List(l) => {
            let ghost values = json::list_view(l@);
            assert(values.len() == l@.len());
            let n: usize = if l.len() <= 7 {
                l.len()
            } else {
                7
            };
            assert(l@.len() <= 7 ==> values.take(n as int) =~= values);
            match odd_in_list(l, n) {
                Some(x) => json::not_unsigned(x),
                None => if l.len() < 7 {
                    wrong_length(l.len(), "struct Limits with 7 elements")
                } else {
                    wrong_length(l.len(), "fewer elements in array")
                },
            }
        },
        _ => json::not_expected(v, "struct Limits"),
    }
}

fn limits_from(v: &Json) -> (r: Option<Limits>)
    ensures
        r == read_limits(v@),
{
    match v {
        Json::Object(e) => Some(
            Limits {
                max_objects_in_get: unsigned_at(v, "maxObjectsInGet")?,
                max_objects_in_set: unsigned_at(v, "maxObjectsInSet")?,
                max_calls_in_request: unsigned_at(v, "maxCallsInRequest")?,
                max_concurrent_requests: unsigned_at(v, "maxConcurrentRequests")?,
                max_concurrent_upload: unsigned_at(v, "maxConcurrentUpload")?,
                max_size_request: unsigned_at(v, "maxSizeRequest")?,
                max_size_upload: unsigned_at(v, "maxSizeUpload")?,
            },
        ),
        Json::List(l) => {
            proof {
                assert(json::list_view(l@).len() == l@.len());
                assert(forall|i: int| 0 <= i < l@.len() ==> json::list_view(l@)[i] == l@[i]@);
            }
            if l.len() != 7 {
                return None;
            }
            Some(
                Limits {
                    max_objects_in_get: l[0].as_u64()?,
                    max_objects_in_set: l[1].as_u64()?,
                    max_calls_in_request: l[2].as_u64()?,
                    max_concurrent_requests: l[3].as_u64()?,
                    max_concurrent_upload: l[4].as_u64()?,
                    max_size_request: l[5].as_u64()?,
                    max_size_upload: l[6].as_u64()?,
                },
            )
        },
        _ => None,
    }
}

impl Session {
    /// The session with its URLs resolved against the URL it came from.
    pub fn rebased_on(self, session_resource_url: &str) -> (r: Session)
        ensures
            r@ == rebased(self@, session_resource_url@),
    {
        Session {
            api_url: resolve_reference(session_resource_url, self.api_url.as_str()),
            upload_url: resolve_reference(session_resource_url, self.upload_url.as_str()),
            download_url: resolve_reference(session_resource_url, self.download_url.as_str()),
            capabilities: self.capabilities,
            accounts: self.accounts,
        }
    }

    /// Refuses a session without accounts: the server did not know the user.
    pub fn ensure_authenticated(self) -> (r: Result<Session, JmapError>)
        ensures
            if self@.accounts.len() == 0 {
                r matches Err(JmapError::Auth(m)) && m@ == anonymous_text()
            } else {
                r == Ok::<Session, JmapError>(self)
            },
    {
        if has_no_accounts(&self.accounts) {
            return Err(
                JmapError::Auth(
                    "session enumerates no accounts (anonymous session: authentication failed)".to_owned(),
                ),
            );
        }
        Ok(self)
    }

    /// What the answer at the URL itself leads to: a session, a failure, or
    /// nothing, where the session is looked for at the well-known place.
    pub fn discover_direct(url: &str, answer: Result<String, JmapError>) -> (r: Option<
        Result<Session, JmapError>,
    >)
        ensures
            match answer {
                Ok(body) => match session_of(body@) {
                    Some(s) => r matches Some(x) && is_settled(s, url@, x),
                    None => r is None,
                },
                Err(JmapError::Auth(m)) => r matches Some(Err(JmapError::Auth(t))) && t@ == m@,
                Err(_) => r is None,
            },
    {
        match answer {
            Ok(body) => match parse_session(body.as_str()) {
                Some(s) => Some(s.rebased_on(url).ensure_authenticated()),
                None => None,
            },
            Err(JmapError::Auth(m)) => Some(Err(JmapError::Auth(m))),
            Err(_) => None,
        }
    }

    /// What the answer at the well-known place leads to.
    pub fn discover_well_known(url: &str, answer: Result<String, JmapError>) -> (r: Result<
        Session,
        JmapError,
    >)
        ensures
            ({
                let well_known = text::without_end(url@, '/') + "/.well-known/jmap"@;
                match answer {
                    Ok(body) => match session_of(body@) {
                        Some(s) => is_settled(s, well_known, r),
                        None => r matches Err(JmapError::Connect(m)) && m@
                            == "no JMAP Session object at "@ + url@ + " or "@ + well_known,
                    },
                    Err(JmapError::Auth(m)) => r matches Err(JmapError::Auth(t)) && t@ == m@,
                    Err(e) => r matches Err(JmapError::Connect(m)) && m@
                        == "session discovery failed: no Session at "@ + url@ + "; "@ + well_known
                        + ": "@ + error::jmap_text(e),
                }
            }),
    {
        let well_known: String = well_known_url(url);
        match answer {
            Ok(body) => match parse_session(body.as_str()) {
                Some(s) => s.rebased_on(well_known.as_str()).ensure_authenticated(),
                None => {
                    let mut m: String = text::joined("no JMAP Session object at ", url);
                    m.append(" or ");
                    m.append(well_known.as_str());
                    Err(JmapError::Connect(m))
                },
            },
            Err(JmapError::Auth(m)) => Err(JmapError::Auth(m)),
            Err(e) => {
                let told: String = e.message();
                let mut m: String = text::joined(
                    "session discovery failed: no Session at ",
                    url,
                );
                m.append("; ");
                m.append(well_known.as_str());
                m.append(": ");
                m.append(told.as_str());
                Err(JmapError::Connect(m))
            },
        }
    }

    /// The URLs of the session that lead to another origin than the one that
    /// was connected to.
    pub fn origin_mismatches(&self, connect_url: &str) -> (r: Vec<OriginMismatch>)
        ensures
            mismatch_views(r@) == mismatches_of(
                url_origin(self.api_url@),
                url_origin(self.upload_url@),
                url_origin(self.download_url@),
                url_origin(connect_url@),
            ),
    {
        collect_mismatches(
            origin_of(self.api_url.as_str()),
            origin_of(self.upload_url.as_str()),
            origin_of(self.download_url.as_str()),
            origin_of(connect_url),
        )
    }

    /// The limits that the server states.
    pub fn core_limits(&self) -> (r: Result<Limits, Error>)
        ensures
            match json::lookup(self@.capabilities, "urn:ietf:params:jmap:core"@) {
                None => r matches Err(Error::Connection(m)) && m@
                    == "session has no urn:ietf:params:jmap:core capability"@,
                Some(core) => match read_limits(core) {
                    Some(limits) => r == Ok::<Limits, Error>(limits),
                    None => r matches Err(Error::Connection(m)) && m@
                        == "session core capability is malformed: "@ + limits_fault(core),
                },
            },
    {
        let core: &Json = match capability_at(&self.capabilities, "urn:ietf:params:jmap:core") {
            Some(v) => v,
            None => {
                return Err(
                    Error::Connection(
                        "session has no urn:ietf:params:jmap:core capability".to_owned(),
                    ),
                );
            },
        };
        match limits_from(core) {
            Some(limits) => Ok(limits),
            None => Err(
                Error::Connection(
                    text::joined(
                        "session core capability is malformed: ",
                        limits_error(core).as_str(),
                    ),
                ),
            ),
        }
    }

    /// An account, by its id.
    pub fn account(&self, account_id: &str) -> (r: Option<&Account>)
        ensures
            match r {
                Some(a) => entry(self@.accounts, account_id@) == Some(a@),
                None => entry(self@.accounts, account_id@) is None,
            },
    {
        account_at(&self.accounts, account_id)
    }

    /// What an account can do.
    pub fn account_capabilities(&self, account_id: &str) -> (r: Option<&IndexMap<String, Json>>)
        ensures
            match r {
                Some(c) => entry(self@.accounts, account_id@) matches Some(a) && a.capabilities
                    == capability_list(*c),
                None => entry(self@.accounts, account_id@) is None,
            },
    {
        match self.account(account_id) {
            Some(a) => Some(&a.account_capabilities),
            None => None,
        }
    }

    /// Whether an account is known and has a capability.
    pub fn supports(&self, account_id: &str, capability_urn: &str) -> (r: bool)
        ensures
            r == account_supports(self@, account_id@, capability_urn@),
    {
        match self.account_capabilities(account_id) {
            Some(c) => capability_at(c, capability_urn).is_some(),
            None => false,
        }
    }

    /// Where blobs of an account are uploaded.
    pub fn upload_url_for(&self, account_id: &str) -> (r: String)
        ensures
            r@ == text::replaced(
                self.upload_url@,
                "{accountId}"@,
                encoding::escaped_text(account_id@, Place::Segment),
            ),
    {
        text::replace(
            self.upload_url.as_str(),
            "{accountId}",
            encode_segment(account_id).as_str(),
        )
    }

    /// Where a blob is downloaded.
    pub fn download_url_for(
        &self,
        account_id: &str,
        blob_id: &str,
        type_hint: &str,
        name: &str,
    ) -> (r: String)
        ensures
            r@ == text::replaced(
                text::replaced(
                    text::replaced(
                        text::replaced(
                            self.download_url@,
                            "{accountId}"@,
                            encoding::escaped_text(account_id@, Place::Segment),
                        ),
                        "{blobId}"@,
                        encoding::escaped_text(blob_id@, Place::Segment),
                    ),
                    "{type}"@,
                    encoding::escaped_text(type_hint@, Place::Segment),
                ),
                "{name}"@,
                encoding::escaped_text(name@, Place::Segment),
            ),
    {
        let a: String = text::replace(
            self.download_url.as_str(),
            "{accountId}",
            encode_segment(account_id).as_str(),
        );
        let b: String = text::replace(a.as_str(), "{blobId}", encode_segment(blob_id).as_str());
        let c: String = text::replace(b.as_str(), "{type}", encode_segment(type_hint).as_str());
        text::replace(c.as_str(), "{name}", encode_segment(name).as_str())
    }
}

/// Whether an account is known and has a capability.
pub open spec fn account_supports(s: SessionVal, account_id: Seq<char>, urn: Seq<char>) -> bool {
    match entry(s.accounts, account_id) {
        Some(a) => json::lookup(a.capabilities, urn) is Some,
        None => false,
    }
}

/// Percent-encodes a text as one segment of a path.
pub fn encode_segment(input: &str) -> (r: String)
    ensures
        r@ == encoding::escaped_text(input@, Place::Segment),
{
    encoding::escape(input, Place::Segment)
}

} // verus!

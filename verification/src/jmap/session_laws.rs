//! What a session says of its server.

use crate::jmap::session;
use crate::jmap::session::{AccountVal, Limits, MismatchVal, SessionVal};
use crate::json;
use crate::json::{Members, Val};
use crate::text;
use vstd::prelude::*;

verus! {

/// A session has the URLs that the server states, and can be read only where it
/// states all three, its capabilities and its accounts.
pub proof fn sessions_say_where_things_are(v: Val)
    ensures
        session::read_session(v) matches Some(s) ==> {
            &&& v.text_at("apiUrl"@) == Some(s.api_url)
            &&& v.text_at("uploadUrl"@) == Some(s.upload_url)
            &&& v.text_at("downloadUrl"@) == Some(s.download_url)
            &&& v.get("capabilities"@) is Some
            &&& v.get("accounts"@) is Some
        },
{
}

/// A session that was settled has its own URLs, seen from where it was found.
pub proof fn settled_sessions_keep_their_urls(s: SessionVal, url: Seq<char>)
    ensures
        session::rebased(s, url).api_url == session::resolved(url, s.api_url),
        session::rebased(s, url).upload_url == session::resolved(url, s.upload_url),
        session::rebased(s, url).download_url == session::resolved(url, s.download_url),
        session::rebased(s, url).accounts == s.accounts,
        session::rebased(s, url).capabilities == s.capabilities,
{
}

/// Whether members have one with a name.
pub open spec fn is_named(e: Members, k: Seq<char>) -> bool {
    exists|j: int| 0 <= j < e.len() && (#[trigger] e[j]).0 == k
}

proof fn lemma_named(e: Members, k: Seq<char>)
    ensures
        json::lookup(session::gathered(e), k) is Some <==> is_named(e, k),
    decreases e.len(),
{
    if e.len() > 0 {
        let rest = e.drop_last();
        lemma_named(rest, k);
        assert(e[e.len() - 1] == e.last());
        assert(forall|j: int| 0 <= j < rest.len() ==> #[trigger] rest[j] == e[j]);
        json::lemma_with_member(session::gathered(rest), e.last().0, e.last().1, k);
        if is_named(rest, k) {
            let j = choose|j: int| 0 <= j < rest.len() && (#[trigger] rest[j]).0 == k;
            assert(e[j].0 == k);
        }
        if is_named(e, k) {
            let j = choose|j: int| 0 <= j < e.len() && (#[trigger] e[j]).0 == k;
            if j < rest.len() {
                assert(rest[j].0 == k);
            }
        }
    }
}

/// An account has the name and exactly the capabilities that the server states
/// for it.
pub proof fn accounts_have_their_capabilities(v: Val, a: AccountVal, urn: Seq<char>)
    requires
        v is Object,
        session::read_account(v) == Some(a),
    ensures
        v.text_at("name"@) == Some(a.name),
        json::lookup(a.capabilities, urn) is Some <==> (v.get("accountCapabilities"@) matches Some(
            Val::Object(c),
        ) && is_named(c, urn)),
{
    if let Some(Val::Object(c)) = v.get("accountCapabilities"@) {
        lemma_named(c, urn);
    } else {
        assert(json::lookup(Seq::<(Seq<char>, Val)>::empty(), urn) is None);
    }
}

proof fn lemma_with_entry(
    list: Seq<(Seq<char>, AccountVal)>,
    key: Seq<char>,
    value: AccountVal,
    k: Seq<char>,
)
    ensures
        session::entry(session::with_entry(list, key, value), k) == (if k == key {
            Some(value)
        } else {
            session::entry(list, k)
        }),
    decreases list.len(),
{
    let new = session::with_entry(list, key, value);
    if list.len() == 0 {
        assert(new.drop_last() =~= Seq::empty());
    } else if list.last().0 == key {
        assert(new.drop_last() =~= list.drop_last());
    } else if session::entry(list, key) is Some {
        lemma_with_entry(list.drop_last(), key, value, k);
        assert(new.drop_last() =~= session::with_entry(list.drop_last(), key, value));
    } else {
        assert(new.drop_last() =~= list);
    }
}

/// The accounts of a session are those that the server names, each as it is
/// described; of several descriptions under one id the last counts.
pub proof fn sessions_have_their_accounts(
    e: Members,
    list: Seq<(Seq<char>, AccountVal)>,
    id: Seq<char>,
    i: int,
)
    requires
        session::read_accounts(e) == Some(list),
    ensures
        0 <= i < e.len() && e[i].0 == id && (forall|j: int|
            i < j < e.len() ==> (#[trigger] e[j]).0 != id) ==> session::entry(list, id)
            == session::read_account(e[i].1),
        session::entry(list, id) is Some <==> is_named(e, id),
    decreases e.len(),
{
    if e.len() > 0 {
        let rest = e.drop_last();
        let before = session::read_accounts(rest)->0;
        sessions_have_their_accounts(rest, before, id, i);
        assert(e[e.len() - 1] == e.last());
        assert(forall|j: int| 0 <= j < rest.len() ==> #[trigger] rest[j] == e[j]);
        lemma_with_entry(before, e.last().0, session::read_account(e.last().1)->0, id);
        if is_named(rest, id) {
            let j = choose|j: int| 0 <= j < rest.len() && (#[trigger] rest[j]).0 == id;
            assert(e[j].0 == id);
        }
        if is_named(e, id) {
            let j = choose|j: int| 0 <= j < e.len() && (#[trigger] e[j]).0 == id;
            if j < rest.len() {
                assert(rest[j].0 == id);
            }
        }
    }
}

/// Whether a member is an unsigned number, and which.
pub open spec fn states(v: Val, key: Seq<char>, n: u64) -> bool {
    v.get(key) matches Some(x) && x.as_u64() == Some(n)
}

/// The limits are those that the server states under their names.
pub proof fn limits_are_those_stated(v: Val, l: Limits)
    requires
        v is Object,
    ensures
        session::read_limits(v) == Some(l) <==> {
            &&& states(v, "maxObjectsInGet"@, l.max_objects_in_get)
            &&& states(v, "maxObjectsInSet"@, l.max_objects_in_set)
            &&& states(v, "maxCallsInRequest"@, l.max_calls_in_request)
            &&& states(v, "maxConcurrentRequests"@, l.max_concurrent_requests)
            &&& states(v, "maxConcurrentUpload"@, l.max_concurrent_upload)
            &&& states(v, "maxSizeRequest"@, l.max_size_request)
            &&& states(v, "maxSizeUpload"@, l.max_size_upload)
        },
{
}

/// Whether mismatches say that a field leads to an origin.
pub open spec fn reports(list: Seq<MismatchVal>, origin: Seq<char>, field: Seq<char>) -> bool {
    exists|i: int|
        0 <= i < list.len() && (#[trigger] list[i]).session_origin == origin
            && list[i].fields.contains(field)
}

proof fn lemma_index_bounds(list: Seq<MismatchVal>, origin: Seq<char>)
    ensures
        0 <= session::origin_index(list, origin) <= list.len(),
        session::origin_index(list, origin) < list.len() ==> list[session::origin_index(
            list,
            origin,
        )].session_origin == origin,
    decreases list.len(),
{
    if list.len() > 0 && list[0].session_origin != origin {
        lemma_index_bounds(list.skip(1), origin);
    }
}

proof fn lemma_noted(
    list: Seq<MismatchVal>,
    field: Seq<char>,
    origin: Option<Seq<char>>,
    connect: Seq<char>,
    o: Seq<char>,
    f: Seq<char>,
)
    ensures
        reports(session::noted(list, field, origin, connect), o, f) <==> reports(list, o, f) || (f
            == field && origin == Some(o) && o != connect),
{
    let new = session::noted(list, field, origin, connect);
    if origin is Some && origin->0 != connect {
        let own = origin->0;
        lemma_index_bounds(list, own);
        let at = session::origin_index(list, own);
        if at < list.len() {
            assert(new[at].fields == list[at].fields.push(field));
            assert(new[at].fields[list[at].fields.len() as int] == field);
            if reports(list, o, f) {
                let i = choose|i: int|
                    0 <= i < list.len() && (#[trigger] list[i]).session_origin == o
                        && list[i].fields.contains(f);
                if i == at {
                    let k = choose|k: int| 0 <= k < list[at].fields.len() && list[at].fields[k] == f;
                    assert(new[at].fields[k] == f);
                } else {
                    assert(new[i] == list[i]);
                }
                assert(new[i].session_origin == o && new[i].fields.contains(f));
            }
            if reports(new, o, f) {
                let i = choose|i: int|
                    0 <= i < new.len() && (#[trigger] new[i]).session_origin == o
                        && new[i].fields.contains(f);
                if i == at {
                    let k = choose|k: int| 0 <= k < new[at].fields.len() && new[at].fields[k] == f;
                    if k < list[at].fields.len() {
                        assert(list[at].fields[k] == f);
                        assert(list[at].session_origin == o && list[at].fields.contains(f));
                    }
                } else {
                    assert(list[i].session_origin == o && list[i].fields.contains(f));
                }
            }
        } else {
            assert(new[list.len() as int].fields[0] == field);
            if reports(list, o, f) {
                let i = choose|i: int|
                    0 <= i < list.len() && (#[trigger] list[i]).session_origin == o
                        && list[i].fields.contains(f);
                assert(new[i].session_origin == o && new[i].fields.contains(f));
            }
            if reports(new, o, f) {
                let i = choose|i: int|
                    0 <= i < new.len() && (#[trigger] new[i]).session_origin == o
                        && new[i].fields.contains(f);
                if i < list.len() {
                    assert(list[i].session_origin == o && list[i].fields.contains(f));
                }
            }
        }
    }
}

/// A URL of a session is reported exactly where it leads to another origin than
/// the one that was connected to.
pub proof fn strange_origins_are_reported(
    api: Option<Seq<char>>,
    upload: Option<Seq<char>>,
    download: Option<Seq<char>>,
    connect: Seq<char>,
    o: Seq<char>,
)
    ensures
        reports(session::mismatches_of(api, upload, download, Some(connect)), o, "apiUrl"@) <==> api
            == Some(o) && o != connect,
        reports(session::mismatches_of(api, upload, download, Some(connect)), o, "uploadUrl"@)
            <==> upload == Some(o) && o != connect,
        reports(session::mismatches_of(api, upload, download, Some(connect)), o, "downloadUrl"@)
            <==> download == Some(o) && o != connect,
        session::mismatches_of(api, upload, download, None).len() == 0,
{
    reveal_strlit("apiUrl");
    reveal_strlit("uploadUrl");
    reveal_strlit("downloadUrl");
    assert("apiUrl"@.len() == 6);
    assert("uploadUrl"@.len() == 9);
    assert("downloadUrl"@.len() == 11);
    let none = Seq::<MismatchVal>::empty();
    let one = session::noted(none, "apiUrl"@, api, connect);
    let two = session::noted(one, "uploadUrl"@, upload, connect);
    lemma_noted(none, "apiUrl"@, api, connect, o, "apiUrl"@);
    lemma_noted(none, "apiUrl"@, api, connect, o, "uploadUrl"@);
    lemma_noted(none, "apiUrl"@, api, connect, o, "downloadUrl"@);
    lemma_noted(one, "uploadUrl"@, upload, connect, o, "apiUrl"@);
    lemma_noted(one, "uploadUrl"@, upload, connect, o, "uploadUrl"@);
    lemma_noted(one, "uploadUrl"@, upload, connect, o, "downloadUrl"@);
    lemma_noted(two, "downloadUrl"@, download, connect, o, "apiUrl"@);
    lemma_noted(two, "downloadUrl"@, download, connect, o, "uploadUrl"@);
    lemma_noted(two, "downloadUrl"@, download, connect, o, "downloadUrl"@);
}

/// Whether a text can stand before the colon of a URL.
pub open spec fn is_scheme(s: Seq<char>) -> bool {
    &&& s.len() > 0
    &&& text::is_alpha(s[0])
    &&& forall|i: int|
        0 <= i < s.len() ==> text::is_alpha(#[trigger] s[i]) || text::is_digit(s[i]) || s[i] == '+'
            || s[i] == '-' || s[i] == '.'
}

/// Whether a text has none of the characters that divide a URL.
pub open spec fn is_undivided(s: Seq<char>) -> bool {
    forall|i: int| 0 <= i < s.len() ==> #[trigger] s[i] != '/' && s[i] != '?' && s[i] != '#'
}

/// Whether a path ends with a slash and has neither a query nor a fragment.
pub open spec fn is_folder(s: Seq<char>) -> bool {
    &&& s.len() > 0
    &&& s[0] == '/'
    &&& s.last() == '/'
    &&& forall|i: int| 0 <= i < s.len() ==> #[trigger] s[i] != '?' && s[i] != '#'
}

proof fn lemma_scheme(scheme: Seq<char>, rest: Seq<char>, i: int)
    requires
        is_scheme(scheme),
        0 <= i <= scheme.len(),
    ensures
        session::scheme_from(scheme + seq![':'] + rest, i) == Some(scheme.len() as int),
    decreases scheme.len() - i,
{
    let s = scheme + seq![':'] + rest;
    if i < scheme.len() {
        assert(s[i] == scheme[i]);
        lemma_scheme(scheme, rest, i + 1);
    } else {
        assert(s[i] == ':');
    }
}

proof fn lemma_authority(a: Seq<char>, rest: Seq<char>)
    requires
        is_undivided(a),
        rest.len() == 0 || rest[0] == '/',
    ensures
        session::authority_len(a + rest) == a.len(),
    decreases a.len(),
{
    let s = a + rest;
    if a.len() > 0 {
        assert(s[0] == a[0]);
        assert(s.skip(1) =~= a.skip(1) + rest);
        assert forall|i: int| 0 <= i < a.skip(1).len() implies #[trigger] a.skip(1)[i] != '/'
            && a.skip(1)[i] != '?' && a.skip(1)[i] != '#' by {
            assert(a[i + 1] == a.skip(1)[i]);
        }
        lemma_authority(a.skip(1), rest);
    }
}

proof fn lemma_path(p: Seq<char>)
    requires
        forall|i: int| 0 <= i < p.len() ==> #[trigger] p[i] != '?' && p[i] != '#',
    ensures
        session::path_len(p) == p.len(),
    decreases p.len(),
{
    if p.len() > 0 {
        assert(p[0] != '?');
        assert forall|i: int| 0 <= i < p.skip(1).len() implies #[trigger] p.skip(1)[i] != '?'
            && p.skip(1)[i] != '#' by {
            assert(p[i + 1] == p.skip(1)[i]);
        }
        lemma_path(p.skip(1));
    }
}

proof fn lemma_last_slash(folder: Seq<char>, file: Seq<char>)
    requires
        folder.len() > 0,
        folder.last() == '/',
        is_undivided(file),
    ensures
        text::last_index(folder + file, '/') == folder.len() - 1,
    decreases file.len(),
{
    let s = folder + file;
    if file.len() == 0 {
        assert(s =~= folder);
    } else {
        assert(s.last() == file[file.len() - 1]);
        assert(s.drop_last() =~= folder + file.drop_last());
        assert forall|i: int| 0 <= i < file.drop_last().len() implies #[trigger] file.drop_last()[i]
            != '/' && file.drop_last()[i] != '?' && file.drop_last()[i] != '#' by {
            assert(file[i] == file.drop_last()[i]);
        }
        lemma_last_slash(folder, file.drop_last());
    }
}

/// A reference with a scheme of its own stands as it is, and an empty one is
/// the place itself. A path from the root is one of the same host; any other
/// reference is one of the folder that the place lies in.
pub proof fn references_lead_on_from_their_place(
    scheme: Seq<char>,
    host: Seq<char>,
    folder: Seq<char>,
    file: Seq<char>,
    reference: Seq<char>,
)
    requires
        is_scheme(scheme),
        is_undivided(host),
        is_folder(folder),
        is_undivided(file),
    ensures
        ({
            let root = scheme + "://"@ + host;
            let place = root + folder + file;
            &&& session::scheme_of(reference) is Some ==> session::resolved(place, reference)
                == reference
            &&& reference.len() == 0 ==> session::resolved(place, reference) == place
            &&& reference.len() > 0 && reference[0] == '/' && !(reference.len() > 1 && reference[1]
                == '/') ==> session::resolved(place, reference) == root + reference
            &&& reference.len() > 0 && reference[0] != '/' && session::scheme_of(reference) is None
                ==> session::resolved(place, reference) == root + folder + reference
        }),
{
    reveal_strlit("://");
    reveal_strlit("//");
    reveal_strlit("/");
    assert("://"@ =~= seq![':', '/', '/']);
    assert("//"@ =~= seq!['/', '/']);
    assert("/"@ =~= seq!['/']);
    let root = scheme + "://"@ + host;
    let place = root + folder + file;
    let tail = seq!['/', '/'] + host + folder + file;
    assert(place =~= scheme + seq![':'] + tail);
    lemma_scheme(scheme, tail, 0);
    assert(place[0] == scheme[0]);
    let k = scheme.len() as int;
    assert(session::scheme_of(place) == Some(k));
    assert(place.skip(k + 1) =~= tail);
    assert(tail.subrange(0, 2) =~= "//"@);
    assert(place.take(k + 1) + "//"@ =~= scheme + "://"@);
    let within = tail.skip(2);
    assert(within =~= host + (folder + file));
    lemma_authority(host, folder + file);
    assert(within.take(host.len() as int) =~= host);
    assert(within.skip(host.len() as int) =~= folder + file);
    let path = folder + file;
    assert forall|i: int| 0 <= i < path.len() implies #[trigger] path[i] != '?' && path[i]
        != '#' by {
        if i < folder.len() {
            assert(path[i] == folder[i]);
        } else {
            assert(path[i] == file[i - folder.len()]);
        }
    }
    lemma_path(path);
    assert(path.take(path.len() as int) =~= path);
    lemma_last_slash(folder, file);
    assert(path.take(folder.len() as int) =~= folder);
    if reference.len() > 0 {
        assert(text::has_prefix(reference, "/"@) <==> reference[0] == '/') by {
            assert(reference.subrange(0, 1)[0] == reference[0]);
            assert("/"@[0] == '/');
            if reference[0] == '/' {
                assert(reference.subrange(0, 1) =~= "/"@);
            }
        }
        if reference.len() > 1 {
            assert(reference.subrange(0, 2) =~= seq![reference[0], reference[1]]);
            assert(text::has_prefix(reference, "//"@) ==> reference[0] == '/' && reference[1] == '/')
            by {
                if text::has_prefix(reference, "//"@) {
                    assert(reference.subrange(0, 2)[0] == '/');
                    assert(reference.subrange(0, 2)[1] == '/');
                }
            }
        }
        if reference[0] == '/' {
            assert(session::scheme_of(reference) is None);
        }
    }
}

} // verus!

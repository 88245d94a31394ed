//! Blobs inside objects: their ids become local ids when an object is stored,
//! and data URIs when it is written out.

use crate::encoding;
use crate::encoding::Place;
use crate::exchange::jscalendar;
use crate::jmap::error::JmapError;
use crate::json;
use crate::json::{Json, Members, Val};
use crate::text;
use vstd::prelude::*;

verus! {

/// The member that stands for a stored blob.
pub const SENTINEL_KEY: &'static str = "@blob";

/// Which member holds the data URI.
#[derive(Clone, Copy, PartialEq, Eq, Structural, Debug)]
pub enum InlineShape {
    JsContactResource,
    JsCalendarLink,
}

/// The name of the member that holds the data URI.
pub open spec fn uri_name(shape: InlineShape) -> Seq<char> {
    match shape {
        InlineShape::JsContactResource => "uri"@,
        InlineShape::JsCalendarLink => "href"@,
    }
}

impl InlineShape {
    /// The name of the member that holds the data URI.
    pub fn uri_key(self) -> (r: &'static str)
        ensures
            r@ == uri_name(self),
    {
        match self {
            InlineShape::JsContactResource => "uri",
            InlineShape::JsCalendarLink => "href",
        }
    }
}

/// Why a walk over an object stopped.
#[derive(Debug)]
pub enum BlobWalkError {
    MalformedSentinel,
    Resolver(Box<JmapError>),
}

impl BlobWalkError {
    /// A walk that stopped because a blob could not be resolved.
    pub fn resolver(source: JmapError) -> (r: BlobWalkError)
        ensures
            r matches BlobWalkError::Resolver(b) && *b == source,
    {
        BlobWalkError::Resolver(Box::new(source))
    }

    /// The error that the resolver gave, or this one.
    pub fn into_source(self) -> (r: JmapError)
        ensures
            match self {
                BlobWalkError::Resolver(b) => r == *b,
                BlobWalkError::MalformedSentinel => r == JmapError::Blob(self),
            },
    {
        match self {
            BlobWalkError::Resolver(source) => *source,
            BlobWalkError::MalformedSentinel => JmapError::Blob(BlobWalkError::MalformedSentinel),
        }
    }
}

/// Gives blobs local ids.
pub trait BlobIntern {
    /// The local id of a blob, where it can be had.
    spec fn local_id(&self, blob_id: Seq<char>) -> Option<i64>;

    /// Whether a blob without a local id is answered with this error.
    spec fn refuses_with(&self, blob_id: Seq<char>, e: JmapError) -> bool;

    fn intern(&self, blob_id: &str) -> (r: Result<i64, JmapError>)
        ensures
            match r {
                Ok(n) => self.local_id(blob_id@) == Some(n),
                Err(e) => self.local_id(blob_id@) is None && self.refuses_with(blob_id@, e),
            },
    ;
}

/// Gives the bytes of stored blobs.
pub trait BlobBytes {
    /// The bytes of a blob, where they can be had.
    spec fn bytes_of(&self, local_id: i64) -> Option<Seq<u8>>;

    /// Whether a blob without bytes is answered with this error.
    spec fn fails_with(&self, local_id: i64, e: JmapError) -> bool;

    fn bytes(&self, local_id: i64) -> (r: Result<Vec<u8>, JmapError>)
        ensures
            match r {
                Ok(b) => self.bytes_of(local_id) == Some(b@),
                Err(e) => self.bytes_of(local_id) is None && self.fails_with(local_id, e),
            },
    ;
}

/// Blobs and their local ids, the later ones first in rank.
#[derive(Debug)]
pub struct BlobTable {
    pub entries: Vec<(String, i64)>,
}

/// The local id that the last entry for a blob gives.
pub open spec fn table_id(entries: Seq<(String, i64)>, blob_id: Seq<char>) -> Option<i64>
    decreases entries.len(),
{
    if entries.len() == 0 {
        None
    } else if entries.last().0@ == blob_id {
        Some(entries.last().1)
    } else {
        table_id(entries.drop_last(), blob_id)
    }
}

impl BlobIntern for BlobTable {
    open spec fn local_id(&self, blob_id: Seq<char>) -> Option<i64> {
        table_id(self.entries@, blob_id)
    }

    open spec fn refuses_with(&self, blob_id: Seq<char>, e: JmapError) -> bool {
        e matches JmapError::Malformed(m) && m@ == "unknown blob "@ + blob_id
    }

    fn intern(&self, blob_id: &str) -> (r: Result<i64, JmapError>) {
        let mut n: usize = self.entries.len();
        assert(self.entries@.take(n as int) =~= self.entries@);
        while n > 0
            invariant
                n <= self.entries@.len(),
                table_id(self.entries@.take(n as int), blob_id@) == self.local_id(blob_id@),
            decreases n,
        {
            proof {
                let taken = self.entries@.take(n as int);
                assert(taken.last() == self.entries@[n - 1]);
                assert(taken.drop_last() =~= self.entries@.take(n - 1));
            }
            if text::same(self.entries[n - 1].0.as_str(), blob_id) {
                return Ok(self.entries[n - 1].1);
            }
            n = n - 1;
        }
        Err(JmapError::Malformed(text::joined("unknown blob ", blob_id)))
    }
}

/// Blobs with their bytes, the later ones first in rank.
#[derive(Debug)]
pub struct BlobStore {
    pub entries: Vec<(i64, Vec<u8>)>,
}

/// The bytes that the last entry for a local id holds.
pub open spec fn stored_bytes(entries: Seq<(i64, Vec<u8>)>, local_id: i64) -> Option<Seq<u8>>
    decreases entries.len(),
{
    if entries.len() == 0 {
        None
    } else if entries.last().0 == local_id {
        Some(entries.last().1@)
    } else {
        stored_bytes(entries.drop_last(), local_id)
    }
}

impl BlobBytes for BlobStore {
    open spec fn bytes_of(&self, local_id: i64) -> Option<Seq<u8>> {
        stored_bytes(self.entries@, local_id)
    }

    open spec fn fails_with(&self, local_id: i64, e: JmapError) -> bool {
        e matches JmapError::Sqlite(m) && m@ == "no blob "@ + text::signed_dec(local_id as int)
    }

    fn bytes(&self, local_id: i64) -> (r: Result<Vec<u8>, JmapError>) {
        let mut n: usize = self.entries.len();
        assert(self.entries@.take(n as int) =~= self.entries@);
        while n > 0
            invariant
                n <= self.entries@.len(),
                stored_bytes(self.entries@.take(n as int), local_id) == self.bytes_of(local_id),
            decreases n,
        {
            proof {
                let taken = self.entries@.take(n as int);
                assert(taken.last() == self.entries@[n - 1]);
                assert(taken.drop_last() =~= self.entries@.take(n - 1));
            }
            if self.entries[n - 1].0 == local_id {
                let bytes: Vec<u8> = self.entries[n - 1].1.clone();
                assert(bytes@ =~= self.entries@[n - 1].1@);
                return Ok(bytes);
            }
            n = n - 1;
        }
        Err(JmapError::Sqlite(text::joined("no blob ", text::signed_decimal(local_id).as_str())))
    }
}

/// The blob id of an object, if it has one.
pub open spec fn blob_id_of(e: Members) -> Option<Seq<char>> {
    match json::lookup(e, "blobId"@) {
        Some(Val::Text(t)) => Some(t),
        _ => None,
    }
}

/// Whether a member is put in place or taken out together with a blob id, and
/// so not looked into.
pub open spec fn is_import_slot(e: Members, i: int) -> bool {
    i == json::position(e, "blobId"@) || (blob_id_of(e) is Some && i == json::position(
        e,
        "@blob"@,
    ))
}

/// Whether every blob id within a value has a local id.
pub open spec fn importable<R: BlobIntern>(v: Val, ids: &R) -> bool
    decreases v,
{
    match v {
        Val::Object(e) => {
            &&& (blob_id_of(e) matches Some(id) ==> ids.local_id(id) is Some)
            &&& forall|i: int|
                #![trigger e[i]]
                0 <= i < e.len() && !is_import_slot(e, i) ==> importable(e[i].1, ids)
        },
        Val::List(l) => forall|i: int| #![trigger l[i]] 0 <= i < l.len() ==> importable(l[i], ids),
        _ => true,
    }
}

/// Members with every blob id within their values replaced by its local id.
pub open spec fn imported_members<R: BlobIntern>(e: Members, ids: &R) -> Members
    decreases e,
{
    Seq::new(
        e.len(),
        |i: int|
            (
                e[i].0,
                if 0 <= i < e.len() && !is_import_slot(e, i) {
                    imported(e[i].1, ids)
                } else {
                    e[i].1
                },
            ),
    )
}

/// Items with every blob id within them replaced by its local id.
pub open spec fn imported_items<R: BlobIntern>(l: Seq<Val>, ids: &R) -> Seq<Val>
    decreases l,
{
    Seq::new(
        l.len(),
        |i: int|
            if 0 <= i < l.len() {
                imported(l[i], ids)
            } else {
                l[i]
            },
    )
}

/// A value with every blob id replaced by its local id.
pub open spec fn imported<R: BlobIntern>(v: Val, ids: &R) -> Val
    decreases v,
{
    match v {
        Val::Object(e) => {
            let inner = imported_members(e, ids);
            let rest = json::without_member(inner, "blobId"@);
            match blob_id_of(e) {
                Some(id) => Val::Object(
                    json::with_member(rest, "@blob"@, json::int_val(ids.local_id(id)->0)),
                ),
                None => Val::Object(rest),
            }
        },
        Val::List(l) => Val::List(imported_items(l, ids)),
        other => other,
    }
}

/// How many members are left once the one at a place is taken out, if there is
/// one.
pub open spec fn count_without(e: Members, at: int) -> int {
    if 0 <= at < e.len() {
        e.len() - 1
    } else {
        e.len() as int
    }
}

/// Which member stands at a place once the one at another is taken out: the
/// last one takes the place that became free.
pub open spec fn place_without(e: Members, at: int, i: int) -> int {
    if i == at {
        e.len() - 1
    } else {
        i
    }
}

/// The first blob id without a local id within the members that are left once
/// an object's own is taken out, from a place on.
pub open spec fn unknown_in_members<R: BlobIntern>(e: Members, ids: &R, i: nat) -> Option<Seq<char>>
    decreases e, e.len() - i,
{
    let at = json::position(e, "blobId"@);
    let k = place_without(e, at, i as int);
    if i >= count_without(e, at) || !(0 <= k < e.len()) {
        None
    } else if !is_import_slot(e, k) && first_unknown(e[k].1, ids) is Some {
        first_unknown(e[k].1, ids)
    } else {
        unknown_in_members(e, ids, i + 1)
    }
}

/// The first blob id without a local id within items, from a place on.
pub open spec fn unknown_in_items<R: BlobIntern>(l: Seq<Val>, ids: &R, i: nat) -> Option<Seq<char>>
    decreases l, l.len() - i,
{
    if i >= l.len() {
        None
    } else if first_unknown(l[i as int], ids) is Some {
        first_unknown(l[i as int], ids)
    } else {
        unknown_in_items(l, ids, i + 1)
    }
}

/// The first blob id within a value that has no local id: an object's own comes
/// before those within the other members, and these come in their order.
pub open spec fn first_unknown<R: BlobIntern>(v: Val, ids: &R) -> Option<Seq<char>>
    decreases v, 0nat,
{
    match v {
        Val::Object(e) => if (blob_id_of(e) matches Some(id) && ids.local_id(id) is None) {
            blob_id_of(e)
        } else {
            unknown_in_members(e, ids, 0)
        },
        Val::List(l) => unknown_in_items(l, ids, 0),
        _ => None,
    }
}

/// Whether a walk stopped because of the first blob id within a value that has
/// no local id.
pub open spec fn is_import_refusal<R: BlobIntern>(e: BlobWalkError, v: Val, ids: &R) -> bool {
    e matches BlobWalkError::Resolver(source) && first_unknown(v, ids) matches Some(id)
        && ids.refuses_with(id, *source)
}

/// Replaces every blob id within a value by its local id.
pub fn import_blob_ids<R: BlobIntern>(value: &Json, ids: &R) -> (r: Result<Json, BlobWalkError>)
    ensures
        match r {
            Ok(v) => importable(value@, ids) && first_unknown(value@, ids) is None && v@
                == imported(value@, ids),
            Err(e) => !importable(value@, ids) && is_import_refusal(e, value@, ids),
        },
    decreases value,
{
    match value {
        Json::Object(e) => {
            let ghost members = json::members_view(e@);
            let at: usize = json::find_member(e, "blobId");
            let sentinel_at: usize = json::find_member(e, SENTINEL_KEY);
            let mut local: Option<i64> = None;
            if at < e.len() {
                if let Json::Text(id) = &e[at].1 {
                    match ids.intern(id.as_str()) {
                        Ok(n) => {
                            local = Some(n);
                        },
                        Err(err) => {
                            assert(blob_id_of(members) == Some(id@));
                            return Err(BlobWalkError::resolver(err));
                        },
                    }
                }
            }
            assert(local is Some <==> blob_id_of(members) is Some);
            assert(blob_id_of(members) matches Some(id) ==> ids.local_id(id) == local);
            let n: usize = e.len();
            let count: usize = if at < n {
                n - 1
            } else {
                n
            };
            let mut out: Vec<(String, Json)> = Vec::new();
            let mut i: usize = 0;
            while i < count
                invariant
                    value == Json::Object(*e),
                    n == e@.len(),
                    i <= count <= n,
                    count == count_without(members, at as int),
                    members == json::members_view(e@),
                    members.len() == n,
                    at == json::position(members, "blobId"@),
                    sentinel_at == json::position(members, "@blob"@),
                    local is Some <==> blob_id_of(members) is Some,
                    blob_id_of(members) matches Some(id) ==> ids.local_id(id) is Some,
                    first_unknown(value@, ids) == unknown_in_members(members, ids, i as nat),
                    out@.len() == i,
                    forall|k: int|
                        0 <= k < i ==> {
                            let from = place_without(members, at as int, k);
                            (#[trigger] out@[k]).0@ == members[from].0 && out@[k].1@ == (
                            if is_import_slot(members, from) {
                                members[from].1
                            } else {
                                imported(members[from].1, ids)
                            })
                        },
                    forall|k: int|
                        #![trigger place_without(members, at as int, k)]
                        0 <= k < i && !is_import_slot(members, place_without(members, at as int, k))
                            ==> importable(members[place_without(members, at as int, k)].1, ids),
                decreases count - i,
            {
                let from: usize = if i == at {
                    n - 1
                } else {
                    i
                };
                proof {
                    assert(from == place_without(members, at as int, i as int));
                    assert(decreases_to!(*value => value->Object_0));
                    assert(decreases_to!(*e => e@));
                    assert(decreases_to!(e@ => e@[from as int]));
                    assert(decreases_to!(e@[from as int] => e@[from as int].1));
                    assert(members[from as int] == (e@[from as int].0@, e@[from as int].1@));
                }
                if local.is_some() && from == sentinel_at {
                    out.push((e[from].0.clone(), e[from].1.dup()));
                } else {
                    match import_blob_ids(&e[from].1, ids) {
                        Ok(v) => {
                            out.push((e[from].0.clone(), v));
                        },
                        Err(err) => {
                            return Err(err);
                        },
                    }
                }
                i = i + 1;
            }
            proof {
                let inner = imported_members(members, ids);
                lemma_same_names(members, inner, "blobId"@);
                assert(json::members_view(out@) =~= json::without_member(inner, "blobId"@));
                assert forall|j: int|
                    #![trigger members[j]]
                    0 <= j < members.len() && !is_import_slot(members, j) implies importable(
                    members[j].1,
                    ids,
                ) by {
                    let k = if j == n - 1 && at < n {
                        at as int
                    } else {
                        j
                    };
                    assert(place_without(members, at as int, k) == j);
                }
            }
            if let Some(n) = local {
                json::set_member(&mut out, SENTINEL_KEY, json::int_json(n));
            }
            assert(importable(value@, ids));
            assert(Val::Object(json::members_view(out@)) == imported(value@, ids));
            Ok(Json::Object(out))
        },
        Json::List(l) => {
            let ghost items = json::list_view(l@);
            let mut out: Vec<Json> = Vec::new();
            let mut i: usize = 0;
            while i < l.len()
                invariant
                    value == Json::List(*l),
                    i <= l@.len(),
                    items == json::list_view(l@),
                    first_unknown(value@, ids) == unknown_in_items(items, ids, i as nat),
                    out@.len() == i,
                    forall|k: int|
                        0 <= k < i ==> (#[trigger] out@[k])@ == imported(items[k], ids),
                    forall|k: int| 0 <= k < i ==> importable(#[trigger] items[k], ids),
                decreases l@.len() - i,
            {
                proof {
                    assert(decreases_to!(*value => value->List_0));
                    assert(decreases_to!(*l => l@));
                    assert(decreases_to!(l@ => l@[i as int]));
                    assert(items[i as int] == l@[i as int]@);
                }
                match import_blob_ids(&l[i], ids) {
                    Ok(v) => {
                        out.push(v);
                    },
                    Err(err) => {
                        return Err(err);
                    },
                }
                i = i + 1;
            }
            proof {
                assert(json::list_view(out@) =~= imported_items(items, ids));
            }
            Ok(Json::List(out))
        },
        _ => Ok(value.dup()),
    }
}

/// The parts of a media type, trimmed.
pub open spec fn media_parts(raw: Seq<char>) -> Seq<Seq<char>> {
    let parts = text::split_by(raw, ';');
    Seq::new(parts.len(), |i: int| text::trimmed(parts[i]))
}

/// Whether a text is a type and a subtype.
pub open spec fn is_essence(s: Seq<char>) -> bool {
    let i = text::first_index(s, '/');
    0 < i < s.len() - 1 && !s.skip(i + 1).contains('/')
}

/// The parameters of a media type, escaped, without the empty ones.
pub open spec fn parameters(parts: Seq<Seq<char>>) -> Seq<char>
    decreases parts.len(),
{
    if parts.len() == 0 {
        Seq::empty()
    } else if parts.last().len() == 0 {
        parameters(parts.drop_last())
    } else {
        parameters(parts.drop_last()) + ";"@ + encoding::escaped_text(
            parts.last(),
            Place::MediaType,
        )
    }
}

/// A media type as a data URI holds it, if it is one.
pub open spec fn media_type(raw: Seq<char>) -> Option<Seq<char>> {
    let parts = media_parts(raw);
    if is_essence(parts[0]) {
        Some(encoding::escaped_text(parts[0], Place::MediaType) + parameters(parts.skip(1)))
    } else {
        None
    }
}

/// Writes a media type as a data URI holds it.
pub fn uri_media_type(raw: &str) -> (r: Option<String>)
    ensures
        json::text_view(r) == media_type(raw@),
{
    let pieces: Vec<String> = text::split(raw, ';');
    let ghost parts = media_parts(raw@);
    assert(parts.len() == pieces@.len()) by {
        assert(text::texts(pieces@).len() == pieces@.len());
    }
    assert(text::texts(pieces@)[0] == pieces@[0]@);
    let essence: String = text::trim(pieces[0].as_str());
    let v: Vec<char> = text::chars_of(essence.as_str());
    let n: usize = v.len();
    let slash: usize = text::find_char(&v, '/');
    if slash == 0 || slash >= n || slash + 1 == n {
        return None;
    }
    let subtype: String = text::string_of(&v, slash + 1, n);
    assert(subtype@ =~= parts[0].skip(slash as int + 1));
    if text::contains_char(subtype.as_str(), '/') {
        return None;
    }
    let mut out: String = encoding::escape(essence.as_str(), Place::MediaType);
    let ghost head = out@;
    let mut i: usize = 1;
    proof {
        assert(parts.skip(1).take(0) =~= Seq::empty());
        assert(out@ =~= head + parameters(parts.skip(1).take(0)));
    }
    while i < pieces.len()
        invariant
            1 <= i <= pieces@.len(),
            parts == media_parts(raw@),
            text::texts(pieces@) == text::split_by(raw@, ';'),
            parts.len() == pieces@.len(),
            out@ == head + parameters(parts.skip(1).take(i - 1)),
        decreases pieces@.len() - i,
    {
        assert(text::texts(pieces@)[i as int] == pieces@[i as int]@);
        let parameter: String = text::trim(pieces[i].as_str());
        proof {
            let t = parts.skip(1).take(i as int);
            assert(t.drop_last() =~= parts.skip(1).take(i - 1));
            assert(t.last() == parameter@);
        }
        let chars: Vec<char> = text::chars_of(parameter.as_str());
        if chars.len() > 0 {
            let ghost before = out@;
            out.append(";");
            let written: String = encoding::escape(parameter.as_str(), Place::MediaType);
            out.append(written.as_str());
            assert(out@ =~= head + (parameters(parts.skip(1).take(i - 1)) + ";"@
                + encoding::escaped_text(parameter@, Place::MediaType)));
        }
        i = i + 1;
    }
    assert(parts.skip(1).take(i - 1) =~= parts.skip(1));
    Some(out)
}

/// The media type of an object, from the first of its two members that holds
/// one.
pub open spec fn object_media_type(e: Members) -> Seq<char> {
    match member_media_type(e, "mediaType"@) {
        Some(t) => t,
        None => match member_media_type(e, "contentType"@) {
            Some(t) => t,
            None => "application/octet-stream"@,
        },
    }
}

/// The media type that a member holds.
pub open spec fn member_media_type(e: Members, key: Seq<char>) -> Option<Seq<char>> {
    match json::lookup(e, key) {
        Some(Val::Text(t)) => media_type(t),
        _ => None,
    }
}

/// The data URI of a blob that an object stands for.
pub open spec fn uri_of(e: Members, bytes: Seq<u8>) -> Seq<char> {
    "data:"@ + object_media_type(e) + ";base64,"@ + encoding::base64_text(bytes)
}

fn media_type_at(e: &Vec<(String, Json)>, key: &str) -> (r: Option<String>)
    ensures
        json::text_view(r) == member_media_type(json::members_view(e@), key@),
{
    let i: usize = json::find_member(e, key);
    if i < e.len() {
        if let Json::Text(t) = &e[i].1 {
            return uri_media_type(t.as_str());
        }
    }
    None
}

/// Writes the data URI of a blob that an object stands for.
pub fn data_uri(e: &Vec<(String, Json)>, bytes: &[u8]) -> (r: String)
    ensures
        r@ == uri_of(json::members_view(e@), bytes@),
{
    let kind: String = match media_type_at(e, "mediaType") {
        Some(t) => t,
        None => match media_type_at(e, "contentType") {
            Some(t) => t,
            None => "application/octet-stream".to_owned(),
        },
    };
    let mut uri: String = text::joined("data:", kind.as_str());
    uri.append(";base64,");
    uri.append(encoding::encode_base64(bytes).as_str());
    uri
}

/// Whether a member is put in place or taken out together with a sentinel, and
/// so not looked into.
pub open spec fn is_inline_slot(e: Members, shape: InlineShape, i: int) -> bool {
    json::lookup(e, "@blob"@) is Some && (i == json::position(e, "@blob"@) || i == json::position(
        e,
        uri_name(shape),
    ))
}

/// Whether a value holds a sentinel that is no local id.
pub open spec fn has_malformed_sentinel(v: Val, shape: InlineShape) -> bool
    decreases v,
{
    match v {
        Val::Object(e) => {
            ||| (json::lookup(e, "@blob"@) matches Some(s) && s.as_i64() is None)
            ||| exists|i: int|
                #![trigger e[i]]
                0 <= i < e.len() && !is_inline_slot(e, shape, i) && has_malformed_sentinel(
                    e[i].1,
                    shape,
                )
        },
        Val::List(l) => exists|i: int|
            #![trigger l[i]]
            0 <= i < l.len() && has_malformed_sentinel(l[i], shape),
        _ => false,
    }
}

/// Whether a value holds a local id without bytes.
pub open spec fn has_missing_bytes<R: BlobBytes>(v: Val, shape: InlineShape, blobs: &R) -> bool
    decreases v,
{
    match v {
        Val::Object(e) => {
            ||| (json::lookup(e, "@blob"@) matches Some(s) && s.as_i64() matches Some(n)
                && blobs.bytes_of(n) is None)
            ||| exists|i: int|
                #![trigger e[i]]
                0 <= i < e.len() && !is_inline_slot(e, shape, i) && has_missing_bytes(
                    e[i].1,
                    shape,
                    blobs,
                )
        },
        Val::List(l) => exists|i: int|
            #![trigger l[i]]
            0 <= i < l.len() && has_missing_bytes(l[i], shape, blobs),
        _ => false,
    }
}

/// Members with every sentinel within their values replaced by the data URI of
/// its blob.
pub open spec fn inlined_members<R: BlobBytes>(
    e: Members,
    shape: InlineShape,
    blobs: &R,
) -> Members
    decreases e,
{
    Seq::new(
        e.len(),
        |i: int|
            (
                e[i].0,
                if 0 <= i < e.len() && !is_inline_slot(e, shape, i) {
                    inlined(e[i].1, shape, blobs)
                } else {
                    e[i].1
                },
            ),
    )
}

/// Items with every sentinel within them replaced by the data URI of its blob.
pub open spec fn inlined_items<R: BlobBytes>(
    l: Seq<Val>,
    shape: InlineShape,
    blobs: &R,
) -> Seq<Val>
    decreases l,
{
    Seq::new(
        l.len(),
        |i: int|
            if 0 <= i < l.len() {
                inlined(l[i], shape, blobs)
            } else {
                l[i]
            },
    )
}

/// A value with every sentinel replaced by the data URI of its blob.
pub open spec fn inlined<R: BlobBytes>(v: Val, shape: InlineShape, blobs: &R) -> Val
    decreases v,
{
    match v {
        Val::Object(e) => {
            let inner = inlined_members(e, shape, blobs);
            match json::lookup(e, "@blob"@) {
                Some(s) => {
                    let uri = uri_of(
                        json::without_member(e, "@blob"@),
                        blobs.bytes_of(s.as_i64()->0)->0,
                    );
                    Val::Object(
                        json::with_member(
                            json::without_member(inner, "@blob"@),
                            uri_name(shape),
                            Val::Text(uri),
                        ),
                    )
                },
                None => Val::Object(inner),
            }
        },
        Val::List(l) => Val::List(inlined_items(l, shape, blobs)),
        other => other,
    }
}

/// Why a sentinel cannot be replaced: it is no local id, or the blob with that
/// id has no bytes.
pub enum SentinelFault {
    Malformed,
    Missing(i64),
}

/// What is wrong with an object's own sentinel.
pub open spec fn own_fault<R: BlobBytes>(e: Members, blobs: &R) -> Option<SentinelFault> {
    match json::lookup(e, "@blob"@) {
        Some(s) => match s.as_i64() {
            None => Some(SentinelFault::Malformed),
            Some(n) => if blobs.bytes_of(n) is None {
                Some(SentinelFault::Missing(n))
            } else {
                None
            },
        },
        None => None,
    }
}

/// Where an object's own sentinel stands; the number of members if it has none.
pub open spec fn sentinel_place(e: Members) -> int {
    json::position(e, "@blob"@)
}

/// The first fault within the members that are left once an object's own
/// sentinel is taken out, from a place on.
pub open spec fn fault_in_members<R: BlobBytes>(
    e: Members,
    shape: InlineShape,
    blobs: &R,
    i: nat,
) -> Option<SentinelFault>
    decreases e, e.len() - i,
{
    let at = sentinel_place(e);
    let k = place_without(e, at, i as int);
    if i >= count_without(e, at) || !(0 <= k < e.len()) {
        None
    } else if !is_inline_slot(e, shape, k) && first_fault(e[k].1, shape, blobs) is Some {
        first_fault(e[k].1, shape, blobs)
    } else {
        fault_in_members(e, shape, blobs, i + 1)
    }
}

/// The first fault within items, from a place on.
pub open spec fn fault_in_items<R: BlobBytes>(
    l: Seq<Val>,
    shape: InlineShape,
    blobs: &R,
    i: nat,
) -> Option<SentinelFault>
    decreases l, l.len() - i,
{
    if i >= l.len() {
        None
    } else if first_fault(l[i as int], shape, blobs) is Some {
        first_fault(l[i as int], shape, blobs)
    } else {
        fault_in_items(l, shape, blobs, i + 1)
    }
}

/// The first fault within a value: that of an object's own sentinel comes before
/// those within the other members, and these come in their order.
pub open spec fn first_fault<R: BlobBytes>(v: Val, shape: InlineShape, blobs: &R) -> Option<
    SentinelFault,
>
    decreases v, 0nat,
{
    match v {
        Val::Object(e) => if own_fault(e, blobs) is Some {
            own_fault(e, blobs)
        } else {
            fault_in_members(e, shape, blobs, 0)
        },
        Val::List(l) => fault_in_items(l, shape, blobs, 0),
        _ => None,
    }
}

/// Whether a walk stopped because of the first fault within a value.
pub open spec fn is_inline_failure<R: BlobBytes>(
    e: BlobWalkError,
    v: Val,
    shape: InlineShape,
    blobs: &R,
) -> bool {
    match first_fault(v, shape, blobs) {
        Some(SentinelFault::Malformed) => e == BlobWalkError::MalformedSentinel,
        Some(SentinelFault::Missing(n)) => e matches BlobWalkError::Resolver(source)
            && blobs.fails_with(n, *source),
        None => false,
    }
}

/// Replaces every sentinel within a value by the data URI of its blob.
pub fn inline_blob_data_uris<R: BlobBytes>(
    value: &Json,
    shape: InlineShape,
    blobs: &R,
) -> (r: Result<Json, BlobWalkError>)
    ensures
        match r {
            Ok(v) => {
                &&& !has_malformed_sentinel(value@, shape)
                &&& !has_missing_bytes(value@, shape, blobs)
                &&& first_fault(value@, shape, blobs) is None
                &&& v@ == inlined(value@, shape, blobs)
            },
            Err(e) => {
                &&& has_malformed_sentinel(value@, shape) || has_missing_bytes(value@, shape, blobs)
                &&& is_inline_failure(e, value@, shape, blobs)
            },
        },
    decreases value,
{
    match value {
        Json::Object(e) => {
            let ghost members = json::members_view(e@);
            let key: &'static str = shape.uri_key();
            let at: usize = json::find_member(e, SENTINEL_KEY);
            let uri_at: usize = json::find_member(e, key);
            let mut uri: Option<String> = None;
            if at < e.len() {
                match e[at].1.as_i64() {
                    Some(n) => match blobs.bytes(n) {
                        Ok(bytes) => {
                            let mut rest: Vec<(String, Json)> = json::copied(e);
                            let _ = json::remove_member(&mut rest, SENTINEL_KEY);
                            uri = Some(data_uri(&rest, bytes.as_slice()));
                        },
                        Err(err) => {
                            return Err(BlobWalkError::resolver(err));
                        },
                    },
                    None => {
                        return Err(BlobWalkError::MalformedSentinel);
                    },
                }
            }
            let n: usize = e.len();
            let count: usize = if at < n {
                n - 1
            } else {
                n
            };
            let mut out: Vec<(String, Json)> = Vec::new();
            let mut i: usize = 0;
            while i < count
                invariant
                    value == Json::Object(*e),
                    n == e@.len(),
                    i <= count <= n,
                    count == count_without(members, at as int),
                    members == json::members_view(e@),
                    members.len() == n,
                    at == json::position(members, "@blob"@),
                    uri_at == json::position(members, uri_name(shape)),
                    uri is Some <==> json::lookup(members, "@blob"@) is Some,
                    uri is Some <==> at < n,
                    own_fault(members, blobs) is None,
                    first_fault(value@, shape, blobs) == fault_in_members(
                        members,
                        shape,
                        blobs,
                        i as nat,
                    ),
                    out@.len() == i,
                    forall|k: int|
                        0 <= k < i ==> {
                            let from = place_without(members, at as int, k);
                            (#[trigger] out@[k]).0@ == members[from].0 && out@[k].1@ == (
                            if is_inline_slot(members, shape, from) {
                                members[from].1
                            } else {
                                inlined(members[from].1, shape, blobs)
                            })
                        },
                    forall|k: int|
                        #![trigger place_without(members, at as int, k)]
                        0 <= k < i && !is_inline_slot(
                            members,
                            shape,
                            place_without(members, at as int, k),
                        ) ==> !has_malformed_sentinel(
                            members[place_without(members, at as int, k)].1,
                            shape,
                        ) && !has_missing_bytes(
                            members[place_without(members, at as int, k)].1,
                            shape,
                            blobs,
                        ),
                decreases count - i,
            {
                let from: usize = if i == at {
                    n - 1
                } else {
                    i
                };
                proof {
                    assert(from == place_without(members, at as int, i as int));
                    assert(decreases_to!(*value => value->Object_0));
                    assert(decreases_to!(*e => e@));
                    assert(decreases_to!(e@ => e@[from as int]));
                    assert(decreases_to!(e@[from as int] => e@[from as int].1));
                    assert(members[from as int] == (e@[from as int].0@, e@[from as int].1@));
                }
                if uri.is_some() && from == uri_at {
                    out.push((e[from].0.clone(), e[from].1.dup()));
                } else {
                    match inline_blob_data_uris(&e[from].1, shape, blobs) {
                        Ok(v) => {
                            out.push((e[from].0.clone(), v));
                        },
                        Err(err) => {
                            return Err(err);
                        },
                    }
                }
                i = i + 1;
            }
            proof {
                let inner = inlined_members(members, shape, blobs);
                lemma_same_names(members, inner, "@blob"@);
                if uri is Some {
                    assert(json::members_view(out@) =~= json::without_member(inner, "@blob"@));
                } else {
                    assert(json::members_view(out@) =~= inner);
                }
                assert forall|j: int|
                    #![trigger members[j]]
                    0 <= j < members.len() && !is_inline_slot(members, shape, j) implies
                    !has_malformed_sentinel(members[j].1, shape) && !has_missing_bytes(
                    members[j].1,
                    shape,
                    blobs,
                ) by {
                    let k = if j == n - 1 && at < n {
                        at as int
                    } else {
                        j
                    };
                    assert(place_without(members, at as int, k) == j);
                }
            }
            if let Some(u) = uri {
                json::set_member(&mut out, key, Json::Text(u));
            }
            Ok(Json::Object(out))
        },
        Json::List(l) => {
            let ghost items = json::list_view(l@);
            let mut out: Vec<Json> = Vec::new();
            let mut i: usize = 0;
            while i < l.len()
                invariant
                    value == Json::List(*l),
                    i <= l@.len(),
                    items == json::list_view(l@),
                    first_fault(value@, shape, blobs) == fault_in_items(
                        items,
                        shape,
                        blobs,
                        i as nat,
                    ),
                    out@.len() == i,
                    forall|k: int|
                        0 <= k < i ==> (#[trigger] out@[k])@ == inlined(items[k], shape, blobs),
                    forall|k: int|
                        0 <= k < i ==> !has_malformed_sentinel(#[trigger] items[k], shape)
                            && !has_missing_bytes(items[k], shape, blobs),
                decreases l@.len() - i,
            {
                proof {
                    assert(decreases_to!(*value => value->List_0));
                    assert(decreases_to!(*l => l@));
                    assert(decreases_to!(l@ => l@[i as int]));
                    assert(items[i as int] == l@[i as int]@);
                }
                match inline_blob_data_uris(&l[i], shape, blobs) {
                    Ok(v) => {
                        out.push(v);
                    },
                    Err(err) => {
                        return Err(err);
                    },
                }
                i = i + 1;
            }
            proof {
                assert(json::list_view(out@) =~= inlined_items(items, shape, blobs));
            }
            Ok(Json::List(out))
        },
        _ => Ok(value.dup()),
    }
}

/// Whether a value holds no sentinel anywhere.
pub open spec fn has_no_sentinel(v: Val) -> bool
    decreases v,
{
    match v {
        Val::Object(e) => {
            &&& forall|i: int| 0 <= i < e.len() ==> (#[trigger] e[i]).0 != "@blob"@
            &&& forall|i: int| #![trigger e[i]] 0 <= i < e.len() ==> has_no_sentinel(e[i].1)
        },
        Val::List(l) => forall|i: int| #![trigger l[i]] 0 <= i < l.len() ==> has_no_sentinel(l[i]),
        _ => true,
    }
}

/// A value without sentinels is written out as it is, and no blob is fetched
/// for it.
pub proof fn values_without_sentinels_are_untouched<R: BlobBytes>(
    v: Val,
    shape: InlineShape,
    blobs: &R,
)
    requires
        has_no_sentinel(v),
    ensures
        inlined(v, shape, blobs) == v,
        !has_malformed_sentinel(v, shape),
        !has_missing_bytes(v, shape, blobs),
    decreases v,
{
    match v {
        Val::Object(e) => {
            json::lemma_position(e, "@blob"@, e.len() as int);
            assert forall|i: int| 0 <= i < e.len() implies inlined(e[i].1, shape, blobs)
                == #[trigger] e[i].1 && !has_malformed_sentinel(e[i].1, shape)
                && !has_missing_bytes(e[i].1, shape, blobs) by {
                assert(has_no_sentinel(e[i].1));
                values_without_sentinels_are_untouched(e[i].1, shape, blobs);
            }
            assert(inlined_members(e, shape, blobs) =~= e);
        },
        Val::List(l) => {
            assert forall|i: int| 0 <= i < l.len() implies inlined(#[trigger] l[i], shape, blobs)
                == l[i] && !has_malformed_sentinel(l[i], shape) && !has_missing_bytes(
                l[i],
                shape,
                blobs,
            ) by {
                values_without_sentinels_are_untouched(l[i], shape, blobs);
            }
            assert(inlined_items(l, shape, blobs) =~= l);
        },
        _ => {},
    }
}

/// Whether the members of every object within a value have different names.
pub open spec fn is_proper(v: Val) -> bool
    decreases v,
{
    match v {
        Val::Object(e) => {
            &&& forall|i: int, j: int|
                0 <= i < j < e.len() ==> (#[trigger] e[i]).0 != (#[trigger] e[j]).0
            &&& forall|i: int| #![trigger e[i]] 0 <= i < e.len() ==> is_proper(e[i].1)
        },
        Val::List(l) => forall|i: int| #![trigger l[i]] 0 <= i < l.len() ==> is_proper(l[i]),
        _ => true,
    }
}

/// Whether no object within a value has a member of the given name.
pub open spec fn is_free_of(v: Val, key: Seq<char>) -> bool
    decreases v,
{
    match v {
        Val::Object(e) => {
            &&& forall|i: int| 0 <= i < e.len() ==> (#[trigger] e[i]).0 != key
            &&& forall|i: int| #![trigger e[i]] 0 <= i < e.len() ==> is_free_of(e[i].1, key)
        },
        Val::List(l) => forall|i: int| #![trigger l[i]] 0 <= i < l.len() ==> is_free_of(l[i], key),
        _ => true,
    }
}

proof fn lemma_position_bounds(e: Members, key: Seq<char>)
    ensures
        0 <= json::position(e, key) <= e.len(),
        forall|k: int| 0 <= k < json::position(e, key) ==> (#[trigger] e[k]).0 != key,
        json::position(e, key) < e.len() ==> e[json::position(e, key)].0 == key,
        (json::lookup(e, key) is Some) == (json::position(e, key) < e.len()),
        json::lookup(e, key) matches Some(v) ==> v == e[json::position(e, key)].1,
    decreases e.len(),
{
    if e.len() > 0 && e[0].0 != key {
        let d = e.drop_first();
        lemma_position_bounds(d, key);
        assert forall|k: int| 0 <= k < json::position(e, key) implies (#[trigger] e[k]).0 != key by {
            if k > 0 {
                assert(d[k - 1] == e[k]);
            }
        }
    }
}

proof fn lemma_same_names(a: Members, b: Members, key: Seq<char>)
    requires
        a.len() == b.len(),
        forall|i: int| 0 <= i < a.len() ==> (#[trigger] a[i]).0 == b[i].0,
    ensures
        json::position(a, key) == json::position(b, key),
{
    lemma_position_bounds(b, key);
    let i = json::position(b, key);
    assert forall|k: int| 0 <= k < i implies (#[trigger] a[k]).0 != key by {
        assert(b[k].0 != key);
    }
    json::lemma_position(a, key, i);
}

/// A value without blob ids is taken in as it is, and no blob is asked for.
pub proof fn values_without_blob_ids_are_untouched<R: BlobIntern>(v: Val, ids: &R)
    requires
        is_free_of(v, "blobId"@),
    ensures
        importable(v, ids),
        imported(v, ids) == v,
    decreases v,
{
    match v {
        Val::Object(e) => {
            json::lemma_position(e, "blobId"@, e.len() as int);
            assert forall|i: int| 0 <= i < e.len() implies importable(e[i].1, ids) && imported(
                e[i].1,
                ids,
            ) == #[trigger] e[i].1 by {
                assert(is_free_of(e[i].1, "blobId"@));
                values_without_blob_ids_are_untouched(e[i].1, ids);
            }
            assert(imported_members(e, ids) =~= e);
        },
        Val::List(l) => {
            assert forall|i: int| 0 <= i < l.len() implies importable(l[i], ids) && imported(
                #[trigger] l[i],
                ids,
            ) == l[i] by {
                values_without_blob_ids_are_untouched(l[i], ids);
            }
            assert(imported_items(l, ids) =~= l);
        },
        _ => {},
    }
}

/// Once blob ids were replaced, no object within a value has one.
pub proof fn no_blob_id_survives_an_import<R: BlobIntern>(v: Val, ids: &R)
    requires
        is_proper(v),
    ensures
        is_free_of(imported(v, ids), "blobId"@),
    decreases v,
{
    reveal_strlit("blobId");
    reveal_strlit("@blob");
    match v {
        Val::Object(e) => {
            let inner = imported_members(e, ids);
            lemma_same_names(inner, e, "blobId"@);
            lemma_position_bounds(e, "blobId"@);
            lemma_position_bounds(e, "@blob"@);
            let rest = json::without_member(inner, "blobId"@);
            let at = json::position(e, "blobId"@);
            assert forall|i: int| 0 <= i < rest.len() implies (#[trigger] rest[i]).0 != "blobId"@
                && (exists|k: int|
                0 <= k < e.len() && k != at && #[trigger] inner[k] == rest[i]) by {
                if at < e.len() {
                    if i == at {
                        assert(rest[i] == inner[e.len() - 1]);
                        assert(e[at].0 != e[e.len() - 1].0);
                    } else {
                        assert(rest[i] == inner[i]);
                        if i < at {
                            assert(e[i].0 != e[at].0);
                        } else {
                            assert(e[at].0 != e[i].0);
                        }
                    }
                } else {
                    assert(rest[i] == inner[i]);
                    assert(e[i].0 != "blobId"@);
                }
            }
            let result = imported(v, ids)->Object_0;
            lemma_position_bounds(rest, "@blob"@);
            assert("@blob"@.len() != "blobId"@.len());
            assert forall|i: int| 0 <= i < result.len() implies (#[trigger] result[i]).0
                != "blobId"@ && is_free_of(result[i].1, "blobId"@) by {
                let slot = json::position(rest, "@blob"@);
                if blob_id_of(e) is Some && i == slot {
                } else {
                    assert(result[i] == rest[i]);
                    let k = choose|k: int|
                        0 <= k < e.len() && k != at && #[trigger] inner[k] == rest[i];
                    if is_import_slot(e, k) {
                        assert(rest[i].0 == "@blob"@);
                        assert(slot <= i);
                        assert(slot < rest.len());
                        let k2 = choose|k2: int|
                            0 <= k2 < e.len() && k2 != at && #[trigger] inner[k2] == rest[slot];
                        assert(e[k2].0 == "@blob"@ && e[k].0 == "@blob"@);
                        assert(k2 == k);
                        assert(slot != i);
                        lemma_distinct_rest(e, inner, rest, at, slot, i);
                    } else {
                        no_blob_id_survives_an_import(e[k].1, ids);
                    }
                }
            }
        },
        Val::List(l) => {
            let result = imported(v, ids)->List_0;
            assert forall|i: int| 0 <= i < result.len() implies is_free_of(
                #[trigger] result[i],
                "blobId"@,
            ) by {
                no_blob_id_survives_an_import(l[i], ids);
            }
        },
        _ => {},
    }
}

proof fn lemma_distinct_rest(e: Members, inner: Members, rest: Members, at: int, i: int, j: int)
    requires
        inner.len() == e.len(),
        forall|k: int| 0 <= k < e.len() ==> (#[trigger] inner[k]).0 == e[k].0,
        forall|a: int, b: int| 0 <= a < b < e.len() ==> (#[trigger] e[a]).0 != (#[trigger] e[b]).0,
        0 <= at <= e.len(),
        rest == (if at < e.len() {
            inner.update(at, inner.last()).drop_last()
        } else {
            inner
        }),
        0 <= i < rest.len(),
        0 <= j < rest.len(),
        i != j,
    ensures
        rest[i].0 != rest[j].0,
{
    let last = e.len() - 1;
    let a = if at < e.len() && i == at {
        last
    } else {
        i
    };
    let b = if at < e.len() && j == at {
        last
    } else {
        j
    };
    assert(rest[i].0 == e[a].0);
    assert(rest[j].0 == e[b].0);
    if a < b {
        assert(e[a].0 != e[b].0);
    } else {
        assert(e[b].0 != e[a].0);
    }
}

/// Once sentinels were replaced, no object within a value has one.
pub proof fn no_sentinel_survives_inlining<R: BlobBytes>(v: Val, shape: InlineShape, blobs: &R)
    requires
        is_proper(v),
    ensures
        is_free_of(inlined(v, shape, blobs), "@blob"@),
    decreases v,
{
    reveal_strlit("@blob");
    reveal_strlit("uri");
    reveal_strlit("href");
    match v {
        Val::Object(e) => {
            let inner = inlined_members(e, shape, blobs);
            lemma_same_names(inner, e, "@blob"@);
            lemma_position_bounds(e, "@blob"@);
            lemma_position_bounds(e, uri_name(shape));
            let at = json::position(e, "@blob"@);
            let result = inlined(v, shape, blobs)->Object_0;
            if at == e.len() {
                assert forall|i: int| 0 <= i < result.len() implies (#[trigger] result[i]).0
                    != "@blob"@ && is_free_of(result[i].1, "@blob"@) by {
                    assert(e[i].0 != "@blob"@);
                    no_sentinel_survives_inlining(e[i].1, shape, blobs);
                }
            } else {
                let rest = json::without_member(inner, "@blob"@);
                lemma_position_bounds(rest, uri_name(shape));
                let slot = json::position(rest, uri_name(shape));
                assert(uri_name(shape).len() != "@blob"@.len());
                assert forall|i: int| 0 <= i < result.len() implies (#[trigger] result[i]).0
                    != "@blob"@ && is_free_of(result[i].1, "@blob"@) by {
                    if i != slot {
                        assert(result[i] == rest[i]);
                        let k = if i == at {
                            e.len() - 1
                        } else {
                            i
                        };
                        assert(rest[i] == inner[k]);
                        if k < at {
                            assert(e[k].0 != e[at].0);
                        } else {
                            assert(e[at].0 != e[k].0);
                        }
                        if is_inline_slot(e, shape, k) {
                            assert(rest[i].0 == uri_name(shape));
                            lemma_distinct_rest(e, inner, rest, at, slot, i);
                        } else {
                            no_sentinel_survives_inlining(e[k].1, shape, blobs);
                        }
                    }
                }
            }
        },
        Val::List(l) => {
            let result = inlined(v, shape, blobs)->List_0;
            assert forall|i: int| 0 <= i < result.len() implies is_free_of(
                #[trigger] result[i],
                "@blob"@,
            ) by {
                no_sentinel_survives_inlining(l[i], shape, blobs);
            }
        },
        _ => {},
    }
}

proof fn lemma_distinct_with(e: Members, key: Seq<char>, value: Val)
    requires
        jscalendar::distinct_names(e),
    ensures
        jscalendar::distinct_names(json::with_member(e, key, value)),
{
    lemma_position_bounds(e, key);
    let w = json::with_member(e, key, value);
    assert forall|i: int, j: int| 0 <= i < j < w.len() implies (#[trigger] w[i]).0 != (
    #[trigger] w[j]).0 by {
        if j < e.len() {
            assert(e[i].0 != e[j].0);
        }
    }
}

proof fn lemma_media_type_kept<I: BlobIntern>(e: Members, ids: &I, key: Seq<char>)
    requires
        jscalendar::distinct_names(e),
        blob_id_of(e) is Some,
        key != "blobId"@,
        key != "@blob"@,
    ensures
        ({
            let m = imported(Val::Object(e), ids)->Object_0;
            member_media_type(json::without_member(m, "@blob"@), key) == member_media_type(e, key)
        }),
{
    let inner = imported_members(e, ids);
    let rest = json::without_member(inner, "blobId"@);
    let n = json::int_val(ids.local_id(blob_id_of(e)->0)->0);
    let m = json::with_member(rest, "@blob"@, n);
    assert forall|i: int, j: int| 0 <= i < j < inner.len() implies (#[trigger] inner[i]).0 != (
    #[trigger] inner[j]).0 by {
        assert(e[i].0 != e[j].0);
    }
    jscalendar::removal_leaves_the_rest(inner, "blobId"@, key);
    lemma_distinct_with(rest, "@blob"@, n);
    json::lemma_with_member(rest, "@blob"@, n, key);
    jscalendar::removal_leaves_the_rest(m, "@blob"@, key);
    lemma_same_names(inner, e, key);
    lemma_position_bounds(e, key);
    lemma_position_bounds(inner, key);
    lemma_position_bounds(e, "blobId"@);
    lemma_position_bounds(e, "@blob"@);
}

/// An object that stands for a blob comes out with the blob's bytes in a data
/// URI, under the media type that the object went in with.
pub proof fn blobs_come_out_as_their_bytes<I: BlobIntern, O: BlobBytes>(
    e: Members,
    shape: InlineShape,
    ids: &I,
    blobs: &O,
)
    requires
        jscalendar::distinct_names(e),
        blob_id_of(e) is Some,
        ids.local_id(blob_id_of(e)->0) is Some,
        blobs.bytes_of(ids.local_id(blob_id_of(e)->0)->0) is Some,
    ensures
        inlined(imported(Val::Object(e), ids), shape, blobs).get(uri_name(shape)) == Some(
            Val::Text(uri_of(e, blobs.bytes_of(ids.local_id(blob_id_of(e)->0)->0)->0)),
        ),
{
    let n = ids.local_id(blob_id_of(e)->0)->0;
    let rest = json::without_member(imported_members(e, ids), "blobId"@);
    let m = json::with_member(rest, "@blob"@, json::int_val(n));
    json::lemma_with_member(rest, "@blob"@, json::int_val(n), "@blob"@);
    let kept = json::without_member(m, "@blob"@);
    reveal_strlit("blobId");
    reveal_strlit("@blob");
    reveal_strlit("mediaType");
    reveal_strlit("contentType");
    assert("blobId"@.len() == 6 && "@blob"@.len() == 5 && "mediaType"@.len() == 9
        && "contentType"@.len() == 11);
    lemma_media_type_kept(e, ids, "mediaType"@);
    lemma_media_type_kept(e, ids, "contentType"@);
    assert(object_media_type(kept) == object_media_type(e));
    let uri = Val::Text(uri_of(kept, blobs.bytes_of(n)->0));
    json::lemma_with_member(
        json::without_member(inlined_members(m, shape, blobs), "@blob"@),
        uri_name(shape),
        uri,
        uri_name(shape),
    );
}

/// Members without those of the given name.
pub open spec fn others(e: Members, key: Seq<char>) -> Members
    decreases e.len(),
{
    if e.len() == 0 {
        Seq::empty()
    } else if e.last().0 == key {
        others(e.drop_last(), key)
    } else {
        others(e.drop_last(), key).push(e.last())
    }
}

/// Puts a member first; one that had its name is gone, the rest keeps its
/// order.
pub fn prepend_property(target: Vec<(String, Json)>, key: &str, value: Json) -> (r: Vec<
    (String, Json),
>)
    ensures
        json::members_view(r@) == seq![(key@, value@)] + others(json::members_view(target@), key@),
{
    let ghost all = json::members_view(target@);
    let mut r: Vec<(String, Json)> = Vec::new();
    let ghost given = value@;
    r.push((key.to_owned(), value));
    let mut i: usize = 0;
    proof {
        assert(all.take(0) =~= Seq::empty());
        assert(json::members_view(r@) =~= seq![(key@, given)] + others(all.take(0), key@));
    }
    while i < target.len()
        invariant
            i <= target@.len(),
            all == json::members_view(target@),
            all.len() == target@.len(),
            json::members_view(r@) == seq![(key@, given)] + others(all.take(i as int), key@),
        decreases target@.len() - i,
    {
        proof {
            assert(all.take(i as int + 1).drop_last() =~= all.take(i as int));
            assert(all.take(i as int + 1).last() == (target@[i as int].0@, target@[i as int].1@));
        }
        if !text::same(target[i].0.as_str(), key) {
            let ghost before = json::members_view(r@);
            r.push((target[i].0.clone(), target[i].1.dup()));
            assert(json::members_view(r@) =~= before.push(all[i as int]));
            assert(json::members_view(r@) =~= seq![(key@, given)] + others(
                all.take(i as int + 1),
                key@,
            ));
        }
        i = i + 1;
    }
    assert(all.take(i as int) =~= all);
    r
}

} // verus!

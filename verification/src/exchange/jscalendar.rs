//! Patches that a recurring event's overrides may hold, and the participants
//! of an event whose addresses are not known.

use crate::json;
use crate::json::{Json, Members, Val};
use crate::text;
use vstd::prelude::*;

verus! {

/// Pointers that an override never patches.
pub open spec fn ignored_exactly(p: Seq<char>) -> bool {
    ||| p == "@type"@
    ||| p == "method"@
    ||| p == "organizerCalendarAddress"@
    ||| p == "privacy"@
    ||| p == "prodId"@
    ||| p == "recurrenceId"@
    ||| p == "recurrenceIdTimeZone"@
    ||| p == "sentBy"@
    ||| p == "uid"@
}

/// First tokens below which an override patches nothing.
pub open spec fn ignored_first_token(t: Seq<char>) -> bool {
    ||| t == "recurrenceOverrides"@
    ||| t == "recurrenceRule"@
    ||| t == "relatedTo"@
}

/// Whether a pointer is the calendar address of one participant.
pub open spec fn is_participant_address(p: Seq<char>) -> bool {
    let tokens = text::split_by(p, '/');
    tokens.len() == 3 && tokens[0] == "participants"@ && tokens[2] == "calendarAddress"@
}

/// Whether a pointer has no place in an override.
pub open spec fn override_ignored(p: Seq<char>) -> bool {
    ||| ignored_exactly(p)
    ||| is_participant_address(p)
    ||| ignored_first_token(text::split_by(p, '/')[0])
}

/// What a participant has only by its calendar address.
pub open spec fn address_dependents() -> Seq<Seq<char>> {
    seq![
        "calendarAddress"@,
        "delegatedFrom"@,
        "delegatedTo"@,
        "email"@,
        "expectReply"@,
        "kind"@,
        "memberOf"@,
        "participationStatus"@,
        "progress"@,
        "roles"@,
        "sentBy"@,
    ]
}

/// The members without each of several names, taken out one after the other.
pub open spec fn without_all(e: Members, keys: Seq<Seq<char>>) -> Members
    decreases keys.len(),
{
    if keys.len() == 0 {
        e
    } else {
        json::without_member(without_all(e, keys.drop_last()), keys.last())
    }
}

/// A participant without what it has by its calendar address.
pub open spec fn unaddressed(participant: Val) -> Val {
    match participant {
        Val::Object(e) => Val::Object(without_all(e, address_dependents())),
        _ => participant,
    }
}

/// Every participant without what it has by its calendar address.
pub open spec fn all_unaddressed(participants: Members) -> Members {
    Seq::new(
        participants.len(),
        |i: int| (participants[i].0, unaddressed(participants[i].1)),
    )
}

/// The members that an override may hold.
pub open spec fn patchable(e: Members) -> Members {
    e.filter(|m: (Seq<char>, Val)| !override_ignored(m.0))
}

/// An event reduced to an override's patch.
pub open spec fn patch_of(event: Val) -> Val {
    match event {
        Val::Object(e) => Val::Object(patchable(e)),
        _ => event,
    }
}

/// The address that stands in for an attendee who has none.
pub open spec fn synthetic_address(identifier: Seq<char>) -> Seq<char> {
    crate::digest::digest_name("urn:x-vandelay:attendee:"@, identifier)
}

/// Makes an address for an attendee who is known by something else.
pub fn synthetic_attendee_address(identifier: &str) -> (r: String)
    ensures
        r@ == synthetic_address(identifier@),
{
    crate::digest::digest_named("urn:x-vandelay:attendee:", identifier)
}

fn dependent_names() -> (r: Vec<String>)
    ensures
        text::texts(r@) == address_dependents(),
{
    let mut v: Vec<String> = Vec::new();
    v.push("calendarAddress".to_owned());
    v.push("delegatedFrom".to_owned());
    v.push("delegatedTo".to_owned());
    v.push("email".to_owned());
    v.push("expectReply".to_owned());
    v.push("kind".to_owned());
    v.push("memberOf".to_owned());
    v.push("participationStatus".to_owned());
    v.push("progress".to_owned());
    v.push("roles".to_owned());
    v.push("sentBy".to_owned());
    assert(text::texts(v@) =~= address_dependents());
    v
}

/// Takes out each of several members, one after the other.
pub fn remove_all(e: &mut Vec<(String, Json)>, keys: &Vec<String>)
    ensures
        json::members_view(final(e)@) == without_all(
            json::members_view(old(e)@),
            text::texts(keys@),
        ),
{
    let ghost start = json::members_view(e@);
    let mut i: usize = 0;
    while i < keys.len()
        invariant
            i <= keys@.len(),
            json::members_view(e@) == without_all(start, text::texts(keys@).take(i as int)),
        decreases keys@.len() - i,
    {
        proof {
            let t = text::texts(keys@);
            assert(t.take(i as int + 1).drop_last() == t.take(i as int));
        }
        let gone: Option<Json> = json::remove_member(e, keys[i].as_str());
        i = i + 1;
    }
    assert(text::texts(keys@).take(i as int) == text::texts(keys@));
}

/// Takes out of every participant what it has by its calendar address.
pub fn drop_calendar_address_dependents(participants: &mut Vec<(String, Json)>)
    ensures
        json::members_view(final(participants)@) == all_unaddressed(
            json::members_view(old(participants)@),
        ),
{
    let keys: Vec<String> = dependent_names();
    let ghost start = participants@;
    let mut i: usize = 0;
    while i < participants.len()
        invariant
            i <= participants@.len() == start.len(),
            text::texts(keys@) == address_dependents(),
            forall|k: int|
                0 <= k < i ==> (#[trigger] participants@[k]).0@ == start[k].0@ && participants@[k].1@
                    == unaddressed(start[k].1@),
            forall|k: int| i <= k < start.len() ==> #[trigger] participants@[k] == start[k],
        decreases participants@.len() - i,
    {
        let name: String = participants[i].0.clone();
        let copy: Json = participants[i].1.dup();
        let ghost was = copy@;
        let changed: Json = match copy {
            Json::Object(members) => {
                let mut e: Vec<(String, Json)> = members;
                remove_all(&mut e, &keys);
                Json::Object(e)
            },
            other => other,
        };
        assert(changed@ == unaddressed(was));
        participants.set(i, (name, changed));
        i = i + 1;
    }
    assert(json::members_view(participants@) =~= all_unaddressed(json::members_view(start)));
}

fn is_participant_calendar_address(pointer: &str) -> (r: bool)
    ensures
        r == is_participant_address(pointer@),
{
    let tokens: Vec<String> = text::split(pointer, '/');
    let ghost t = text::split_by(pointer@, '/');
    assert(t.len() == tokens@.len());
    assert(forall|k: int| 0 <= k < t.len() ==> t[k] == tokens@[k]@);
    tokens.len() == 3 && text::same(tokens[0].as_str(), "participants") && text::same(
        tokens[2].as_str(),
        "calendarAddress",
    )
}

/// Whether a pointer has no place in an override.
pub fn is_override_ignored(pointer: &str) -> (r: bool)
    ensures
        r == override_ignored(pointer@),
{
    if text::same(pointer, "@type") || text::same(pointer, "method") || text::same(
        pointer,
        "organizerCalendarAddress",
    ) || text::same(pointer, "privacy") || text::same(pointer, "prodId") || text::same(
        pointer,
        "recurrenceId",
    ) || text::same(pointer, "recurrenceIdTimeZone") || text::same(pointer, "sentBy")
        || text::same(pointer, "uid") || is_participant_calendar_address(pointer) {
        return true;
    }
    let tokens: Vec<String> = text::split(pointer, '/');
    assert(text::texts(tokens@)[0] == tokens@[0]@);
    let first: &str = tokens[0].as_str();
    text::same(first, "recurrenceOverrides") || text::same(first, "recurrenceRule") || text::same(
        first,
        "relatedTo",
    )
}

/// Reduces an event to what an override may hold.
pub fn override_patch_from_event(event: &Json) -> (r: Json)
    ensures
        r@ == patch_of(event@),
{
    match event {
        Json::Object(e) => {
            let mut out: Vec<(String, Json)> = Vec::new();
            let ghost keep = |m: (Seq<char>, Val)| !override_ignored(m.0);
            let ghost all = json::members_view(e@);
            let mut i: usize = 0;
            assert(all.take(0).filter(keep) =~= Seq::<(Seq<char>, Val)>::empty()) by {
                reveal(Seq::filter);
            }
            assert(json::members_view(out@) =~= Seq::<(Seq<char>, Val)>::empty());
            while i < e.len()
                invariant
                    all == json::members_view(e@),
                    keep == (|m: (Seq<char>, Val)| !override_ignored(m.0)),
                    i <= e@.len(),
                    json::members_view(out@) == all.take(i as int).filter(keep),
                decreases e@.len() - i,
            {
                proof {
                    let t = all.take(i as int + 1);
                    assert(t.drop_last() == all.take(i as int));
                    assert(t.last() == (e@[i as int].0@, e@[i as int].1@));
                    reveal(Seq::filter);
                }
                if !is_override_ignored(e[i].0.as_str()) {
                    json::push_member(&mut out, e[i].0.as_str(), e[i].1.dup());
                }
                i = i + 1;
            }
            assert(all.take(i as int) == all);
            Json::Object(out)
        },
        _ => event.dup(),
    }
}

/// A patch made from an event holds none of the pointers that overrides
/// ignore, and every other member of the event.
pub proof fn patches_hold_only_what_overrides_may(event: Val, key: Seq<char>)
    ensures
        override_ignored(key) && event is Object ==> patch_of(event).get(key) is None,
        !override_ignored(key) ==> patch_of(event).get(key) == event.get(key),
{
    if event is Object {
        lemma_patchable_lookup(event->Object_0, key);
    }
}

proof fn lemma_lookup_push(e: Members, m: (Seq<char>, Val), key: Seq<char>)
    ensures
        json::lookup(e.push(m), key) == (match json::lookup(e, key) {
            Some(v) => Some(v),
            None => if m.0 == key {
                Some(m.1)
            } else {
                None
            },
        }),
    decreases e.len(),
{
    if e.len() == 0 {
        assert(e.push(m).drop_first() =~= Seq::empty());
    } else {
        assert(e.push(m).drop_first() =~= e.drop_first().push(m));
        lemma_lookup_push(e.drop_first(), m, key);
    }
}

proof fn lemma_patchable_lookup(e: Members, key: Seq<char>)
    ensures
        json::lookup(patchable(e), key) == (if override_ignored(key) {
            None
        } else {
            json::lookup(e, key)
        }),
    decreases e.len(),
{
    reveal(Seq::filter);
    if e.len() > 0 {
        lemma_patchable_lookup(e.drop_last(), key);
        lemma_lookup_push(e.drop_last(), e.last(), key);
        assert(e.drop_last().push(e.last()) == e);
        lemma_lookup_push(patchable(e.drop_last()), e.last(), key);
    }
}

/// An address made up for an attendee is the same for the same identifier and
/// never a mail address.
pub proof fn synthetic_addresses_are_no_mail_addresses(identifier: Seq<char>)
    ensures
        text::has_prefix(synthetic_address(identifier), "urn:x-vandelay:attendee:"@),
        !text::has_prefix(synthetic_address(identifier), "mailto:"@),
{
    reveal_strlit("urn:x-vandelay:attendee:");
    reveal_strlit("mailto:");
    let a = synthetic_address(identifier);
    let p = "urn:x-vandelay:attendee:"@;
    assert(a.subrange(0, p.len() as int) == p);
    assert(a[0] == 'u');
    assert(text::has_prefix(a, "mailto:"@) ==> a.subrange(0, 7)[0] == 'm');
}

/// Whether no two members have the same name.
pub open spec fn distinct_names(e: Members) -> bool {
    forall|i: int, j: int| 0 <= i < j < e.len() ==> (#[trigger] e[i]).0 != (#[trigger] e[j]).0
}

proof fn lemma_lookup_at(e: Members, i: int)
    requires
        distinct_names(e),
        0 <= i < e.len(),
    ensures
        json::lookup(e, e[i].0) == Some(e[i].1),
        json::position(e, e[i].0) == i,
{
    json::lemma_position(e, e[i].0, i);
}

proof fn lemma_lookup_absent(e: Members, key: Seq<char>)
    requires
        forall|i: int| 0 <= i < e.len() ==> (#[trigger] e[i]).0 != key,
    ensures
        json::lookup(e, key) is None,
        json::position(e, key) == e.len(),
{
    json::lemma_position(e, key, e.len() as int);
}

proof fn lemma_position_found(e: Members, key: Seq<char>)
    ensures
        0 <= json::position(e, key) <= e.len(),
        json::position(e, key) < e.len() ==> e[json::position(e, key)].0 == key,
        json::position(e, key) == e.len() ==> forall|i: int|
            0 <= i < e.len() ==> (#[trigger] e[i]).0 != key,
    decreases e.len(),
{
    if e.len() > 0 && e[0].0 != key {
        let d = e.drop_first();
        lemma_position_found(d, key);
        if json::position(d, key) == d.len() {
            assert forall|i: int| 0 <= i < e.len() implies (#[trigger] e[i]).0 != key by {
                if i > 0 {
                    assert(d[i - 1] == e[i]);
                }
            }
        }
    }
}

/// Taking a member out of an object whose names are distinct leaves every
/// other member as it was.
pub proof fn removal_leaves_the_rest(e: Members, gone: Seq<char>, key: Seq<char>)
    requires
        distinct_names(e),
    ensures
        distinct_names(json::without_member(e, gone)),
        json::lookup(json::without_member(e, gone), key) == (if key == gone {
            None
        } else {
            json::lookup(e, key)
        }),
{
    let i = json::position(e, gone);
    let r = json::without_member(e, gone);
    lemma_position_found(e, gone);
    lemma_position_found(e, key);
    let j = json::position(e, key);
    if i == e.len() {
        if key == gone {
            lemma_lookup_absent(e, key);
        }
    } else {
        assert(r.len() == e.len() - 1);
        assert forall|k: int| 0 <= k < r.len() implies (#[trigger] r[k]) == (if k == i {
            e.last()
        } else {
            e[k]
        }) by {}
        assert forall|a: int, b: int| 0 <= a < b < r.len() implies (#[trigger] r[a]).0 != (
        #[trigger] r[b]).0 by {
            let x = if a == i {
                e.len() - 1
            } else {
                a
            };
            let y = if b == i {
                e.len() - 1
            } else {
                b
            };
            assert(r[a] == e[x] && r[b] == e[y]);
            assert(x != y);
            if x < y {
                assert(e[x].0 != e[y].0);
            } else {
                assert(e[y].0 != e[x].0);
            }
        }
        if key == gone {
            assert forall|k: int| 0 <= k < r.len() implies (#[trigger] r[k]).0 != key by {
                let x = if k == i {
                    e.len() - 1
                } else {
                    k
                };
                assert(r[k] == e[x]);
                assert(x != i);
                if x < i {
                    assert(e[x].0 != e[i].0);
                } else {
                    assert(e[i].0 != e[x].0);
                }
            }
            lemma_lookup_absent(r, key);
        } else if j == e.len() {
            assert forall|k: int| 0 <= k < r.len() implies (#[trigger] r[k]).0 != key by {
                let x = if k == i {
                    e.len() - 1
                } else {
                    k
                };
                assert(r[k] == e[x]);
            }
            lemma_lookup_absent(r, key);
            lemma_lookup_absent(e, key);
        } else {
            lemma_lookup_at(e, j);
            let k = if j == e.len() - 1 {
                i
            } else {
                j
            };
            assert(j != i);
            assert(r[k] == e[j]);
            lemma_lookup_at(r, k);
        }
    }
}

pub proof fn lemma_without_all(e: Members, keys: Seq<Seq<char>>, key: Seq<char>)
    requires
        distinct_names(e),
    ensures
        distinct_names(without_all(e, keys)),
        json::lookup(without_all(e, keys), key) == (if keys.contains(key) {
            None
        } else {
            json::lookup(e, key)
        }),
    decreases keys.len(),
{
    if keys.len() > 0 {
        let d = keys.drop_last();
        lemma_without_all(e, d, key);
        removal_leaves_the_rest(without_all(e, d), keys.last(), key);
        assert(keys == d.push(keys.last()));
        if d.contains(key) {
            let k = choose|k: int| 0 <= k < d.len() && d[k] == key;
            assert(keys[k] == key);
        }
        if keys.contains(key) && key != keys.last() {
            let k = choose|k: int| 0 <= k < keys.len() && keys[k] == key;
            assert(d[k] == key);
        }
        if key == keys.last() {
            assert(keys[keys.len() - 1] == key);
        }
    }
}

/// A participant that loses its calendar address loses what depends on it and
/// keeps everything else.
pub proof fn unaddressed_participants_keep_their_identity(participant: Members, key: Seq<char>)
    requires
        distinct_names(participant),
    ensures
        unaddressed(Val::Object(participant)).get(key) == (if address_dependents().contains(key) {
            None
        } else {
            json::lookup(participant, key)
        }),
{
    lemma_without_all(participant, address_dependents(), key);
}

} // verus!

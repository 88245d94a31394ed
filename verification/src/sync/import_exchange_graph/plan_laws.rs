//! What is taken of the events of Microsoft Graph.

use crate::db::exchange_graph_ids;
use crate::db::exchange_graph_ids::IdRow;
use crate::encoding;
use crate::exchange::jscalendar;
use crate::json;
use crate::json::{Members, Val};
use crate::sync::import_exchange_graph::calendar;
use crate::sync::import_exchange_graph::calendar::{AttachmentVal, ConvertedVal, PlanVal};
use crate::text;
use vstd::prelude::*;

verus! {

/// Whether an attachment has what a text member says, or else another text.
pub open spec fn says_or(v: Val, key: Seq<char>, other: Seq<char>, t: Seq<char>) -> bool {
    (v.text_at(key) is Some ==> v.text_at(key) == Some(t)) && (v.text_at(key) is None ==> t
        == other)
}

/// Whether an item is a file with contents, and which.
pub open spec fn is_file(item: Val, f: AttachmentVal) -> bool {
    &&& item.text_at("@odata.type"@) == Some("#microsoft.graph.fileAttachment"@)
    &&& item.text_at("contentBytes"@) is Some
    &&& encoding::base64_bytes(item.text_at("contentBytes"@)->0) == Some(f.bytes)
    &&& f.bytes.len() > 0
    &&& says_or(item, "name"@, "attachment"@, f.name)
    &&& says_or(item, "contentType"@, "application/octet-stream"@, f.content_type)
}

/// The attachments of an event are its items that are files with contents, under
/// their names and types.
pub proof fn attachments_are_the_files(items: Seq<Val>, f: AttachmentVal)
    ensures
        calendar::files_of(items).contains(f) <==> exists|i: int| 0 <= i < items.len() && is_file((#[trigger] items[i]), f),
    decreases items.len(),
{
    if items.len() > 0 {
        let rest = items.drop_last();
        attachments_are_the_files(rest, f);
        let before = calendar::files_of(rest);
        let after = calendar::files_of(items);
        assert(items[items.len() - 1] == items.last());
        assert(forall|i: int| 0 <= i < rest.len() ==> #[trigger] rest[i] == items[i]);
        if before.contains(f) {
            let k = choose|k: int| 0 <= k < before.len() && before[k] == f;
            assert(after[k] == f);
            let i = choose|i: int| 0 <= i < rest.len() && is_file((#[trigger] rest[i]), f);
            assert(is_file(items[i], f));
        }
        if is_file(items.last(), f) {
            assert(after[after.len() - 1] == f);
        }
        if after.contains(f) && !(is_file(items.last(), f)) {
            let k = choose|k: int| 0 <= k < after.len() && after[k] == f;
            assert(before[k] == f);
        }
        if exists|i: int| 0 <= i < items.len() && is_file((#[trigger] items[i]), f) {
            let i = choose|i: int| 0 <= i < items.len() && is_file((#[trigger] items[i]), f);
            if i < rest.len() {
                assert(is_file(rest[i], f));
            }
        }
    }
}

/// Whether a start is one of a series.
pub open spec fn is_start(v: Val, master: Seq<char>, t: Seq<char>) -> bool {
    v.text_at("seriesMasterId"@) == Some(master) && (v.get("start"@) matches Some(s) && s.text_at(
        "dateTime"@,
    ) == Some(t))
}

/// The starts of a series are those of the events that name it as theirs.
pub proof fn starts_are_those_of_the_series(list: Seq<Val>, master: Seq<char>, t: Seq<char>)
    ensures
        calendar::starts_of(list, master).contains(t) <==> exists|i: int| 0 <= i < list.len() && is_start((#[trigger] list[i]), master, t),
    decreases list.len(),
{
    if list.len() > 0 {
        let rest = list.drop_last();
        starts_are_those_of_the_series(rest, master, t);
        let before = calendar::starts_of(rest, master);
        let after = calendar::starts_of(list, master);
        assert(list[list.len() - 1] == list.last());
        assert(forall|i: int| 0 <= i < rest.len() ==> #[trigger] rest[i] == list[i]);
        if before.contains(t) {
            let k = choose|k: int| 0 <= k < before.len() && before[k] == t;
            assert(after[k] == t);
            let i = choose|i: int| 0 <= i < rest.len() && is_start((#[trigger] rest[i]), master, t);
            assert(is_start(list[i], master, t));
        }
        if is_start(list.last(), master, t) {
            assert(after[after.len() - 1] == t);
        }
        if after.contains(t) && !(is_start(list.last(), master, t)) {
            let k = choose|k: int| 0 <= k < after.len() && after[k] == t;
            assert(before[k] == t);
        }
        if exists|i: int| 0 <= i < list.len() && is_start((#[trigger] list[i]), master, t) {
            let i = choose|i: int| 0 <= i < list.len() && is_start((#[trigger] list[i]), master, t);
            if i < rest.len() {
                assert(is_start(rest[i], master, t));
            }
        }
    }
}

/// The changed occurrences of a series are those that name it as theirs.
pub proof fn changes_are_those_of_the_series(exceptions: Seq<ConvertedVal>, master: Seq<char>, x: ConvertedVal)
    ensures
        calendar::of_series(exceptions, master).contains(x) <==> exists|i: int| 0 <= i < exceptions.len() && (#[trigger] exceptions[i]) == x && x.series_master_id == Some(master),
    decreases exceptions.len(),
{
    if exceptions.len() > 0 {
        let rest = exceptions.drop_last();
        changes_are_those_of_the_series(rest, master, x);
        let before = calendar::of_series(rest, master);
        let after = calendar::of_series(exceptions, master);
        assert(exceptions[exceptions.len() - 1] == exceptions.last());
        assert(forall|i: int| 0 <= i < rest.len() ==> #[trigger] rest[i] == exceptions[i]);
        if before.contains(x) {
            let k = choose|k: int| 0 <= k < before.len() && before[k] == x;
            assert(after[k] == x);
            let i = choose|i: int| 0 <= i < rest.len() && (#[trigger] rest[i]) == x && x.series_master_id == Some(master);
            assert(exceptions[i] == x && x.series_master_id == Some(master));
        }
        if exceptions.last() == x && x.series_master_id == Some(master) {
            assert(after[after.len() - 1] == x);
        }
        if after.contains(x) && !(exceptions.last() == x && x.series_master_id == Some(master)) {
            let k = choose|k: int| 0 <= k < after.len() && after[k] == x;
            assert(before[k] == x);
        }
        if exists|i: int| 0 <= i < exceptions.len() && (#[trigger] exceptions[i]) == x && x.series_master_id == Some(master) {
            let i = choose|i: int| 0 <= i < exceptions.len() && (#[trigger] exceptions[i]) == x && x.series_master_id == Some(master);
            if i < rest.len() {
                assert(rest[i] == x && x.series_master_id == Some(master));
            }
        }
    }
}

/// Vanished are the objects of the archive that the server does not have.
pub proof fn what_the_server_lacks_has_vanished(local: Seq<IdRow>, server: Seq<Seq<char>>, x: (Seq<char>, i64))
    ensures
        calendar::vanished_of(local, server).contains(x) <==> exists|i: int| 0 <= i < local.len() && ((#[trigger] local[i]).graph_id@, own_id((#[trigger] local[i]))) == x && !server.contains(x.0),
    decreases local.len(),
{
    if local.len() > 0 {
        let rest = local.drop_last();
        what_the_server_lacks_has_vanished(rest, server, x);
        let before = calendar::vanished_of(rest, server);
        let after = calendar::vanished_of(local, server);
        assert(local[local.len() - 1] == local.last());
        assert(forall|i: int| 0 <= i < rest.len() ==> #[trigger] rest[i] == local[i]);
        if before.contains(x) {
            let k = choose|k: int| 0 <= k < before.len() && before[k] == x;
            assert(after[k] == x);
            let i = choose|i: int| 0 <= i < rest.len() && ((#[trigger] rest[i]).graph_id@, own_id((#[trigger] rest[i]))) == x && !server.contains(x.0);
            assert((local[i].graph_id@, own_id(local[i])) == x && !server.contains(x.0));
        }
        if (local.last().graph_id@, own_id(local.last())) == x && !server.contains(x.0) {
            assert(after[after.len() - 1] == x);
        }
        if after.contains(x) && !((local.last().graph_id@, own_id(local.last())) == x && !server.contains(x.0)) {
            let k = choose|k: int| 0 <= k < after.len() && after[k] == x;
            assert(before[k] == x);
        }
        if exists|i: int| 0 <= i < local.len() && ((#[trigger] local[i]).graph_id@, own_id((#[trigger] local[i]))) == x && !server.contains(x.0) {
            let i = choose|i: int| 0 <= i < local.len() && ((#[trigger] local[i]).graph_id@, own_id((#[trigger] local[i]))) == x && !server.contains(x.0);
            if i < rest.len() {
                assert((rest[i].graph_id@, own_id(rest[i])) == x && !server.contains(x.0));
            }
        }
    }
}

/// The local id of a row.
pub open spec fn own_id(row: IdRow) -> i64 {
    row.local_id
}

/// Whether the archive has an object.
pub open spec fn is_held(local: Seq<IdRow>, id: Seq<char>) -> bool {
    exists|i: int| 0 <= i < local.len() && (#[trigger] local[i]).graph_id@ == id
}

/// Whether the archive has an object under a local id: of the rows for it, the
/// last.
pub open spec fn is_held_as(local: Seq<IdRow>, id: Seq<char>, own: i64) -> bool {
    exists|i: int|
        0 <= i < local.len() && (#[trigger] local[i]).graph_id@ == id && local[i].local_id == own
            && forall|k: int| i < k < local.len() ==> (#[trigger] local[k]).graph_id@ != id
}

/// An object of the server is known by the local id that the archive has for it.
pub proof fn known_objects_have_their_local_id(local: Seq<IdRow>, id: Seq<char>, own: i64)
    ensures
        exchange_graph_ids::local_of(local, id) is Some <==> is_held(local, id),
        exchange_graph_ids::local_of(local, id) == Some(own) <==> is_held_as(local, id, own),
    decreases local.len(),
{
    if local.len() > 0 {
        let rest = local.drop_last();
        known_objects_have_their_local_id(rest, id, own);
        assert(local[local.len() - 1] == local.last());
        assert(forall|i: int| 0 <= i < rest.len() ==> #[trigger] rest[i] == local[i]);
        if is_held(rest, id) {
            let i = choose|i: int| 0 <= i < rest.len() && (#[trigger] rest[i]).graph_id@ == id;
            assert(local[i].graph_id@ == id);
        }
        if local.last().graph_id@ != id {
            if is_held(local, id) {
                let i = choose|i: int| 0 <= i < local.len() && (#[trigger] local[i]).graph_id@ == id;
                assert(rest[i].graph_id@ == id);
            }
            if is_held_as(rest, id, own) {
                let i = choose|i: int|
                    0 <= i < rest.len() && (#[trigger] rest[i]).graph_id@ == id && rest[i].local_id
                        == own && forall|k: int|
                        i < k < rest.len() ==> (#[trigger] rest[k]).graph_id@ != id;
                assert(local[i].graph_id@ == id);
                assert forall|k: int| i < k < local.len() implies (#[trigger] local[k]).graph_id@
                    != id by {
                    if k < rest.len() {
                        assert(rest[k].graph_id@ != id);
                    }
                }
            }
            if is_held_as(local, id, own) {
                let i = choose|i: int|
                    0 <= i < local.len() && (#[trigger] local[i]).graph_id@ == id
                        && local[i].local_id == own && forall|k: int|
                        i < k < local.len() ==> (#[trigger] local[k]).graph_id@ != id;
                assert(rest[i].graph_id@ == id);
                assert forall|k: int| i < k < rest.len() implies (#[trigger] rest[k]).graph_id@
                    != id by {
                    assert(local[k].graph_id@ != id);
                }
            }
        }
    }
}

/// Whether a listing has an event, other than as an occurrence of a series.
pub open spec fn lists_event(stubs: Seq<Val>, id: Seq<char>) -> bool {
    exists|i: int|
        0 <= i < stubs.len() && (#[trigger] stubs[i]).text_at("id"@) == Some(id)
            && stubs[i].text_at("type"@) != Some("occurrence"@)
}

/// Whether a listing has an event as a series.
pub open spec fn lists_series(stubs: Seq<Val>, id: Seq<char>) -> bool {
    exists|i: int|
        0 <= i < stubs.len() && (#[trigger] stubs[i]).text_at("id"@) == Some(id)
            && stubs[i].text_at("type"@) == Some("seriesMaster"@)
}

proof fn lemma_listed(stubs: Seq<Val>, id: Seq<char>)
    requires
        stubs.len() > 0,
    ensures
        lists_event(stubs, id) <==> lists_event(stubs.drop_last(), id) || (stubs.last().text_at(
            "id"@,
        ) == Some(id) && stubs.last().text_at("type"@) != Some("occurrence"@)),
        lists_series(stubs, id) <==> lists_series(stubs.drop_last(), id) || (stubs.last().text_at(
            "id"@,
        ) == Some(id) && stubs.last().text_at("type"@) == Some("seriesMaster"@)),
{
    let rest = stubs.drop_last();
    assert(stubs[stubs.len() - 1] == stubs.last());
    assert(forall|i: int| 0 <= i < rest.len() ==> #[trigger] rest[i] == stubs[i]);
    if lists_event(rest, id) {
        let i = choose|i: int|
            0 <= i < rest.len() && (#[trigger] rest[i]).text_at("id"@) == Some(id)
                && rest[i].text_at("type"@) != Some("occurrence"@);
        assert(stubs[i].text_at("id"@) == Some(id));
    }
    if lists_event(stubs, id) {
        let i = choose|i: int|
            0 <= i < stubs.len() && (#[trigger] stubs[i]).text_at("id"@) == Some(id)
                && stubs[i].text_at("type"@) != Some("occurrence"@);
        if i < rest.len() {
            assert(rest[i].text_at("id"@) == Some(id));
        }
    }
    if lists_series(rest, id) {
        let i = choose|i: int|
            0 <= i < rest.len() && (#[trigger] rest[i]).text_at("id"@) == Some(id)
                && rest[i].text_at("type"@) == Some("seriesMaster"@);
        assert(stubs[i].text_at("id"@) == Some(id));
    }
    if lists_series(stubs, id) {
        let i = choose|i: int|
            0 <= i < stubs.len() && (#[trigger] stubs[i]).text_at("id"@) == Some(id)
                && stubs[i].text_at("type"@) == Some("seriesMaster"@);
        if i < rest.len() {
            assert(rest[i].text_at("id"@) == Some(id));
        }
    }
}

proof fn lemma_pushed(s: Seq<Seq<char>>, last: Seq<char>, x: Seq<char>)
    ensures
        s.push(last).contains(x) <==> s.contains(x) || last == x,
{
    let t = s.push(last);
    if s.contains(x) {
        let i = choose|i: int| 0 <= i < s.len() && s[i] == x;
        assert(t[i] == x);
    }
    assert(t[s.len() as int] == last);
    if t.contains(x) && last != x {
        let i = choose|i: int| 0 <= i < t.len() && t[i] == x;
        assert(s[i] == x);
    }
}

/// Every event that a listing has is one of the server's; series are noted as
/// such; and exactly the events are fetched that the archive lacks and that
/// were not planned before.
pub proof fn missing_events_are_fetched(
    p: PlanVal,
    local: Seq<IdRow>,
    stubs: Seq<Val>,
    id: Seq<char>,
)
    ensures
        calendar::planned_entries(p, local, stubs).server.contains(id) <==> p.server.contains(id)
            || lists_event(stubs, id),
        calendar::planned_entries(p, local, stubs).masters.contains(id) <==> p.masters.contains(id)
            || lists_series(stubs, id),
        calendar::planned_entries(p, local, stubs).planned.contains(id) <==> p.planned.contains(id)
            || (lists_event(stubs, id) && !is_held(local, id)),
        calendar::planned_entries(p, local, stubs).want.contains(id) <==> p.want.contains(id) || (
        lists_event(stubs, id) && !is_held(local, id) && !p.planned.contains(id)),
    decreases stubs.len(),
{
    lemma_types();
    if stubs.len() > 0 {
        let rest = stubs.drop_last();
        missing_events_are_fetched(p, local, rest, id);
        lemma_listed(stubs, id);
        let q = calendar::planned_entries(p, local, rest);
        if let Some(own) = stubs.last().text_at("id"@) {
            known_objects_have_their_local_id(local, own, 0);
            known_objects_have_their_local_id(local, id, 0);
            lemma_pushed(q.server, own, id);
            lemma_pushed(q.masters, own, id);
            lemma_pushed(q.planned, own, id);
            lemma_pushed(q.want, own, id);
        }
    }
}

/// How many occurrences of series a listing has.
pub open spec fn occurrences_in(stubs: Seq<Val>) -> nat {
    stubs.filter(|v: Val| v.text_at("type"@) == Some("occurrence"@)).len()
}

/// The occurrences of series are counted.
pub proof fn occurrences_are_counted(p: PlanVal, local: Seq<IdRow>, stubs: Seq<Val>)
    ensures
        calendar::planned_entries(p, local, stubs).occurrences == p.occurrences + occurrences_in(
            stubs,
        ),
    decreases stubs.len(),
{
    lemma_types();
    reveal(Seq::filter);
    if stubs.len() > 0 {
        occurrences_are_counted(p, local, stubs.drop_last());
    }
}

/// Events that are no part of a series are told from those that are.
pub proof fn events_are_told_apart(v: Val)
    ensures
        calendar::event_type(v) == calendar::EventType::Occurrence <==> v.text_at("type"@) == Some(
            "occurrence"@,
        ),
        calendar::event_type(v) == calendar::EventType::Exception <==> v.text_at("type"@) == Some(
            "exception"@,
        ),
        calendar::event_type(v) == calendar::EventType::SeriesMaster <==> v.text_at("type"@)
            == Some("seriesMaster"@),
{
    lemma_types();
}

proof fn lemma_types()
    ensures
        "occurrence"@ != "exception"@,
        "occurrence"@ != "seriesMaster"@,
        "exception"@ != "seriesMaster"@,
{
    reveal_strlit("occurrence");
    reveal_strlit("exception");
    reveal_strlit("seriesMaster");
    assert("occurrence"@.len() == 10);
    assert("exception"@.len() == 9);
    assert("seriesMaster"@.len() == 12);
}

/// Whether overrides say something of an occurrence.
pub open spec fn overrides(e: Members) -> Option<Val> {
    json::lookup(e, "recurrenceOverrides"@)
}

/// What is recorded of the occurrence with a key.
pub open spec fn recorded(e: Members, key: Seq<char>) -> Option<Val> {
    match overrides(e) {
        Some(v) => v.get(key),
        None => None,
    }
}

/// Whether a changed occurrence is the one with a key.
pub open spec fn is_of_key(x: ConvertedVal, zone: Option<Seq<char>>, key: Seq<char>) -> bool {
    x.original_start matches Some(raw) && calendar::override_key(raw, zone) == key
}

/// A changed occurrence is recorded under the key of its first start, as the
/// patch that makes it; of several with one key the last counts. What is
/// recorded under other keys, and all else, stays.
pub proof fn changed_occurrences_are_recorded(
    e: Members,
    exceptions: Seq<ConvertedVal>,
    zone: Option<Seq<char>>,
    key: Seq<char>,
    other: Seq<char>,
    i: int,
)
    requires
        overrides(e) is None || overrides(e)->0 is Object,
    ensures
        0 <= i < exceptions.len() && is_of_key(exceptions[i], zone, key) && (forall|k: int|
            i < k < exceptions.len() ==> !is_of_key(#[trigger] exceptions[k], zone, key))
            ==> recorded(calendar::with_exceptions(e, exceptions, zone), key) == Some(
            jscalendar::patch_of(exceptions[i].data),
        ),
        (forall|k: int|
            0 <= k < exceptions.len() ==> !is_of_key(#[trigger] exceptions[k], zone, key))
            ==> recorded(calendar::with_exceptions(e, exceptions, zone), key) == recorded(e, key),
        other != "recurrenceOverrides"@ ==> json::lookup(
            calendar::with_exceptions(e, exceptions, zone),
            other,
        ) == json::lookup(e, other),
        overrides(calendar::with_exceptions(e, exceptions, zone)) is None || overrides(
            calendar::with_exceptions(e, exceptions, zone),
        )->0 is Object,
    decreases exceptions.len(),
{
    if exceptions.len() > 0 {
        let rest = exceptions.drop_last();
        let last = exceptions.last();
        changed_occurrences_are_recorded(e, rest, zone, key, other, i);
        assert(exceptions[exceptions.len() - 1] == last);
        assert(forall|k: int| 0 <= k < rest.len() ==> #[trigger] rest[k] == exceptions[k]);
        let before = calendar::with_exceptions(e, rest, zone);
        if let Some(raw) = last.original_start {
            let own = calendar::override_key(raw, zone);
            let patch = jscalendar::patch_of(last.data);
            let o = match overrides(before) {
                Some(Val::Object(o)) => o,
                _ => Seq::empty(),
            };
            json::lemma_with_member(o, own, patch, key);
            let new = Val::Object(json::with_member(o, own, patch));
            json::lemma_with_member(before, "recurrenceOverrides"@, new, other);
            json::lemma_with_member(before, "recurrenceOverrides"@, new, "recurrenceOverrides"@);
            if overrides(before) is None {
                assert(json::lookup(Seq::<(Seq<char>, Val)>::empty(), key) is None);
            }
        }
        if forall|k: int|
            0 <= k < exceptions.len() ==> !is_of_key(#[trigger] exceptions[k], zone, key) {
            assert forall|k: int| 0 <= k < rest.len() implies !is_of_key(
                #[trigger] rest[k],
                zone,
                key,
            ) by {
                assert(!is_of_key(exceptions[k], zone, key));
            }
            assert(!is_of_key(exceptions[exceptions.len() - 1], zone, key));
        }
        if 0 <= i < exceptions.len() - 1 && forall|k: int|
            i < k < exceptions.len() ==> !is_of_key(#[trigger] exceptions[k], zone, key) {
            assert forall|k: int| i < k < rest.len() implies !is_of_key(
                #[trigger] rest[k],
                zone,
                key,
            ) by {
                assert(!is_of_key(exceptions[k], zone, key));
            }
            assert(!is_of_key(exceptions[exceptions.len() - 1], zone, key));
        }
    }
}

/// A deleted occurrence of which nothing is recorded is recorded as excluded;
/// no other occurrence is.
pub proof fn deleted_occurrences_are_excluded(o: Members, keys: Seq<Seq<char>>, k: Seq<char>)
    ensures
        json::lookup(o, k) is None && keys.contains(k) ==> (json::lookup(
            calendar::with_exclusions(o, keys),
            k,
        ) matches Some(v) && v.get("excluded"@) == Some(Val::Bool(true))),
        !keys.contains(k) ==> json::lookup(calendar::with_exclusions(o, keys), k) == json::lookup(
            o,
            k,
        ),
    decreases keys.len(),
{
    if keys.len() > 0 {
        let rest = keys.drop_last();
        deleted_occurrences_are_excluded(o, rest, k);
        assert(keys =~= rest.push(keys.last()));
        lemma_pushed(rest, keys.last(), k);
        let before = calendar::with_exclusions(o, rest);
        let mark = json::obj1("excluded"@, Val::Bool(true));
        json::lemma_find1("excluded"@, Val::Bool(true), "excluded"@);
        json::lemma_with_member(before, keys.last(), mark, k);
    }
}

/// Whether a link leads to the blob that an attachment was stored as.
pub open spec fn is_link(v: Val, blob: i64, a: AttachmentVal) -> bool {
    &&& v.get("@blob"@) matches Some(n) && n.as_i64() == Some(blob)
    &&& v.text_at("contentType"@) == Some(a.content_type)
    &&& v.text_at("title"@) == Some(a.name)
    &&& v.text_at("rel"@) == Some("enclosure"@)
}

proof fn lemma_link_names()
    ensures
        "@type"@ != "@blob"@,
        "@type"@ != "contentType"@,
        "@type"@ != "title"@,
        "@type"@ != "rel"@,
        "@blob"@ != "contentType"@,
        "@blob"@ != "title"@,
        "@blob"@ != "rel"@,
        "contentType"@ != "title"@,
        "contentType"@ != "rel"@,
        "title"@ != "rel"@,
{
    reveal_strlit("@type");
    reveal_strlit("@blob");
    reveal_strlit("contentType");
    reveal_strlit("title");
    reveal_strlit("rel");
    assert("@type"@.len() == 5);
    assert("@blob"@.len() == 5);
    assert("contentType"@.len() == 11);
    assert("title"@.len() == 5);
    assert("rel"@.len() == 3);
    assert("@type"@[1] == 't');
    assert("@blob"@[1] == 'b');
    assert("@type"@[0] == '@');
    assert("title"@[0] == 't');
    assert("@blob"@[0] == '@');
}

proof fn lemma_link(blob: i64, a: AttachmentVal)
    ensures
        is_link(calendar::link_of(blob, a), blob, a),
{
    lemma_link_names();
    reveal_with_fuel(json::lookup, 6);
    let e = calendar::link_of(blob, a)->Object_0;
    assert(e.drop_first().drop_first()[0] == e[2]);
    assert(e.drop_first().drop_first().drop_first()[0] == e[3]);
    assert(e.drop_first().drop_first().drop_first().drop_first()[0] == e[4]);
}

proof fn lemma_links(links: Members, blobs: Seq<i64>, attachments: Seq<AttachmentVal>, n: int)
    requires
        1 <= n <= attachments.len(),
    ensures
        json::lookup(calendar::with_links(links, blobs, attachments), text::dec(n as nat))
            matches Some(v) && is_link(v, blobs[n - 1], attachments[n - 1]),
    decreases attachments.len(),
{
    let rest = attachments.drop_last();
    let last = attachments.len();
    json::lemma_with_member(
        calendar::with_links(links, blobs, rest),
        text::dec(last),
        calendar::link_of(blobs[last - 1], attachments.last()),
        text::dec(n as nat),
    );
    lemma_link(blobs[last - 1], attachments.last());
    if n < last {
        lemma_links(links, blobs, rest, n);
        assert(rest[n - 1] == attachments[n - 1]);
        text::decimals_tell_numbers_apart(n as nat, last);
    }
}

/// Each attachment of an event is linked from it under its number: with its
/// blob, its type and its name. All else of the event stays.
pub proof fn attachments_are_linked(
    e: Members,
    blobs: Seq<i64>,
    attachments: Seq<AttachmentVal>,
    n: int,
    other: Seq<char>,
)
    requires
        1 <= n <= attachments.len(),
    ensures
        calendar::with_attachments(Val::Object(e), blobs, attachments).get("links"@) matches Some(l)
            && (l.get(text::dec(n as nat)) matches Some(v) && is_link(
            v,
            blobs[n - 1],
            attachments[n - 1],
        )),
        other != "links"@ ==> calendar::with_attachments(Val::Object(e), blobs, attachments).get(
            other,
        ) == json::lookup(e, other),
{
    let l = match json::lookup(e, "links"@) {
        Some(Val::Object(l)) => l,
        _ => Seq::empty(),
    };
    lemma_links(l, blobs, attachments, n);
    let new = Val::Object(calendar::with_links(l, blobs, attachments));
    json::lemma_with_member(e, "links"@, new, "links"@);
    json::lemma_with_member(e, "links"@, new, other);
}

} // verus!

//! Which objects an export finds at the server, and which it creates.

use crate::json;
use crate::json::{Members, Val};
use crate::sync::export::uidtype;
use vstd::prelude::*;

verus! {

/// Whether an object at the server has a uid and an id.
pub open spec fn is_known(v: Val, uid: Seq<char>) -> bool {
    v.text_at("uid"@) == Some(uid) && v.text_at("id"@) is Some
}

/// An object is found at the server by its uid: the first that has it and an
/// id.
pub proof fn objects_are_found_by_their_uid(targets: Seq<Val>, uid: Seq<char>, i: int)
    ensures
        0 <= i < targets.len() && is_known(targets[i], uid) && (forall|j: int|
            0 <= j < i ==> !is_known(#[trigger] targets[j], uid)) ==> uidtype::target_with_uid(
            targets,
            uid,
        ) == targets[i].text_at("id"@),
        (forall|j: int| 0 <= j < targets.len() ==> !is_known(#[trigger] targets[j], uid))
            <==> uidtype::target_with_uid(targets, uid) is None,
    decreases targets.len(),
{
    if targets.len() > 0 {
        let rest = targets.skip(1);
        objects_are_found_by_their_uid(rest, uid, i - 1);
        assert(forall|j: int| 0 <= j < rest.len() ==> #[trigger] rest[j] == targets[j + 1]);
        if is_known(targets[0], uid) {
            assert(!(forall|j: int|
                0 <= j < targets.len() ==> !is_known(#[trigger] targets[j], uid)));
        } else {
            if forall|j: int| 0 <= j < rest.len() ==> !is_known(#[trigger] rest[j], uid) {
                assert forall|j: int| 0 <= j < targets.len() implies !is_known(
                    #[trigger] targets[j],
                    uid,
                ) by {
                    if j > 0 {
                        assert(!is_known(rest[j - 1], uid));
                    }
                }
            }
            if forall|j: int| 0 <= j < targets.len() ==> !is_known(#[trigger] targets[j], uid) {
                assert forall|j: int| 0 <= j < rest.len() implies !is_known(
                    #[trigger] rest[j],
                    uid,
                ) by {
                    assert(!is_known(targets[j + 1], uid));
                }
            }
            if 0 < i < targets.len() && (forall|j: int|
                0 <= j < i ==> !is_known(#[trigger] targets[j], uid)) {
                assert forall|j: int| 0 <= j < i - 1 implies !is_known(#[trigger] rest[j], uid) by {
                    assert(!is_known(targets[j + 1], uid));
                }
                assert(rest[i - 1] == targets[i]);
            }
        }
    }
}

/// Whether an answer says under which id an object was created.
pub open spec fn is_created(m: (Seq<char>, Val), local: i64, id: Seq<char>) -> bool {
    uidtype::local_of_client_id(m.0) == Some(local as int) && m.1.text_at("id"@) == Some(id)
}

/// A local object gets the id that the server created it under, and no other one
/// does.
pub proof fn created_objects_get_their_id(created: Members, x: (i64, Seq<char>))
    ensures
        uidtype::created_ids(created).contains(x) <==> exists|i: int| 0 <= i < created.len() && is_created((#[trigger] created[i]), x.0, x.1),
    decreases created.len(),
{
    if created.len() > 0 {
        let rest = created.drop_last();
        created_objects_get_their_id(rest, x);
        let before = uidtype::created_ids(rest);
        let after = uidtype::created_ids(created);
        assert(created[created.len() - 1] == created.last());
        assert(forall|i: int| 0 <= i < rest.len() ==> #[trigger] rest[i] == created[i]);
        lemma_client_id(created.last().0);
        if before.contains(x) {
            let k = choose|k: int| 0 <= k < before.len() && before[k] == x;
            assert(after[k] == x);
            let i = choose|i: int| 0 <= i < rest.len() && is_created((#[trigger] rest[i]), x.0, x.1);
            assert(is_created(created[i], x.0, x.1));
        }
        if is_created(created.last(), x.0, x.1) {
            assert(after[after.len() - 1] == x);
        }
        if after.contains(x) && !(is_created(created.last(), x.0, x.1)) {
            let k = choose|k: int| 0 <= k < after.len() && after[k] == x;
            assert(before[k] == x);
        }
        if exists|i: int| 0 <= i < created.len() && is_created((#[trigger] created[i]), x.0, x.1) {
            let i = choose|i: int| 0 <= i < created.len() && is_created((#[trigger] created[i]), x.0, x.1);
            if i < rest.len() {
                assert(is_created(rest[i], x.0, x.1));
            }
        }
    }
}

proof fn lemma_client_id(cid: Seq<char>)
    ensures
        uidtype::local_of_client_id(cid) matches Some(n) ==> i64::MIN <= n <= i64::MAX,
{
}

/// The uid of an object is the one that its data has.
pub proof fn uids_are_those_of_the_data(data: Seq<char>, v: Val)
    requires
        json::json_of(vstd::utf8::encode_utf8(data)) == Ok::<Val, Seq<char>>(v),
    ensures
        v.text_at("uid"@) is Some ==> v.text_at("uid"@) == Some(uidtype::uid_in(data)),
        v.text_at("uid"@) is None ==> uidtype::uid_in(data).len() == 0,
{
    reveal_strlit("");
}

} // verus!

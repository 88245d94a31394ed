//! What is found on the way through the folders and drives of Microsoft Graph.

use crate::db::exchange_graph_ids::IdRow;
use crate::exchange_graph::retry;
use crate::exchange_graph::retry::HttpClass;
use crate::exchange_graph::types;
use crate::exchange_graph::types::Surfaces;
use crate::json::Val;
use crate::sync::import_exchange_graph::coordinator;
use crate::sync::import_exchange_graph::coordinator::{Surface, WalkVal};
use crate::sync::import_exchange_graph::files;
use crate::sync::import_exchange_graph::files::{DriveWalkVal, NodeVal};
use crate::sync::import_exchange_graph::folders;
use crate::sync::import_exchange_graph::folders::{LinkVal, RoleOf};
use crate::sync::import_exchange_graph::plan_laws;
use crate::sync::import_exchange_graph::runs;
use vstd::prelude::*;

verus! {

/// Whether an item has a part that is not null.
pub open spec fn has_part(v: Val, key: Seq<char>) -> bool {
    v.get(key) is Some && !(v.get(key)->0 is Null)
}

/// An item of a drive is a node exactly where it has an id, a name, and is a
/// folder or a file. The node has its names and times, and lies where it was
/// found.
pub proof fn items_are_files_or_folders(v: Val, parent: Seq<char>, n: NodeVal)
    ensures
        files::node_of(v, parent) is Some <==> v.text_at("id"@) is Some && v.text_at("name"@) is Some
            && (has_part(v, "folder"@) || has_part(v, "file"@)),
        files::node_of(v, parent) == Some(n) ==> {
            &&& v.text_at("id"@) == Some(n.graph_id)
            &&& v.text_at("name"@) == Some(n.name)
            &&& n.is_folder <==> has_part(v, "folder"@)
            &&& v.get("file"@) matches Some(f) ==> n.media_type == f.text_at("mimeType"@)
            &&& v.get("file"@) is None ==> n.media_type is None
            &&& plan_laws::says_or(v, "createdDateTime"@, "1970-01-01T00:00:00Z"@, n.created)
            &&& n.modified == v.text_at("lastModifiedDateTime"@)
            &&& n.parent_graph_id == Some(parent)
        },
{
}

/// Whether a listing has a node.
pub open spec fn lists_node(children: Seq<Val>, parent: Seq<char>, id: Seq<char>) -> bool {
    exists|i: int|
        0 <= i < children.len() && files::node_of(#[trigger] children[i], parent) is Some
            && children[i].text_at("id"@) == Some(id)
}

proof fn lemma_pushed<A>(s: Seq<A>, last: A, x: A)
    ensures
        s.push(last).contains(x) <==> s.contains(x) || last == x,
{
    let t = s.push(last);
    if s.contains(x) {
        let i = choose|i: int| 0 <= i < s.len() && s[i] == x;
        assert(t[i] == x);
    }
    assert(t[s.len() as int] == last);
    if t.contains(x) && last != x {
        let i = choose|i: int| 0 <= i < t.len() && t[i] == x;
        assert(s[i] == x);
    }
}

/// Exactly the nodes that a listing has are found, and of what is new exactly
/// the folders are looked into.
pub proof fn drives_are_walked_through(
    w: DriveWalkVal,
    parent: Seq<char>,
    children: Seq<Val>,
    id: Seq<char>,
    k: int,
)
    ensures
        files::with_children(w, parent, children).seen.contains(id) <==> w.seen.contains(id)
            || lists_node(children, parent, id),
        files::with_children(w, parent, children).out.len() >= w.out.len(),
        w.out.len() <= k < files::with_children(w, parent, children).out.len() ==> {
            let after = files::with_children(w, parent, children);
            &&& after.out[k].parent_graph_id == Some(parent)
            &&& lists_node(children, parent, after.out[k].graph_id)
            &&& after.out[k].is_folder ==> after.frontier.contains(after.out[k].graph_id)
        },
        w.seen.contains(id) ==> (files::with_children(w, parent, children).frontier.contains(id)
            <==> w.frontier.contains(id)),
        0 <= k < w.out.len() ==> files::with_children(w, parent, children).out[k] == w.out[k],
        w.frontier.contains(id) ==> files::with_children(w, parent, children).frontier.contains(id),
        files::with_children(w, parent, children).frontier.contains(id) && !w.frontier.contains(id)
            ==> lists_folder(children, parent, id),
    decreases children.len(),
{
    if children.len() > 0 {
        let rest = children.drop_last();
        let before = files::with_children(w, parent, rest);
        drives_are_walked_through(w, parent, rest, id, k);
        assert(children[children.len() - 1] == children.last());
        assert(forall|i: int| 0 <= i < rest.len() ==> #[trigger] rest[i] == children[i]);
        lemma_lists(children, parent, id);
        if let Some(n) = files::node_of(children.last(), parent) {
            lemma_lists(children, parent, n.graph_id);
            lemma_pushed(before.seen, n.graph_id, id);
            lemma_pushed(before.frontier, n.graph_id, id);
            if w.out.len() <= k < before.out.len() {
                lemma_pushed(before.frontier, n.graph_id, before.out[k].graph_id);
            }
            lemma_pushed(before.frontier, n.graph_id, n.graph_id);
        }
        if w.out.len() <= k < before.out.len() {
            lemma_lists(children, parent, before.out[k].graph_id);
        }
    }
}

/// Whether a listing has a node that is a folder.
pub open spec fn lists_folder(children: Seq<Val>, parent: Seq<char>, id: Seq<char>) -> bool {
    exists|i: int|
        0 <= i < children.len() && files::node_of(#[trigger] children[i], parent) is Some
            && children[i].text_at("id"@) == Some(id) && has_part(children[i], "folder"@)
}

proof fn lemma_lists(children: Seq<Val>, parent: Seq<char>, id: Seq<char>)
    requires
        children.len() > 0,
    ensures
        lists_node(children, parent, id) <==> lists_node(children.drop_last(), parent, id) || (
        files::node_of(children.last(), parent) is Some && children.last().text_at("id"@) == Some(
            id,
        )),
        lists_folder(children, parent, id) <==> lists_folder(children.drop_last(), parent, id) || (
        files::node_of(children.last(), parent) is Some && children.last().text_at("id"@) == Some(
            id,
        ) && has_part(children.last(), "folder"@)),
{
    let rest = children.drop_last();
    assert(children[children.len() - 1] == children.last());
    assert(forall|i: int| 0 <= i < rest.len() ==> #[trigger] rest[i] == children[i]);
    if lists_node(rest, parent, id) {
        let i = choose|i: int|
            0 <= i < rest.len() && files::node_of(#[trigger] rest[i], parent) is Some
                && rest[i].text_at("id"@) == Some(id);
        assert(files::node_of(children[i], parent) is Some);
    }
    if lists_node(children, parent, id) {
        let i = choose|i: int|
            0 <= i < children.len() && files::node_of(#[trigger] children[i], parent) is Some
                && children[i].text_at("id"@) == Some(id);
        if i < rest.len() {
            assert(files::node_of(rest[i], parent) is Some);
        }
    }
    if lists_folder(rest, parent, id) {
        let i = choose|i: int|
            0 <= i < rest.len() && files::node_of(#[trigger] rest[i], parent) is Some
                && rest[i].text_at("id"@) == Some(id) && has_part(rest[i], "folder"@);
        assert(files::node_of(children[i], parent) is Some);
    }
    if lists_folder(children, parent, id) {
        let i = choose|i: int|
            0 <= i < children.len() && files::node_of(#[trigger] children[i], parent) is Some
                && children[i].text_at("id"@) == Some(id) && has_part(children[i], "folder"@);
        if i < rest.len() {
            assert(files::node_of(rest[i], parent) is Some);
        }
    }
}

/// Folders and files are told apart, and none is lost.
pub proof fn folders_are_told_from_files(nodes: Seq<NodeVal>, folders: bool, n: NodeVal)
    ensures
        files::of_kind(nodes, folders).contains(n) <==> exists|i: int| 0 <= i < nodes.len() && (#[trigger] nodes[i]) == n && n.is_folder == folders,
    decreases nodes.len(),
{
    if nodes.len() > 0 {
        let rest = nodes.drop_last();
        folders_are_told_from_files(rest, folders, n);
        let before = files::of_kind(rest, folders);
        let after = files::of_kind(nodes, folders);
        assert(nodes[nodes.len() - 1] == nodes.last());
        assert(forall|i: int| 0 <= i < rest.len() ==> #[trigger] rest[i] == nodes[i]);
        if before.contains(n) {
            let k = choose|k: int| 0 <= k < before.len() && before[k] == n;
            assert(after[k] == n);
            let i = choose|i: int| 0 <= i < rest.len() && (#[trigger] rest[i]) == n && n.is_folder == folders;
            assert(nodes[i] == n && n.is_folder == folders);
        }
        if nodes.last() == n && n.is_folder == folders {
            assert(after[after.len() - 1] == n);
        }
        if after.contains(n) && !(nodes.last() == n && n.is_folder == folders) {
            let k = choose|k: int| 0 <= k < after.len() && after[k] == n;
            assert(before[k] == n);
        }
        if exists|i: int| 0 <= i < nodes.len() && (#[trigger] nodes[i]) == n && n.is_folder == folders {
            let i = choose|i: int| 0 <= i < nodes.len() && (#[trigger] nodes[i]) == n && n.is_folder == folders;
            if i < rest.len() {
                assert(rest[i] == n && n.is_folder == folders);
            }
        }
    }
}

/// New are the files that the archive lacks.
pub proof fn new_files_are_those_that_the_archive_lacks(list: Seq<NodeVal>, local: Seq<IdRow>, n: NodeVal)
    ensures
        files::new_files(list, local).contains(n) <==> exists|i: int| 0 <= i < list.len() && (#[trigger] list[i]) == n && !plan_laws::is_held(local, n.graph_id),
    decreases list.len(),
{
    if list.len() > 0 {
        let rest = list.drop_last();
        new_files_are_those_that_the_archive_lacks(rest, local, n);
        let before = files::new_files(rest, local);
        let after = files::new_files(list, local);
        assert(list[list.len() - 1] == list.last());
        assert(forall|i: int| 0 <= i < rest.len() ==> #[trigger] rest[i] == list[i]);
        plan_laws::known_objects_have_their_local_id(local, list.last().graph_id, 0);
        if before.contains(n) {
            let k = choose|k: int| 0 <= k < before.len() && before[k] == n;
            assert(after[k] == n);
            let i = choose|i: int| 0 <= i < rest.len() && (#[trigger] rest[i]) == n && !plan_laws::is_held(local, n.graph_id);
            assert(list[i] == n && !plan_laws::is_held(local, n.graph_id));
        }
        if list.last() == n && !plan_laws::is_held(local, n.graph_id) {
            assert(after[after.len() - 1] == n);
        }
        if after.contains(n) && !(list.last() == n && !plan_laws::is_held(local, n.graph_id)) {
            let k = choose|k: int| 0 <= k < after.len() && after[k] == n;
            assert(before[k] == n);
        }
        if exists|i: int| 0 <= i < list.len() && (#[trigger] list[i]) == n && !plan_laws::is_held(local, n.graph_id) {
            let i = choose|i: int| 0 <= i < list.len() && (#[trigger] list[i]) == n && !plan_laws::is_held(local, n.graph_id);
            if i < rest.len() {
                assert(rest[i] == n && !plan_laws::is_held(local, n.graph_id));
            }
        }
    }
}

/// Whether a listing has a folder with an id.
pub open spec fn lists_id(list: Seq<Val>, id: Seq<char>) -> bool {
    exists|i: int| 0 <= i < list.len() && (#[trigger] list[i]).text_at("id"@) == Some(id)
}

proof fn lemma_lists_id(list: Seq<Val>, id: Seq<char>)
    requires
        list.len() > 0,
    ensures
        lists_id(list, id) <==> lists_id(list.drop_last(), id) || list.last().text_at("id"@) == Some(
            id,
        ),
{
    let rest = list.drop_last();
    assert(list[list.len() - 1] == list.last());
    assert(forall|i: int| 0 <= i < rest.len() ==> #[trigger] rest[i] == list[i]);
    if lists_id(rest, id) {
        let i = choose|i: int| 0 <= i < rest.len() && (#[trigger] rest[i]).text_at("id"@) == Some(id);
        assert(list[i].text_at("id"@) == Some(id));
    }
    if lists_id(list, id) {
        let i = choose|i: int| 0 <= i < list.len() && (#[trigger] list[i]).text_at("id"@) == Some(id);
        if i < rest.len() {
            assert(rest[i].text_at("id"@) == Some(id));
        }
    }
}

/// Exactly the folders that a listing has are found, and each new one is looked
/// into.
pub proof fn folders_are_walked_through(w: WalkVal, list: Seq<Val>, id: Seq<char>)
    ensures
        coordinator::with_folders(w, list).seen.contains(id) <==> w.seen.contains(id) || lists_id(
            list,
            id,
        ),
        coordinator::with_folders(w, list).frontier.contains(id) <==> w.frontier.contains(id) || (
        lists_id(list, id) && !w.seen.contains(id)),
    decreases list.len(),
{
    if list.len() > 0 {
        let before = coordinator::with_folders(w, list.drop_last());
        folders_are_walked_through(w, list.drop_last(), id);
        lemma_lists_id(list, id);
        if let Some(own) = list.last().text_at("id"@) {
            lemma_pushed(before.seen, own, id);
            lemma_pushed(before.frontier, own, id);
        }
    }
}

/// The ids of a listing are those of its entries.
pub proof fn listings_have_their_ids(list: Seq<Val>, id: Seq<char>)
    ensures
        folders::ids_in(list).contains(id) <==> lists_id(list, id),
    decreases list.len(),
{
    if list.len() > 0 {
        listings_have_their_ids(list.drop_last(), id);
        lemma_lists_id(list, id);
        if let Some(own) = list.last().text_at("id"@) {
            lemma_pushed(folders::ids_in(list.drop_last()), own, id);
        }
    }
}

/// The default address book is one of those that are walked through, first where
/// the listing does not have it.
pub proof fn the_default_book_is_among_the_books(list: Seq<Val>, book: Val, id: Seq<char>)
    requires
        book.text_at("id"@) == Some(id),
    ensures
        folders::first_books(list, Some(book)).seen.contains(id),
        folders::first_books(list, Some(book)).frontier.contains(id),
        lists_id(list, id) ==> folders::first_books(list, Some(book)).all == list,
        !lists_id(list, id) ==> folders::first_books(list, Some(book)).all == seq![book] + list,
        folders::first_books(list, None).all == list,
{
    listings_have_their_ids(list, id);
    lemma_pushed(folders::ids_in(list), id, id);
}

/// A folder leads up to the one that it names as its parent.
pub proof fn links_are_those_of_the_folders(list: Seq<Val>, x: LinkVal)
    ensures
        folders::links_of(list).contains(x) <==> exists|i: int| 0 <= i < list.len() && is_link((#[trigger] list[i]), x),
    decreases list.len(),
{
    if list.len() > 0 {
        let rest = list.drop_last();
        links_are_those_of_the_folders(rest, x);
        let before = folders::links_of(rest);
        let after = folders::links_of(list);
        assert(list[list.len() - 1] == list.last());
        assert(forall|i: int| 0 <= i < rest.len() ==> #[trigger] rest[i] == list[i]);
        if before.contains(x) {
            let k = choose|k: int| 0 <= k < before.len() && before[k] == x;
            assert(after[k] == x);
            let i = choose|i: int| 0 <= i < rest.len() && is_link((#[trigger] rest[i]), x);
            assert(is_link(list[i], x));
        }
        if is_link(list.last(), x) {
            assert(after[after.len() - 1] == x);
        }
        if after.contains(x) && !(is_link(list.last(), x)) {
            let k = choose|k: int| 0 <= k < after.len() && after[k] == x;
            assert(before[k] == x);
        }
        if exists|i: int| 0 <= i < list.len() && is_link((#[trigger] list[i]), x) {
            let i = choose|i: int| 0 <= i < list.len() && is_link((#[trigger] list[i]), x);
            if i < rest.len() {
                assert(is_link(rest[i], x));
            }
        }
    }
}

/// Whether a folder leads up as told.
pub open spec fn is_link(v: Val, x: LinkVal) -> bool {
    v.text_at("id"@) == Some(x.id) && x.parent == v.text_at("parentFolderId"@)
}

/// Whether there is a row for a key.
pub open spec fn has_role(roles: Seq<RoleOf>, key: Seq<char>) -> bool {
    exists|i: int| 0 <= i < roles.len() && (#[trigger] roles[i]).graph_id@ == key
}

/// Whether a key stands for a value: of the rows for it, the last counts.
pub open spec fn has_as_role(roles: Seq<RoleOf>, key: Seq<char>, value: Seq<char>) -> bool {
    exists|i: int|
        0 <= i < roles.len() && (#[trigger] roles[i]).graph_id@ == key && roles[i].role@ == value
            && forall|k: int| i < k < roles.len() ==> (#[trigger] roles[k]).graph_id@ != key
}

/// A folder has the role that the server gives it.
pub proof fn folders_have_their_role(roles: Seq<RoleOf>, key: Seq<char>, value: Seq<char>)
    ensures
        folders::role_of(roles, key) is Some <==> has_role(roles, key),
        folders::role_of(roles, key) == Some(value) <==> has_as_role(roles, key, value),
    decreases roles.len(),
{
    if roles.len() > 0 {
        let rest = roles.drop_last();
        folders_have_their_role(rest, key, value);
        assert(roles[roles.len() - 1] == roles.last());
        assert(forall|i: int| 0 <= i < rest.len() ==> #[trigger] rest[i] == roles[i]);
        if has_role(rest, key) {
            let i = choose|i: int| 0 <= i < rest.len() && (#[trigger] rest[i]).graph_id@ == key;
            assert(roles[i].graph_id@ == key);
        }
        if roles.last().graph_id@ != key {
            if has_role(roles, key) {
                let i = choose|i: int| 0 <= i < roles.len() && (#[trigger] roles[i]).graph_id@ == key;
                assert(rest[i].graph_id@ == key);
            }
            if has_as_role(rest, key, value) {
                let i = choose|i: int|
                    0 <= i < rest.len() && (#[trigger] rest[i]).graph_id@ == key && rest[i].role@ == value
                        && forall|k: int| i < k < rest.len() ==> (#[trigger] rest[k]).graph_id@ != key;
                assert(roles[i].graph_id@ == key);
                assert forall|k: int| i < k < roles.len() implies (#[trigger] roles[k]).graph_id@ != key by {
                    if k < rest.len() {
                        assert(rest[k].graph_id@ != key);
                    }
                }
            }
            if has_as_role(roles, key, value) {
                let i = choose|i: int|
                    0 <= i < roles.len() && (#[trigger] roles[i]).graph_id@ == key && roles[i].role@ == value
                        && forall|k: int| i < k < roles.len() ==> (#[trigger] roles[k]).graph_id@ != key;
                assert(rest[i].graph_id@ == key);
                assert forall|k: int| i < k < rest.len() implies (#[trigger] rest[k]).graph_id@ != key by {
                    assert(roles[k].graph_id@ != key);
                }
            }
        }
    }
}

/// Entries with an id are dealt with, in order; others are not.
pub proof fn entries_with_ids_are_kept(list: Seq<Val>, v: Val)
    ensures
        runs::identified(list).contains(v) <==> list.contains(v) && v.text_at("id"@) is Some,
    decreases list.len(),
{
    if list.len() > 0 {
        let rest = list.drop_first();
        entries_with_ids_are_kept(rest, v);
        let before = runs::identified(rest);
        let after = runs::identified(list);
        assert(forall|i: int| 0 <= i < rest.len() ==> #[trigger] rest[i] == list[i + 1]);
        if rest.contains(v) {
            let i = choose|i: int| 0 <= i < rest.len() && rest[i] == v;
            assert(list[i + 1] == v);
        }
        if list.contains(v) {
            let i = choose|i: int| 0 <= i < list.len() && list[i] == v;
            if i > 0 {
                assert(rest[i - 1] == v);
            }
        }
        assert(list[0] == list.first());
        if list[0].text_at("id"@) is Some {
            assert(after[0] == list[0]);
            if before.contains(v) {
                let i = choose|i: int| 0 <= i < before.len() && before[i] == v;
                assert(after[i + 1] == v);
            }
            if after.contains(v) {
                let i = choose|i: int| 0 <= i < after.len() && after[i] == v;
                if i > 0 {
                    assert(before[i - 1] == v);
                }
            }
        }
    }
}

/// What is taken is what is wanted: mail first, then calendars, contacts and
/// files.
pub proof fn wanted_surfaces_are_taken(wanted: Surfaces, s: Surface)
    ensures
        coordinator::surfaces_taken(wanted).contains(s) <==> match s {
            Surface::Mail => wanted.mail,
            Surface::Calendar => wanted.calendar,
            Surface::Contacts => wanted.contacts,
            Surface::Files => wanted.files,
        },
        wanted.mail && wanted.calendar && wanted.contacts && wanted.files
            ==> coordinator::surfaces_taken(wanted) == seq![
            Surface::Mail,
            Surface::Calendar,
            Surface::Contacts,
            Surface::Files,
        ],
{
    let a = coordinator::surface_if(wanted, Surface::Mail);
    let b = coordinator::surface_if(wanted, Surface::Calendar);
    let c = coordinator::surface_if(wanted, Surface::Contacts);
    let d = coordinator::surface_if(wanted, Surface::Files);
    let all = coordinator::surfaces_taken(wanted);
    assert(all =~= a + b + c + d);
    if wanted.mail {
        assert(all[0] == Surface::Mail);
    }
    if wanted.calendar {
        assert(all[a.len() as int] == Surface::Calendar);
    }
    if wanted.contacts {
        assert(all[(a.len() + b.len()) as int] == Surface::Contacts);
    }
    if wanted.files {
        assert(all[(a.len() + b.len() + c.len()) as int] == Surface::Files);
    }
    if all.contains(s) {
        let i = choose|i: int| 0 <= i < all.len() && all[i] == s;
        if i < a.len() {
            assert(all[i] == a[i]);
        } else if i < a.len() + b.len() {
            assert(all[i] == b[i - a.len()]);
        } else if i < a.len() + b.len() + c.len() {
            assert(all[i] == c[i - a.len() - b.len()]);
        } else {
            assert(all[i] == d[i - a.len() - b.len() - c.len()]);
        }
    }
}

/// A surface is selected exactly where its name is among those given.
pub proof fn surfaces_are_selected_by_name(names: Seq<Seq<char>>)
    ensures
        types::selected(names).mail <==> names.contains("mail"@),
        types::selected(names).calendar <==> names.contains("calendar"@),
        types::selected(names).contacts <==> names.contains("contacts"@),
        types::selected(names).files <==> names.contains("files"@),
    decreases names.len(),
{
    if names.len() > 0 {
        let rest = names.drop_last();
        surfaces_are_selected_by_name(rest);
        assert(names =~= rest.push(names.last()));
        lemma_pushed(rest, names.last(), "mail"@);
        lemma_pushed(rest, names.last(), "calendar"@);
        lemma_pushed(rest, names.last(), "contacts"@);
        lemma_pushed(rest, names.last(), "files"@);
    }
}

/// An answer is a success exactly where its status is one of the two hundreds.
/// What was not found or is gone has vanished, refused credentials are told as
/// such, and a request is tried again where the server is busy or failed.
pub proof fn graph_answers_mean_what_they_say(status: u16)
    ensures
        retry::class_of(status) == HttpClass::Success <==> 200 <= status <= 299,
        retry::class_of(status) == HttpClass::Vanished <==> status == 404 || status == 410,
        retry::class_of(status) == HttpClass::Auth <==> status == 401 || status == 403,
        retry::class_of(status) == HttpClass::Retryable <==> status == 429 || status == 500 || 502
            <= status <= 504,
{
}

} // verus!

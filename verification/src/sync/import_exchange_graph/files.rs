//! Files from Microsoft Graph: which are fetched, and in which order folders
//! are stored and deleted.

use crate::db::exchange_graph_ids;
use crate::db::exchange_graph_ids::IdRow;
use crate::json;
use crate::json::{Json, Val};
use crate::order;
use crate::sync::import_exchange_graph::calendar;
use crate::sync::TypeCounts;
use crate::text;
use crate::tree;
use crate::tree::NodeRow;
use vstd::prelude::*;

verus! {

/// How many parents are followed at most, less one.
pub const DEPTH_LIMIT: u128 = 257;

/// A file or a folder of a drive.
#[derive(Debug)]
pub struct DriveNode {
    pub graph_id: String,
    pub name: String,
    pub is_folder: bool,
    pub media_type: Option<String>,
    pub created: String,
    pub modified: Option<String>,
    pub parent_graph_id: Option<String>,
}

/// What a file or a folder holds.
pub struct NodeVal {
    pub graph_id: Seq<char>,
    pub name: Seq<char>,
    pub is_folder: bool,
    pub media_type: Option<Seq<char>>,
    pub created: Seq<char>,
    pub modified: Option<Seq<char>>,
    pub parent_graph_id: Option<Seq<char>>,
}

impl View for DriveNode {
    type V = NodeVal;

    open spec fn view(&self) -> NodeVal {
        NodeVal {
            graph_id: self.graph_id@,
            name: self.name@,
            is_folder: self.is_folder,
            media_type: json::text_view(self.media_type),
            created: self.created@,
            modified: json::text_view(self.modified),
            parent_graph_id: json::text_view(self.parent_graph_id),
        }
    }
}

/// What several files and folders hold.
pub open spec fn node_views(v: Seq<DriveNode>) -> Seq<NodeVal> {
    Seq::new(v.len(), |i: int| v[i]@)
}

fn dup_text(t: &Option<String>) -> (r: Option<String>)
    ensures
        json::text_view(r) == json::text_view(*t),
{
    match t {
        Some(s) => Some(s.clone()),
        None => None,
    }
}

impl DriveNode {
    /// A copy.
    pub fn dup(&self) -> (r: DriveNode)
        ensures
            r@ == self@,
    {
        DriveNode {
            graph_id: self.graph_id.clone(),
            name: self.name.clone(),
            is_folder: self.is_folder,
            media_type: dup_text(&self.media_type),
            created: self.created.clone(),
            modified: dup_text(&self.modified),
            parent_graph_id: dup_text(&self.parent_graph_id),
        }
    }
}

/// Whether a member is there and is not null.
pub open spec fn has_facet(v: Val, key: Seq<char>) -> bool {
    v.get(key) matches Some(f) && !(f is Null)
}

fn facet(v: &Json, key: &str) -> (r: bool)
    ensures
        r == has_facet(v@, key@),
{
    match v.get(key) {
        Some(Json::Null) => false,
        Some(_) => true,
        None => false,
    }
}

/// The file or folder that an entry of a listing describes, if it describes
/// one.
pub open spec fn node_of(v: Val, parent: Seq<char>) -> Option<NodeVal> {
    match (v.text_at("id"@), v.text_at("name"@)) {
        (Some(id), Some(name)) => if has_facet(v, "folder"@) || has_facet(v, "file"@) {
            Some(
                NodeVal {
                    graph_id: id,
                    name,
                    is_folder: has_facet(v, "folder"@),
                    media_type: match v.get("file"@) {
                        Some(f) => f.text_at("mimeType"@),
                        None => None,
                    },
                    created: calendar::text_or(v, "createdDateTime"@, "1970-01-01T00:00:00Z"@),
                    modified: v.text_at("lastModifiedDateTime"@),
                    parent_graph_id: Some(parent),
                },
            )
        } else {
            None
        },
        _ => None,
    }
}

/// An optional file or folder, seen through its view.
pub open spec fn node_view(n: Option<DriveNode>) -> Option<NodeVal> {
    match n {
        Some(x) => Some(x@),
        None => None,
    }
}

/// Reads an entry of a listing.
pub fn parse_node(value: &Json, parent_graph_id: &str) -> (r: Option<DriveNode>)
    ensures
        node_view(r) == node_of(value@, parent_graph_id@),
{
    let graph_id: String = match value.text_at("id") {
        Some(t) => t.to_owned(),
        None => {
            return None;
        },
    };
    let name: String = match value.text_at("name") {
        Some(t) => t.to_owned(),
        None => {
            return None;
        },
    };
    let is_folder: bool = facet(value, "folder");
    let is_file: bool = facet(value, "file");
    if !is_folder && !is_file {
        return None;
    }
    let media_type: Option<String> = match value.get("file") {
        Some(f) => match f.text_at("mimeType") {
            Some(t) => Some(t.to_owned()),
            None => None,
        },
        None => None,
    };
    let created: String = match value.text_at("createdDateTime") {
        Some(t) => t.to_owned(),
        None => "1970-01-01T00:00:00Z".to_owned(),
    };
    let modified: Option<String> = match value.text_at("lastModifiedDateTime") {
        Some(t) => Some(t.to_owned()),
        None => None,
    };
    Some(
        DriveNode {
            graph_id,
            name,
            is_folder,
            media_type,
            created,
            modified,
            parent_graph_id: Some(parent_graph_id.to_owned()),
        },
    )
}

/// A walk through a drive.
#[derive(Debug)]
pub struct DriveWalk {
    pub out: Vec<DriveNode>,
    pub seen: Vec<String>,
    pub frontier: Vec<String>,
}

/// What a walk holds.
pub struct DriveWalkVal {
    pub out: Seq<NodeVal>,
    pub seen: Seq<Seq<char>>,
    pub frontier: Seq<Seq<char>>,
}

impl View for DriveWalk {
    type V = DriveWalkVal;

    open spec fn view(&self) -> DriveWalkVal {
        DriveWalkVal {
            out: node_views(self.out@),
            seen: text::texts(self.seen@),
            frontier: text::texts(self.frontier@),
        }
    }
}

/// A walk after one more entry: one that was seen is passed over, and folders
/// are looked into later.
pub open spec fn with_child(w: DriveWalkVal, parent: Seq<char>, child: Val) -> DriveWalkVal {
    match node_of(child, parent) {
        Some(n) => if w.seen.contains(n.graph_id) {
            w
        } else {
            DriveWalkVal {
                out: w.out.push(n),
                seen: w.seen.push(n.graph_id),
                frontier: if n.is_folder {
                    w.frontier.push(n.graph_id)
                } else {
                    w.frontier
                },
            }
        },
        None => w,
    }
}

/// A walk after the entries of a folder.
pub open spec fn with_children(
    w: DriveWalkVal,
    parent: Seq<char>,
    children: Seq<Val>,
) -> DriveWalkVal
    decreases children.len(),
{
    if children.len() == 0 {
        w
    } else {
        with_child(with_children(w, parent, children.drop_last()), parent, children.last())
    }
}

impl DriveWalk {
    /// A walk from the root of a drive.
    pub fn new(root_id: &str) -> (r: DriveWalk)
        ensures
            r@.out.len() == 0,
            r@.seen == seq![root_id@],
            r@.frontier == seq![root_id@],
    {
        let mut seen: Vec<String> = Vec::new();
        seen.push(root_id.to_owned());
        let mut frontier: Vec<String> = Vec::new();
        frontier.push(root_id.to_owned());
        assert(text::texts(seen@) =~= seq![root_id@]);
        assert(text::texts(frontier@) =~= seq![root_id@]);
        DriveWalk { out: Vec::new(), seen, frontier }
    }

    /// The folder whose entries come next.
    pub fn next(&mut self) -> (r: Option<String>)
        ensures
            match r {
                Some(t) => {
                    &&& old(self)@.frontier.len() > 0
                    &&& t@ == old(self)@.frontier.last()
                    &&& final(self)@ == (DriveWalkVal {
                        frontier: old(self)@.frontier.drop_last(),
                        ..old(self)@
                    })
                },
                None => old(self)@.frontier.len() == 0 && final(self)@ == old(self)@,
            },
    {
        let ghost before = self.frontier@;
        let r: Option<String> = self.frontier.pop();
        proof {
            assert(text::texts(before).len() == before.len());
            if before.len() > 0 {
                assert(text::texts(self.frontier@) =~= text::texts(before).drop_last());
                assert(text::texts(before).last() == before.last()@);
            }
        }
        r
    }

    /// Takes the entries of a folder.
    pub fn take(&mut self, parent: &str, children: &Vec<Json>)
        ensures
            final(self)@ == with_children(old(self)@, parent@, json::list_view(children@)),
    {
        let ghost start = self@;
        let ghost all = json::list_view(children@);
        let mut i: usize = 0;
        assert(all.take(0) =~= Seq::empty());
        while i < children.len()
            invariant
                i <= children@.len(),
                all == json::list_view(children@),
                all.len() == children@.len(),
                self@ == with_children(start, parent@, all.take(i as int)),
            decreases children@.len() - i,
        {
            assert(all.take(i as int + 1).drop_last() =~= all.take(i as int));
            assert(all.take(i as int + 1).last() == children@[i as int]@);
            let ghost before = self@;
            if let Some(node) = parse_node(&children[i], parent) {
                let ghost n = node@;
                if text::add_text(&mut self.seen, node.graph_id.as_str()) {
                    if node.is_folder {
                        self.frontier.push(node.graph_id.clone());
                        assert(text::texts(self.frontier@) =~= before.frontier.push(n.graph_id));
                    }
                    self.out.push(node);
                    assert(node_views(self.out@) =~= before.out.push(n));
                }
            }
            i = i + 1;
        }
        assert(all.take(i as int) =~= all);
    }
}

/// Whether a walk has each file and folder once.
pub open spec fn is_proper_walk(w: DriveWalkVal) -> bool {
    &&& forall|i: int| 0 <= i < w.out.len() ==> w.seen.contains((#[trigger] w.out[i]).graph_id)
    &&& forall|i: int, j: int|
        0 <= i < j < w.out.len() ==> (#[trigger] w.out[i]).graph_id != (
        #[trigger] w.out[j]).graph_id
}

/// A walk never takes a file or folder twice, whatever the server lists.
pub proof fn drives_are_walked_once(w: DriveWalkVal, parent: Seq<char>, children: Seq<Val>)
    requires
        is_proper_walk(w),
    ensures
        is_proper_walk(with_children(w, parent, children)),
    decreases children.len(),
{
    if children.len() > 0 {
        drives_are_walked_once(w, parent, children.drop_last());
        let before = with_children(w, parent, children.drop_last());
        let after = with_child(before, parent, children.last());
        assert forall|i: int| 0 <= i < after.out.len() implies after.seen.contains(
            (#[trigger] after.out[i]).graph_id,
        ) by {
            if i < before.out.len() {
                let id = before.out[i].graph_id;
                assert(before.seen.contains(id));
                let k = choose|k: int| 0 <= k < before.seen.len() && before.seen[k] == id;
                assert(after.seen[k] == id);
            } else {
                assert(after.seen[after.seen.len() - 1] == after.out[i].graph_id);
            }
        }
        assert forall|i: int, j: int| 0 <= i < j < after.out.len() implies (
        #[trigger] after.out[i]).graph_id != (#[trigger] after.out[j]).graph_id by {
            if j < before.out.len() {
                assert(before.out[i].graph_id != before.out[j].graph_id);
            } else {
                assert(before.seen.contains(before.out[i].graph_id));
            }
        }
    }
}

/// The parent that a folder names, where the folder is one of those given.
pub open spec fn parent_in(nodes: Seq<NodeVal>, id: Seq<char>) -> Option<Seq<char>>
    decreases nodes.len(),
{
    if nodes.len() == 0 {
        None
    } else if nodes.last().graph_id == id {
        nodes.last().parent_graph_id
    } else {
        parent_in(nodes.drop_last(), id)
    }
}

/// How many parents follow one another from a folder on, up to a limit.
pub open spec fn chain(nodes: Seq<NodeVal>, id: Seq<char>, limit: nat) -> nat
    decreases limit,
{
    if limit == 0 {
        0
    } else {
        match parent_in(nodes, id) {
            Some(p) => 1 + chain(nodes, p, (limit - 1) as nat),
            None => 0,
        }
    }
}

fn find_parent(nodes: &Vec<DriveNode>, id: &str) -> (r: Option<String>)
    ensures
        json::text_view(r) == parent_in(node_views(nodes@), id@),
{
    let ghost all = node_views(nodes@);
    let mut n: usize = nodes.len();
    assert(all.take(n as int) =~= all);
    while n > 0
        invariant
            n <= nodes@.len(),
            all == node_views(nodes@),
            parent_in(all.take(n as int), id@) == parent_in(all, id@),
        decreases n,
    {
        assert(all.take(n as int).drop_last() =~= all.take(n - 1));
        assert(all.take(n as int).last() == nodes@[n - 1]@);
        if text::same(nodes[n - 1].graph_id.as_str(), id) {
            return dup_text(&nodes[n - 1].parent_graph_id);
        }
        n = n - 1;
    }
    None
}

fn depth_of(nodes: &Vec<DriveNode>, start: &str) -> (r: u128)
    ensures
        r == chain(node_views(nodes@), start@, DEPTH_LIMIT as nat),
        r <= DEPTH_LIMIT,
{
    let ghost all = node_views(nodes@);
    let mut d: u128 = 0;
    let mut id: String = start.to_owned();
    while d < DEPTH_LIMIT
        invariant
            d <= DEPTH_LIMIT,
            all == node_views(nodes@),
            d + chain(all, id@, (DEPTH_LIMIT - d) as nat) == chain(all, start@, DEPTH_LIMIT as nat),
        decreases DEPTH_LIMIT - d,
    {
        match find_parent(nodes, id.as_str()) {
            Some(p) => {
                d = d + 1;
                id = p;
            },
            None => {
                return d;
            },
        }
    }
    d
}

/// How deep each folder lies.
pub open spec fn depths(nodes: Seq<NodeVal>) -> Seq<int> {
    Seq::new(nodes.len(), |i: int| chain(nodes, nodes[i].graph_id, DEPTH_LIMIT as nat) as int)
}

/// Folders in the order of their depth.
pub open spec fn by_depth(nodes: Seq<NodeVal>) -> Seq<NodeVal> {
    let o = order::ordered(depths(nodes), nodes.len());
    Seq::new(o.len(), |i: int| nodes[o[i]])
}

/// Orders folders by their depth, so that a folder comes behind its parent.
pub fn order_by_depth(folders: &Vec<DriveNode>) -> (r: Vec<DriveNode>)
    ensures
        node_views(r@) == by_depth(node_views(folders@)),
{
    let ghost all = node_views(folders@);
    let mut keys: Vec<u128> = Vec::new();
    let mut i: usize = 0;
    while i < folders.len()
        invariant
            i <= folders@.len(),
            all == node_views(folders@),
            keys@.len() == i,
            forall|k: int| 0 <= k < i ==> (#[trigger] keys@[k]) as int == depths(all)[k],
        decreases folders@.len() - i,
    {
        assert(all[i as int] == folders@[i as int]@);
        keys.push(depth_of(folders, folders[i].graph_id.as_str()));
        i = i + 1;
    }
    assert(order::numbers(keys@) =~= depths(all));
    let indices: Vec<usize> = order::order_by_key(&keys);
    let mut r: Vec<DriveNode> = Vec::new();
    let mut j: usize = 0;
    while j < indices.len()
        invariant
            j <= indices@.len(),
            all == node_views(folders@),
            indices@.len() == folders@.len(),
            order::places(indices@) == order::ordered(depths(all), all.len()),
            forall|k: int| 0 <= k < indices@.len() ==> #[trigger] indices@[k] < folders@.len(),
            r@.len() == j,
            forall|k: int| 0 <= k < j ==> (#[trigger] r@[k])@ == by_depth(all)[k],
        decreases indices@.len() - j,
    {
        proof {
            assert(order::places(indices@)[j as int] == indices@[j as int]);
            assert(by_depth(all)[j as int] == all[indices@[j as int] as int]);
        }
        r.push(folders[indices[j]].dup());
        j = j + 1;
    }
    assert(order::places(indices@).len() == indices@.len());
    assert(node_views(r@) =~= by_depth(all));
    r
}

proof fn lemma_chain_limit(nodes: Seq<NodeVal>, id: Seq<char>, limit: nat)
    requires
        chain(nodes, id, limit) < limit,
    ensures
        chain(nodes, id, limit + 1) == chain(nodes, id, limit),
    decreases limit,
{
    if let Some(p) = parent_in(nodes, id) {
        lemma_chain_limit(nodes, p, (limit - 1) as nat);
    }
}

proof fn lemma_chain_bound(nodes: Seq<NodeVal>, id: Seq<char>, limit: nat)
    ensures
        chain(nodes, id, limit) <= limit,
    decreases limit,
{
    if limit > 0 {
        if let Some(p) = parent_in(nodes, id) {
            lemma_chain_bound(nodes, p, (limit - 1) as nat);
        }
    }
}

proof fn lemma_parent_is_shallower(nodes: Seq<NodeVal>, id: Seq<char>, p: Seq<char>)
    requires
        parent_in(nodes, id) == Some(p),
        chain(nodes, id, DEPTH_LIMIT as nat) < DEPTH_LIMIT,
    ensures
        chain(nodes, p, DEPTH_LIMIT as nat) < chain(nodes, id, DEPTH_LIMIT as nat),
{
    lemma_chain_limit(nodes, p, (DEPTH_LIMIT - 1) as nat);
}

proof fn lemma_parent_in(nodes: Seq<NodeVal>, i: int)
    requires
        0 <= i < nodes.len(),
        forall|a: int, b: int|
            0 <= a < b < nodes.len() ==> (#[trigger] nodes[a]).graph_id != (
            #[trigger] nodes[b]).graph_id,
    ensures
        parent_in(nodes, nodes[i].graph_id) == nodes[i].parent_graph_id,
    decreases nodes.len(),
{
    if i < nodes.len() - 1 {
        assert(nodes[i].graph_id != nodes[nodes.len() - 1].graph_id);
        let d = nodes.drop_last();
        assert forall|a: int, b: int| 0 <= a < b < d.len() implies (#[trigger] d[a]).graph_id != (
        #[trigger] d[b]).graph_id by {
            assert(nodes[a].graph_id != nodes[b].graph_id);
        }
        lemma_parent_in(d, i);
    }
}

/// The folders that come out of ordering are those that went in, and a folder
/// comes behind its parent, unless its parents form a circle or a chain longer
/// than is followed.
pub proof fn parents_come_before_their_children(nodes: Seq<NodeVal>, i: int, p: int)
    requires
        forall|a: int, b: int|
            0 <= a < b < nodes.len() ==> (#[trigger] nodes[a]).graph_id != (
            #[trigger] nodes[b]).graph_id,
        0 <= i < nodes.len(),
        0 <= p < nodes.len(),
        nodes[i].parent_graph_id == Some(nodes[p].graph_id),
        chain(nodes, nodes[i].graph_id, DEPTH_LIMIT as nat) < DEPTH_LIMIT,
    ensures
        by_depth(nodes).len() == nodes.len(),
        exists|a: int, b: int|
            0 <= a < b < by_depth(nodes).len() && #[trigger] by_depth(nodes)[a] == nodes[p]
                && #[trigger] by_depth(nodes)[b] == nodes[i],
{
    let keys = depths(nodes);
    let o = order::ordered(keys, nodes.len());
    order::ordering_is_stable_and_loses_nothing(keys, nodes.len());
    lemma_parent_in(nodes, i);
    lemma_parent_is_shallower(nodes, nodes[i].graph_id, nodes[p].graph_id);
    assert(keys[p] < keys[i]);
    assert(o.contains(p));
    assert(o.contains(i));
    let a = choose|a: int| 0 <= a < o.len() && o[a] == p;
    let b = choose|b: int| 0 <= b < o.len() && o[b] == i;
    if b < a {
        assert(keys[o[b]] < keys[o[a]] || (keys[o[b]] == keys[o[a]] && o[b] < o[a]));
    }
    assert(by_depth(nodes)[a] == nodes[p]);
    assert(by_depth(nodes)[b] == nodes[i]);
}

/// The folders, or the files, among files and folders.
pub open spec fn of_kind(nodes: Seq<NodeVal>, folders: bool) -> Seq<NodeVal>
    decreases nodes.len(),
{
    if nodes.len() == 0 {
        Seq::empty()
    } else if nodes.last().is_folder == folders {
        of_kind(nodes.drop_last(), folders).push(nodes.last())
    } else {
        of_kind(nodes.drop_last(), folders)
    }
}

/// Tells folders from files.
pub fn partition(nodes: &Vec<DriveNode>) -> (r: (Vec<DriveNode>, Vec<DriveNode>))
    ensures
        node_views(r.0@) == of_kind(node_views(nodes@), true),
        node_views(r.1@) == of_kind(node_views(nodes@), false),
{
    let ghost all = node_views(nodes@);
    let mut folders: Vec<DriveNode> = Vec::new();
    let mut files: Vec<DriveNode> = Vec::new();
    let mut i: usize = 0;
    proof {
        assert(all.take(0) =~= Seq::empty());
        assert(node_views(folders@) =~= Seq::empty());
        assert(node_views(files@) =~= Seq::empty());
    }
    while i < nodes.len()
        invariant
            i <= nodes@.len(),
            all == node_views(nodes@),
            node_views(folders@) == of_kind(all.take(i as int), true),
            node_views(files@) == of_kind(all.take(i as int), false),
        decreases nodes@.len() - i,
    {
        assert(all.take(i as int + 1).drop_last() =~= all.take(i as int));
        assert(all.take(i as int + 1).last() == nodes@[i as int]@);
        if nodes[i].is_folder {
            let ghost before = node_views(folders@);
            folders.push(nodes[i].dup());
            assert(node_views(folders@) =~= before.push(nodes@[i as int]@));
        } else {
            let ghost before = node_views(files@);
            files.push(nodes[i].dup());
            assert(node_views(files@) =~= before.push(nodes@[i as int]@));
        }
        i = i + 1;
    }
    assert(all.take(i as int) =~= all);
    (folders, files)
}

/// The files that the archive does not have.
pub open spec fn new_files(files: Seq<NodeVal>, local: Seq<IdRow>) -> Seq<NodeVal>
    decreases files.len(),
{
    if files.len() == 0 {
        Seq::empty()
    } else if exchange_graph_ids::local_of(local, files.last().graph_id) is Some {
        new_files(files.drop_last(), local)
    } else {
        new_files(files.drop_last(), local).push(files.last())
    }
}

/// Finds the files that the archive does not have, and counts those that it
/// has.
pub fn wanted_files(files: &Vec<DriveNode>, local: &Vec<IdRow>, counts: &mut TypeCounts) -> (r: Vec<
    DriveNode,
>)
    requires
        old(counts).fetched + files@.len() <= u64::MAX,
    ensures
        node_views(r@) == new_files(node_views(files@), local@),
        r@.len() + (final(counts).fetched - old(counts).fetched) == files@.len(),
        *final(counts) == (TypeCounts { fetched: final(counts).fetched, ..*old(counts) }),
{
    let ghost all = node_views(files@);
    let mut r: Vec<DriveNode> = Vec::new();
    let mut i: usize = 0;
    assert(all.take(0) =~= Seq::empty());
    assert(node_views(r@) =~= Seq::empty());
    while i < files.len()
        invariant
            i <= files@.len(),
            all == node_views(files@),
            old(counts).fetched + files@.len() <= u64::MAX,
            r@.len() <= i,
            counts.fetched == old(counts).fetched + i - r@.len(),
            *counts == (TypeCounts { fetched: counts.fetched, ..*old(counts) }),
            node_views(r@) == new_files(all.take(i as int), local@),
        decreases files@.len() - i,
    {
        assert(all.take(i as int + 1).drop_last() =~= all.take(i as int));
        assert(all.take(i as int + 1).last() == files@[i as int]@);
        if exchange_graph_ids::local_for_graph_id(local, files[i].graph_id.as_str()).is_some() {
            counts.fetched = counts.fetched + 1;
        } else {
            let ghost before = node_views(r@);
            r.push(files[i].dup());
            assert(node_views(r@) =~= before.push(files@[i as int]@));
        }
        i = i + 1;
    }
    assert(all.take(i as int) =~= all);
    r
}

/// The stored folder that a file or folder lies in.
pub fn parent_local(node: &DriveNode, stored: &Vec<IdRow>) -> (r: Option<i64>)
    ensures
        r == (match node@.parent_graph_id {
            Some(p) => exchange_graph_ids::local_of(stored@, p),
            None => None,
        }),
{
    match &node.parent_graph_id {
        Some(p) => exchange_graph_ids::local_for_graph_id(stored, p.as_str()),
        None => None,
    }
}

/// By how much nodes lie less deep than the deepest could.
pub open spec fn shallowness(gone: Seq<IdRow>, rows: Seq<NodeRow>) -> Seq<int> {
    Seq::new(gone.len(), |i: int| rows.len() - tree::depth(rows, gone[i].local_id))
}

/// Nodes that are deleted, the deepest first.
pub open spec fn deepest_first(gone: Seq<IdRow>, rows: Seq<NodeRow>) -> Seq<(Seq<char>, i64)> {
    let o = order::ordered(shallowness(gone, rows), gone.len());
    Seq::new(o.len(), |i: int| (gone[o[i]].graph_id@, gone[o[i]].local_id))
}

/// Every node that is deleted is deleted once, and what lies in a folder goes
/// before the folder, unless the folder's parents form a circle.
pub proof fn contents_go_before_their_folder(
    gone: Seq<IdRow>,
    rows: Seq<NodeRow>,
    inner: int,
    outer: int,
)
    requires
        0 <= inner < gone.len(),
        0 <= outer < gone.len(),
        tree::parent_of(rows, gone[inner].local_id) == Some(gone[outer].local_id),
        tree::has_top(rows, gone[outer].local_id),
    ensures
        deepest_first(gone, rows).len() == gone.len(),
        exists|a: int, b: int|
            0 <= a < b < gone.len() && #[trigger] deepest_first(gone, rows)[a] == (
                gone[inner].graph_id@,
                gone[inner].local_id,
            ) && #[trigger] deepest_first(gone, rows)[b] == (
                gone[outer].graph_id@,
                gone[outer].local_id,
            ),
{
    let keys = shallowness(gone, rows);
    let o = order::ordered(keys, gone.len());
    order::ordering_is_stable_and_loses_nothing(keys, gone.len());
    tree::children_lie_one_deeper(rows, gone[inner].local_id, gone[outer].local_id);
    assert(keys[inner] < keys[outer]);
    assert(o.contains(inner));
    assert(o.contains(outer));
    let a = choose|a: int| 0 <= a < o.len() && o[a] == inner;
    let b = choose|b: int| 0 <= b < o.len() && o[b] == outer;
    if b <= a {
        assert(b < a);
        assert(keys[o[b]] < keys[o[a]] || (keys[o[b]] == keys[o[a]] && o[b] < o[a]));
    }
    assert(deepest_first(gone, rows)[a] == (gone[inner].graph_id@, gone[inner].local_id));
    assert(deepest_first(gone, rows)[b] == (gone[outer].graph_id@, gone[outer].local_id));
}

/// Orders nodes that are deleted, so that none is deleted before those that lie
/// in it.
pub fn order_for_deletion(gone: &Vec<IdRow>, rows: &Vec<NodeRow>) -> (r: Vec<IdRow>)
    ensures
        calendar::id_views(r@) == deepest_first(gone@, rows@),
{
    let mut keys: Vec<u128> = Vec::new();
    let total: u128 = rows.len() as u128;
    let mut i: usize = 0;
    while i < gone.len()
        invariant
            i <= gone@.len(),
            total == rows@.len(),
            keys@.len() == i,
            forall|k: int| 0 <= k < i ==> (#[trigger] keys@[k]) as int == shallowness(gone@, rows@)[k],
        decreases gone@.len() - i,
    {
        keys.push(total - tree::depth_of(rows, gone[i].local_id));
        i = i + 1;
    }
    assert(order::numbers(keys@) =~= shallowness(gone@, rows@));
    let indices: Vec<usize> = order::order_by_key(&keys);
    let mut r: Vec<IdRow> = Vec::new();
    let mut j: usize = 0;
    while j < indices.len()
        invariant
            j <= indices@.len(),
            indices@.len() == gone@.len(),
            order::places(indices@) == order::ordered(shallowness(gone@, rows@), gone@.len()),
            forall|k: int| 0 <= k < indices@.len() ==> #[trigger] indices@[k] < gone@.len(),
            r@.len() == j,
            forall|k: int|
                0 <= k < j ==> ((#[trigger] r@[k]).graph_id@, r@[k].local_id) == deepest_first(
                    gone@,
                    rows@,
                )[k],
        decreases indices@.len() - j,
    {
        proof {
            assert(order::places(indices@)[j as int] == indices@[j as int]);
        }
        let at: usize = indices[j];
        r.push(IdRow { graph_id: gone[at].graph_id.clone(), local_id: gone[at].local_id });
        j = j + 1;
    }
    assert(order::places(indices@).len() == indices@.len());
    assert(calendar::id_views(r@) =~= deepest_first(gone@, rows@));
    r
}

} // verus!

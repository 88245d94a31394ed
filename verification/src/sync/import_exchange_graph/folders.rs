//! Folders, calendars and address books from Microsoft Graph: what is stored of
//! each, and in which order.

use crate::db::exchange_graph_ids;
use crate::db::exchange_graph_ids::IdRow;
use crate::json;
use crate::json::{Json, Val};
use crate::order;
use crate::sync::import_exchange_graph::calendar;
use crate::sync::import_exchange_graph::coordinator;
use crate::sync::import_exchange_graph::coordinator::FolderWalk;
use crate::text;
use vstd::prelude::*;

verus! {

/// A stored mail folder.
#[derive(Debug)]
pub struct MailFolder {
    pub graph_id: String,
    pub parent_graph_id: Option<String>,
    pub display_name: String,
    pub is_hidden: bool,
    pub local_id: i64,
}

/// A stored calendar.
#[derive(Debug)]
pub struct CalendarFolder {
    pub graph_id: String,
    pub local_id: i64,
}

/// A stored address book.
#[derive(Debug)]
pub struct ContactFolder {
    pub graph_id: String,
    pub local_id: i64,
}

/// A folder of the server that has a role.
#[derive(Debug)]
pub struct RoleOf {
    pub graph_id: String,
    pub role: &'static str,
}

/// The folders that have a role, under the names that the server knows them by.
pub open spec fn well_known() -> Seq<(Seq<char>, Seq<char>)> {
    seq![
        ("inbox"@, "inbox"@),
        ("drafts"@, "drafts"@),
        ("sentitems"@, "sent"@),
        ("deleteditems"@, "trash"@),
        ("junkemail"@, "junk"@),
        ("archive"@, "archive"@),
    ]
}

/// The folders that have a role.
pub fn well_known_roles() -> (r: Vec<(&'static str, &'static str)>)
    ensures
        r@.len() == well_known().len(),
        forall|i: int|
            0 <= i < r@.len() ==> ((#[trigger] r@[i]).0@, r@[i].1@) == well_known()[i],
{
    let mut r: Vec<(&'static str, &'static str)> = Vec::new();
    r.push(("inbox", "inbox"));
    r.push(("drafts", "drafts"));
    r.push(("sentitems", "sent"));
    r.push(("deleteditems", "trash"));
    r.push(("junkemail", "junk"));
    r.push(("archive", "archive"));
    r
}

/// The role of a folder.
pub open spec fn role_of(roles: Seq<RoleOf>, graph_id: Seq<char>) -> Option<Seq<char>>
    decreases roles.len(),
{
    if roles.len() == 0 {
        None
    } else if roles.last().graph_id@ == graph_id {
        Some(roles.last().role@)
    } else {
        role_of(roles.drop_last(), graph_id)
    }
}

fn find_role(roles: &Vec<RoleOf>, graph_id: &str) -> (r: Option<&'static str>)
    ensures
        json::str_view(r) == role_of(roles@, graph_id@),
{
    let mut n: usize = roles.len();
    assert(roles@.take(n as int) =~= roles@);
    while n > 0
        invariant
            n <= roles@.len(),
            role_of(roles@.take(n as int), graph_id@) == role_of(roles@, graph_id@),
        decreases n,
    {
        assert(roles@.take(n as int).drop_last() =~= roles@.take(n - 1));
        if text::same(roles[n - 1].graph_id.as_str(), graph_id) {
            return Some(roles[n - 1].role);
        }
        n = n - 1;
    }
    None
}

/// What is stored of a mail folder.
#[derive(Debug)]
pub struct FolderPlan {
    pub graph_id: String,
    pub parent_graph_id: Option<String>,
    pub display_name: String,
    pub is_hidden: bool,
    pub role: Option<&'static str>,
    pub parent_local: Option<i64>,
    pub existing: Option<i64>,
}

/// Whether this is what is stored of a mail folder.
pub open spec fn is_folder_plan(
    v: Val,
    roles: Seq<RoleOf>,
    stored: Seq<IdRow>,
    local: Seq<IdRow>,
    p: FolderPlan,
) -> bool {
    &&& v.text_at("id"@) == Some(p.graph_id@)
    &&& json::text_view(p.parent_graph_id) == v.text_at("parentFolderId"@)
    &&& p.display_name@ == calendar::text_or(v, "displayName"@, "Unnamed"@)
    &&& p.is_hidden == (v.bool_at("isHidden"@) == Some(true))
    &&& json::str_view(p.role) == role_of(roles, p.graph_id@)
    &&& p.parent_local == (match v.text_at("parentFolderId"@) {
        Some(t) => exchange_graph_ids::local_of(stored, t),
        None => None,
    })
    &&& p.existing == exchange_graph_ids::local_of(local, p.graph_id@)
}

/// Plans what is stored of a mail folder, given the folders that were stored
/// before it in this run and those that the archive had.
pub fn plan_mail_folder(
    v: &Json,
    roles: &Vec<RoleOf>,
    stored: &Vec<IdRow>,
    local: &Vec<IdRow>,
) -> (r: Option<FolderPlan>)
    ensures
        match r {
            Some(p) => is_folder_plan(v@, roles@, stored@, local@, p),
            None => v@.text_at("id"@) is None,
        },
{
    let graph_id: &str = match v.text_at("id") {
        Some(t) => t,
        None => {
            return None;
        },
    };
    let parent: Option<&str> = v.text_at("parentFolderId");
    let parent_local: Option<i64> = match parent {
        Some(p) => exchange_graph_ids::local_for_graph_id(stored, p),
        None => None,
    };
    Some(
        FolderPlan {
            graph_id: graph_id.to_owned(),
            parent_graph_id: match parent {
                Some(p) => Some(p.to_owned()),
                None => None,
            },
            display_name: calendar::text_at_or(v, "displayName", "Unnamed"),
            is_hidden: match v.bool_at("isHidden") {
                Some(b) => b,
                None => false,
            },
            role: find_role(roles, graph_id),
            parent_local,
            existing: exchange_graph_ids::local_for_graph_id(local, graph_id),
        },
    )
}

/// What is stored of a calendar.
#[derive(Debug)]
pub struct CalendarPlan {
    pub graph_id: String,
    pub name: String,
    pub color: Option<String>,
    pub is_default: bool,
    pub existing: Option<i64>,
}

/// Plans what is stored of a calendar. `named_color` is the color that the name
/// of the calendar's color stands for.
pub fn plan_calendar(v: &Json, named_color: Option<&str>, local: &Vec<IdRow>) -> (r: Option<
    CalendarPlan,
>)
    ensures
        match r {
            Some(p) => {
                &&& v@.text_at("id"@) == Some(p.graph_id@)
                &&& p.name@ == calendar::text_or(v@, "name"@, "Calendar"@)
                &&& json::text_view(p.color) == (match v@.text_at("hexColor"@) {
                    Some(t) => Some(t),
                    None => if v@.text_at("color"@) is Some {
                        json::str_view(named_color)
                    } else {
                        None
                    },
                })
                &&& p.is_default == (v@.bool_at("isDefaultCalendar"@) == Some(true))
                &&& p.existing == exchange_graph_ids::local_of(local@, p.graph_id@)
            },
            None => v@.text_at("id"@) is None,
        },
{
    let graph_id: &str = match v.text_at("id") {
        Some(t) => t,
        None => {
            return None;
        },
    };
    let color: Option<String> = match v.text_at("hexColor") {
        Some(t) => Some(t.to_owned()),
        None => match v.text_at("color") {
            Some(_) => match named_color {
                Some(t) => Some(t.to_owned()),
                None => None,
            },
            None => None,
        },
    };
    Some(
        CalendarPlan {
            graph_id: graph_id.to_owned(),
            name: calendar::text_at_or(v, "name", "Calendar"),
            color,
            is_default: match v.bool_at("isDefaultCalendar") {
                Some(b) => b,
                None => false,
            },
            existing: exchange_graph_ids::local_for_graph_id(local, graph_id),
        },
    )
}

/// What is stored of an address book.
#[derive(Debug)]
pub struct BookPlan {
    pub graph_id: String,
    pub name: String,
    pub claims_default: bool,
    pub existing: Option<i64>,
}

/// Plans what is stored of an address book.
pub fn plan_address_book(v: &Json, default_id: Option<&str>, local: &Vec<IdRow>) -> (r: Option<
    BookPlan,
>)
    ensures
        match r {
            Some(p) => {
                &&& v@.text_at("id"@) == Some(p.graph_id@)
                &&& p.name@ == calendar::text_or(v@, "displayName"@, "Contacts"@)
                &&& p.claims_default == (json::str_view(default_id) == Some(p.graph_id@))
                &&& p.existing == exchange_graph_ids::local_of(local@, p.graph_id@)
            },
            None => v@.text_at("id"@) is None,
        },
{
    let graph_id: &str = match v.text_at("id") {
        Some(t) => t,
        None => {
            return None;
        },
    };
    Some(
        BookPlan {
            graph_id: graph_id.to_owned(),
            name: calendar::text_at_or(v, "displayName", "Contacts"),
            claims_default: match default_id {
                Some(d) => text::same(d, graph_id),
                None => false,
            },
            existing: exchange_graph_ids::local_for_graph_id(local, graph_id),
        },
    )
}

/// The ids in a listing, each once.
pub open spec fn ids_in(list: Seq<Val>) -> Seq<Seq<char>>
    decreases list.len(),
{
    if list.len() == 0 {
        Seq::empty()
    } else {
        match list.last().text_at("id"@) {
            Some(id) => text::with_text(ids_in(list.drop_last()), id),
            None => ids_in(list.drop_last()),
        }
    }
}

/// The walk through the address books that begins with a listing and the
/// default one: it comes first where the listing does not have it.
pub open spec fn first_books(list: Seq<Val>, default: Option<Val>) -> coordinator::WalkVal {
    let seen = ids_in(list);
    match default {
        Some(d) => match d.text_at("id"@) {
            Some(id) => if seen.contains(id) {
                coordinator::WalkVal { all: list, frontier: seen, seen }
            } else {
                coordinator::WalkVal {
                    all: seq![d] + list,
                    frontier: seen.push(id),
                    seen: seen.push(id),
                }
            },
            None => coordinator::WalkVal { all: list, frontier: seen, seen },
        },
        None => coordinator::WalkVal { all: list, frontier: seen, seen },
    }
}

fn copied_texts(v: &Vec<String>) -> (r: Vec<String>)
    ensures
        text::texts(r@) == text::texts(v@),
{
    let mut r: Vec<String> = Vec::new();
    let mut i: usize = 0;
    while i < v.len()
        invariant
            i <= v@.len(),
            r@.len() == i,
            forall|k: int| 0 <= k < i ==> (#[trigger] r@[k])@ == v@[k]@,
        decreases v@.len() - i,
    {
        r.push(v[i].clone());
        i = i + 1;
    }
    assert(text::texts(r@) =~= text::texts(v@));
    r
}

/// Begins a walk through the address books, and says which is the default one.
pub fn begin_books(server: Vec<Json>, default: Option<Json>) -> (r: (FolderWalk, Option<String>))
    ensures
        r.0@ == first_books(json::list_view(server@), json::opt_view(default)),
        json::text_view(r.1) == (match json::opt_view(default) {
            Some(d) => d.text_at("id"@),
            None => None,
        }),
{
    let ghost list = json::list_view(server@);
    let mut seen: Vec<String> = Vec::new();
    let mut i: usize = 0;
    assert(list.take(0) =~= Seq::empty());
    assert(text::texts(seen@) =~= Seq::empty());
    while i < server.len()
        invariant
            i <= server@.len(),
            list == json::list_view(server@),
            list.len() == server@.len(),
            text::texts(seen@) == ids_in(list.take(i as int)),
        decreases server@.len() - i,
    {
        assert(list.take(i as int + 1).drop_last() =~= list.take(i as int));
        assert(list.take(i as int + 1).last() == server@[i as int]@);
        if let Some(id) = server[i].text_at("id") {
            let _ = text::add_text(&mut seen, id);
        }
        i = i + 1;
    }
    assert(list.take(i as int) =~= list);
    let mut all: Vec<Json> = server;
    let mut default_id: Option<String> = None;
    if let Some(d) = default {
        let ghost first = d@;
        let id: Option<String> = match d.text_at("id") {
            Some(t) => Some(t.to_owned()),
            None => None,
        };
        if let Some(t) = id {
            if text::add_text(&mut seen, t.as_str()) {
                all.insert(0, d);
                assert(json::list_view(all@) =~= seq![first] + list);
            }
            default_id = Some(t);
        }
    }
    let frontier: Vec<String> = copied_texts(&seen);
    (FolderWalk { all, frontier, seen }, default_id)
}

/// Whether an answer is a folder: it has an id.
pub fn is_folder(v: &Json) -> (r: bool)
    ensures
        r == (v@.text_at("id"@) is Some),
{
    v.text_at("id").is_some()
}

/// The folder that the first contact of a listing lies in.
pub open spec fn parent_of_first(probe: Val) -> Option<Seq<char>> {
    match probe.list_at("value"@) {
        Some(l) => if l.len() > 0 {
            l[0].text_at("parentFolderId"@)
        } else {
            None
        },
        None => None,
    }
}

/// Reads the folder that the first contact of a listing lies in.
pub fn probe_parent(probe: &Json) -> (r: Option<String>)
    ensures
        json::text_view(r) == parent_of_first(probe@),
{
    match probe.list_at("value") {
        Some(l) => {
            assert(json::list_view(l@).len() == l@.len());
            if l.len() > 0 {
                assert(json::list_view(l@)[0] == l@[0]@);
                match l[0].text_at("parentFolderId") {
                    Some(t) => Some(t.to_owned()),
                    None => None,
                }
            } else {
                None
            }
        },
        None => None,
    }
}

/// A folder of a listing and the parent that it names.
#[derive(Debug)]
pub struct Link {
    pub id: String,
    pub parent: Option<String>,
}

/// A folder of a listing and the parent that it names, as texts.
pub struct LinkVal {
    pub id: Seq<char>,
    pub parent: Option<Seq<char>>,
}

/// Folders and the parents that they name.
pub open spec fn link_views(v: Seq<Link>) -> Seq<LinkVal> {
    Seq::new(v.len(), |i: int| LinkVal { id: v[i].id@, parent: json::text_view(v[i].parent) })
}

/// The folders of a listing that have an id, with the parents that they name.
pub open spec fn links_of(list: Seq<Val>) -> Seq<LinkVal>
    decreases list.len(),
{
    if list.len() == 0 {
        Seq::empty()
    } else {
        match list.last().text_at("id"@) {
            Some(id) => links_of(list.drop_last()).push(
                LinkVal { id, parent: list.last().text_at("parentFolderId"@) },
            ),
            None => links_of(list.drop_last()),
        }
    }
}

/// The link of a folder, if the listing has it.
pub open spec fn link_of(links: Seq<LinkVal>, id: Seq<char>) -> Option<LinkVal>
    decreases links.len(),
{
    if links.len() == 0 {
        None
    } else if links.last().id == id {
        Some(links.last())
    } else {
        link_of(links.drop_last(), id)
    }
}

/// The parent of a folder, where the listing has both.
pub open spec fn known_parent(links: Seq<LinkVal>, id: Seq<char>) -> Option<Seq<char>> {
    match link_of(links, id) {
        Some(l) => match l.parent {
            Some(p) => if link_of(links, p) is Some {
                Some(p)
            } else {
                None
            },
            None => None,
        },
        None => None,
    }
}

/// A depth that was found out before.
pub open spec fn noted_depth(memo: Seq<(Seq<char>, nat)>, id: Seq<char>) -> Option<nat>
    decreases memo.len(),
{
    if memo.len() == 0 {
        None
    } else if memo.last().0 == id {
        Some(memo.last().1)
    } else {
        noted_depth(memo.drop_last(), id)
    }
}

/// How deep a folder lies, and what is noted of depths after finding out. A
/// folder that is met again on the way up counts as a root.
pub open spec fn depth_walk(
    links: Seq<LinkVal>,
    id: Seq<char>,
    memo: Seq<(Seq<char>, nat)>,
    seen: Seq<Seq<char>>,
    fuel: nat,
) -> (nat, Seq<(Seq<char>, nat)>)
    decreases fuel,
{
    match noted_depth(memo, id) {
        Some(d) => (d, memo),
        None => if fuel == 0 || seen.contains(id) {
            (0, memo)
        } else {
            match known_parent(links, id) {
                Some(p) => {
                    let up = depth_walk(links, p, memo, seen.push(id), (fuel - 1) as nat);
                    (up.0 + 1, up.1.push((id, up.0 + 1)))
                },
                None => (0, memo.push((id, 0))),
            }
        },
    }
}

/// Noted depths, as texts and numbers.
pub open spec fn memo_view(memo: Seq<(String, u128)>) -> Seq<(Seq<char>, nat)> {
    Seq::new(memo.len(), |i: int| (memo[i].0@, memo[i].1 as nat))
}

fn find_noted(memo: &Vec<(String, u128)>, id: &str) -> (r: Option<usize>)
    ensures
        match r {
            Some(i) => i < memo@.len() && noted_depth(memo_view(memo@), id@) == Some(
                memo@[i as int].1 as nat,
            ),
            None => noted_depth(memo_view(memo@), id@) is None,
        },
{
    let ghost all = memo_view(memo@);
    let mut n: usize = memo.len();
    assert(all.take(n as int) =~= all);
    while n > 0
        invariant
            n <= memo@.len(),
            all == memo_view(memo@),
            noted_depth(all.take(n as int), id@) == noted_depth(all, id@),
        decreases n,
    {
        assert(all.take(n as int).drop_last() =~= all.take(n - 1));
        assert(all.take(n as int).last() == (memo@[n - 1].0@, memo@[n - 1].1 as nat));
        if text::same(memo[n - 1].0.as_str(), id) {
            return Some(n - 1);
        }
        n = n - 1;
    }
    None
}

fn find_link(links: &Vec<Link>, id: &str) -> (r: Option<usize>)
    ensures
        match r {
            Some(i) => i < links@.len() && link_of(link_views(links@), id@) == Some(
                link_views(links@)[i as int],
            ),
            None => link_of(link_views(links@), id@) is None,
        },
{
    let ghost all = link_views(links@);
    let mut n: usize = links.len();
    assert(all.take(n as int) =~= all);
    while n > 0
        invariant
            n <= links@.len(),
            all == link_views(links@),
            link_of(all.take(n as int), id@) == link_of(all, id@),
        decreases n,
    {
        assert(all.take(n as int).drop_last() =~= all.take(n - 1));
        assert(all.take(n as int).last() == all[n - 1]);
        if text::same(links[n - 1].id.as_str(), id) {
            return Some(n - 1);
        }
        n = n - 1;
    }
    None
}

fn find_known_parent(links: &Vec<Link>, id: &str) -> (r: Option<String>)
    ensures
        json::text_view(r) == known_parent(link_views(links@), id@),
{
    match find_link(links, id) {
        Some(i) => match &links[i].parent {
            Some(p) => {
                if find_link(links, p.as_str()).is_some() {
                    Some(p.clone())
                } else {
                    None
                }
            },
            None => None,
        },
        None => None,
    }
}

fn walk_depth(
    links: &Vec<Link>,
    id: &str,
    memo: &mut Vec<(String, u128)>,
    seen: &mut Vec<String>,
    fuel: usize,
) -> (r: u128)
    requires
        forall|k: int| 0 <= k < old(memo)@.len() ==> (#[trigger] old(memo)@[k]).1 <= k + 1,
    ensures
        (r as nat, memo_view(final(memo)@)) == depth_walk(
            link_views(links@),
            id@,
            memo_view(old(memo)@),
            text::texts(old(seen)@),
            fuel as nat,
        ),
        forall|k: int| 0 <= k < final(memo)@.len() ==> (#[trigger] final(memo)@[k]).1 <= k + 1,
        r <= final(memo)@.len(),
    decreases fuel,
{
    if let Some(i) = find_noted(memo, id) {
        assert(memo@[i as int].1 <= i + 1);
        return memo[i].1;
    }
    if fuel == 0 || text::has_text(seen, id) {
        return 0;
    }
    match find_known_parent(links, id) {
        Some(p) => {
            let ghost met = text::texts(seen@);
            seen.push(id.to_owned());
            assert(text::texts(seen@) =~= met.push(id@));
            let up: u128 = walk_depth(links, p.as_str(), memo, seen, fuel - 1);
            let n: usize = memo.len();
            assert(up <= n);
            let d: u128 = up + 1;
            let ghost before = memo_view(memo@);
            memo.push((id.to_owned(), d));
            assert(memo_view(memo@) =~= before.push((id@, d as nat)));
            d
        },
        None => {
            let ghost before = memo_view(memo@);
            memo.push((id.to_owned(), 0));
            assert(memo_view(memo@) =~= before.push((id@, 0nat)));
            0
        },
    }
}

/// The id of a folder, empty where it has none.
pub open spec fn id_or_empty(v: Val) -> Seq<char> {
    calendar::text_or(v, "id"@, ""@)
}

/// How deep the first folders of a listing lie, and what is noted of depths
/// after finding out.
pub open spec fn depths_walk(list: Seq<Val>, links: Seq<LinkVal>, n: nat) -> (
    Seq<int>,
    Seq<(Seq<char>, nat)>,
)
    decreases n,
{
    if n == 0 {
        (Seq::empty(), Seq::empty())
    } else {
        let before = depths_walk(list, links, (n - 1) as nat);
        let one = depth_walk(
            links,
            id_or_empty(list[n - 1]),
            before.1,
            Seq::empty(),
            links.len() + 1,
        );
        (before.0.push(one.0 as int), one.1)
    }
}

/// The folders of a listing in the order of their depth.
pub open spec fn by_parent(list: Seq<Val>) -> Seq<Val> {
    let keys = depths_walk(list, links_of(list), list.len()).0;
    let o = order::ordered(keys, list.len());
    Seq::new(o.len(), |i: int| list[o[i]])
}

fn collect_links(server: &Vec<Json>) -> (r: Vec<Link>)
    ensures
        link_views(r@) == links_of(json::list_view(server@)),
{
    let ghost list = json::list_view(server@);
    let mut r: Vec<Link> = Vec::new();
    let mut i: usize = 0;
    assert(list.take(0) =~= Seq::empty());
    assert(link_views(r@) =~= Seq::empty());
    while i < server.len()
        invariant
            i <= server@.len(),
            list == json::list_view(server@),
            list.len() == server@.len(),
            link_views(r@) == links_of(list.take(i as int)),
        decreases server@.len() - i,
    {
        assert(list.take(i as int + 1).drop_last() =~= list.take(i as int));
        assert(list.take(i as int + 1).last() == server@[i as int]@);
        if let Some(id) = server[i].text_at("id") {
            let ghost before = link_views(r@);
            let parent: Option<String> = match server[i].text_at("parentFolderId") {
                Some(p) => Some(p.to_owned()),
                None => None,
            };
            let ghost named = json::text_view(parent);
            r.push(Link { id: id.to_owned(), parent });
            assert(link_views(r@) =~= before.push(LinkVal { id: id@, parent: named }));
        }
        i = i + 1;
    }
    assert(list.take(i as int) =~= list);
    r
}

/// Orders the folders of a listing by their depth, so that a folder comes behind
/// its parent.
pub fn order_by_parent(server: &Vec<Json>) -> (r: Vec<Json>)
    ensures
        json::list_view(r@) == by_parent(json::list_view(server@)),
{
    let ghost list = json::list_view(server@);
    let links: Vec<Link> = collect_links(server);
    let ghost named = links_of(list);
    let total: usize = links.len();
    assert(link_views(links@).len() == links@.len());
    let mut memo: Vec<(String, u128)> = Vec::new();
    let mut keys: Vec<u128> = Vec::new();
    let mut i: usize = 0;
    assert(memo_view(memo@) =~= Seq::empty());
    assert(order::numbers(keys@) =~= Seq::empty());
    while i < server.len()
        invariant
            i <= server@.len(),
            list == json::list_view(server@),
            list.len() == server@.len(),
            named == links_of(list),
            link_views(links@) == named,
            total == links@.len(),
            named.len() == total,
            keys@.len() == i,
            order::numbers(keys@) == depths_walk(list, named, i as nat).0,
            memo_view(memo@) == depths_walk(list, named, i as nat).1,
            forall|k: int| 0 <= k < memo@.len() ==> (#[trigger] memo@[k]).1 <= k + 1,
        decreases server@.len() - i,
    {
        assert(list[i as int] == server@[i as int]@);
        let id: String = calendar::text_at_or(&server[i], "id", "");
        let d: u128 = walk_root(&links, id.as_str(), &mut memo);
        let ghost before = order::numbers(keys@);
        keys.push(d);
        assert(order::numbers(keys@) =~= before.push(d as int));
        i = i + 1;
    }
    let indices: Vec<usize> = order::order_by_key(&keys);
    let mut r: Vec<Json> = Vec::new();
    let mut j: usize = 0;
    while j < indices.len()
        invariant
            j <= indices@.len(),
            list == json::list_view(server@),
            list.len() == server@.len(),
            indices@.len() == server@.len(),
            order::places(indices@) == order::ordered(
                depths_walk(list, links_of(list), list.len()).0,
                list.len(),
            ),
            forall|k: int| 0 <= k < indices@.len() ==> #[trigger] indices@[k] < server@.len(),
            r@.len() == j,
            forall|k: int| 0 <= k < j ==> (#[trigger] r@[k])@ == by_parent(list)[k],
        decreases indices@.len() - j,
    {
        proof {
            assert(order::places(indices@)[j as int] == indices@[j as int]);
            assert(by_parent(list)[j as int] == list[indices@[j as int] as int]);
        }
        r.push(server[indices[j]].dup());
        j = j + 1;
    }
    assert(order::places(indices@).len() == indices@.len());
    assert(json::list_view(r@) =~= by_parent(list));
    r
}

fn walk_root(links: &Vec<Link>, id: &str, memo: &mut Vec<(String, u128)>) -> (r: u128)
    requires
        forall|k: int| 0 <= k < old(memo)@.len() ==> (#[trigger] old(memo)@[k]).1 <= k + 1,
    ensures
        (r as nat, memo_view(final(memo)@)) == depth_walk(
            link_views(links@),
            id@,
            memo_view(old(memo)@),
            Seq::empty(),
            link_views(links@).len() + 1,
        ),
        forall|k: int| 0 <= k < final(memo)@.len() ==> (#[trigger] final(memo)@[k]).1 <= k + 1,
{
    if let Some(i) = find_noted(memo, id) {
        return memo[i].1;
    }
    match find_known_parent(links, id) {
        Some(p) => {
            let mut seen: Vec<String> = Vec::new();
            seen.push(id.to_owned());
            assert(text::texts(seen@) =~= Seq::<Seq<char>>::empty().push(id@));
            let up: u128 = walk_depth(links, p.as_str(), memo, &mut seen, links.len());
            let n: usize = memo.len();
            assert(up <= n);
            let d: u128 = up + 1;
            let ghost before = memo_view(memo@);
            memo.push((id.to_owned(), d));
            assert(memo_view(memo@) =~= before.push((id@, d as nat)));
            d
        },
        None => {
            let ghost before = memo_view(memo@);
            memo.push((id.to_owned(), 0));
            assert(memo_view(memo@) =~= before.push((id@, 0nat)));
            0
        },
    }
}

proof fn lemma_depths_len(list: Seq<Val>, links: Seq<LinkVal>, n: nat)
    ensures
        depths_walk(list, links, n).0.len() == n,
    decreases n,
{
    if n > 0 {
        lemma_depths_len(list, links, (n - 1) as nat);
    }
}

/// Ordering folders loses none of them and takes none twice: each stands at one
/// place of the result.
pub proof fn ordering_keeps_every_folder(list: Seq<Val>, i: int)
    requires
        0 <= i < list.len(),
    ensures
        by_parent(list).len() == list.len(),
        by_parent(list).contains(list[i]),
{
    let keys = depths_walk(list, links_of(list), list.len()).0;
    let o = order::ordered(keys, list.len());
    order::ordering_is_stable_and_loses_nothing(keys, list.len());
    assert(o.contains(i));
    let a = choose|a: int| 0 <= a < o.len() && o[a] == i;
    assert(by_parent(list)[a] == list[i]);
}

/// The folder that lies some steps above another, as far as the listing has
/// them.
pub open spec fn climb(links: Seq<LinkVal>, id: Seq<char>, steps: nat) -> Option<Seq<char>>
    decreases steps,
{
    if steps == 0 {
        Some(id)
    } else {
        match known_parent(links, id) {
            Some(p) => climb(links, p, (steps - 1) as nat),
            None => None,
        }
    }
}

/// Whether the folders above a folder end, and so form no circle.
pub open spec fn has_top(links: Seq<LinkVal>, id: Seq<char>) -> bool {
    exists|n: nat| #[trigger] climb(links, id, n) is None
}

/// How many folders lie above a folder, at most `limit`.
pub open spec fn height(links: Seq<LinkVal>, id: Seq<char>, limit: nat) -> nat
    decreases limit,
{
    if limit == 0 {
        0
    } else {
        match known_parent(links, id) {
            Some(p) => 1 + height(links, p, (limit - 1) as nat),
            None => 0,
        }
    }
}

proof fn lemma_climb_adds(links: Seq<LinkVal>, id: Seq<char>, a: nat, b: nat)
    ensures
        climb(links, id, a + b) == (match climb(links, id, a) {
            Some(x) => climb(links, x, b),
            None => None,
        }),
    decreases a,
{
    if a > 0 {
        if let Some(p) = known_parent(links, id) {
            lemma_climb_adds(links, p, (a - 1) as nat, b);
        }
    }
}

proof fn lemma_climb_over(links: Seq<LinkVal>, id: Seq<char>, a: nat, b: nat)
    requires
        climb(links, id, a) is None,
        a <= b,
    ensures
        climb(links, id, b) is None,
{
    lemma_climb_adds(links, id, a, (b - a) as nat);
}

proof fn lemma_circle_goes_on(links: Seq<LinkVal>, id: Seq<char>, period: nat, n: nat)
    requires
        period > 0,
        climb(links, id, period) == Some(id),
    ensures
        climb(links, id, n) is Some,
    decreases n,
{
    if n < period {
        if climb(links, id, n) is None {
            lemma_climb_over(links, id, n, period);
        }
    } else {
        lemma_climb_adds(links, id, period, (n - period) as nat);
        lemma_circle_goes_on(links, id, period, (n - period) as nat);
    }
}

/// The ids of the folders of a listing.
pub open spec fn link_ids(links: Seq<LinkVal>) -> Seq<Seq<char>> {
    Seq::new(links.len(), |i: int| links[i].id)
}

proof fn lemma_link_is_listed(links: Seq<LinkVal>, id: Seq<char>)
    requires
        link_of(links, id) is Some,
    ensures
        link_ids(links).contains(id),
    decreases links.len(),
{
    let ids = link_ids(links);
    if links.last().id == id {
        assert(ids[links.len() - 1] == id);
    } else {
        lemma_link_is_listed(links.drop_last(), id);
        let before = link_ids(links.drop_last());
        let k = choose|k: int| 0 <= k < before.len() && before[k] == id;
        assert(ids[k] == id);
    }
}

proof fn lemma_top_within(links: Seq<LinkVal>, id: Seq<char>)
    requires
        has_top(links, id),
    ensures
        climb(links, id, links.len() + 1) is None,
{
    let top = choose|n: nat| #[trigger] climb(links, id, n) is None;
    let total = links.len();
    if climb(links, id, total + 1) is Some {
        let path = Seq::new(total + 1, |k: int| climb(links, id, k as nat)->0);
        let ids = link_ids(links);
        assert forall|k: int| 0 <= k <= total implies climb(links, id, k as nat) is Some && #[trigger]
            ids.contains(path[k]) by {
            let n = k as nat;
            if climb(links, id, n) is None {
                lemma_climb_over(links, id, n, total + 1);
            }
            if climb(links, id, n + 1) is None {
                lemma_climb_over(links, id, n + 1, total + 1);
            }
            lemma_climb_adds(links, id, n, 1);
            let x = climb(links, id, n)->0;
            reveal_with_fuel(climb, 2);
            assert(known_parent(links, x) is Some);
            lemma_link_is_listed(links, x);
        }
        assert forall|a: int, b: int| 0 <= a < b < path.len() implies path[a] != path[b] by {
            assert(ids.contains(path[a]) && ids.contains(path[b]));
            if path[a] == path[b] {
                let x = path[a];
                let from = a as nat;
                let period = (b - a) as nat;
                lemma_climb_adds(links, id, from, period);
                assert(climb(links, x, period) == Some(x));
                lemma_circle_goes_on(links, x, period, top);
                lemma_climb_adds(links, id, from, top);
                lemma_climb_over(links, id, top, from + top);
            }
        }
        assert(path.no_duplicates());
        path.unique_seq_to_set();
        ids.lemma_cardinality_of_set();
        assert(path.to_set().subset_of(ids.to_set())) by {
            assert forall|x: Seq<char>| path.to_set().contains(x) implies ids.to_set().contains(
                x,
            ) by {
                let k = choose|k: int| 0 <= k < path.len() && path[k] == x;
                assert(ids.contains(path[k]));
            }
        }
        vstd::set_lib::lemma_len_subset(path.to_set(), ids.to_set());
    }
}

proof fn lemma_height_settles(links: Seq<LinkVal>, id: Seq<char>, a: nat, b: nat)
    requires
        climb(links, id, a) is None,
        a <= b,
    ensures
        height(links, id, a) == height(links, id, b),
    decreases a,
{
    if let Some(p) = known_parent(links, id) {
        lemma_height_settles(links, p, (a - 1) as nat, (b - 1) as nat);
    }
}

proof fn lemma_parent_has_top(links: Seq<LinkVal>, id: Seq<char>, p: Seq<char>)
    requires
        known_parent(links, id) == Some(p),
    ensures
        has_top(links, id) <==> has_top(links, p),
        has_top(links, id) ==> height(links, id, links.len() + 1) == 1 + height(
            links,
            p,
            links.len() + 1,
        ),
{
    if has_top(links, id) {
        let n = choose|n: nat| #[trigger] climb(links, id, n) is None;
        assert(climb(links, p, (n - 1) as nat) is None);
        lemma_top_within(links, id);
        lemma_height_settles(links, p, links.len(), links.len() + 1);
    }
    if has_top(links, p) {
        let n = choose|n: nat| #[trigger] climb(links, p, n) is None;
        assert(climb(links, id, n + 1) is None);
    }
}

/// Whether what is noted of depths holds for every folder that lies in no
/// circle.
pub open spec fn is_true_memo(links: Seq<LinkVal>, memo: Seq<(Seq<char>, nat)>) -> bool {
    forall|x: Seq<char>|
        (#[trigger] noted_depth(memo, x)) is Some && has_top(links, x) ==> noted_depth(memo, x)->0
            == height(links, x, links.len() + 1)
}

proof fn lemma_noted(links: Seq<LinkVal>, memo: Seq<(Seq<char>, nat)>, id: Seq<char>, d: nat)
    requires
        is_true_memo(links, memo),
        has_top(links, id) ==> d == height(links, id, links.len() + 1),
    ensures
        is_true_memo(links, memo.push((id, d))),
{
    let more = memo.push((id, d));
    assert(more.drop_last() =~= memo);
    assert forall|x: Seq<char>|
        (#[trigger] noted_depth(more, x)) is Some && has_top(links, x) implies noted_depth(more, x)->0 == height(links, x, links.len() + 1) by {
        assert(x != id ==> noted_depth(more, x) == noted_depth(memo, x));
    }
}

/// Whether one folder lies somewhere above another.
pub open spec fn lies_above(links: Seq<LinkVal>, above: Seq<char>, id: Seq<char>) -> bool {
    exists|n: nat| n > 0 && #[trigger] climb(links, id, n) == Some(above)
}

proof fn lemma_depth_walk(
    links: Seq<LinkVal>,
    id: Seq<char>,
    memo: Seq<(Seq<char>, nat)>,
    seen: Seq<Seq<char>>,
    fuel: nat,
)
    requires
        is_true_memo(links, memo),
        has_top(links, id) ==> climb(links, id, fuel) is None,
        forall|k: int| 0 <= k < seen.len() ==> lies_above(links, id, #[trigger] seen[k]),
    ensures
        is_true_memo(links, depth_walk(links, id, memo, seen, fuel).1),
        has_top(links, id) ==> depth_walk(links, id, memo, seen, fuel).0 == height(
            links,
            id,
            links.len() + 1,
        ),
    decreases fuel,
{
    if noted_depth(memo, id) is None {
        if seen.contains(id) {
            let k = choose|k: int| 0 <= k < seen.len() && seen[k] == id;
            assert(lies_above(links, id, seen[k]));
            let period = choose|n: nat| n > 0 && #[trigger] climb(links, id, n) == Some(id);
            if has_top(links, id) {
                let top = choose|n: nat| #[trigger] climb(links, id, n) is None;
                lemma_circle_goes_on(links, id, period, top);
            }
        } else if fuel > 0 {
            match known_parent(links, id) {
                Some(p) => {
                    lemma_parent_has_top(links, id, p);
                    let on = seen.push(id);
                    assert forall|k: int| 0 <= k < on.len() implies lies_above(
                        links,
                        p,
                        #[trigger] on[k],
                    ) by {
                        reveal_with_fuel(climb, 2);
                        assert(climb(links, id, 1) == Some(p));
                        if k < seen.len() {
                            assert(lies_above(links, id, seen[k]));
                            let n = choose|n: nat|
                                n > 0 && #[trigger] climb(links, seen[k], n) == Some(id);
                            lemma_climb_adds(links, seen[k], n, 1);
                            assert(climb(links, on[k], n + 1) == Some(p));
                        } else {
                            assert(climb(links, on[k], 1) == Some(p));
                        }
                    }
                    lemma_depth_walk(links, p, memo, on, (fuel - 1) as nat);
                    let up = depth_walk(links, p, memo, on, (fuel - 1) as nat);
                    lemma_noted(links, up.1, id, up.0 + 1);
                },
                None => {
                    lemma_noted(links, memo, id, 0);
                },
            }
        }
    }
}

proof fn lemma_depths_walk(list: Seq<Val>, links: Seq<LinkVal>, n: nat)
    requires
        n <= list.len(),
    ensures
        is_true_memo(links, depths_walk(list, links, n).1),
        forall|k: int|
            0 <= k < n && has_top(links, id_or_empty(list[k])) ==> #[trigger] depths_walk(
                list,
                links,
                n,
            ).0[k] == height(links, id_or_empty(list[k]), links.len() + 1),
    decreases n,
{
    lemma_depths_len(list, links, n);
    if n > 0 {
        let m = (n - 1) as nat;
        lemma_depths_walk(list, links, m);
        lemma_depths_len(list, links, m);
        let before = depths_walk(list, links, m);
        let id = id_or_empty(list[n - 1]);
        if has_top(links, id) {
            lemma_top_within(links, id);
        }
        lemma_depth_walk(links, id, before.1, Seq::empty(), links.len() + 1);
        assert forall|k: int|
            0 <= k < n && has_top(links, id_or_empty(list[k])) implies #[trigger] depths_walk(
            list,
            links,
            n,
        ).0[k] == height(links, id_or_empty(list[k]), links.len() + 1) by {
            if k < m {
                assert(depths_walk(list, links, n).0[k] == before.0[k]);
            }
        }
    }
}

proof fn lemma_links_of(list: Seq<Val>, i: int)
    requires
        0 <= i < list.len(),
        list[i].text_at("id"@) is Some,
        forall|a: int, b: int|
            0 <= a < b < list.len() && (#[trigger] list[a]).text_at("id"@) is Some ==> list[a].text_at(
                "id"@,
            ) != (#[trigger] list[b]).text_at("id"@),
    ensures
        link_of(links_of(list), list[i].text_at("id"@)->0) matches Some(l) && l.parent
            == list[i].text_at("parentFolderId"@),
    decreases list.len(),
{
    let d = list.drop_last();
    let n = list.len() - 1;
    let rest = links_of(d);
    if list[n].text_at("id"@) is Some {
        let l = LinkVal {
            id: list[n].text_at("id"@)->0,
            parent: list[n].text_at("parentFolderId"@),
        };
        assert(links_of(list) == rest.push(l));
        assert(rest.push(l).drop_last() =~= rest);
    }
    if i < n {
        assert(list[i].text_at("id"@) != list[n].text_at("id"@));
        assert forall|a: int, b: int|
            0 <= a < b < d.len() && (#[trigger] d[a]).text_at("id"@) is Some implies d[a].text_at(
            "id"@,
        ) != (#[trigger] d[b]).text_at("id"@) by {
            assert(list[a].text_at("id"@) != list[b].text_at("id"@));
        }
        lemma_links_of(d, i);
    }
}

/// A folder comes behind its parent, unless the folders above it form a circle.
pub proof fn parents_come_first(list: Seq<Val>, i: int, j: int)
    requires
        0 <= i < list.len(),
        0 <= j < list.len(),
        list[i].text_at("id"@) is Some,
        list[j].text_at("id"@) is Some,
        list[i].text_at("parentFolderId"@) == list[j].text_at("id"@),
        forall|a: int, b: int|
            0 <= a < b < list.len() && (#[trigger] list[a]).text_at("id"@) is Some ==> list[a].text_at(
                "id"@,
            ) != (#[trigger] list[b]).text_at("id"@),
        has_top(links_of(list), list[i].text_at("id"@)->0),
    ensures
        by_parent(list).len() == list.len(),
        exists|a: int, b: int|
            0 <= a < b < by_parent(list).len() && #[trigger] by_parent(list)[a] == list[j]
                && #[trigger] by_parent(list)[b] == list[i],
{
    let links = links_of(list);
    let id = list[i].text_at("id"@)->0;
    let p = list[j].text_at("id"@)->0;
    lemma_links_of(list, i);
    lemma_links_of(list, j);
    assert(known_parent(links, id) == Some(p));
    lemma_parent_has_top(links, id, p);
    let keys = depths_walk(list, links, list.len()).0;
    lemma_depths_len(list, links, list.len());
    lemma_depths_walk(list, links, list.len());
    assert(id_or_empty(list[i]) == id && id_or_empty(list[j]) == p);
    assert(keys[j] < keys[i]);
    let o = order::ordered(keys, list.len());
    order::ordering_is_stable_and_loses_nothing(keys, list.len());
    assert(o.contains(i));
    assert(o.contains(j));
    let a = choose|a: int| 0 <= a < o.len() && o[a] == j;
    let b = choose|b: int| 0 <= b < o.len() && o[b] == i;
    if b < a {
        assert(keys[o[b]] < keys[o[a]] || (keys[o[b]] == keys[o[a]] && o[b] < o[a]));
    }
    assert(by_parent(list)[a] == list[j]);
    assert(by_parent(list)[b] == list[i]);
}

} // verus!

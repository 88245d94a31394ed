//! The order of work in an import from Microsoft Graph: what is stored next,
//! what is counted, and what is deleted at the end.

use crate::db::exchange_graph_ids;
use crate::db::exchange_graph_ids::IdRow;
use crate::exchange_graph::error;
use crate::exchange_graph::error::GraphError;
use crate::json;
use crate::json::{Json, Val};
use crate::sync::import_exchange_graph::calendar;
use crate::sync::import_exchange_graph::calendar::{CalendarPlan, EventPlan};
use crate::sync::import_exchange_graph::files;
use crate::sync::import_exchange_graph::files::DriveNode;
use crate::sync::TypeCounts;
use crate::text;
use crate::tree::NodeRow;
use vstd::prelude::*;

verus! {

/// The entries of a listing that have an id.
pub open spec fn identified(list: Seq<Val>) -> Seq<Val>
    decreases list.len(),
{
    if list.len() == 0 {
        Seq::empty()
    } else if list[0].text_at("id"@) is Some {
        seq![list[0]] + identified(list.drop_first())
    } else {
        identified(list.drop_first())
    }
}

/// The ids of entries that have one.
pub open spec fn ids_of(list: Seq<Val>) -> Seq<Seq<char>> {
    Seq::new(list.len(), |i: int| list[i].text_at("id"@)->0)
}

/// The ids of stored objects.
pub open spec fn names(rows: Seq<IdRow>) -> Seq<Seq<char>> {
    Seq::new(rows.len(), |i: int| rows[i].graph_id@)
}

fn name_list(rows: &Vec<IdRow>) -> (r: Vec<String>)
    ensures
        text::texts(r@) == names(rows@),
{
    let mut r: Vec<String> = Vec::new();
    let mut i: usize = 0;
    while i < rows.len()
        invariant
            i <= rows@.len(),
            r@.len() == i,
            forall|k: int| 0 <= k < i ==> (#[trigger] r@[k])@ == names(rows@)[k],
        decreases rows@.len() - i,
    {
        r.push(rows[i].graph_id.clone());
        i = i + 1;
    }
    assert(text::texts(r@) =~= names(rows@));
    r
}

/// Counts after an object was stored: one that the archive had is counted as
/// fetched, any other as created.
pub open spec fn stored_counts(c: TypeCounts, known: bool) -> TypeCounts {
    if known {
        TypeCounts { fetched: (c.fetched + 1) as u64, ..c }
    } else {
        TypeCounts { created: (c.created + 1) as u64, ..c }
    }
}

fn count_stored(counts: &mut TypeCounts, known: bool)
    requires
        old(counts).fetched < u64::MAX,
        old(counts).created < u64::MAX,
    ensures
        *final(counts) == stored_counts(*old(counts), known),
{
    if known {
        counts.fetched = counts.fetched + 1;
    } else {
        counts.created = counts.created + 1;
    }
}

/// The folders, calendars or address books of a server on their way into the
/// archive.
#[derive(Debug)]
pub struct StoreRun {
    pub entries: Vec<Json>,
    pub index: usize,
    pub local: Vec<IdRow>,
    pub stored: Vec<IdRow>,
    pub counts: TypeCounts,
}

impl StoreRun {
    /// The entries that are still to be stored.
    pub open spec fn left(self) -> Seq<Val> {
        identified(json::list_view(self.entries@).skip(self.index as int))
    }

    /// Whether what was stored and what is left make up the listing.
    pub open spec fn wf(self) -> bool {
        &&& self.index <= self.entries@.len()
        &&& self.index < self.entries@.len() ==> self.entries@[self.index as int]@.text_at(
            "id"@,
        ) is Some
        &&& names(self.stored@) + ids_of(self.left()) == ids_of(
            identified(json::list_view(self.entries@)),
        )
    }

    fn settle(&mut self)
        requires
            old(self).index <= old(self).entries@.len(),
            names(old(self).stored@) + ids_of(old(self).left()) == ids_of(
                identified(json::list_view(old(self).entries@)),
            ),
        ensures
            final(self).wf(),
            final(self).left() == old(self).left(),
            final(self).entries == old(self).entries,
            final(self).local == old(self).local,
            final(self).stored == old(self).stored,
            final(self).counts == old(self).counts,
    {
        let ghost start = *self;
        let ghost all = json::list_view(self.entries@);
        while self.index < self.entries.len() && self.entries[self.index].text_at("id").is_none()
            invariant
                self.index <= self.entries@.len(),
                self.left() == start.left(),
                self.entries == start.entries,
                self.local == start.local,
                self.stored == start.stored,
                self.counts == start.counts,
                all == json::list_view(self.entries@),
                all.len() == self.entries@.len(),
            decreases self.entries@.len() - self.index,
        {
            proof {
                let rest = all.skip(self.index as int);
                assert(rest[0] == self.entries@[self.index as int]@);
                assert(rest.drop_first() =~= all.skip(self.index + 1));
            }
            self.index = self.index + 1;
        }
    }

    /// A run that has stored nothing yet. `local` is what the archive has.
    pub fn begin(entries: Vec<Json>, local: Vec<IdRow>, counts: TypeCounts) -> (r: StoreRun)
        ensures
            r.wf(),
            r.entries == entries,
            r.local == local,
            r.left() == identified(json::list_view(entries@)),
            r.stored@.len() == 0,
            r.counts == counts,
    {
        let mut run: StoreRun = StoreRun { entries, index: 0, local, stored: Vec::new(), counts };
        proof {
            assert(json::list_view(run.entries@).skip(0) =~= json::list_view(run.entries@));
            assert(names(run.stored@) + ids_of(run.left()) =~= ids_of(run.left()));
        }
        run.settle();
        run
    }

    /// The entry that is stored next.
    pub fn next(&self) -> (r: Option<&Json>)
        requires
            self.wf(),
        ensures
            match r {
                Some(v) => self.left().len() > 0 && v@ == self.left()[0],
                None => self.left().len() == 0,
            },
    {
        let ghost all = json::list_view(self.entries@);
        assert(all.len() == self.entries@.len());
        if self.index < self.entries.len() {
            assert(all.skip(self.index as int)[0] == self.entries@[self.index as int]@);
            Some(&self.entries[self.index])
        } else {
            None
        }
    }

    /// Goes on after an entry was stored under a local id.
    pub fn after(&mut self, local_id: i64)
        requires
            old(self).wf(),
            old(self).left().len() > 0,
            old(self).counts.fetched < u64::MAX,
            old(self).counts.created < u64::MAX,
        ensures
            final(self).wf(),
            final(self).left() == old(self).left().drop_first(),
            final(self).entries == old(self).entries,
            final(self).local == old(self).local,
            ({
                let id = old(self).left()[0].text_at("id"@)->0;
                &&& calendar::id_views(final(self).stored@) == calendar::id_views(
                    old(self).stored@,
                ).push((id, local_id))
                &&& final(self).counts == stored_counts(
                    old(self).counts,
                    exchange_graph_ids::local_of(old(self).local@, id) is Some,
                )
            }),
    {
        let ghost start = *self;
        let ghost all = json::list_view(self.entries@);
        assert(all.len() == self.entries@.len());
        let i: usize = self.index;
        assert(i < self.entries@.len()) by {
            if i == self.entries@.len() {
                assert(all.skip(i as int) =~= Seq::empty());
            }
        }
        proof {
            assert(all.skip(i as int)[0] == self.entries@[i as int]@);
            assert(all.skip(i as int).drop_first() =~= all.skip(i + 1));
            assert(start.left().drop_first() =~= identified(all.skip(i + 1)));
        }
        let graph_id: String = match self.entries[i].text_at("id") {
            Some(t) => t.to_owned(),
            None => String::new(),
        };
        let known: bool = exchange_graph_ids::local_for_graph_id(
            &self.local,
            graph_id.as_str(),
        ).is_some();
        count_stored(&mut self.counts, known);
        self.stored.push(IdRow { graph_id, local_id });
        let n: usize = self.entries.len();
        assert(i < n);
        self.index = i + 1;
        proof {
            let id = start.left()[0].text_at("id"@)->0;
            assert(calendar::id_views(self.stored@) =~= calendar::id_views(start.stored@).push(
                (id, local_id),
            ));
            assert(names(self.stored@) =~= names(start.stored@).push(id));
            assert(names(self.stored@) + ids_of(self.left()) =~= names(start.stored@) + ids_of(
                start.left(),
            ));
        }
        self.settle();
    }

    /// What was stored, and what the archive has that the server does not list.
    pub fn finish(&self) -> (r: Vec<IdRow>)
        requires
            self.wf(),
            self.left().len() == 0,
        ensures
            calendar::id_views(r@) == calendar::vanished_of(
                self.local@,
                ids_of(identified(json::list_view(self.entries@))),
            ),
            names(self.stored@) == ids_of(identified(json::list_view(self.entries@))),
    {
        assert(names(self.stored@) + ids_of(self.left()) =~= names(self.stored@));
        let listed: Vec<String> = name_list(&self.stored);
        calendar::vanished(&self.local, &listed)
    }
}

/// What a deleted object is.
#[derive(Clone, Copy, PartialEq, Eq, Structural, Debug)]
pub enum Deleted {
    Mailbox,
    FileNode,
    Other,
}

/// What is said of an object that could not be deleted.
pub open spec fn kept_text(kind: Deleted, id: Seq<char>, local: i64, why: Seq<char>) -> Option<
    Seq<char>,
> {
    match kind {
        Deleted::Mailbox => Some(
            "mailbox "@ + id + " (local id "@ + text::signed_dec(local as int)
                + ") could not be deleted (live children?): "@ + why,
        ),
        Deleted::FileNode => Some(
            "file node "@ + id + " (local id "@ + text::signed_dec(local as int)
                + ") could not be deleted: "@ + why,
        ),
        Deleted::Other => None,
    }
}

fn kept(head: &str, row: &IdRow, tail: &str, why: &str) -> (r: String)
    ensures
        r@ == head@ + row.graph_id@ + " (local id "@ + text::signed_dec(row.local_id as int)
            + tail@ + why@,
{
    let mut s: String = head.to_owned();
    s.append(row.graph_id.as_str());
    s.append(" (local id ");
    s.append(text::signed_decimal(row.local_id).as_str());
    s.append(tail);
    s.append(why);
    s
}

/// Counts the deletion of an object that the server no longer has, and says
/// what there is to say where it could not be deleted.
pub fn after_deletion(
    kind: Deleted,
    row: &IdRow,
    failure: Option<&str>,
    counts: &mut TypeCounts,
) -> (r: Option<String>)
    requires
        old(counts).deleted < u64::MAX,
        old(counts).failed < u64::MAX,
    ensures
        match failure {
            Some(why) => {
                &&& json::text_view(r) == kept_text(kind, row.graph_id@, row.local_id, why@)
                &&& *final(counts) == (TypeCounts {
                    failed: (old(counts).failed + 1) as u64,
                    ..*old(counts)
                })
            },
            None => {
                &&& r is None
                &&& *final(counts) == (TypeCounts {
                    deleted: (old(counts).deleted + 1) as u64,
                    ..*old(counts)
                })
            },
        },
{
    calendar::count_deletion(counts, failure.is_none());
    match failure {
        Some(why) => match kind {
            Deleted::Mailbox => Some(
                kept("mailbox ", row, ") could not be deleted (live children?): ", why),
            ),
            Deleted::FileNode => Some(kept("file node ", row, ") could not be deleted: ", why)),
            Deleted::Other => None,
        },
        None => None,
    }
}

/// Whether what the server answered is the default address book. Where the
/// lookup failed, what is said of it.
pub fn default_book(answer: Result<Json, GraphError>) -> (r: (Option<Json>, Option<String>))
    ensures
        match answer {
            Ok(v) => {
                &&& r.1 is None
                &&& json::opt_view(r.0) == (if v@.text_at("id"@) is Some {
                    Some(v@)
                } else {
                    None
                })
            },
            Err(e) => {
                &&& r.0 is None
                &&& r.1 matches Some(w) && w@ == "graph default contact folder lookup failed ("@
                    + error::graph_text(e)
                    + "); falling back to deriving it from an existing contact"@
            },
        },
{
    match answer {
        Ok(v) => {
            if v.text_at("id").is_some() {
                (Some(v), None)
            } else {
                (None, None)
            }
        },
        Err(e) => {
            let mut w: String = "graph default contact folder lookup failed (".to_owned();
            w.append(e.message().as_str());
            w.append("); falling back to deriving it from an existing contact");
            (None, Some(w))
        },
    }
}

/// What became of an event that was asked for.
#[derive(Debug)]
pub enum Fetched {
    /// It was read.
    Converted,
    /// It came, and could not be read.
    Unreadable(String),
    /// It did not come.
    Failed(GraphError),
}

/// The events of a server on their way into the archive.
#[derive(Debug)]
pub struct EventRun {
    pub plan: EventPlan,
    pub local: Vec<IdRow>,
    pub any_failure: bool,
    pub counts: TypeCounts,
}

/// Three texts, one behind the other.
fn joined3(a: &str, b: &str, c: &str) -> (r: String)
    ensures
        r@ == a@ + b@ + c@,
{
    let mut s: String = text::joined(a, b);
    s.append(c);
    s
}

impl EventRun {
    /// A run that has seen no calendar yet.
    pub fn begin(local: Vec<IdRow>) -> (r: EventRun)
        ensures
            r.local == local,
            !r.any_failure,
            r.plan.server@.len() == 0,
            r.plan.planned@.len() == 0,
            r.counts == crate::sync::no_counts(),
    {
        EventRun {
            plan: EventPlan { server: Vec::new(), planned: Vec::new() },
            local,
            any_failure: false,
            counts: TypeCounts::default(),
        }
    }

    /// Takes the listing of a calendar: says which of its events are fetched,
    /// or, where there is no listing, what is said of that.
    pub fn after_listing(&mut self, calendar_id: &str, listing: Result<Vec<Json>, GraphError>) -> (r:
        Result<CalendarPlan, String>)
        requires
            old(self).counts.failed < u64::MAX,
            listing matches Ok(v) ==> old(self).counts.fetched + v@.len() <= u64::MAX,
        ensures
            final(self).local == old(self).local,
            match listing {
                Ok(v) => {
                    &&& r matches Ok(p)
                    &&& calendar::plan_view(final(self).plan, p) == calendar::planned_entries(
                        calendar::plan_start(old(self).plan),
                        old(self).local@,
                        json::list_view(v@),
                    )
                    &&& final(self).any_failure == old(self).any_failure
                    &&& final(self).counts == (TypeCounts {
                        fetched: (old(self).counts.fetched + p.fetched) as u64,
                        ..old(self).counts
                    })
                },
                Err(e) => {
                    &&& r matches Err(w)
                    &&& w@ == "calendar "@ + calendar_id@ + " stub fetch failed: "@
                        + error::graph_text(e)
                    &&& final(self).plan == old(self).plan
                    &&& final(self).any_failure
                    &&& final(self).counts == (TypeCounts {
                        failed: (old(self).counts.failed + 1) as u64,
                        ..old(self).counts
                    })
                },
            },
    {
        match listing {
            Ok(v) => {
                let ghost start = calendar::plan_start(self.plan);
                let p: CalendarPlan = calendar::plan_calendar(&mut self.plan, &self.local, &v);
                proof {
                    lemma_fetched_bound(start, self.local@, json::list_view(v@));
                    assert(json::list_view(v@).len() == v@.len());
                }
                self.counts.fetched = self.counts.fetched + p.fetched;
                Ok(p)
            },
            Err(e) => {
                self.counts.failed = self.counts.failed + 1;
                self.any_failure = true;
                let mut w: String = joined3("calendar ", calendar_id, " stub fetch failed: ");
                w.append(e.message().as_str());
                Err(w)
            },
        }
    }

    /// Counts what became of an event that was asked for: one that is gone
    /// from the server meanwhile is skipped. Says whether it is stored, and
    /// what there is to say.
    pub fn after_fetch(&mut self, graph_id: &str, fetched: Fetched) -> (r: (bool, Option<String>))
        requires
            old(self).counts.failed < u64::MAX,
            old(self).counts.skipped < u64::MAX,
        ensures
            final(self).plan == old(self).plan,
            final(self).local == old(self).local,
            final(self).any_failure == old(self).any_failure,
            r.0 == (fetched is Converted),
            json::text_view(r.1) == (match fetched {
                Fetched::Converted => None,
                Fetched::Unreadable(why) => Some(
                    "graph event "@ + graph_id@ + " convert failed: "@ + why@,
                ),
                Fetched::Failed(GraphError::Vanished) => None,
                Fetched::Failed(e) => Some(
                    "graph event "@ + graph_id@ + " fetch failed: "@ + error::graph_text(e),
                ),
            }),
            final(self).counts == (match fetched {
                Fetched::Converted => old(self).counts,
                Fetched::Failed(GraphError::Vanished) => TypeCounts {
                    skipped: (old(self).counts.skipped + 1) as u64,
                    ..old(self).counts
                },
                _ => TypeCounts {
                    failed: (old(self).counts.failed + 1) as u64,
                    ..old(self).counts
                },
            }),
    {
        match fetched {
            Fetched::Converted => (true, None),
            Fetched::Unreadable(why) => {
                self.counts.failed = self.counts.failed + 1;
                let mut w: String = joined3("graph event ", graph_id, " convert failed: ");
                w.append(why.as_str());
                (false, Some(w))
            },
            Fetched::Failed(GraphError::Vanished) => {
                self.counts.skipped = self.counts.skipped + 1;
                (false, None)
            },
            Fetched::Failed(e) => {
                self.counts.failed = self.counts.failed + 1;
                let mut w: String = joined3("graph event ", graph_id, " fetch failed: ");
                w.append(e.message().as_str());
                (false, Some(w))
            },
        }
    }

    /// The events that are deleted: those that no calendar lists. Where a
    /// calendar could not be listed none is, and that is said.
    pub fn finish(&self) -> (r: Result<Vec<IdRow>, &'static str>)
        ensures
            match r {
                Ok(gone) => !self.any_failure && calendar::id_views(gone@)
                    == calendar::vanished_of(self.local@, text::texts(self.plan.server@)),
                Err(w) => self.any_failure && w@
                    == "graph event vanished-cleanup skipped: one or more calendars failed to enumerate; a clean re-run will reconcile deletions"@,
            },
    {
        if self.any_failure {
            Err(
                "graph event vanished-cleanup skipped: one or more calendars failed to enumerate; a clean re-run will reconcile deletions",
            )
        } else {
            Ok(calendar::vanished(&self.local, &self.plan.server))
        }
    }
}

proof fn lemma_fetched_bound(p: calendar::PlanVal, local: Seq<IdRow>, stubs: Seq<Val>)
    ensures
        calendar::planned_entries(p, local, stubs).fetched <= p.fetched + stubs.len(),
    decreases stubs.len(),
{
    if stubs.len() > 0 {
        lemma_fetched_bound(p, local, stubs.drop_last());
    }
}

proof fn lemma_listed(p: calendar::PlanVal, local: Seq<IdRow>, stubs: Seq<Val>, id: Seq<char>)
    requires
        p.server.contains(id) || exists|i: int|
            0 <= i < stubs.len() && (#[trigger] stubs[i]).text_at("id"@) == Some(id)
                && calendar::event_type(stubs[i]) != calendar::EventType::Occurrence,
    ensures
        calendar::planned_entries(p, local, stubs).server.contains(id),
    decreases stubs.len(),
{
    if stubs.len() > 0 {
        let before = calendar::planned_entries(p, local, stubs.drop_last());
        let after = calendar::planned_entries(p, local, stubs);
        if p.server.contains(id) || exists|i: int|
            0 <= i < stubs.drop_last().len() && (#[trigger] stubs.drop_last()[i]).text_at("id"@)
                == Some(id) && calendar::event_type(stubs.drop_last()[i])
                != calendar::EventType::Occurrence {
            lemma_listed(p, local, stubs.drop_last(), id);
            let k = choose|k: int| 0 <= k < before.server.len() && before.server[k] == id;
            assert(after.server[k] == id);
        } else {
            let i = choose|i: int|
                0 <= i < stubs.len() && (#[trigger] stubs[i]).text_at("id"@) == Some(id)
                    && calendar::event_type(stubs[i]) != calendar::EventType::Occurrence;
            if i < stubs.len() - 1 {
                assert(stubs.drop_last()[i] == stubs[i]);
            }
            assert(stubs.last().text_at("id"@) == Some(id));
            if !before.server.contains(id) {
                assert(after.server[before.server.len() as int] == id);
            }
        }
    }
}

proof fn lemma_not_vanished(local: Seq<IdRow>, server: Seq<Seq<char>>, id: Seq<char>, i: int)
    requires
        server.contains(id),
        0 <= i < calendar::vanished_of(local, server).len(),
    ensures
        calendar::vanished_of(local, server)[i].0 != id,
    decreases local.len(),
{
    if local.len() > 0 {
        let before = calendar::vanished_of(local.drop_last(), server);
        if i < before.len() {
            lemma_not_vanished(local.drop_last(), server, id, i);
        }
    }
}

/// An event that a calendar lists is not deleted, whatever the other calendars
/// list before it or after it.
pub proof fn listed_events_stay(
    p: calendar::PlanVal,
    local: Seq<IdRow>,
    listing: Seq<Val>,
    later: Seq<Val>,
    k: int,
    i: int,
)
    requires
        0 <= k < listing.len(),
        listing[k].text_at("id"@) is Some,
        calendar::event_type(listing[k]) != calendar::EventType::Occurrence,
        0 <= i < calendar::vanished_of(
            local,
            calendar::planned_entries(
                calendar::planned_entries(p, local, listing),
                local,
                later,
            ).server,
        ).len(),
    ensures
        calendar::vanished_of(
            local,
            calendar::planned_entries(
                calendar::planned_entries(p, local, listing),
                local,
                later,
            ).server,
        )[i].0 != listing[k].text_at("id"@)->0,
{
    let id = listing[k].text_at("id"@)->0;
    let first = calendar::planned_entries(p, local, listing);
    let all = calendar::planned_entries(first, local, later);
    lemma_listed(p, local, listing, id);
    lemma_listed(first, local, later, id);
    lemma_not_vanished(local, all.server, id, i);
}

/// The entries of listings whose id did not come before, by their places.
pub open spec fn fresh(list: Seq<Val>, seen: Seq<Seq<char>>) -> (Seq<int>, Seq<Seq<char>>)
    decreases list.len(),
{
    if list.len() == 0 {
        (Seq::empty(), seen)
    } else {
        let before = fresh(list.drop_last(), seen);
        match list.last().text_at("id"@) {
            Some(id) => if before.1.contains(id) {
                before
            } else {
                (before.0.push(list.len() - 1), before.1.push(id))
            },
            None => before,
        }
    }
}

/// Finds the entries of a listing whose id did not come before, and notes
/// their ids. Of changed occurrences that two spans of time list, one is taken.
pub fn fresh_entries(list: &Vec<Json>, seen: &mut Vec<String>) -> (r: Vec<usize>)
    ensures
        r@.len() == fresh(json::list_view(list@), text::texts(old(seen)@)).0.len(),
        forall|i: int|
            0 <= i < r@.len() ==> (#[trigger] r@[i]) < list@.len() && r@[i] as int == fresh(
                json::list_view(list@),
                text::texts(old(seen)@),
            ).0[i],
        text::texts(final(seen)@) == fresh(json::list_view(list@), text::texts(old(seen)@)).1,
{
    let ghost all = json::list_view(list@);
    let ghost start = text::texts(seen@);
    let mut r: Vec<usize> = Vec::new();
    let mut i: usize = 0;
    assert(all.take(0) =~= Seq::empty());
    while i < list.len()
        invariant
            i <= list@.len(),
            all == json::list_view(list@),
            all.len() == list@.len(),
            r@.len() == fresh(all.take(i as int), start).0.len(),
            forall|k: int|
                0 <= k < r@.len() ==> (#[trigger] r@[k]) < list@.len() && r@[k] as int == fresh(
                    all.take(i as int),
                    start,
                ).0[k],
            text::texts(seen@) == fresh(all.take(i as int), start).1,
        decreases list@.len() - i,
    {
        assert(all.take(i as int + 1).drop_last() =~= all.take(i as int));
        assert(all.take(i as int + 1).last() == list@[i as int]@);
        if let Some(id) = list[i].text_at("id") {
            if text::add_text(seen, id) {
                r.push(i);
            }
        }
        i = i + 1;
    }
    assert(all.take(i as int) =~= all);
    r
}

/// The files and folders of a drive on their way into the archive.
#[derive(Debug)]
pub struct FilesRun {
    pub folders: Vec<DriveNode>,
    pub files: Vec<DriveNode>,
    pub index: usize,
    pub local: Vec<IdRow>,
    pub stored: Vec<IdRow>,
    pub counts: TypeCounts,
}

/// What is stored of a folder: where it lies, and whether the archive has it.
#[derive(Clone, Copy, Debug)]
pub struct DirectoryPlan {
    pub folder: usize,
    pub parent: Option<i64>,
    pub existing: Option<i64>,
}

/// What is done about a file that was asked for.
#[derive(Debug)]
pub enum Download {
    /// It is stored in this folder.
    Insert(Option<i64>),
    /// It is gone from the server.
    Skip,
    /// It did not come.
    Warn(String),
}

/// The ids of files and folders.
pub open spec fn node_ids(nodes: Seq<DriveNode>) -> Seq<Seq<char>> {
    Seq::new(nodes.len(), |i: int| nodes[i].graph_id@)
}

fn push_ids(list: &mut Vec<String>, nodes: &Vec<DriveNode>)
    ensures
        text::texts(final(list)@) == text::texts(old(list)@) + node_ids(nodes@),
{
    let ghost start = text::texts(list@);
    let ghost all = node_ids(nodes@);
    let mut i: usize = 0;
    assert(start + all.take(0) =~= start);
    while i < nodes.len()
        invariant
            i <= nodes@.len(),
            all == node_ids(nodes@),
            text::texts(list@) == start + all.take(i as int),
        decreases nodes@.len() - i,
    {
        let ghost before = text::texts(list@);
        list.push(nodes[i].graph_id.clone());
        assert(text::texts(list@) =~= before.push(all[i as int]));
        assert(start + all.take(i + 1) =~= (start + all.take(i as int)).push(all[i as int]));
        i = i + 1;
    }
    assert(all.take(i as int) =~= all);
}

impl FilesRun {
    /// Whether the run has stored as many folders as it passed.
    pub open spec fn wf(self) -> bool {
        &&& self.index <= self.folders@.len()
        &&& names(self.stored@) == node_ids(self.folders@).take(self.index as int)
    }

    /// A run that has stored nothing yet: folders come before what lies in
    /// them, and before the files.
    pub fn begin(nodes: &Vec<DriveNode>, local: Vec<IdRow>) -> (r: FilesRun)
        ensures
            r.wf(),
            r.index == 0,
            r.local == local,
            r.counts == crate::sync::no_counts(),
            files::node_views(r.folders@) == files::by_depth(
                files::of_kind(files::node_views(nodes@), true),
            ),
            files::node_views(r.files@) == files::of_kind(files::node_views(nodes@), false),
    {
        let parts: (Vec<DriveNode>, Vec<DriveNode>) = files::partition(nodes);
        let folders: Vec<DriveNode> = files::order_by_depth(&parts.0);
        let r: FilesRun = FilesRun {
            folders,
            files: parts.1,
            index: 0,
            local,
            stored: Vec::new(),
            counts: TypeCounts::default(),
        };
        assert(names(r.stored@) =~= node_ids(r.folders@).take(0));
        r
    }

    /// The folder that is stored next.
    pub fn next(&self) -> (r: Option<DirectoryPlan>)
        requires
            self.wf(),
        ensures
            match r {
                Some(p) => {
                    &&& p.folder == self.index < self.folders@.len()
                    &&& p.parent == (match self.folders@[self.index as int]@.parent_graph_id {
                        Some(g) => exchange_graph_ids::local_of(self.stored@, g),
                        None => None,
                    })
                    &&& p.existing == exchange_graph_ids::local_of(
                        self.local@,
                        self.folders@[self.index as int].graph_id@,
                    )
                },
                None => self.index == self.folders@.len(),
            },
    {
        if self.index == self.folders.len() {
            return None;
        }
        let node: &DriveNode = &self.folders[self.index];
        Some(
            DirectoryPlan {
                folder: self.index,
                parent: files::parent_local(node, &self.stored),
                existing: exchange_graph_ids::local_for_graph_id(
                    &self.local,
                    node.graph_id.as_str(),
                ),
            },
        )
    }

    /// Goes on after a folder was stored under a local id.
    pub fn after(&mut self, local_id: i64)
        requires
            old(self).wf(),
            old(self).index < old(self).folders@.len(),
            old(self).counts.fetched < u64::MAX,
            old(self).counts.created < u64::MAX,
        ensures
            final(self).wf(),
            final(self).index == old(self).index + 1,
            final(self).folders == old(self).folders,
            final(self).files == old(self).files,
            final(self).local == old(self).local,
            calendar::id_views(final(self).stored@) == calendar::id_views(old(self).stored@).push(
                (old(self).folders@[old(self).index as int].graph_id@, local_id),
            ),
            final(self).counts == stored_counts(
                old(self).counts,
                exchange_graph_ids::local_of(
                    old(self).local@,
                    old(self).folders@[old(self).index as int].graph_id@,
                ) is Some,
            ),
    {
        let ghost start = *self;
        let i: usize = self.index;
        let graph_id: String = self.folders[i].graph_id.clone();
        let known: bool = exchange_graph_ids::local_for_graph_id(
            &self.local,
            graph_id.as_str(),
        ).is_some();
        count_stored(&mut self.counts, known);
        self.stored.push(IdRow { graph_id, local_id });
        let n: usize = self.folders.len();
        assert(i < n);
        self.index = i + 1;
        proof {
            let id = start.folders@[i as int].graph_id@;
            assert(calendar::id_views(self.stored@) =~= calendar::id_views(start.stored@).push(
                (id, local_id),
            ));
            assert(names(self.stored@) =~= names(start.stored@).push(id));
            assert(names(self.stored@) =~= node_ids(self.folders@).take(i + 1));
        }
    }

    /// The files that are downloaded: those that the archive does not have.
    /// The others are counted.
    pub fn wanted(&mut self) -> (r: Vec<DriveNode>)
        requires
            old(self).wf(),
            old(self).counts.fetched + old(self).files@.len() <= u64::MAX,
        ensures
            final(self).wf(),
            final(self).folders == old(self).folders,
            final(self).files == old(self).files,
            final(self).index == old(self).index,
            final(self).local == old(self).local,
            final(self).stored == old(self).stored,
            files::node_views(r@) == files::new_files(
                files::node_views(old(self).files@),
                old(self).local@,
            ),
            final(self).counts == (TypeCounts {
                fetched: (old(self).counts.fetched + old(self).files@.len() - r@.len()) as u64,
                ..old(self).counts
            }),
    {
        files::wanted_files(&self.files, &self.local, &mut self.counts)
    }

    /// Counts what became of a file that was asked for, and says what is done
    /// about it. One that came is counted when it is stored.
    pub fn after_download(&mut self, node: &DriveNode, result: Result<(), GraphError>) -> (r:
        Download)
        requires
            old(self).wf(),
            old(self).counts.created < u64::MAX,
            old(self).counts.skipped < u64::MAX,
            old(self).counts.failed < u64::MAX,
        ensures
            final(self).wf(),
            final(self).folders == old(self).folders,
            final(self).files == old(self).files,
            final(self).index == old(self).index,
            final(self).local == old(self).local,
            final(self).stored == old(self).stored,
            match result {
                Ok(_) => {
                    &&& r == Download::Insert(
                        match node@.parent_graph_id {
                            Some(g) => exchange_graph_ids::local_of(old(self).stored@, g),
                            None => None,
                        },
                    )
                    &&& final(self).counts == (TypeCounts {
                        created: (old(self).counts.created + 1) as u64,
                        ..old(self).counts
                    })
                },
                Err(GraphError::Vanished) => {
                    &&& r is Skip
                    &&& final(self).counts == (TypeCounts {
                        skipped: (old(self).counts.skipped + 1) as u64,
                        ..old(self).counts
                    })
                },
                Err(e) => {
                    &&& r matches Download::Warn(w)
                    &&& w@ == "graph drive item "@ + node.graph_id@ + " download failed: "@
                        + error::graph_text(e)
                    &&& final(self).counts == (TypeCounts {
                        failed: (old(self).counts.failed + 1) as u64,
                        ..old(self).counts
                    })
                },
            },
    {
        match result {
            Ok(_) => {
                self.counts.created = self.counts.created + 1;
                Download::Insert(files::parent_local(node, &self.stored))
            },
            Err(GraphError::Vanished) => {
                self.counts.skipped = self.counts.skipped + 1;
                Download::Skip
            },
            Err(e) => {
                self.counts.failed = self.counts.failed + 1;
                let mut w: String = joined3(
                    "graph drive item ",
                    node.graph_id.as_str(),
                    " download failed: ",
                );
                w.append(e.message().as_str());
                Download::Warn(w)
            },
        }
    }

    /// What the archive has that the drive does not: what lies in a folder
    /// comes before the folder.
    pub fn finish(&self, rows: &Vec<NodeRow>) -> (r: Vec<IdRow>)
        requires
            self.wf(),
        ensures
            exists|gone: Seq<IdRow>| #[trigger]
                calendar::id_views(gone) == calendar::vanished_of(
                    self.local@,
                    node_ids(self.folders@) + node_ids(self.files@),
                ) && calendar::id_views(r@) == files::deepest_first(gone, rows@),
    {
        let mut listed: Vec<String> = Vec::new();
        push_ids(&mut listed, &self.folders);
        push_ids(&mut listed, &self.files);
        assert(text::texts(listed@) =~= node_ids(self.folders@) + node_ids(self.files@));
        let gone: Vec<IdRow> = calendar::vanished(&self.local, &listed);
        files::order_for_deletion(&gone, rows)
    }
}

} // verus!

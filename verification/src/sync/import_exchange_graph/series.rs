//! The series of a calendar: what is asked about their occurrences, and what is
//! recorded of the answers.

use crate::exchange_graph::error;
use crate::exchange_graph::error::GraphError;
use crate::json;
use crate::json::Json;
use crate::sync::import_exchange_graph::calendar;
use crate::sync::import_exchange_graph::calendar::ConvertedEvent;
use crate::sync::import_exchange_graph::runs;
use crate::sync::TypeCounts;
use crate::text;
use vstd::prelude::*;

verus! {

/// The series of a calendar on their way into the archive.
#[derive(Debug)]
pub struct SeriesRun {
    pub calendar_id: String,
    /// The changed occurrences that were listed.
    pub seen: Vec<String>,
    /// The changed occurrences that could be read.
    pub exceptions: Vec<ConvertedEvent>,
    /// The occurrences that were listed.
    pub occurrences: Vec<Json>,
    pub counts: TypeCounts,
    pub warnings: Vec<String>,
}

/// The counts with one more failure.
pub open spec fn with_failure(c: TypeCounts) -> TypeCounts {
    TypeCounts { failed: (c.failed + 1) as u64, ..c }
}

/// A span of time, as it is named in a warning.
pub open spec fn span_text(from: Seq<char>, to: Seq<char>) -> Seq<char> {
    from + ".."@ + to
}

/// What is said where changed occurrences could not be listed.
pub open spec fn lookup_warning(
    calendar_id: Seq<char>,
    from: Seq<char>,
    to: Seq<char>,
    e: GraphError,
) -> Seq<char> {
    "graph calendar "@ + calendar_id + " exception lookup "@ + span_text(from, to) + " failed: "@
        + error::graph_text(e)
}

/// What is said where occurrences could not be listed.
pub open spec fn sweep_warning(
    calendar_id: Seq<char>,
    from: Seq<char>,
    to: Seq<char>,
    e: GraphError,
) -> Seq<char> {
    "graph calendar "@ + calendar_id + " occurrence sweep "@ + span_text(from, to) + " failed: "@
        + error::graph_text(e)
        + "; deleted occurrences cannot be detected for this calendar"@
}

/// What is said where a changed occurrence could not be read.
pub open spec fn unreadable_warning(id: Seq<char>, why: Seq<char>) -> Seq<char> {
    "graph exception "@ + id + " convert failed: "@ + why
}

impl SeriesRun {
    /// A run that has asked nothing yet.
    pub fn begin(calendar_id: String, counts: TypeCounts) -> (r: SeriesRun)
        ensures
            r.calendar_id == calendar_id,
            r.counts == counts,
            r.seen@.len() == 0,
            r.exceptions@.len() == 0,
            r.occurrences@.len() == 0,
            r.warnings@.len() == 0,
    {
        SeriesRun {
            calendar_id,
            seen: Vec::new(),
            exceptions: Vec::new(),
            occurrences: Vec::new(),
            counts,
            warnings: Vec::new(),
        }
    }

    fn span(from: &str, to: &str) -> (r: String)
        ensures
            r@ == span_text(from@, to@),
    {
        let mut s: String = text::joined(from, "..");
        s.append(to);
        s
    }

    fn warn(&mut self, w: String)
        requires
            old(self).counts.failed < u64::MAX,
        ensures
            text::texts(final(self).warnings@) == text::texts(old(self).warnings@).push(w@),
            final(self).counts == with_failure(old(self).counts),
            final(self).calendar_id == old(self).calendar_id,
            final(self).seen == old(self).seen,
            final(self).exceptions == old(self).exceptions,
            final(self).occurrences == old(self).occurrences,
    {
        let ghost before = self.warnings@;
        let ghost said = w@;
        self.counts.failed = self.counts.failed + 1;
        self.warnings.push(w);
        assert(text::texts(self.warnings@) =~= text::texts(before).push(said));
    }

    /// Takes the listing of the changed occurrences in a span of time: says
    /// which of them are read, by their places. One that another span listed
    /// already is not.
    pub fn after_exceptions(
        &mut self,
        from: &str,
        to: &str,
        listing: &Result<Vec<Json>, GraphError>,
    ) -> (r: Vec<usize>)
        requires
            old(self).counts.failed < u64::MAX,
        ensures
            final(self).calendar_id == old(self).calendar_id,
            final(self).exceptions == old(self).exceptions,
            final(self).occurrences == old(self).occurrences,
            match listing {
                Ok(v) => {
                    let told = runs::fresh(
                        json::list_view(v@),
                        text::texts(old(self).seen@),
                    );
                    &&& r@.len() == told.0.len()
                    &&& forall|i: int|
                        0 <= i < r@.len() ==> (#[trigger] r@[i]) < v@.len() && r@[i] as int
                            == told.0[i]
                    &&& text::texts(final(self).seen@) == told.1
                    &&& final(self).counts == old(self).counts
                    &&& final(self).warnings == old(self).warnings
                },
                Err(e) => {
                    &&& r@.len() == 0
                    &&& final(self).seen == old(self).seen
                    &&& final(self).counts == with_failure(old(self).counts)
                    &&& text::texts(final(self).warnings@) == text::texts(
                        old(self).warnings@,
                    ).push(lookup_warning(old(self).calendar_id@, from@, to@, *e))
                },
            },
    {
        match listing {
            Ok(v) => runs::fresh_entries(v, &mut self.seen),
            Err(e) => {
                let mut w: String = text::joined("graph calendar ", self.calendar_id.as_str());
                w.append(" exception lookup ");
                w.append(Self::span(from, to).as_str());
                w.append(" failed: ");
                w.append(e.message().as_str());
                self.warn(w);
                Vec::new()
            },
        }
    }

    /// Takes a changed occurrence that was read, or could not be.
    pub fn after_conversion(&mut self, id: &str, event: Result<ConvertedEvent, String>)
        requires
            old(self).counts.failed < u64::MAX,
        ensures
            final(self).calendar_id == old(self).calendar_id,
            final(self).seen == old(self).seen,
            final(self).occurrences == old(self).occurrences,
            match event {
                Ok(c) => {
                    &&& final(self).exceptions@ == old(self).exceptions@.push(c)
                    &&& final(self).counts == old(self).counts
                    &&& final(self).warnings == old(self).warnings
                },
                Err(why) => {
                    &&& final(self).exceptions == old(self).exceptions
                    &&& final(self).counts == with_failure(old(self).counts)
                    &&& text::texts(final(self).warnings@) == text::texts(
                        old(self).warnings@,
                    ).push(unreadable_warning(id@, why@))
                },
            },
    {
        match event {
            Ok(c) => {
                self.exceptions.push(c);
            },
            Err(why) => {
                let mut w: String = text::joined("graph exception ", id);
                w.append(" convert failed: ");
                w.append(why.as_str());
                self.warn(w);
            },
        }
    }

    /// Takes the listing of the occurrences in a span of time.
    pub fn after_occurrences(
        &mut self,
        from: &str,
        to: &str,
        listing: Result<Vec<Json>, GraphError>,
    )
        requires
            old(self).counts.failed < u64::MAX,
        ensures
            final(self).calendar_id == old(self).calendar_id,
            final(self).seen == old(self).seen,
            final(self).exceptions == old(self).exceptions,
            match listing {
                Ok(v) => {
                    &&& final(self).occurrences@ == old(self).occurrences@ + v@
                    &&& final(self).counts == old(self).counts
                    &&& final(self).warnings == old(self).warnings
                },
                Err(e) => {
                    &&& final(self).occurrences == old(self).occurrences
                    &&& final(self).counts == with_failure(old(self).counts)
                    &&& text::texts(final(self).warnings@) == text::texts(
                        old(self).warnings@,
                    ).push(sweep_warning(old(self).calendar_id@, from@, to@, e))
                },
            },
    {
        match listing {
            Ok(v) => {
                let mut more: Vec<Json> = v;
                self.occurrences.append(&mut more);
            },
            Err(e) => {
                let mut w: String = text::joined("graph calendar ", self.calendar_id.as_str());
                w.append(" occurrence sweep ");
                w.append(Self::span(from, to).as_str());
                w.append(" failed: ");
                w.append(e.message().as_str());
                w.append("; deleted occurrences cannot be detected for this calendar");
                self.warn(w);
            },
        }
    }

    /// Records what was listed of a series in its stored text: gives the new
    /// text where that changed anything, and counts it.
    pub fn expand(&mut self, stored: &str, master: &str, windows: &Vec<(String, String)>) -> (r:
        Option<String>)
        requires
            old(self).counts.updated < u64::MAX,
        ensures
            calendar::is_rewrite(
                stored@,
                calendar::of_series(calendar::event_views(old(self).exceptions@), master@),
                calendar::starts_of(json::list_view(old(self).occurrences@), master@),
                windows@,
                json::text_view(r),
            ),
            final(self).counts == (if r is Some {
                TypeCounts { updated: (old(self).counts.updated + 1) as u64, ..old(self).counts }
            } else {
                old(self).counts
            }),
            final(self).calendar_id == old(self).calendar_id,
            final(self).seen == old(self).seen,
            final(self).exceptions == old(self).exceptions,
            final(self).occurrences == old(self).occurrences,
            final(self).warnings == old(self).warnings,
    {
        calendar::expand_stored(
            stored,
            master,
            &self.exceptions,
            &self.occurrences,
            windows,
            &mut self.counts,
        )
    }
}

} // verus!

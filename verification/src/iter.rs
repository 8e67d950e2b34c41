//! Snapshot views: lock-backed, consistent iteration over one revision.

use vstd::prelude::*;

use crate::filter::FilterOpts;
use crate::series::Point;
use crate::series::SeriesSet;
use crate::watch::RevisionInv;
use crate::Logs;
use vstd::rwlock::ReadHandle;
use vstd::rwlock::RwLockPredicate;
use vstd::slice::slice_to_vec;

verus! {

/// Invariant of the filter lock: the filter's window bounds are ordered.
pub struct FilterInv {}

impl RwLockPredicate<FilterOpts> for FilterInv {
    open spec fn inv(self, f: FilterOpts) -> bool {
        f.wf()
    }
}

/// A thread-safe snapshot view over the series of one revision.  It holds
/// read guards on both the revision and the filter for its whole lifetime,
/// so the revision cannot be replaced while the view exists.  Call
/// [`LogsIterable::release`] when done with it.
pub struct LogsIterable<'a> {
    points: ReadHandle<'a, Option<SeriesSet>, RevisionInv>,
    filter: ReadHandle<'a, FilterOpts, FilterInv>,
}

/// The (name, points) pairs that iterating `entries` under filter `f`
/// yields: the entries whose name passes the filter, in order, each trimmed
/// to the filter's window.
pub open spec fn spec_iter_entries(
    entries: Seq<(Seq<char>, Seq<Point>)>,
    f: FilterOpts,
) -> Seq<(Seq<char>, Seq<Point>)>
    decreases entries.len(),
{
    if entries.len() == 0 {
        Seq::empty()
    } else {
        let rest = spec_iter_entries(entries.drop_last(), f);
        let e = entries.last();
        if f.spec_apply(e.0) {
            rest.push((e.0, f.spec_trim(e.1)))
        } else {
            rest
        }
    }
}

/// The (name, points) view of a vector of yielded pairs.
pub open spec fn pairs_view(v: Seq<(String, Vec<Point>)>) -> Seq<(Seq<char>, Seq<Point>)> {
    v.map_values(|e: (String, Vec<Point>)| (e.0@, e.1@))
}

impl<'a> LogsIterable<'a> {
    /// The revision this view observes.
    pub closed spec fn revision(self) -> Option<SeriesSet> {
        self.points.view()
    }

    /// The filter this view applies.
    pub closed spec fn filter_opts(self) -> FilterOpts {
        self.filter.view()
    }

    /// A view always holds a present, well-formed revision and an ordered
    /// filter window.
    pub open spec fn wf(self) -> bool {
        &&& self.revision() matches Some(s) && s.wf()
        &&& self.filter_opts().wf()
    }

    /// Yield the (name, trimmed points) pairs of this snapshot, in the set's
    /// order.  Everything returned is a function of the one revision and the
    /// one filter this view holds: no concurrent refresh can mix in data
    /// from another revision.
    pub fn iter(&self) -> (r: Vec<(String, Vec<Point>)>)
        requires
            self.wf(),
        ensures
            pairs_view(r@) == spec_iter_entries(
                self.revision().unwrap().entries(),
                self.filter_opts(),
            ),
    {
        let set = self.points.borrow().as_ref().unwrap();
        let f = self.filter.borrow();
        let ghost entries = set.entries();
        let mut out: Vec<(String, Vec<Point>)> = Vec::new();
        let n = set.len();
        let mut i: usize = 0;
        proof {
            assert(entries.take(0) =~= Seq::<(Seq<char>, Seq<Point>)>::empty());
        }
        while i < n
            invariant
                self.wf(),
                *set == self.revision().unwrap(),
                *f == self.filter_opts(),
                entries == set.entries(),
                n == set.series@.len(),
                0 <= i <= n,
                pairs_view(out@) == spec_iter_entries(entries.take(i as int), *f),
            decreases n - i,
        {
            let ghost out_before = pairs_view(out@);
            let s = &set.series[i];
            proof {
                assert(s.wf());
                assert(entries[i as int] == (s.name@, s.points@));
            }
            if f.apply(s.name.as_str()) {
                let trimmed = f.trim(s.points.as_slice());
                out.push((s.name.clone(), slice_to_vec(trimmed)));
                proof {
                    assert(pairs_view(out@) =~= out_before.push((s.name@, f.spec_trim(s.points@))));
                }
            }
            proof {
                assert(entries.take(i as int + 1).drop_last() =~= entries.take(i as int));
                assert(entries.take(i as int + 1).last() == entries[i as int]);
            }
            i += 1;
        }
        proof {
            assert(entries.take(n as int) =~= entries);
        }
        out
    }

    /// Release the view, unlocking the revision and the filter.
    pub fn release(self) {
        let LogsIterable { points, filter } = self;
        points.release_read();
        filter.release_read();
    }
}

/// A snapshot view never observes a mix of two revisions: everything it
/// yields is a function of the one revision and the one filter it holds
/// read-locked, so two views holding the same revision and filter yield
/// exactly the same pairs, whatever refreshes run in between.
pub proof fn lemma_snapshot_consistent(a: LogsIterable, b: LogsIterable)
    requires
        a.wf(),
        b.wf(),
        a.revision() == b.revision(),
        a.filter_opts() == b.filter_opts(),
    ensures
        spec_iter_entries(a.revision().unwrap().entries(), a.filter_opts()) == spec_iter_entries(
            b.revision().unwrap().entries(),
            b.filter_opts(),
        ),
{
}

impl Logs {
    /// Decide view acquisition from a revision guard already drawn: a view
    /// comes back exactly when the guard holds a present revision, and the
    /// view observes that very revision.  When the revision is absent the
    /// guard is released and no view is produced.  The filter lock is taken
    /// after the revision lock, in the fixed order.
    pub fn view_from<'a>(
        &'a self,
        points: ReadHandle<'a, Option<SeriesSet>, RevisionInv>,
    ) -> (r: Option<LogsIterable<'a>>)
        requires
            self.wf(),
            points.view() matches Some(s) ==> s.wf(),
        ensures
            (r is Some) <==> (points.view() is Some),
            r matches Some(it) ==> it.wf() && it.revision() == points.view(),
    {
        let present = points.borrow().is_some();
        if !present {
            points.release_read();
            return None;
        }
        let filter = self.filter.acquire_read();
        Some(LogsIterable { points, filter })
    }

    /// Acquire a snapshot view over the current revision and filter.  When
    /// the revision drawn from the store is absent (the file is missing or
    /// unreadable) no view is produced — the caller's signal to show a
    /// "no data" state — and otherwise the view observes exactly the drawn
    /// revision: that decision is [`Logs::view_from`]'s contract.  What the
    /// store holds at the moment of acquisition cannot be named from `&self`,
    /// so the presence of the result is pinned one step down, on the guard
    /// that was drawn.
    pub fn lock_iter(&self) -> (r: Option<LogsIterable<'_>>)
        requires
            self.wf(),
        ensures
            r matches Some(it) ==> it.wf(),
    {
        let points = self.file.read();
        self.view_from(points)
    }
}

} // verus!

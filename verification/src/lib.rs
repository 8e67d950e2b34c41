//! A live, filterable collection of named numeric time series extracted from
//! a newline-delimited structured log file.
//!
//! The crate parses each line of the watched file as a self-describing record,
//! turns its numeric fields into per-name series of points, and keeps the
//! resulting set behind a reader/writer lock so that a background refresh and
//! a rendering consumer can share it safely.  Filtering by name and trimming
//! by position window are pure operations with exact contracts.

use vstd::prelude::*;

pub mod colormap;
pub mod filter;
pub mod iter;
pub mod parse;
pub mod series;
pub mod watch;

pub use colormap::Colormap;
pub use filter::FilterOpts;
pub use filter::names_from_arg;
pub use iter::LogsIterable;
pub use parse::parse;
pub use series::Point;
pub use series::Series;
pub use series::SeriesSet;
pub use watch::FileEvent;
pub use watch::FileEventKind;
pub use watch::Watched;
pub use watch::is_event_about_file;

use iter::FilterInv;
use std::sync::Arc;
use vstd::rwlock::RwLock;
use watch::spec_file_name;

verus! {

/// The root object: a watched file's store together with the filter that
/// snapshot views apply.  It is safe to share between a background refresh
/// task and rendering consumers.
pub struct Logs {
    /// Watched file store, shared with the background watcher
    pub file: Arc<Watched>,
    /// Filter applied by snapshot views
    pub filter: RwLock<FilterOpts, FilterInv>,
}

impl Logs {
    /// Both locks carry their intended invariants.
    pub open spec fn wf(&self) -> bool {
        (*self.file).wf() && self.filter.pred() == (FilterInv {  })
    }

    /// Bind a new `Logs` to a file path, with the filter that views will
    /// apply, and load the file's current contents (`None` when the file
    /// could not be read) as the first revision.
    pub fn new(filepath: &str, filter: FilterOpts, contents: Option<&Vec<String>>) -> (l: Logs)
        requires
            filter.wf(),
            filepath@.len() > 0,
            filepath@.last() != '/',
        ensures
            l.wf(),
            (*l.file).name@ == spec_file_name(filepath@),
            (*l.file).path@ == filepath@,
    {
        let watched = Arc::new(Watched::new(filepath));
        let logs = Logs { file: watched, filter: RwLock::new(filter, Ghost(FilterInv {  })) };
        let _ = logs.file.refresh(contents);
        logs
    }
}

} // verus!


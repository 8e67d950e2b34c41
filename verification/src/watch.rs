//! The store for a watched file: identity plus the current revision of its
//! parsed series, behind a reader/writer lock.
//!
//! A background task reacts to filesystem events (modelled by [`FileEvent`]),
//! re-reads the file and calls [`Watched::refresh`]; consumers acquire read
//! access through [`Watched::read`].  The parse always runs outside the lock:
//! only the swap of the finished revision excludes readers.

use vstd::prelude::*;

use crate::filter::contains_name;
use crate::filter::contains_name_seq;
use crate::parse::parse;
use crate::parse::series_map;
use crate::series::SeriesSet;
use crate::series::strict_by_x;
use vstd::rwlock::RwLock;
use vstd::rwlock::RwLockPredicate;
use vstd::rwlock::ReadHandle;
use vstd::string::StrSliceExecFns;

verus! {

/// Index of the last '/' in `p`, or -1 when there is none.
pub open spec fn spec_last_slash(p: Seq<char>) -> int
    decreases p.len(),
{
    if p.len() == 0 {
        -1
    } else if p.last() == '/' {
        p.len() - 1
    } else {
        spec_last_slash(p.drop_last())
    }
}

/// The file name of a path: everything after the last '/'.
pub open spec fn spec_file_name(p: Seq<char>) -> Seq<char> {
    p.skip(spec_last_slash(p) + 1)
}

/// The last slash is a slash, and nothing after it is one.
proof fn lemma_last_slash_props(p: Seq<char>)
    ensures
        -1 <= spec_last_slash(p) < p.len(),
        spec_last_slash(p) >= 0 ==> p[spec_last_slash(p)] == '/',
        forall|i: int| spec_last_slash(p) < i < p.len() ==> p[i] != '/',
    decreases p.len(),
{
    if p.len() == 0 || p.last() == '/' {
    } else {
        lemma_last_slash_props(p.drop_last());
        let ls = spec_last_slash(p);
        assert forall|i: int| ls < i < p.len() implies p[i] != '/' by {
            if i < p.len() - 1 {
                assert(p.drop_last()[i] == p[i]);
            }
        }
        if ls >= 0 {
            assert(p.drop_last()[ls] == p[ls]);
        }
    }
}

/// The last component of a path: the part after the last '/'.
/// The path must not be empty and must not end in a separator.
pub fn file_name_of(path: &str) -> (r: String)
    requires
        path@.len() > 0,
        path@.last() != '/',
    ensures
        r@ == spec_file_name(path@),
{
    proof {
        lemma_last_slash_props(path@);
    }
    let n = path.unicode_len();
    let mut j: usize = n;
    while j > 0
        invariant
            0 <= j <= n,
            n == path@.len(),
            forall|i: int| j <= i < n ==> path@[i] != '/',
        decreases j,
    {
        if path.get_char(j - 1) == '/' {
            proof {
                lemma_last_slash_props(path@);
                let ls = spec_last_slash(path@);
                if ls > j - 1 {
                    assert(path@[ls] != '/');
                }
                if ls < j - 1 {
                    assert(path@[j - 1] != '/');
                }
                assert(ls == j - 1);
            }
            let tail = path.substring_char(j, n);
            return tail.to_owned();
        }
        j -= 1;
    }
    proof {
        lemma_last_slash_props(path@);
        let ls = spec_last_slash(path@);
        if ls >= 0 {
            assert(path@[ls] != '/');
        }
        assert(path@.skip(0) =~= path@);
    }
    path.to_owned()
}

/// Invariant of the revision lock: a present revision is well formed.
pub struct RevisionInv {}

impl RwLockPredicate<Option<SeriesSet>> for RevisionInv {
    open spec fn inv(self, v: Option<SeriesSet>) -> bool {
        match v {
            Some(s) => s.wf(),
            None => true,
        }
    }
}

/// A watched file: its identity, and ownership of the current revision of
/// parsed series under a mutation guard.  The revision is absent when the
/// file does not exist or failed to read.
pub struct Watched {
    /// File name (the path's last component)
    pub name: String,
    /// Full path of the file
    pub path: String,
    /// Current revision, swapped whole on each refresh
    pub points: RwLock<Option<SeriesSet>, RevisionInv>,
}

impl Watched {
    /// The revision lock carries its intended invariant.
    pub open spec fn wf(&self) -> bool {
        self.points.pred() == (RevisionInv {  })
    }

    /// Bind a store to a path.  The first revision is absent until the first
    /// refresh.
    pub fn new(filepath: &str) -> (w: Watched)
        requires
            filepath@.len() > 0,
            filepath@.last() != '/',
        ensures
            w.wf(),
            w.name@ == spec_file_name(filepath@),
            w.path@ == filepath@,
    {
        let name = file_name_of(filepath);
        let path = filepath.to_owned();
        let points = RwLock::new(None, Ghost(RevisionInv {  }));
        Watched { name, path, points }
    }

    /// Parse the file's contents into a fresh revision and atomically install
    /// it, replacing the previous revision whole.  `contents` carries the
    /// file's lines, or `None` when the file is missing or unreadable.  The
    /// parse runs before the write lock is taken, so only the swap excludes
    /// readers.  Returns (in ghost) the installed revision.
    pub fn refresh(&self, contents: Option<&Vec<String>>) -> (installed: Ghost<Option<SeriesSet>>)
        requires
            self.wf(),
        ensures
            (installed@ is Some) <==> (contents is Some),
            contents matches Some(lines) ==> (installed@ matches Some(s) && s.wf() && s@
                == series_map(lines.deep_view()) && (forall|k: Seq<char>|
                #![auto]
                s@.contains_key(k) ==> strict_by_x(s@[k]))),
    {
        let rev: Option<SeriesSet> = match contents {
            Some(lines) => Some(parse(lines)),
            None => None,
        };
        let ghost g = rev;
        let (_prev, handle) = self.points.acquire_write();
        handle.release_write(rev);
        Ghost(g)
    }

    /// Acquire shared read access to the current revision.  The revision
    /// cannot be replaced until the handle is released.
    pub fn read(&self) -> (h: ReadHandle<'_, Option<SeriesSet>, RevisionInv>)
        requires
            self.wf(),
        ensures
            h.view() matches Some(s) ==> s.wf(),
    {
        self.points.acquire_read()
    }
}

/// A refresh is a function of the file's lines alone: two revisions parsed
/// from the same lines hold identical content, whatever their identity.
pub proof fn lemma_refresh_idempotent(a: SeriesSet, b: SeriesSet, lines: Seq<Seq<char>>)
    requires
        a@ == series_map(lines),
        b@ == series_map(lines),
    ensures
        a@ == b@,
{
}

/// Kinds of filesystem notification, reduced to what the watcher reads.
#[derive(Clone, Copy, Debug, PartialEq, Eq, Structural)]
pub enum FileEventKind {
    /// A file's contents changed
    Modify,
    /// A file appeared
    Create,
    /// A file was removed
    Remove,
    /// Any other notification (access, metadata, and the like)
    Other,
}

/// A filesystem event as the watcher sees it: its kind, and the file names
/// (final path components) of the paths it concerns.
#[derive(Debug, Clone)]
pub struct FileEvent {
    /// What happened
    pub kind: FileEventKind,
    /// File names of the event's paths
    pub names: Vec<String>,
}

/// Whether `event` calls for a refresh of the file called `filename`: only
/// Modify, Create and Remove events are relevant, and only when one of the
/// event's paths names the file.
pub open spec fn spec_event_about_file(filename: Seq<char>, event: FileEvent) -> bool {
    (event.kind == FileEventKind::Modify || event.kind == FileEventKind::Create || event.kind
        == FileEventKind::Remove) && contains_name_seq(event.names@, filename)
}

/// Decide whether a filesystem event is about the watched file.
pub fn is_event_about_file(filename: &String, event: &FileEvent) -> (r: bool)
    ensures
        r == spec_event_about_file(filename@, *event),
{
    let relevant = match event.kind {
        FileEventKind::Modify => true,
        FileEventKind::Create => true,
        FileEventKind::Remove => true,
        FileEventKind::Other => false,
    };
    relevant && contains_name(&event.names, filename)
}

} // verus!

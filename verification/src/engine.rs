//! The engine: the active view, the time of the last refresh, the current
//! report and the metadata cache, advanced by the display's requests.
//!
//! The engine reads nothing itself. Its caller asks whether a refresh is
//! due, reads the process table and the status texts that the engine asks
//! for, and hands both over.

use crate::cache::{
    absorbed, pending, reads_view, MetadataCache, MetadataView, StatusRead, StatusReadView,
};
use crate::report::{list_lines, render_list, render_tree, report_view, tree_lines};
use crate::scheduler::{refresh_due, should_refresh, DEFAULT_MIN_INTERVAL};
use crate::snapshot::{snapshot_view, EntryView, ProcessSnapshotEntry};
use vstd::prelude::*;
use vstd::string::*;

verus! {

/// The two ways to show the processes.
#[derive(Clone, Copy, Debug, PartialEq, Eq, Structural)]
pub enum ViewKind {
    /// One row per process, in snapshot order.
    List,
    /// Parent/child tree, depth first.
    Tree,
}

/// Why the engine could not compute a report.
#[derive(Clone, Copy, Debug, PartialEq, Eq, Structural)]
pub enum EngineError {
    /// The snapshot holds no process at all: the process table could not be
    /// queried, since a running system has at least the process that asks.
    ProcessTableUnavailable,
}

impl EngineError {
    /// The error in words.
    pub fn message(&self) -> (text: String)
        ensures
            text@ == "the process table could not be queried"@,
    {
        match self {
            EngineError::ProcessTableUnavailable => String::from_str(
                "the process table could not be queried",
            ),
        }
    }
}

/// The state of the engine.
pub struct Engine {
    view: Option<ViewKind>,
    last_refresh: u64,
    min_interval: u64,
    report: Vec<String>,
    cache: MetadataCache,
}

/// The mathematical value of the engine's state.
pub struct EngineView {
    /// The active view, if any.
    pub view: Option<ViewKind>,
    /// When the report was last recomputed.
    pub last_refresh: u64,
    /// The least time between two recomputations.
    pub min_interval: u64,
    /// The current report.
    pub report: Seq<Seq<char>>,
    /// The metadata held, by pid.
    pub cache: Map<u32, MetadataView>,
}

impl View for Engine {
    type V = EngineView;

    closed spec fn view(&self) -> EngineView {
        EngineView {
            view: self.view,
            last_refresh: self.last_refresh,
            min_interval: self.min_interval,
            report: report_view(self.report@),
            cache: self.cache@,
        }
    }
}

/// The report of a snapshot in the given view.
pub open spec fn lines_for(
    kind: ViewKind,
    s: Seq<EntryView>,
    cache: Map<u32, MetadataView>,
) -> Seq<Seq<char>> {
    match kind {
        ViewKind::List => list_lines(s, cache),
        ViewKind::Tree => tree_lines(s, cache),
    }
}

/// A tick at `now` recomputes the report: a view is active and the minimum
/// interval has elapsed since the last refresh.
pub open spec fn due_at(engine: EngineView, now: u64) -> bool {
    engine.view is Some && refresh_due(now, engine.last_refresh, engine.min_interval)
}

/// `new` is `old` after the report has been recomputed at `now`, in view
/// `kind`, from the snapshot `s` and the status texts `reads`: every process
/// of the snapshot has been looked up, and the report is that of the
/// snapshot with the metadata then held.
pub open spec fn recomputed(
    old: EngineView,
    new: EngineView,
    kind: ViewKind,
    now: u64,
    s: Seq<EntryView>,
    reads: Seq<StatusReadView>,
) -> bool {
    &&& new.view == Some(kind)
    &&& new.last_refresh == now
    &&& new.min_interval == old.min_interval
    &&& absorbed(old.cache, new.cache, s, reads)
    &&& new.report == lines_for(kind, s, new.cache)
}

impl Engine {
    /// An engine started at `now`: no view, an empty report, an empty cache,
    /// and the default minimum interval.
    pub fn new(now: u64) -> (engine: Engine)
        ensures
            engine@ == (EngineView {
                view: None,
                last_refresh: now,
                min_interval: DEFAULT_MIN_INTERVAL,
                report: Seq::empty(),
                cache: Map::empty(),
            }),
    {
        Engine::with_min_interval(now, DEFAULT_MIN_INTERVAL)
    }

    /// An engine started at `now` that recomputes at most once per `min_interval`.
    pub fn with_min_interval(now: u64, min_interval: u64) -> (engine: Engine)
        ensures
            engine@ == (EngineView {
                view: None,
                last_refresh: now,
                min_interval,
                report: Seq::empty(),
                cache: Map::empty(),
            }),
    {
        let engine = Engine {
            view: None,
            last_refresh: now,
            min_interval,
            report: Vec::new(),
            cache: MetadataCache::new(),
        };
        assert(engine@.report =~= Seq::<Seq<char>>::empty());
        engine
    }

    /// The active view, if any.
    pub fn active_view(&self) -> (view: Option<ViewKind>)
        ensures
            view == self@.view,
    {
        self.view
    }

    /// The report as last computed.
    pub fn current_report(&self) -> (report: &Vec<String>)
        ensures
            report_view(report@) == self@.report,
    {
        &self.report
    }

    /// The metadata cache.
    pub fn metadata(&self) -> (cache: &MetadataCache)
        ensures
            cache@ == self@.cache,
    {
        &self.cache
    }

    /// Whether a tick at `now` would recompute the report.
    pub fn is_refresh_due(&self, now: u64) -> (due: bool)
        ensures
            due == due_at(self@, now),
    {
        match self.view {
            Some(_) => should_refresh(now, self.last_refresh, self.min_interval),
            None => false,
        }
    }

    /// The pids of the snapshot whose status text the engine asks for: those
    /// that the cache does not hold, each once, in snapshot order.
    pub fn pending_lookups(&self, snapshot: &Vec<ProcessSnapshotEntry>) -> (pids: Vec<u32>)
        ensures
            pids@ == pending(self@.cache, snapshot_view(snapshot@)),
    {
        self.cache.pending_lookups(snapshot)
    }

    fn recompute(
        &mut self,
        kind: ViewKind,
        now: u64,
        snapshot: &Vec<ProcessSnapshotEntry>,
        reads: &Vec<StatusRead>,
    )
        ensures
            recomputed(
                old(self)@,
                final(self)@,
                kind,
                now,
                snapshot_view(snapshot@),
                reads_view(reads@),
            ),
    {
        let lines = match kind {
            ViewKind::List => render_list(snapshot, &mut self.cache, reads),
            ViewKind::Tree => render_tree(snapshot, &mut self.cache, reads),
        };
        self.report = lines;
        self.view = Some(kind);
        self.last_refresh = now;
    }

    /// Switches to the view `kind` and recomputes the report at once,
    /// whatever time has passed since the last refresh. An empty snapshot is
    /// refused, and the engine stays as it was.
    pub fn request_view(
        &mut self,
        kind: ViewKind,
        now: u64,
        snapshot: &Vec<ProcessSnapshotEntry>,
        reads: &Vec<StatusRead>,
    ) -> (outcome: Result<(), EngineError>)
        ensures
            snapshot@.len() == 0 ==> outcome == Err::<(), EngineError>(
                EngineError::ProcessTableUnavailable,
            ) && final(self)@ == old(self)@,
            snapshot@.len() > 0 ==> outcome is Ok && recomputed(
                old(self)@,
                final(self)@,
                kind,
                now,
                snapshot_view(snapshot@),
                reads_view(reads@),
            ),
    {
        if snapshot.len() == 0 {
            return Err(EngineError::ProcessTableUnavailable);
        }
        self.recompute(kind, now, snapshot, reads);
        Ok(())
    }

    /// One tick at `now`. Where no refresh is due nothing changes and
    /// `Ok(false)` is returned, whatever the snapshot holds. Where one is due
    /// the report is recomputed, in the active view, from the snapshot and
    /// the status texts, and `Ok(true)` is returned; an empty snapshot is
    /// refused, and the engine stays as it was.
    pub fn request_refresh_if_due(
        &mut self,
        now: u64,
        snapshot: &Vec<ProcessSnapshotEntry>,
        reads: &Vec<StatusRead>,
    ) -> (outcome: Result<bool, EngineError>)
        ensures
            !due_at(old(self)@, now) ==> outcome == Ok::<bool, EngineError>(false) && final(self)@
                == old(self)@,
            due_at(old(self)@, now) && snapshot@.len() == 0 ==> outcome == Err::<
                bool,
                EngineError,
            >(EngineError::ProcessTableUnavailable) && final(self)@ == old(self)@,
            due_at(old(self)@, now) && snapshot@.len() > 0 ==> outcome == Ok::<bool, EngineError>(
                true,
            ) && recomputed(
                old(self)@,
                final(self)@,
                old(self)@.view->0,
                now,
                snapshot_view(snapshot@),
                reads_view(reads@),
            ),
    {
        match self.view {
            Some(kind) => {
                if !should_refresh(now, self.last_refresh, self.min_interval) {
                    Ok(false)
                } else if snapshot.len() == 0 {
                    Err(EngineError::ProcessTableUnavailable)
                } else {
                    self.recompute(kind, now, snapshot, reads);
                    Ok(true)
                }
            },
            None => Ok(false),
        }
    }

    /// Leaves the active view. The report and the cache stay as they are;
    /// ticks recompute nothing until a view is requested again.
    pub fn leave_view(&mut self)
        ensures
            final(self)@ == (EngineView { view: None, ..old(self)@ }),
    {
        self.view = None;
    }
}

/// A view switch restarts the interval: after it, a tick recomputes exactly
/// when the minimum interval has elapsed since the switch, however long ago
/// the refresh before it was.
pub proof fn law_view_switch_restarts_the_interval(
    old: EngineView,
    new: EngineView,
    kind: ViewKind,
    now: u64,
    s: Seq<EntryView>,
    reads: Seq<StatusReadView>,
    later: u64,
)
    requires
        recomputed(old, new, kind, now, s, reads),
        now <= later,
    ensures
        due_at(new, later) <==> later - now >= old.min_interval,
{
}

} // verus!

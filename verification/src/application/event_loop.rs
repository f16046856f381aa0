//! The order of work in one tick of the attached terminal, and what each event
//! leads to.

use crate::backend::PaneId;
use crate::ui::geometry::Rect;
use vstd::prelude::*;

verus! {

/// How long to wait for input, in milliseconds: about sixty ticks a second.
pub const INPUT_WAIT_MS: u64 = 16;

/// What a lost connection is reported as. Leaving without a word would look
/// like leaving on purpose; and the session may well be running still.
pub const CONNECTION_LOST: &'static str =
    "the connection to the session ended. The session may still be running — reattach with `nightcrow attach`";

/// What a tick does for one project.
#[derive(Debug, Clone, Copy, PartialEq, Eq, Structural)]
pub enum Work {
    /// Take the newest snapshot and apply it.
    PollSnapshot,
    /// Take what was loaded of the commit log, which may load further.
    PollCommitLogPage,
    /// Take the newest snapshot and keep it for later.
    DrainSnapshot,
    /// Take what the watcher saw and refresh.
    PollTreeWatcher,
    /// Take what the watcher saw and keep it for later.
    DrainTreeWatcher,
    /// Take what the terminals wrote.
    PollTerminal,
}

/// A piece of work for the project at `project`.
#[derive(Debug, Clone, Copy, PartialEq, Eq, Structural)]
pub struct ProjectWork {
    pub project: usize,
    pub work: Work,
}

/// What a tick does for one project. Every project takes what is queued for it,
/// because the queues fill whichever tab is shown; only the one that is shown
/// acts on it.
pub open spec fn work_for(project: usize, active: usize) -> Seq<ProjectWork> {
    if project == active {
        seq![
            ProjectWork { project, work: Work::PollSnapshot },
            ProjectWork { project, work: Work::PollCommitLogPage },
            ProjectWork { project, work: Work::PollTreeWatcher },
            ProjectWork { project, work: Work::PollTerminal },
        ]
    } else {
        seq![
            ProjectWork { project, work: Work::DrainSnapshot },
            ProjectWork { project, work: Work::DrainTreeWatcher },
            ProjectWork { project, work: Work::PollTerminal },
        ]
    }
}

/// What a tick does for the first `n` projects, in their order.
pub open spec fn tick_work(n: nat, active: usize) -> Seq<ProjectWork>
    decreases n,
{
    if n == 0 {
        Seq::empty()
    } else {
        tick_work((n - 1) as nat, active) + work_for((n - 1) as usize, active)
    }
}

/// What a tick does for the projects, in their order.
pub fn plan_work(projects: usize, active: usize) -> (r: Vec<ProjectWork>)
    ensures
        r@ == tick_work(projects as nat, active),
{
    let mut out: Vec<ProjectWork> = Vec::new();
    let mut i: usize = 0;
    while i < projects
        invariant
            i <= projects,
            out@ == tick_work(i as nat, active),
        decreases projects - i,
    {
        let ghost before = out@;
        if i == active {
            out.push(ProjectWork { project: i, work: Work::PollSnapshot });
            out.push(ProjectWork { project: i, work: Work::PollCommitLogPage });
            out.push(ProjectWork { project: i, work: Work::PollTreeWatcher });
        } else {
            out.push(ProjectWork { project: i, work: Work::DrainSnapshot });
            out.push(ProjectWork { project: i, work: Work::DrainTreeWatcher });
        }
        out.push(ProjectWork { project: i, work: Work::PollTerminal });
        proof {
            assert(out@ =~= before + work_for(i, active));
        }
        i += 1;
    }
    out
}

/// Where a pane is drawn.
#[derive(Debug, Clone, Copy, PartialEq, Eq, Structural)]
pub struct PaneArea {
    pub pane: PaneId,
    pub area: Rect,
}

/// The size a pane is to have.
#[derive(Debug, Clone, Copy, PartialEq, Eq, Structural)]
pub struct PaneLayout {
    pub pane: PaneId,
    pub rows: u16,
    pub cols: u16,
}

/// The size of a pane drawn there.
pub open spec fn layout_of(area: PaneArea) -> PaneLayout {
    PaneLayout { pane: area.pane, rows: area.area.height, cols: area.area.width }
}

/// The sizes of the panes, from where they are drawn.
pub fn pane_layouts(areas: &Vec<PaneArea>) -> (r: Vec<PaneLayout>)
    ensures
        r@ == areas@.map_values(|a: PaneArea| layout_of(a)),
{
    let ghost all = areas@.map_values(|a: PaneArea| layout_of(a));
    let mut out: Vec<PaneLayout> = Vec::new();
    let mut i: usize = 0;
    while i < areas.len()
        invariant
            i <= areas@.len(),
            all == areas@.map_values(|a: PaneArea| layout_of(a)),
            out@ == all.take(i as int),
        decreases areas.len() - i,
    {
        out.push(
            PaneLayout {
                pane: areas[i].pane,
                rows: areas[i].area.height,
                cols: areas[i].area.width,
            },
        );
        proof {
            assert(all.take(i + 1) =~= all.take(i as int).push(all[i as int]));
        }
        i += 1;
    }
    proof {
        assert(all.take(i as int) =~= all);
    }
    out
}

/// What the terminal reported.
#[derive(Debug, Clone, Copy, PartialEq, Eq, Structural)]
pub enum Input {
    Resize,
    Key,
    Paste,
    Mouse,
    Other,
}

/// What handling a key or a click asks for; `R` is a request about projects.
#[derive(Debug)]
pub enum KeyOutcome<R> {
    Quit,
    Redraw,
    Continue,
    Project(R),
}

/// What just happened in the loop.
#[derive(Debug)]
pub enum LoopEvent<R> {
    /// The tab list was brought up to date.
    Synced { connected: bool, projects: usize, active: usize },
    /// The work for the projects was done.
    Worked,
    /// The screen was measured: where the panes of the active project are, if
    /// there is one.
    Measured(Option<Vec<PaneArea>>),
    /// The panes were given their sizes.
    Resized,
    Drawn,
    /// The wait for input was over.
    Waited(Option<Input>),
    /// A key or a click was handled.
    Handled(KeyOutcome<R>),
    /// A paste was handled.
    Pasted,
    /// The screen was cleared.
    Cleared,
    /// The request was handed over.
    Requested,
    /// The terminal failed.
    Failed(String),
}

/// What the loop does next.
#[derive(Debug)]
pub enum LoopAction<R> {
    /// Bring the tab list up to date: whoever owns it gets the first word in
    /// each tick.
    Sync,
    Work(Vec<ProjectWork>),
    Measure,
    /// Give the panes of the active project these sizes and bring their
    /// scrolling up to date.
    Resize(Vec<PaneLayout>),
    Draw,
    /// Wait for input at most this long.
    Wait(u64),
    HandleKey,
    HandlePaste,
    HandleMouse,
    Clear,
    /// Hand the request to whoever owns the tab list.
    Request(R),
    Leave,
    LeaveWithError(String),
}

/// Whether the action `a` is what the event `e` leads to.
pub open spec fn leads_to<R>(e: LoopEvent<R>, a: LoopAction<R>) -> bool {
    match e {
        LoopEvent::Synced { connected, projects, active } => if connected {
            a matches LoopAction::Work(work) && work@ == tick_work(projects as nat, active)
        } else {
            a matches LoopAction::LeaveWithError(text) && text@ == CONNECTION_LOST@
        },
        LoopEvent::Worked => a is Measure,
        LoopEvent::Measured(Some(areas)) => a matches LoopAction::Resize(layouts) && layouts@
            == areas@.map_values(|x: PaneArea| layout_of(x)),
        LoopEvent::Measured(None) => a is Draw,
        LoopEvent::Resized => a is Draw,
        LoopEvent::Drawn => a == LoopAction::<R>::Wait(INPUT_WAIT_MS),
        LoopEvent::Waited(Some(Input::Key)) => a is HandleKey,
        LoopEvent::Waited(Some(Input::Paste)) => a is HandlePaste,
        LoopEvent::Waited(Some(Input::Mouse)) => a is HandleMouse,
        LoopEvent::Waited(_) => a is Sync,
        LoopEvent::Handled(KeyOutcome::Quit) => a is Leave,
        LoopEvent::Handled(KeyOutcome::Redraw) => a is Clear,
        LoopEvent::Handled(KeyOutcome::Continue) => a is Sync,
        LoopEvent::Handled(KeyOutcome::Project(request)) => a == LoopAction::Request(request),
        LoopEvent::Pasted => a is Sync,
        LoopEvent::Cleared => a is Sync,
        LoopEvent::Requested => a is Sync,
        LoopEvent::Failed(reason) => a == LoopAction::<R>::LeaveWithError(reason),
    }
}

/// What a handler's outcome leads to. Opening and closing a tab is a request to
/// whoever owns the tab list, not a local edit.
pub fn apply_outcome<R>(outcome: KeyOutcome<R>) -> (r: LoopAction<R>)
    ensures
        leads_to(LoopEvent::Handled(outcome), r),
{
    match outcome {
        KeyOutcome::Quit => LoopAction::Leave,
        KeyOutcome::Redraw => LoopAction::Clear,
        KeyOutcome::Continue => LoopAction::Sync,
        KeyOutcome::Project(request) => LoopAction::Request(request),
    }
}

/// One step of the loop: what is to be done after `event`. The first thing to
/// do is `Sync`.
///
/// A resize leads to nothing of its own: the next drawing takes the new size.
pub fn main_loop<R>(event: LoopEvent<R>) -> (r: LoopAction<R>)
    ensures
        leads_to(event, r),
{
    match event {
        LoopEvent::Synced { connected, projects, active } => if connected {
            LoopAction::Work(plan_work(projects, active))
        } else {
            LoopAction::LeaveWithError(CONNECTION_LOST.to_owned())
        },
        LoopEvent::Worked => LoopAction::Measure,
        LoopEvent::Measured(areas) => match areas {
            Some(areas) => LoopAction::Resize(pane_layouts(&areas)),
            None => LoopAction::Draw,
        },
        LoopEvent::Resized => LoopAction::Draw,
        LoopEvent::Drawn => LoopAction::Wait(INPUT_WAIT_MS),
        LoopEvent::Waited(input) => match input {
            Some(Input::Key) => LoopAction::HandleKey,
            Some(Input::Paste) => LoopAction::HandlePaste,
            Some(Input::Mouse) => LoopAction::HandleMouse,
            _ => LoopAction::Sync,
        },
        LoopEvent::Handled(outcome) => apply_outcome(outcome),
        LoopEvent::Pasted => LoopAction::Sync,
        LoopEvent::Cleared => LoopAction::Sync,
        LoopEvent::Requested => LoopAction::Sync,
        LoopEvent::Failed(reason) => LoopAction::LeaveWithError(reason),
    }
}

/// How often a piece of work stands in a list.
pub open spec fn times(work: Seq<ProjectWork>, piece: ProjectWork) -> nat {
    work.to_multiset().count(piece)
}

proof fn lemma_work_for(i: usize, active: usize, piece: ProjectWork)
    ensures
        times(work_for(i, active), piece) == if piece.project != i {
            0nat
        } else if i == active {
            if piece.work == Work::PollSnapshot || piece.work == Work::PollCommitLogPage
                || piece.work == Work::PollTreeWatcher || piece.work == Work::PollTerminal {
                1
            } else {
                0
            }
        } else if piece.work == Work::DrainSnapshot || piece.work == Work::DrainTreeWatcher
            || piece.work == Work::PollTerminal {
            1
        } else {
            0
        },
{
    broadcast use vstd::seq_lib::group_to_multiset_ensures;

    let w = work_for(i, active);
    if i == active {
        assert(w =~= Seq::<ProjectWork>::empty().push(
            ProjectWork { project: i, work: Work::PollSnapshot },
        ).push(ProjectWork { project: i, work: Work::PollCommitLogPage }).push(
            ProjectWork { project: i, work: Work::PollTreeWatcher },
        ).push(ProjectWork { project: i, work: Work::PollTerminal }));
    } else {
        assert(w =~= Seq::<ProjectWork>::empty().push(
            ProjectWork { project: i, work: Work::DrainSnapshot },
        ).push(ProjectWork { project: i, work: Work::DrainTreeWatcher }).push(
            ProjectWork { project: i, work: Work::PollTerminal },
        ));
    }
}

proof fn lemma_times(n: nat, active: usize, piece: ProjectWork)
    requires
        n <= usize::MAX,
    ensures
        times(tick_work(n, active), piece) == if piece.project < n {
            times(work_for(piece.project, active), piece)
        } else {
            0
        },
    decreases n,
{
    broadcast use vstd::seq_lib::group_to_multiset_ensures;

    if n > 0 {
        let before = tick_work((n - 1) as nat, active);
        let last = work_for((n - 1) as usize, active);
        lemma_times((n - 1) as nat, active, piece);
        lemma_work_for((n - 1) as usize, active, piece);
        vstd::seq_lib::lemma_multiset_commutative(before, last);
    }
}

/// In every tick every project's terminals are read once, and so is its queue
/// of snapshots, whichever tab is shown: nothing piles up behind a hidden tab.
pub proof fn law_every_project_is_drained(projects: usize, active: usize, i: usize)
    requires
        i < projects,
    ensures
        times(
            tick_work(projects as nat, active),
            ProjectWork { project: i, work: Work::PollTerminal },
        ) == 1,
        times(
            tick_work(projects as nat, active),
            ProjectWork { project: i, work: Work::PollSnapshot },
        ) + times(
            tick_work(projects as nat, active),
            ProjectWork { project: i, work: Work::DrainSnapshot },
        ) == 1,
        times(
            tick_work(projects as nat, active),
            ProjectWork { project: i, work: Work::PollTreeWatcher },
        ) + times(
            tick_work(projects as nat, active),
            ProjectWork { project: i, work: Work::DrainTreeWatcher },
        ) == 1,
{
    lemma_times(projects as nat, active, ProjectWork { project: i, work: Work::PollTerminal });
    lemma_times(projects as nat, active, ProjectWork { project: i, work: Work::PollSnapshot });
    lemma_times(projects as nat, active, ProjectWork { project: i, work: Work::DrainSnapshot });
    lemma_times(projects as nat, active, ProjectWork { project: i, work: Work::PollTreeWatcher });
    lemma_times(projects as nat, active, ProjectWork { project: i, work: Work::DrainTreeWatcher });
    lemma_work_for(i, active, ProjectWork { project: i, work: Work::PollTerminal });
    lemma_work_for(i, active, ProjectWork { project: i, work: Work::PollSnapshot });
    lemma_work_for(i, active, ProjectWork { project: i, work: Work::DrainSnapshot });
    lemma_work_for(i, active, ProjectWork { project: i, work: Work::PollTreeWatcher });
    lemma_work_for(i, active, ProjectWork { project: i, work: Work::DrainTreeWatcher });
}

/// Only the project that is shown acts on what it takes: the others apply no
/// snapshot, load no further commits and refresh no tree.
pub proof fn law_only_the_active_project_acts(projects: usize, active: usize, i: usize)
    requires
        i != active,
    ensures
        times(
            tick_work(projects as nat, active),
            ProjectWork { project: i, work: Work::PollSnapshot },
        ) == 0,
        times(
            tick_work(projects as nat, active),
            ProjectWork { project: i, work: Work::PollCommitLogPage },
        ) == 0,
        times(
            tick_work(projects as nat, active),
            ProjectWork { project: i, work: Work::PollTreeWatcher },
        ) == 0,
{
    lemma_times(projects as nat, active, ProjectWork { project: i, work: Work::PollSnapshot });
    lemma_times(projects as nat, active, ProjectWork { project: i, work: Work::PollCommitLogPage });
    lemma_times(projects as nat, active, ProjectWork { project: i, work: Work::PollTreeWatcher });
    lemma_work_for(i, active, ProjectWork { project: i, work: Work::PollSnapshot });
    lemma_work_for(i, active, ProjectWork { project: i, work: Work::PollCommitLogPage });
    lemma_work_for(i, active, ProjectWork { project: i, work: Work::PollTreeWatcher });
}

/// The loop is left in three ways only: on purpose, because the connection was
/// lost, or because the terminal failed. Each of the last two says why.
pub proof fn law_leaving_is_deliberate_or_explained<R>(e: LoopEvent<R>, a: LoopAction<R>)
    requires
        leads_to(e, a),
    ensures
        a is Leave ==> e matches LoopEvent::Handled(KeyOutcome::Quit),
        a matches LoopAction::LeaveWithError(text) ==> (e is Failed || (e is Synced && text@
            == CONNECTION_LOST@)),
{
}

/// What the loop does next, for everything that can have happened: it syncs,
/// works, measures, resizes what was measured, draws, waits sixteen
/// milliseconds for input and handles what came, and begins again.
pub proof fn law_the_loop_goes_round<R>(e: LoopEvent<R>, a: LoopAction<R>)
    requires
        leads_to(e, a),
    ensures
        e matches LoopEvent::Synced { connected, projects, active } ==> (connected ==> (
        a matches LoopAction::Work(work) && work@ == tick_work(projects as nat, active))) && (
        !connected ==> a is LeaveWithError),
        e is Worked ==> a is Measure,
        e matches LoopEvent::Measured(Some(areas)) ==> (a matches LoopAction::Resize(layouts)
            && layouts@.len() == areas@.len() && forall|i: int|
            0 <= i < areas@.len() ==> #[trigger] layouts@[i] == (PaneLayout {
                pane: areas@[i].pane,
                rows: areas@[i].area.height,
                cols: areas@[i].area.width,
            })),
        e matches LoopEvent::Measured(None) ==> a is Draw,
        e is Resized ==> a is Draw,
        e is Drawn ==> a == LoopAction::<R>::Wait(16),
        e == LoopEvent::<R>::Waited(Some(Input::Key)) ==> a is HandleKey,
        e == LoopEvent::<R>::Waited(Some(Input::Paste)) ==> a is HandlePaste,
        e == LoopEvent::<R>::Waited(Some(Input::Mouse)) ==> a is HandleMouse,
        e == LoopEvent::<R>::Waited(Some(Input::Resize)) || e == LoopEvent::<R>::Waited(
            Some(Input::Other),
        ) || e == LoopEvent::<R>::Waited(None) ==> a is Sync,
        e matches LoopEvent::Handled(outcome) ==> (outcome is Quit ==> a is Leave) && (
        outcome is Redraw ==> a is Clear) && (outcome is Continue ==> a is Sync) && (
        outcome matches KeyOutcome::Project(request) ==> a == LoopAction::Request(request)),
        e is Pasted || e is Cleared || e is Requested ==> a is Sync,
        e matches LoopEvent::Failed(reason) ==> a == LoopAction::<R>::LeaveWithError(reason),
{
}

/// The projects are worked on one after another, in their order: the active one
/// polls its snapshot, its commit log, its tree and its terminal, the others
/// drain the first and the third and poll their terminal.
pub proof fn law_projects_are_worked_on_in_order(n: nat, active: usize)
    requires
        n < usize::MAX,
    ensures
        tick_work(0, active).len() == 0,
        ({
            let project = n as usize;
            let before = tick_work(n, active);
            &&& project == active ==> tick_work(n + 1, active) == before.push(
                ProjectWork { project, work: Work::PollSnapshot },
            ).push(ProjectWork { project, work: Work::PollCommitLogPage }).push(
                ProjectWork { project, work: Work::PollTreeWatcher },
            ).push(ProjectWork { project, work: Work::PollTerminal })
            &&& project != active ==> tick_work(n + 1, active) == before.push(
                ProjectWork { project, work: Work::DrainSnapshot },
            ).push(ProjectWork { project, work: Work::DrainTreeWatcher }).push(
                ProjectWork { project, work: Work::PollTerminal },
            )
        }),
{
    let project = n as usize;
    let before = tick_work(n, active);
    assert(tick_work(n + 1, active) == before + work_for(project, active));
}

} // verus!

//! The panes of one client: what it shows, what it asked the backend for, and
//! how what the backend reports changes both.

use crate::backend::{
    opt_string, opt_text, BackendCall, BackendError, BackendEvent, PaneId, TerminalBackend,
};
use crate::runtime::emulator::{
    can_keep, clamped_size, display_offset_of, effective_size, fed, history_limit_of,
    history_size_of, refit, title_of, writes_of, EmulatorEvents, PaneEmulator, ScreenModel,
    TermEvent,
};
use crate::runtime::order::{
    arrange, arranged, comes_first, law_arranging_follows_the_order,
    law_arranging_keeps_every_pane, law_omitted_panes_keep_their_place,
};
use crate::text::{chars_of, decimal, decimal_text, same_text, string_of, trim, trim_text};
use std::collections::{HashMap, VecDeque};
use vstd::prelude::*;
use vstd::std_specs::hash::group_hash_axioms;

verus! {

broadcast use group_hash_axioms;

/// One pane as this client lists it.
#[derive(Debug)]
pub struct PaneInfo {
    pub id: PaneId,
    pub title: String,
}

/// What a plugin last reported about getting a pane running again.
#[derive(Debug)]
pub struct Recovery {
    pub state: String,
    pub detail: Option<String>,
    pub deadline_epoch: Option<i64>,
    pub attempt: u32,
}

/// The panes of one client and the backend they live on.
pub struct TerminalState<B: TerminalBackend> {
    pub backend: Option<B>,
    pub panes: Vec<PaneInfo>,
    /// Index of the focused pane.
    pub active: usize,
    /// Lines of history each pane's emulator keeps.
    pub scrollback_lines: usize,
    pub emulators: HashMap<PaneId, PaneEmulator>,
    /// The size each pane was last set to: for the owner of the sizing what it
    /// last asked for, for anyone else what the session reported.
    pub last_content_size: HashMap<PaneId, (u16, u16)>,
    /// Prompt input that has not been terminated yet.
    pub prompt_bufs: HashMap<PaneId, String>,
    /// Prompt lines of panes that closed, to be written to the prompt log.
    pub flushed_prompts: Vec<(PaneId, String)>,
    pub scroll: HashMap<PaneId, usize>,
    /// Titles of panes this client asked for and that have not arrived.
    pub pending_titles: VecDeque<Option<String>>,
    /// The size the focused pane's layout asks for.
    pub size: (u16, u16),
    /// Whether this client's layout sets the pane sizes.
    pub owns_size: bool,
    pub recoveries: HashMap<PaneId, Recovery>,
    /// Whether the window of visible panes has to be fitted to the list again.
    pub window_stale: bool,
}

#[verifier::ext_equal]
pub struct PaneModel {
    pub id: PaneId,
    pub title: Seq<char>,
}

#[verifier::ext_equal]
pub struct RecoveryModel {
    pub state: Seq<char>,
    pub detail: Option<Seq<char>>,
    pub deadline_epoch: Option<i64>,
    pub attempt: u32,
}

/// A terminal state as a plain value.
#[verifier::ext_equal]
pub struct TerminalModel {
    pub connected: bool,
    pub calls: Seq<BackendCall>,
    /// What the backend has reported, one batch for each time it was asked.
    pub reported: Seq<Seq<BackendEvent>>,
    /// What the backend answered each time it was asked for a pane.
    pub replies: Seq<Result<(), BackendError>>,
    pub panes: Seq<PaneModel>,
    pub active: usize,
    pub scrollback_lines: usize,
    pub screens: Map<PaneId, ScreenModel>,
    pub sizes: Map<PaneId, (u16, u16)>,
    pub prompts: Map<PaneId, Seq<char>>,
    pub flushed: Seq<(PaneId, Seq<char>)>,
    pub scroll: Map<PaneId, usize>,
    pub pending: Seq<Option<Seq<char>>>,
    pub size: (u16, u16),
    pub owns_size: bool,
    pub recoveries: Map<PaneId, RecoveryModel>,
    pub window_stale: bool,
}

impl PaneInfo {
    pub open spec fn model(&self) -> PaneModel {
        PaneModel { id: self.id, title: self.title@ }
    }
}

impl Recovery {
    pub open spec fn model(&self) -> RecoveryModel {
        RecoveryModel {
            state: self.state@,
            detail: opt_string(self.detail),
            deadline_epoch: self.deadline_epoch,
            attempt: self.attempt,
        }
    }
}

/// The larger of a number and a lower limit.
pub open spec fn at_least(n: u16, limit: u16) -> u16 {
    if n < limit {
        limit
    } else {
        n
    }
}

impl TerminalModel {
    pub open spec fn ids(self) -> Seq<PaneId> {
        self.panes.map_values(|p: PaneModel| p.id)
    }

    pub open spec fn has_pane(self, id: PaneId) -> bool {
        self.ids().contains(id)
    }

    /// Every pane is listed once and has an emulator, and nothing else has; and
    /// each emulator can be fed and resized.
    pub open spec fn wf(self) -> bool {
        &&& self.ids().no_duplicates()
        &&& forall|id: PaneId| #[trigger]
            self.screens.contains_key(id) <==> self.ids().contains(id)
        &&& forall|id: PaneId| #[trigger]
            self.screens.contains_key(id) ==> self.screens[id].wf()
        &&& can_keep(self.scrollback_lines)
    }

    /// The id of the focused pane.
    pub open spec fn active_id(self) -> Option<PaneId> {
        if self.active < self.panes.len() {
            Some(self.panes[self.active as int].id)
        } else {
            None
        }
    }

    /// The size a pane that is asked for now is born at: the focused pane's,
    /// clamped to what the emulator supports.
    pub open spec fn birth_size(self) -> (u16, u16) {
        let size = match self.active_id() {
            Some(id) if self.sizes.contains_key(id) => self.sizes[id],
            _ => self.size,
        };
        clamped_size(size.0, size.1)
    }

    /// The title of a pane that arrives: the session's name for it, or the
    /// title this client queued when it asked, or its position.
    pub open spec fn arrival_title(self, requested: bool, named: Option<Seq<char>>) -> Seq<char> {
        match named {
            Some(name) => name,
            None => if requested && self.pending.len() > 0 && self.pending[0] is Some {
                self.pending[0]->0
            } else {
                "shell "@ + decimal_text(self.panes.len() + 1)
            },
        }
    }

    /// A pane the backend reports was taken in, with a screen of its own.
    pub open spec fn adopted(
        self,
        id: PaneId,
        rows: u16,
        cols: u16,
        requested: bool,
        named: Option<Seq<char>>,
        screen: ScreenModel,
    ) -> TerminalModel {
        if self.has_pane(id) {
            self
        } else {
            let (rows, cols) = clamped_size(rows, cols);
            TerminalModel {
                panes: self.panes.push(
                    PaneModel { id, title: self.arrival_title(requested, named) },
                ),
                active: if requested {
                    self.panes.len() as usize
                } else {
                    self.active
                },
                screens: self.screens.insert(id, screen),
                sizes: self.sizes.insert(id, (rows, cols)),
                pending: if named is None && requested && self.pending.len() > 0 {
                    self.pending.skip(1)
                } else {
                    self.pending
                },
                window_stale: true,
                ..self
            }
        }
    }

    /// What a pane's emulator said was acted on.
    pub open spec fn heard(
        self,
        id: PaneId,
        title: Option<Seq<char>>,
        writes: Seq<u8>,
    ) -> TerminalModel {
        TerminalModel {
            panes: match title {
                Some(title) => self.panes.map_values(
                    |p: PaneModel|
                        if p.id == id {
                            PaneModel { id, title }
                        } else {
                            p
                        },
                ),
                None => self.panes,
            },
            calls: if self.connected && writes.len() > 0 {
                self.calls.push(BackendCall::Send(id, writes))
            } else {
                self.calls
            },
            ..self
        }
    }

    /// A pane's emulator worked through some output.
    pub open spec fn answered(self, id: PaneId, answer: Answer) -> TerminalModel {
        if !self.screens.contains_key(id) {
            self
        } else {
            let m = self.heard(id, title_of(answer.events), writes_of(answer.events));
            TerminalModel { screens: self.screens.insert(id, answer.screen), ..m }
        }
    }

    /// The session set a pane to a size.
    pub open spec fn resized(self, id: PaneId, rows: u16, cols: u16) -> TerminalModel {
        let (rows, cols) = clamped_size(rows, cols);
        TerminalModel {
            screens: if self.screens.contains_key(id) {
                self.screens.insert(id, self.screens[id].fitted(rows, cols))
            } else {
                self.screens
            },
            sizes: if self.owns_size {
                self.sizes
            } else {
                self.sizes.insert(id, (rows, cols))
            },
            ..self
        }
    }

    /// The session put the panes in an order. The focus stays on its pane.
    pub open spec fn reordered(self, order: Seq<PaneId>) -> TerminalModel {
        let ids = arranged(self.ids(), order);
        TerminalModel {
            panes: ids.map_values(|id: PaneId| self.panes[self.ids().index_of(id)]),
            active: match self.active_id() {
                Some(id) => ids.index_of(id) as usize,
                None => self.active,
            },
            ..self
        }
    }

    /// A plugin reported about a pane; `"cancelled"` ends the report.
    pub open spec fn recovering(self, id: PaneId, report: RecoveryModel) -> TerminalModel {
        TerminalModel {
            recoveries: if report.state == "cancelled"@ {
                self.recoveries.remove(id)
            } else {
                self.recoveries.insert(id, report)
            },
            ..self
        }
    }

    /// The sizing changed hands, or was confirmed. Gaining it means the panes
    /// are at someone else's sizes, so what was applied is forgotten.
    pub open spec fn size_owned(self, owned: bool) -> TerminalModel {
        TerminalModel {
            sizes: if owned && !self.owns_size {
                Map::empty()
            } else {
                self.sizes
            },
            owns_size: owned,
            ..self
        }
    }

    /// Everything kept for a pane was forgotten; an unterminated prompt line
    /// is handed on rather than lost.
    pub open spec fn forgotten(self, id: PaneId) -> TerminalModel {
        TerminalModel {
            screens: self.screens.remove(id),
            prompts: self.prompts.remove(id),
            flushed: if self.prompts.contains_key(id) && self.prompts[id].len() > 0 {
                self.flushed.push((id, self.prompts[id]))
            } else {
                self.flushed
            },
            scroll: self.scroll.remove(id),
            sizes: self.sizes.remove(id),
            ..self
        }
    }

    /// A pane's child exited.
    pub open spec fn exited(self, id: PaneId) -> TerminalModel {
        if !self.has_pane(id) {
            self
        } else {
            let m = self.forgotten(id);
            TerminalModel {
                calls: if self.connected {
                    self.calls.push(BackendCall::Destroy(id))
                } else {
                    self.calls
                },
                panes: self.panes.filter(|p: PaneModel| p.id != id),
                ..m
            }
        }
    }

    /// The backend was asked what happened and reported these events.
    pub open spec fn told(self, events: Seq<BackendEvent>) -> TerminalModel {
        TerminalModel { reported: self.reported.push(events), ..self }
    }

    /// Whether `answer` can be what a pane's emulator makes of the event: the
    /// screen of a pane that arrives is a new one of its size, and the screen
    /// of a pane that has output takes it in, reporting the answer's events. The
    /// screen of a pane that is set to a size has it, as far as a screen can.
    pub open spec fn fits(self, event: BackendEvent, answer: Answer) -> bool {
        match event {
            BackendEvent::Created { pane, rows, cols, requested, title } => self.has_pane(pane)
                || answer.screen.is_new(rows, cols, self.scrollback_lines),
            BackendEvent::Output { pane, data } => self.screens.contains_key(pane)
                ==> self.screens[pane].takes_in(data@, answer.screen, answer.events),
            BackendEvent::Resized { pane, rows, cols } => self.screens.contains_key(pane)
                ==> self.resized(pane, rows, cols).screens[pane].size() == (
                at_least(rows, 1) as usize,
                at_least(cols, 2) as usize,
            ),
            _ => true,
        }
    }

    /// One event of the backend was applied; `answer` is what the pane's
    /// emulator made of it.
    pub open spec fn after(self, event: BackendEvent, answer: Answer) -> TerminalModel {
        match event {
            BackendEvent::Created { pane, rows, cols, requested, title } => self.adopted(
                pane,
                rows,
                cols,
                requested,
                opt_string(title),
                answer.screen,
            ),
            BackendEvent::Output { pane, data } => self.answered(pane, answer),
            BackendEvent::Resized { pane, rows, cols } => self.resized(pane, rows, cols),
            BackendEvent::Reordered { order } => self.reordered(order@),
            BackendEvent::Recovery { pane, state, detail, deadline_epoch, attempt } => self.recovering(
                pane,
                RecoveryModel {
                    state: state@,
                    detail: opt_string(detail),
                    deadline_epoch,
                    attempt,
                },
            ),
            BackendEvent::SizeOwnership { owned } => self.size_owned(owned),
            BackendEvent::Exited { pane } => self.exited(pane),
        }
    }

    /// Whether `event` closes a pane of this client.
    pub open spec fn closes(self, event: BackendEvent) -> Option<PaneId> {
        match event {
            BackendEvent::Exited { pane } if self.has_pane(pane) => Some(pane),
            _ => None,
        }
    }

    /// One visible pane's layout was applied.
    pub open spec fn laid_out(self, layout: (PaneId, u16, u16)) -> TerminalModel {
        let id = layout.0;
        let (rows, cols) = clamped_size(layout.1, layout.2);
        let m = TerminalModel {
            size: if self.active_id() == Some(id) {
                (rows, cols)
            } else {
                self.size
            },
            ..self
        };
        if !self.owns_size || (self.sizes.contains_key(id) && self.sizes[id] == (rows, cols)) {
            m
        } else {
            TerminalModel {
                calls: if self.connected {
                    self.calls.push(BackendCall::Resize(id, rows, cols))
                } else {
                    self.calls
                },
                screens: if self.screens.contains_key(id) {
                    self.screens.insert(id, self.screens[id].fitted(rows, cols))
                } else {
                    self.screens
                },
                sizes: self.sizes.insert(id, (rows, cols)),
                ..m
            }
        }
    }
}

/// What a pane's emulator made of an event.
#[verifier::ext_equal]
pub struct Answer {
    /// What it reported: the titles that were set and the replies to queries.
    pub events: Seq<TermEvent>,
    /// What its screen became.
    pub screen: ScreenModel,
}

/// `m` after the events, in order, each with its answer.
pub open spec fn after_all(
    m: TerminalModel,
    events: Seq<BackendEvent>,
    answers: Seq<Answer>,
) -> TerminalModel
    decreases events.len(),
{
    if events.len() == 0 {
        m
    } else {
        after_all(m, events.drop_last(), answers.drop_last()).after(events.last(), answers.last())
    }
}

/// Whether each answer fits its event, with the events before it applied.
pub open spec fn all_fit(
    m: TerminalModel,
    events: Seq<BackendEvent>,
    answers: Seq<Answer>,
) -> bool
    decreases events.len(),
{
    if events.len() == 0 {
        answers.len() == 0
    } else {
        &&& answers.len() == events.len()
        &&& all_fit(m, events.drop_last(), answers.drop_last())
        &&& after_all(m, events.drop_last(), answers.drop_last()).fits(
            events.last(),
            answers.last(),
        )
    }
}

/// The panes that close while the events are applied to `m`, in order.
pub open spec fn closed_by(
    m: TerminalModel,
    events: Seq<BackendEvent>,
    answers: Seq<Answer>,
) -> Seq<PaneId>
    decreases events.len(),
{
    if events.len() == 0 {
        Seq::empty()
    } else {
        let before = closed_by(m, events.drop_last(), answers.drop_last());
        match after_all(m, events.drop_last(), answers.drop_last()).closes(events.last()) {
            Some(id) => before.push(id),
            None => before,
        }
    }
}

/// `now` is `m` after its backend was asked once what happened and everything
/// it reported was applied; `closed` are the panes that closed.
pub open spec fn polled(m: TerminalModel, now: TerminalModel, closed: Seq<PaneId>) -> bool {
    let events = now.reported.last();
    let told = m.told(events);
    &&& now.reported == told.reported
    &&& exists|answers: Seq<Answer>|
        #![trigger after_all(told, events, answers)]
        {
            &&& all_fit(told, events, answers)
            &&& now == after_all(told, events, answers)
            &&& closed == closed_by(told, events, answers)
        }
}

proof fn lemma_events_keep_the_report(
    m: TerminalModel,
    events: Seq<BackendEvent>,
    answers: Seq<Answer>,
)
    ensures
        after_all(m, events, answers).reported == m.reported,
        after_all(m, events, answers).replies == m.replies,
        after_all(m, events, answers).connected == m.connected,
    decreases events.len(),
{
    if events.len() > 0 {
        lemma_events_keep_the_report(m, events.drop_last(), answers.drop_last());
    }
}

/// `m` after the layouts of the visible panes were applied, in order.
pub open spec fn laid_out_all(m: TerminalModel, layouts: Seq<(PaneId, u16, u16)>) -> TerminalModel
    decreases layouts.len(),
{
    if layouts.len() == 0 {
        m
    } else {
        laid_out_all(m, layouts.drop_last()).laid_out(layouts.last())
    }
}

/// The title a pane is queued with: the label, or else the command, whichever
/// says something.
pub open spec fn queued_title(
    command: Option<Seq<char>>,
    label: Option<Seq<char>>,
) -> Option<Seq<char>> {
    if label is Some && trim_text(label->0).len() > 0 {
        Some(trim_text(label->0))
    } else if command is Some && trim_text(command->0).len() > 0 {
        Some(trim_text(command->0))
    } else {
        None
    }
}

/// Why a pane could not be asked for.
#[derive(Debug)]
pub enum CreateError {
    /// There is no backend to ask.
    NoBackend,
    /// The backend refused.
    Backend(BackendError),
}

impl CreateError {
    pub fn message(&self) -> (r: String)
        ensures
            r@ == (match self {
                CreateError::NoBackend => "no terminal backend available"@,
                CreateError::Backend(error) => error.message@,
            }),
    {
        match self {
            CreateError::NoBackend => "no terminal backend available".to_owned(),
            CreateError::Backend(error) => error.message.clone(),
        }
    }
}

proof fn lemma_few_ids(ids: Seq<PaneId>)
    requires
        ids.no_duplicates(),
    ensures
        ids.len() <= 0x1_0000_0000,
{
    let numbers = ids.map_values(|id: PaneId| id as int);
    assert(numbers.no_duplicates()) by {
        assert forall|i: int, j: int|
            0 <= i < numbers.len() && 0 <= j < numbers.len() && i != j implies numbers[i]
            != numbers[j] by {
            assert(ids[i] != ids[j]);
        }
    }
    numbers.unique_seq_to_set();
    let all = vstd::set_lib::set_int_range(0, 0x1_0000_0000);
    vstd::set_lib::lemma_int_range(0, 0x1_0000_0000);
    assert(numbers.to_set().subset_of(all)) by {
        assert forall|n: int| numbers.to_set().contains(n) implies all.contains(n) by {
            assert(numbers.contains(n));
            let i = choose|i: int| 0 <= i < numbers.len() && numbers[i] == n;
            assert(numbers[i] == ids[i] as int);
        }
    }
    vstd::set_lib::lemma_len_subset(numbers.to_set(), all);
}

/// The text of an optional string, trimmed, if it says anything.
fn said(text: Option<&str>) -> (r: Option<String>)
    ensures
        opt_string(r) == (match text {
            Some(t) if trim_text(t@).len() > 0 => Some(trim_text(t@)),
            _ => None,
        }),
{
    match text {
        Some(t) => {
            let trimmed = trim(&chars_of(t));
            if trimmed.len() > 0 {
                Some(string_of(&trimmed))
            } else {
                None
            }
        },
        None => None,
    }
}

impl<B: TerminalBackend> TerminalState<B> {
    pub open spec fn model(&self) -> TerminalModel {
        TerminalModel {
            connected: self.backend is Some,
            calls: match self.backend {
                Some(b) => b.calls(),
                None => Seq::empty(),
            },
            reported: match self.backend {
                Some(b) => b.reported(),
                None => Seq::empty(),
            },
            replies: match self.backend {
                Some(b) => b.replies(),
                None => Seq::empty(),
            },
            panes: self.panes@.map_values(|p: PaneInfo| p.model()),
            active: self.active,
            scrollback_lines: self.scrollback_lines,
            screens: self.emulators@.map_values(|e: PaneEmulator| e.model()),
            sizes: self.last_content_size@,
            prompts: self.prompt_bufs@.map_values(|s: String| s@),
            flushed: self.flushed_prompts@.map_values(|p: (PaneId, String)| (p.0, p.1@)),
            scroll: self.scroll@,
            pending: self.pending_titles@.map_values(|t: Option<String>| opt_string(t)),
            size: self.size,
            owns_size: self.owns_size,
            recoveries: self.recoveries@.map_values(|r: Recovery| r.model()),
            window_stale: self.window_stale,
        }
    }

    /// Every pane is listed once and has an emulator, and nothing else has.
    pub open spec fn wf(&self) -> bool {
        self.model().wf()
    }

    /// A client with no panes yet.
    pub fn new(backend: Option<B>, size: (u16, u16), owns_size: bool, scrollback_lines: usize) -> (r:
        Self)
        requires
            can_keep(scrollback_lines),
        ensures
            r.wf(),
            r.model() == (TerminalModel {
                connected: backend is Some,
                calls: match backend {
                    Some(b) => b.calls(),
                    None => Seq::empty(),
                },
                reported: match backend {
                    Some(b) => b.reported(),
                    None => Seq::empty(),
                },
                replies: match backend {
                    Some(b) => b.replies(),
                    None => Seq::empty(),
                },
                panes: Seq::empty(),
                active: 0,
                scrollback_lines,
                screens: Map::empty(),
                sizes: Map::empty(),
                prompts: Map::empty(),
                flushed: Seq::empty(),
                scroll: Map::empty(),
                pending: Seq::empty(),
                size,
                owns_size,
                recoveries: Map::empty(),
                window_stale: false,
            }),
    {
        let r = TerminalState {
            backend,
            panes: Vec::new(),
            active: 0,
            scrollback_lines,
            emulators: HashMap::new(),
            last_content_size: HashMap::new(),
            prompt_bufs: HashMap::new(),
            flushed_prompts: Vec::new(),
            scroll: HashMap::new(),
            pending_titles: VecDeque::new(),
            size,
            owns_size,
            recoveries: HashMap::new(),
            window_stale: false,
        };
        proof {
            assert(r.model().panes =~= Seq::empty());
            assert(r.model().screens =~= Map::empty());
            assert(r.model().prompts =~= Map::empty());
            assert(r.model().flushed =~= Seq::empty());
            assert(r.model().pending =~= Seq::empty());
            assert(r.model().recoveries =~= Map::empty());
            assert(r.model().ids() =~= Seq::empty());
        }
        r
    }

    /// The id of the focused pane.
    pub fn active_pane_id(&self) -> (r: Option<PaneId>)
        ensures
            r == self.model().active_id(),
    {
        if self.active < self.panes.len() {
            Some(self.panes[self.active].id)
        } else {
            None
        }
    }

    /// The size a pane was last set to, or the focused layout's.
    pub fn pane_size(&self, id: PaneId) -> (r: (u16, u16))
        ensures
            r == if self.model().sizes.contains_key(id) {
                self.model().sizes[id]
            } else {
                self.model().size
            },
    {
        match self.last_content_size.get(&id) {
            Some(size) => *size,
            None => self.size,
        }
    }

    /// Where `id` stands in the list of panes.
    fn position(&self, id: PaneId) -> (r: Option<usize>)
        ensures
            match r {
                Some(i) => i < self.panes@.len() && self.panes@[i as int].id == id,
                None => !self.model().has_pane(id),
            },
            r is Some ==> self.model().has_pane(id),
    {
        let mut i: usize = 0;
        while i < self.panes.len()
            invariant
                i <= self.panes@.len(),
                forall|k: int| 0 <= k < i ==> (#[trigger] self.panes@[k]).id != id,
            decreases self.panes.len() - i,
        {
            if self.panes[i].id == id {
                proof {
                    assert(self.model().ids()[i as int] == id);
                }
                return Some(i);
            }
            i += 1;
        }
        proof {
            assert forall|k: int| 0 <= k < self.model().ids().len() implies self.model().ids()[k]
                != id by {
                assert(self.panes@[k].id != id);
            }
        }
        None
    }

    /// Take in a pane the backend reports.
    ///
    /// `requested` says whether this client asked: one it did takes the focus,
    /// and one another client opened lands in the list without moving anybody's
    /// cursor.
    pub fn adopt_pane(
        &mut self,
        id: PaneId,
        rows: u16,
        cols: u16,
        requested: bool,
        named: Option<String>,
    )
        requires
            old(self).wf(),
        ensures
            final(self).wf(),
            exists|screen: ScreenModel|
                (old(self).model().has_pane(id) || screen.is_new(
                    rows,
                    cols,
                    old(self).model().scrollback_lines,
                ))
                    && final(self).model() == #[trigger] old(self).model().adopted(
                    id,
                    rows,
                    cols,
                    requested,
                    opt_string(named),
                    screen,
                ),
    {
        let ghost before = self.model();
        let ghost asked = (rows, cols);
        if self.position(id).is_some() {
            proof {
                assert(before.adopted(
                    id,
                    rows,
                    cols,
                    requested,
                    opt_string(named),
                    before.screens[id],
                ) == before);
            }
            return;
        }
        let (rows, cols) = effective_size(rows, cols);
        let emulator = PaneEmulator::new(rows, cols, self.scrollback_lines);
        let ghost screen = emulator.model();
        self.emulators.insert(id, emulator);
        self.last_content_size.insert(id, (rows, cols));
        let queued = if named.is_none() && requested {
            match self.pending_titles.pop_front() {
                Some(title) => title,
                None => None,
            }
        } else {
            None
        };
        proof {
            assert(before.ids().len() == self.panes@.len());
            lemma_few_ids(before.ids());
        }
        let title = match named {
            Some(name) => name,
            None => match queued {
                Some(title) => title,
                None => "shell ".to_owned().concat(decimal(self.panes.len() as u64 + 1).as_str()),
            },
        };
        let ghost info = PaneInfo { id, title };
        self.panes.push(PaneInfo { id, title });
        if requested {
            self.active = self.panes.len() - 1;
        }
        self.window_stale = true;
        proof {
            let now = self.model();
            let want = before.adopted(
                id,
                asked.0,
                asked.1,
                requested,
                opt_string(named),
                screen,
            );
            assert(now.panes =~= before.panes.push(info.model()));
            assert(now.ids() =~= before.ids().push(id));
            assert(now.screens =~= before.screens.insert(id, screen));
            if named is None && requested && before.pending.len() > 0 {
                assert(now.pending =~= before.pending.skip(1));
                assert(before.pending[0] == opt_string(old(self).pending_titles@[0]));
            } else {
                assert(now.pending =~= before.pending);
            }
            assert(now =~= want);
            assert(now.ids().no_duplicates());
            assert forall|k: PaneId| #[trigger]
                now.screens.contains_key(k) <==> now.ids().contains(k) by {
                assert(now.ids().contains(k) <==> before.ids().contains(k) || k == id) by {
                    if before.ids().contains(k) {
                        let i = choose|i: int| 0 <= i < before.ids().len() && before.ids()[i] == k;
                        assert(now.ids()[i] == k);
                    }
                    assert(now.ids()[before.ids().len() as int] == id);
                }
                assert(before.screens.contains_key(k) <==> before.ids().contains(k));
            }
        }
    }

    /// Act on what a pane's emulator made of some output.
    ///
    /// Replies to terminal queries go back to the program that asked. They are
    /// not user input: they neither clear the user's scroll position nor land
    /// in the prompt log.
    pub fn apply_answer(&mut self, pane: PaneId, answer: EmulatorEvents)
        requires
            old(self).wf(),
            old(self).model().has_pane(pane),
        ensures
            final(self).wf(),
            final(self).model() == old(self).model().heard(
                pane,
                answer.title_text(),
                answer.pty_writes@,
            ),
            final(self).emulators == old(self).emulators,
    {
        let ghost before = self.model();
        let ghost want = before.heard(pane, answer.title_text(), answer.pty_writes@);
        if let Some(title) = answer.title {
            if let Some(i) = self.position(pane) {
                let ghost list = self.panes@;
                self.panes.set(i, PaneInfo { id: pane, title });
                proof {
                    assert forall|k: int| 0 <= k < list.len() && k != i implies (
                    #[trigger] list[k]).id != pane by {
                        assert(before.ids()[k] == list[k].id);
                        assert(before.ids()[i as int] == list[i as int].id);
                    }
                    assert(self.model().panes =~= want.panes);
                    assert(self.model().ids() =~= before.ids());
                }
            }
        }
        proof {
            assert(self.model().ids() =~= before.ids());
        }
        if answer.pty_writes.len() > 0 {
            if let Some(backend) = &mut self.backend {
                let _sent = backend.send_input(pane, answer.pty_writes.as_slice());
            }
        }
        proof {
            assert(self.model().ids() =~= before.ids());
            assert(self.model() =~= want);
        }
    }

    /// Feed output to its pane's emulator and act on what it says.
    fn apply_output(&mut self, pane: PaneId, data: &[u8])
        requires
            old(self).wf(),
        ensures
            final(self).wf(),
            exists|answer: Answer|
                {
                    &&& old(self).model().screens.contains_key(pane)
                        ==> old(self).model().screens[pane].takes_in(
                        data@,
                        answer.screen,
                        answer.events,
                    )
                    &&& final(self).model() == #[trigger] old(self).model().answered(pane, answer)
                },
    {
        let ghost before = self.model();
        match self.emulators.remove(&pane) {
            None => {
                proof {
                    assert(!before.screens.contains_key(pane));
                    assert(self.emulators@ =~= old(self).emulators@);
                    assert(self.model() =~= before);
                    let none = Answer { events: Seq::empty(), screen: before.screens[pane] };
                    assert(before.answered(pane, none) == before);
                }
            },
            Some(mut emulator) => {
                let ghost screen = emulator.model();
                proof {
                    assert(before.screens.contains_key(pane));
                    assert(before.screens[pane] == screen);
                }
                let answer = emulator.process(data);
                let ghost events = choose|events: Seq<TermEvent>|
                    {
                        &&& #[trigger] screen.takes_in(data@, emulator.model(), events)
                        &&& answer.title_text() == title_of(events)
                        &&& answer.pty_writes@ == writes_of(events)
                    };
                let ghost said = Answer { events, screen: emulator.model() };
                self.emulators.insert(pane, emulator);
                let ghost fed = self.model();
                proof {
                    assert(fed.screens =~= before.screens.insert(pane, said.screen));
                    assert(fed =~= TerminalModel { screens: fed.screens, ..before });
                    assert(fed.ids() =~= before.ids());
                    assert(before.ids().contains(pane));
                    assert forall|k: PaneId| #[trigger]
                        fed.screens.contains_key(k) <==> fed.ids().contains(k) by {
                        assert(before.screens.contains_key(k) <==> before.ids().contains(k));
                    }
                }
                self.apply_answer(pane, answer);
                proof {
                    assert(self.model() =~= before.answered(pane, said));
                }
            },
        }
    }

    /// Follow the size the session set a pane to, which may not be one this
    /// client asked for: the emulator has to wrap where the child does.
    pub fn apply_resized(&mut self, pane: PaneId, rows: u16, cols: u16)
        requires
            old(self).wf(),
        ensures
            final(self).wf(),
            final(self).model() == old(self).model().resized(pane, rows, cols),
            old(self).model().screens.contains_key(pane)
                ==> final(self).model().screens[pane].size() == (
                at_least(rows, 1) as usize,
                at_least(cols, 2) as usize,
            ),
    {
        let ghost before = self.model();
        let (rows, cols) = effective_size(rows, cols);
        self.resize_emulator(pane, rows, cols);
        // For the owner this map is what it last asked for, and overwriting it
        // with a clamped answer would make the next frame ask again.
        if !self.owns_size {
            self.last_content_size.insert(pane, (rows, cols));
        }
        proof {
            assert(self.model().ids() =~= before.ids());
            assert(self.model() =~= before.resized(pane, rows, cols));
        }
    }

    fn resize_emulator(&mut self, pane: PaneId, rows: u16, cols: u16)
        requires
            clamped_size(rows, cols) == (rows, cols),
            old(self).model().screens.contains_key(pane) ==> old(self).model().screens[pane].wf(),
        ensures
            final(self).model().screens.contains_key(pane)
                ==> final(self).model().screens[pane].wf(),
            final(self).model() == (TerminalModel {
                screens: if old(self).model().screens.contains_key(pane) {
                    old(self).model().screens.insert(
                        pane,
                        old(self).model().screens[pane].fitted(rows, cols),
                    )
                } else {
                    old(self).model().screens
                },
                ..old(self).model()
            }),
            old(self).model().screens.contains_key(pane)
                ==> final(self).model().screens[pane].size() == (rows as usize, cols as usize),
            final(self).backend == old(self).backend,
    {
        let ghost before = self.model();
        match self.emulators.remove(&pane) {
            None => {
                proof {
                    assert(self.emulators@ =~= old(self).emulators@);
                    assert(self.model() =~= before);
                }
            },
            Some(mut emulator) => {
                emulator.resize(rows, cols);
                self.emulators.insert(pane, emulator);
                proof {
                    assert(self.model().screens =~= before.screens.insert(
                        pane,
                        before.screens[pane].fitted(rows, cols),
                    ));
                }
            },
        }
    }

    /// Put the panes into the session's order; the focus stays on its pane.
    pub fn apply_order(&mut self, order: &Vec<PaneId>)
        requires
            old(self).wf(),
        ensures
            final(self).wf(),
            final(self).model() == old(self).model().reordered(order@),
    {
        let ghost before = self.model();
        let focused = self.active_pane_id();
        let mut ids: Vec<PaneId> = Vec::new();
        let mut i: usize = 0;
        while i < self.panes.len()
            invariant
                i <= self.panes@.len(),
                ids@ == before.ids().take(i as int),
                before == self.model(),
            decreases self.panes.len() - i,
        {
            ids.push(self.panes[i].id);
            proof {
                assert(before.ids().take(i + 1) =~= before.ids().take(i as int).push(
                    before.ids()[i as int],
                ));
            }
            i += 1;
        }
        proof {
            assert(before.ids().take(i as int) =~= before.ids());
            law_arranging_keeps_every_pane(before.ids(), order@);
        }
        let ids = arrange(ids.as_slice(), order.as_slice());
        let mut panes: Vec<PaneInfo> = Vec::new();
        let mut active: usize = self.active;
        let mut j: usize = 0;
        while j < ids.len()
            invariant
                j <= ids@.len(),
                before == self.model(),
                before.wf(),
                ids@ == arranged(before.ids(), order@),
                ids@.no_duplicates(),
                forall|id: PaneId|
                    #![trigger ids@.contains(id)]
                    ids@.contains(id) <==> before.ids().contains(id),
                focused == before.active_id(),
                panes@.len() == j,
                forall|k: int|
                    0 <= k < j ==> (#[trigger] panes@[k]).model()
                        == before.panes[before.ids().index_of(ids@[k])],
                forall|k: int|
                    0 <= k < j && focused == Some(#[trigger] ids@[k]) ==> active == k,
                (forall|k: int| 0 <= k < j ==> focused != Some(#[trigger] ids@[k])) ==> active
                    == self.active,
            decreases ids.len() - j,
        {
            proof {
                assert(ids@.contains(ids@[j as int]));
            }
            if let Some(at) = self.position(ids[j]) {
                panes.push(PaneInfo { id: self.panes[at].id, title: self.panes[at].title.clone() });
                proof {
                    assert(before.ids()[at as int] == ids@[j as int]);
                    let found = before.ids().index_of(ids@[j as int]);
                    assert(before.ids()[found] == ids@[j as int]);
                    assert(found == at);
                }
                if let Some(id) = focused {
                    if id == ids[j] {
                        active = j;
                    }
                }
            }
            j += 1;
        }
        self.panes = panes;
        self.active = active;
        proof {
            let want = before.reordered(order@);
            assert(self.model().panes =~= want.panes);
            if let Some(id) = focused {
                assert(before.ids()[before.active as int] == id);
                assert(before.ids().contains(id));
                assert(ids@.contains(id));
                let k = ids@.index_of(id);
                assert(ids@[k] == id);
                assert(active == k);
            }
            assert(self.model().active == want.active);
            assert(self.model() =~= want);
            assert(self.model().ids() =~= ids@) by {
                assert forall|k: int| 0 <= k < ids@.len() implies self.model().ids()[k] == ids@[k] by {
                    assert(ids@.contains(ids@[k]));
                    let found = before.ids().index_of(ids@[k]);
                    assert(before.ids()[found] == ids@[k]);
                    assert(self.panes@[k].model() == before.panes[found]);
                }
            }
            assert forall|k: PaneId| #[trigger]
                self.model().screens.contains_key(k) <==> self.model().ids().contains(k) by {
                assert(before.screens.contains_key(k) <==> before.ids().contains(k));
                assert(ids@.contains(k) <==> before.ids().contains(k));
            }
        }
    }

    /// Keep what a plugin reports about a pane, until it says it gave up.
    pub fn apply_recovery(&mut self, pane: PaneId, report: Recovery)
        requires
            old(self).wf(),
        ensures
            final(self).wf(),
            final(self).model() == old(self).model().recovering(pane, report.model()),
    {
        let ghost before = self.model();
        let ghost said = report.model();
        if same_text(report.state.as_str(), "cancelled") {
            self.recoveries.remove(&pane);
        } else {
            self.recoveries.insert(pane, report);
        }
        proof {
            assert(self.model().recoveries =~= before.recovering(pane, said).recoveries);
            assert(self.model() =~= before.recovering(pane, said));
            assert(self.model().ids() =~= before.ids());
        }
    }

    /// The sizing changed hands, or was confirmed.
    pub fn apply_ownership(&mut self, owned: bool)
        requires
            old(self).wf(),
        ensures
            final(self).wf(),
            final(self).model() == old(self).model().size_owned(owned),
    {
        let ghost before = self.model();
        if owned && !self.owns_size {
            self.last_content_size.clear();
        }
        self.owns_size = owned;
        proof {
            assert(self.model() =~= before.size_owned(owned));
            assert(self.model().ids() =~= before.ids());
        }
    }

    /// Forget everything kept for a pane. An unterminated prompt line is
    /// handed on, so the line the user was composing is not lost.
    pub fn remove_pane_state(&mut self, id: PaneId)
        ensures
            final(self).model() == old(self).model().forgotten(id),
            final(self).backend == old(self).backend,
            final(self).panes == old(self).panes,
    {
        let ghost before = self.model();
        self.emulators.remove(&id);
        proof {
            assert(self.model().screens =~= before.screens.remove(id));
        }
        if let Some(line) = self.prompt_bufs.remove(&id) {
            if !line.as_str().is_empty() {
                let ghost said = line@;
                self.flushed_prompts.push((id, line));
                proof {
                    assert(self.model().flushed =~= before.flushed.push((id, said)));
                }
            }
        }
        self.scroll.remove(&id);
        self.last_content_size.remove(&id);
        proof {
            let want = before.forgotten(id);
            assert(self.model().prompts =~= want.prompts);
            assert(self.model().flushed =~= want.flushed);
            assert(self.model() =~= want);
        }
    }

    /// A pane's child exited. An exit can arrive for a pane already gone,
    /// reported twice or closed by another client, and then nothing happens.
    pub fn apply_exit(&mut self, pane: PaneId) -> (r: Option<PaneId>)
        requires
            old(self).wf(),
        ensures
            final(self).wf(),
            final(self).model() == old(self).model().exited(pane),
            r == if old(self).model().has_pane(pane) {
                Some(pane)
            } else {
                None
            },
    {
        let ghost before = self.model();
        let at: usize = match self.position(pane) {
            None => {
                return None;
            },
            Some(at) => at,
        };
        // Told to the backend as well as forgotten here: a backend that owns
        // its panes leaves their removal to its caller.
        if let Some(backend) = &mut self.backend {
            backend.destroy_pane(pane);
        }
        let ghost told = self.model();
        self.remove_pane_state(pane);
        let ghost list = self.panes@;
        self.panes.remove(at);
        proof {
            let want = before.exited(pane);
            let keep = |p: PaneModel| p.id != pane;
            assert(told.panes == before.panes);
            lemma_filter_one(before.panes, at as int, pane);
            assert(self.model().panes =~= before.panes.remove(at as int));
            assert(self.model() =~= want);
            assert(self.model().ids() =~= before.ids().remove(at as int));
            let now = self.model();
            assert forall|i: int, j: int|
                0 <= i < now.ids().len() && 0 <= j < now.ids().len() && i != j implies now.ids()[i]
                != now.ids()[j] by {
                let x = if i < at {
                    i
                } else {
                    i + 1
                };
                let y = if j < at {
                    j
                } else {
                    j + 1
                };
                assert(now.ids()[i] == before.ids()[x]);
                assert(now.ids()[j] == before.ids()[y]);
            }
            assert forall|k: PaneId| #[trigger]
                now.screens.contains_key(k) <==> now.ids().contains(k) by {
                assert(before.screens.contains_key(k) <==> before.ids().contains(k));
                assert(before.ids()[at as int] == pane);
                if before.ids().contains(k) && k != pane {
                    let i = before.ids().index_of(k);
                    assert(now.ids()[if i < at {
                        i
                    } else {
                        i - 1
                    }] == k);
                }
                if now.ids().contains(k) {
                    let i = now.ids().index_of(k);
                    let x = if i < at {
                        i
                    } else {
                        i + 1
                    };
                    assert(now.ids()[i] == before.ids()[x]);
                    assert(before.ids().contains(k));
                }
            }
        }
        Some(pane)
    }

    /// Apply one event of the backend; the pane it closed, if it closed one.
    pub fn apply_event(&mut self, event: &BackendEvent) -> (r: Option<PaneId>)
        requires
            old(self).wf(),
        ensures
            final(self).wf(),
            exists|answer: Answer|
                old(self).model().fits(*event, answer) && final(self).model() == #[trigger] old(
                    self,
                ).model().after(*event, answer),
            r == old(self).model().closes(*event),
    {
        let ghost before = self.model();
        let mut closed: Option<PaneId> = None;
        match event {
            BackendEvent::Created { pane, rows, cols, requested, title } => {
                let title = title.clone();
                let ghost named = opt_string(title);
                self.adopt_pane(*pane, *rows, *cols, *requested, title);
                proof {
                    let screen = choose|screen: ScreenModel|
                        (before.has_pane(*pane) || screen.is_new(
                            *rows,
                            *cols,
                            before.scrollback_lines,
                        )) && self.model() == #[trigger] before.adopted(
                            *pane,
                            *rows,
                            *cols,
                            *requested,
                            named,
                            screen,
                        );
                    let said = Answer { events: Seq::empty(), screen };
                    assert(before.fits(*event, said));
                    assert(self.model() == before.after(*event, said));
                }
            },
            BackendEvent::Output { pane, data } => {
                self.apply_output(*pane, data.as_slice());
                proof {
                    let said = choose|answer: Answer|
                        {
                            &&& before.screens.contains_key(*pane)
                                ==> before.screens[*pane].takes_in(
                                data@,
                                answer.screen,
                                answer.events,
                            )
                            &&& self.model() == #[trigger] before.answered(*pane, answer)
                        };
                    assert(before.fits(*event, said));
                    assert(self.model() == before.after(*event, said));
                }
            },
            BackendEvent::Resized { pane, rows, cols } => {
                self.apply_resized(*pane, *rows, *cols);
            },
            BackendEvent::Reordered { order } => {
                self.apply_order(order);
            },
            BackendEvent::Recovery { pane, state, detail, deadline_epoch, attempt } => {
                self.apply_recovery(
                    *pane,
                    Recovery {
                        state: state.clone(),
                        detail: detail.clone(),
                        deadline_epoch: *deadline_epoch,
                        attempt: *attempt,
                    },
                );
            },
            BackendEvent::SizeOwnership { owned } => {
                self.apply_ownership(*owned);
            },
            BackendEvent::Exited { pane } => {
                closed = self.apply_exit(*pane);
            },
        }
        proof {
            if !(event is Created) && !(event is Output) {
                let said = Answer { events: Seq::empty(), screen: before.screens[0] };
                assert(before.fits(*event, said));
                assert(self.model() == before.after(*event, said));
            }
        }
        closed
    }

    /// Apply events in order; the panes they closed.
    pub fn apply_events(&mut self, events: &Vec<BackendEvent>) -> (r: Vec<PaneId>)
        requires
            old(self).wf(),
        ensures
            final(self).wf(),
            exists|answers: Seq<Answer>|
                #![trigger after_all(old(self).model(), events@, answers)]
                {
                    &&& all_fit(old(self).model(), events@, answers)
                    &&& final(self).model() == after_all(old(self).model(), events@, answers)
                    &&& r@ == closed_by(old(self).model(), events@, answers)
                },
    {
        let ghost start = self.model();
        let ghost mut answers: Seq<Answer> = Seq::empty();
        let mut exited: Vec<PaneId> = Vec::new();
        let mut i: usize = 0;
        proof {
            assert(events@.take(0) =~= Seq::<BackendEvent>::empty());
        }
        while i < events.len()
            invariant
                i <= events@.len(),
                self.wf(),
                answers.len() == i,
                all_fit(start, events@.take(i as int), answers),
                self.model() == after_all(start, events@.take(i as int), answers),
                exited@ == closed_by(start, events@.take(i as int), answers),
            decreases events.len() - i,
        {
            let ghost before = self.model();
            let closed = self.apply_event(&events[i]);
            proof {
                let said = choose|answer: Answer|
                    before.fits(events@[i as int], answer) && self.model()
                        == #[trigger] before.after(events@[i as int], answer);
                let longer = answers.push(said);
                assert(longer.drop_last() =~= answers);
                assert(events@.take(i + 1).drop_last() =~= events@.take(i as int));
                assert(events@.take(i + 1).last() == events@[i as int]);
                answers = longer;
            }
            if let Some(id) = closed {
                exited.push(id);
            }
            i += 1;
        }
        proof {
            assert(events@.take(i as int) =~= events@);
            assert(self.model() == after_all(start, events@, answers));
        }
        exited
    }

    /// Drain pending backend events into pane emulators and pane metadata.
    /// Returns the pane ids the backend signalled as exited so the caller
    /// can run cross-cutting cleanup (focus redirect, fullscreen reset).
    pub fn poll(&mut self) -> (r: Vec<PaneId>)
        requires
            old(self).wf(),
        ensures
            final(self).wf(),
            old(self).backend is Some ==> polled(old(self).model(), final(self).model(), r@),
            old(self).backend is None ==> final(self).model() == old(self).model() && r@.len() == 0,
    {
        let ghost before = self.model();
        let events: Vec<BackendEvent> = match &mut self.backend {
            Some(backend) => backend.drain_events(),
            None => Vec::new(),
        };
        let ghost told = self.model();
        proof {
            assert(told =~= if self.backend is Some {
                before.told(events@)
            } else {
                before
            });
            assert(told.ids() =~= before.ids());
        }
        let closed = self.apply_events(&events);
        proof {
            let answers = choose|answers: Seq<Answer>|
                #![trigger after_all(told, events@, answers)]
                {
                    &&& all_fit(told, events@, answers)
                    &&& self.model() == after_all(told, events@, answers)
                    &&& closed@ == closed_by(told, events@, answers)
                };
            lemma_events_keep_the_report(told, events@, answers);
            if old(self).backend is Some {
                assert(self.model().reported == before.reported.push(events@));
                assert(self.model().reported.last() == events@);
                assert(before.told(self.model().reported.last()) == told);
                assert(self.model() == after_all(
                    before.told(self.model().reported.last()),
                    self.model().reported.last(),
                    answers,
                ));
                assert(polled(before, self.model(), closed@));
            }
        }
        closed
    }

    /// Ask for a new bare interactive-shell pane.
    pub fn create_pane(&mut self) -> (r: Result<(), CreateError>)
        requires
            old(self).wf(),
        ensures
            final(self).wf(),
            was_asked(old(self).model(), None, None, final(self).model(), r),
    {
        self.create_pane_with(None, None)
    }

    /// Ask the backend for a pane. `command`, when present, is run in the
    /// pane's shell immediately; `label` sets the initial tab title (a program
    /// that sets a title can still override it later). What the backend answers
    /// is handed on.
    ///
    /// The title is queued rather than applied, because the pane does not
    /// exist yet: it is given to the next pane that arrives and that this
    /// client asked for.
    pub fn create_pane_with(&mut self, command: Option<&str>, label: Option<&str>) -> (r: Result<
        (),
        CreateError,
    >)
        requires
            old(self).wf(),
        ensures
            final(self).wf(),
            was_asked(
                old(self).model(),
                opt_text(command),
                opt_text(label),
                final(self).model(),
                r,
            ),
    {
        let ghost before = self.model();
        let (rows, cols) = match self.active_pane_id() {
            Some(id) => self.pane_size(id),
            None => self.size,
        };
        let (rows, cols) = effective_size(rows, cols);
        let answer = match &mut self.backend {
            None => {
                return Err(CreateError::NoBackend);
            },
            Some(backend) => backend.create_pane(rows, cols, command),
        };
        let ghost reply = answer;
        let ghost sent = TerminalModel {
            calls: before.calls.push(BackendCall::Create { rows, cols, command: opt_text(command) }),
            replies: before.replies.push(reply),
            ..before
        };
        proof {
            assert(self.model().ids() =~= before.ids());
            assert(self.model() =~= sent);
        }
        let r = self.request_answered(answer, command, label);
        proof {
            assert(self.model() =~= asked(before, opt_text(command), opt_text(label), reply));
            assert(self.model().replies.last() == reply);
        }
        r
    }

    /// Take in what the backend answered to a request for a pane: a title is
    /// queued exactly where it took the request, and its refusal is handed on.
    pub fn request_answered(
        &mut self,
        answer: Result<(), BackendError>,
        command: Option<&str>,
        label: Option<&str>,
    ) -> (r: Result<(), CreateError>)
        requires
            old(self).wf(),
        ensures
            final(self).wf(),
            r == handed_on(answer),
            final(self).model() == old(self).model().answered_with(
                answer,
                opt_text(command),
                opt_text(label),
            ),
    {
        let ghost before = self.model();
        if let Err(error) = answer {
            return Err(CreateError::Backend(error));
        }
        let title = match said(label) {
            Some(text) => Some(text),
            None => said(command),
        };
        let ghost queued = opt_string(title);
        self.pending_titles.push_back(title);
        proof {
            assert(self.model().ids() =~= before.ids());
            assert(self.model().pending =~= before.pending.push(queued));
            assert(self.model() =~= before.answered_with(
                answer,
                opt_text(command),
                opt_text(label),
            ));
        }
        Ok(())
    }

    /// Ask for a bare shell and take delivery of what has arrived.
    pub fn create_pane_now(&mut self) -> (r: Result<(), CreateError>)
        requires
            old(self).wf(),
        ensures
            final(self).wf(),
            was_asked_now(old(self).model(), None, None, final(self).model(), r),
    {
        self.create_pane_with_now(None, None)
    }

    /// `create_pane_now` with a command and a label.
    pub fn create_pane_with_now(&mut self, command: Option<&str>, label: Option<&str>) -> (r: Result<
        (),
        CreateError,
    >)
        requires
            old(self).wf(),
        ensures
            final(self).wf(),
            was_asked_now(
                old(self).model(),
                opt_text(command),
                opt_text(label),
                final(self).model(),
                r,
            ),
    {
        match self.create_pane_with(command, label) {
            Err(error) => Err(error),
            Ok(()) => {
                let ghost sent = self.model();
                let closed = self.poll();
                proof {
                    assert(polled(sent, self.model(), closed@));
                    let events = self.model().reported.last();
                    let answers = choose|answers: Seq<Answer>|
                        #![trigger after_all(sent.told(events), events, answers)]
                        {
                            &&& all_fit(sent.told(events), events, answers)
                            &&& self.model() == after_all(sent.told(events), events, answers)
                            &&& closed@ == closed_by(sent.told(events), events, answers)
                        };
                    lemma_events_keep_the_report(sent.told(events), events, answers);
                }
                Ok(())
            },
        }
    }

    /// Resize each listed pane's backend PTY and emulator to its own
    /// (rows, cols), skipping a pane whose size didn't change. `layouts`
    /// carries one entry per currently visible pane.
    ///
    /// A client that does not own the sizing changes nothing here but what it
    /// would have asked for, which is the size a pane it opens is born at.
    pub fn resize_visible_panes(&mut self, layouts: &[(PaneId, u16, u16)])
        requires
            old(self).wf(),
        ensures
            final(self).wf(),
            final(self).model() == laid_out_all(old(self).model(), layouts@),
    {
        let ghost start = self.model();
        let active_id = self.active_pane_id();
        let mut i: usize = 0;
        proof {
            assert(layouts@.take(0) =~= Seq::<(PaneId, u16, u16)>::empty());
        }
        while i < layouts.len()
            invariant
                i <= layouts@.len(),
                self.wf(),
                active_id == self.model().active_id(),
                self.model() == laid_out_all(start, layouts@.take(i as int)),
            decreases layouts.len() - i,
        {
            let ghost before = self.model();
            let ghost layout = layouts@[i as int];
            proof {
                assert(layouts@.take(i + 1).drop_last() =~= layouts@.take(i as int));
                assert(layouts@.take(i + 1).last() == layout);
            }
            let (id, rows, cols) = layouts[i];
            i += 1;
            let (rows, cols) = effective_size(rows, cols);
            let focused = match active_id {
                Some(active) => active == id,
                None => false,
            };
            if focused {
                self.size = (rows, cols);
            }
            let unchanged = match self.last_content_size.get(&id) {
                Some(size) => size.0 == rows && size.1 == cols,
                None => false,
            };
            if self.owns_size && !unchanged {
                if let Some(backend) = &mut self.backend {
                    backend.resize(id, rows, cols);
                }
                self.resize_emulator(id, rows, cols);
                self.last_content_size.insert(id, (rows, cols));
            }
            proof {
                assert(self.model() =~= before.laid_out(layout));
                assert(self.model().ids() =~= before.ids());
            }
        }
        proof {
            assert(layouts@.take(i as int) =~= layouts@);
        }
    }

    /// Ask the session for the sizing. The answer arrives as
    /// `BackendEvent::SizeOwnership`, which is what actually changes it.
    pub fn claim_size(&mut self)
        requires
            old(self).wf(),
        ensures
            final(self).wf(),
            final(self).model() == (TerminalModel {
                calls: if old(self).backend is Some {
                    old(self).model().calls.push(BackendCall::ClaimSize)
                } else {
                    old(self).model().calls
                },
                ..old(self).model()
            }),
    {
        let ghost before = self.model();
        if let Some(backend) = &mut self.backend {
            backend.claim_size();
        }
        proof {
            assert(self.model().ids() =~= before.ids());
        }
    }
}

/// What whoever asked for a pane is told, from what the backend answered.
pub open spec fn handed_on(answer: Result<(), BackendError>) -> Result<(), CreateError> {
    match answer {
        Ok(()) => Ok(()),
        Err(error) => Err(CreateError::Backend(error)),
    }
}

impl TerminalModel {
    /// The backend answered a request for a pane with a command and a label.
    pub open spec fn answered_with(
        self,
        answer: Result<(), BackendError>,
        command: Option<Seq<char>>,
        label: Option<Seq<char>>,
    ) -> TerminalModel {
        match answer {
            Ok(()) => TerminalModel {
                pending: self.pending.push(queued_title(command, label)),
                ..self
            },
            Err(_) => self,
        }
    }
}

/// The backend was asked for a pane with a command and a label, and answered.
pub open spec fn asked(
    m: TerminalModel,
    command: Option<Seq<char>>,
    label: Option<Seq<char>>,
    answer: Result<(), BackendError>,
) -> TerminalModel {
    let (rows, cols) = m.birth_size();
    TerminalModel {
        calls: m.calls.push(BackendCall::Create { rows, cols, command }),
        replies: m.replies.push(answer),
        ..m
    }.answered_with(answer, command, label)
}

/// Whether `now` and `r` come of asking for a pane: without a backend that is
/// said and nothing changes; else it was asked once, and what it answered
/// decides both.
pub open spec fn was_asked(
    m: TerminalModel,
    command: Option<Seq<char>>,
    label: Option<Seq<char>>,
    now: TerminalModel,
    r: Result<(), CreateError>,
) -> bool {
    if !m.connected {
        r == Err::<(), CreateError>(CreateError::NoBackend) && now == m
    } else {
        &&& now == asked(m, command, label, now.replies.last())
        &&& r == handed_on(now.replies.last())
    }
}

/// The same where a pane that was granted is taken delivery of at once.
pub open spec fn was_asked_now(
    m: TerminalModel,
    command: Option<Seq<char>>,
    label: Option<Seq<char>>,
    now: TerminalModel,
    r: Result<(), CreateError>,
) -> bool {
    if !m.connected {
        r == Err::<(), CreateError>(CreateError::NoBackend) && now == m
    } else {
        let answer = now.replies.last();
        let sent = asked(m, command, label, answer);
        &&& now.replies == sent.replies
        &&& r == handed_on(answer)
        &&& answer is Err ==> now == sent
        &&& answer is Ok ==> exists|closed: Seq<PaneId>| #[trigger] polled(sent, now, closed)
    }
}

/// A title is queued exactly where the backend took the request, and no pane is
/// there before it arrives.
pub proof fn law_titles_are_queued_for_granted_panes(
    m: TerminalModel,
    command: Option<Seq<char>>,
    label: Option<Seq<char>>,
    now: TerminalModel,
    r: Result<(), CreateError>,
)
    requires
        was_asked(m, command, label, now, r),
    ensures
        now.pending == if r is Ok {
            m.pending.push(queued_title(command, label))
        } else {
            m.pending
        },
        now.panes == m.panes,
        now.active == m.active,
        r is Ok <==> m.connected && now.replies.last() is Ok,
        r matches Err(CreateError::Backend(error)) ==> now.replies.last() == Err::<
            (),
            BackendError,
        >(error),
{
}

/// An exit that is reported twice acts once: the second report closes nothing
/// and changes nothing.
pub proof fn law_second_exit_does_nothing(m: TerminalModel, id: PaneId)
    requires
        m.wf(),
    ensures
        !m.exited(id).has_pane(id),
        m.exited(id).exited(id) == m.exited(id),
{
    if m.has_pane(id) {
        let at = m.ids().index_of(id);
        assert(m.ids()[at] == id);
        lemma_filter_one(m.panes, at, id);
        let now = m.exited(id);
        assert forall|i: int| 0 <= i < now.ids().len() implies now.ids()[i] != id by {
            let x = if i < at {
                i
            } else {
                i + 1
            };
            assert(now.panes[i] == m.panes[x]);
            assert(m.ids()[x] != m.ids()[at]);
        }
    }
}

/// A pane that is reported twice is listed once.
pub proof fn law_second_arrival_does_nothing(
    m: TerminalModel,
    id: PaneId,
    rows: u16,
    cols: u16,
    requested: bool,
    named: Option<Seq<char>>,
    first: ScreenModel,
    second: ScreenModel,
)
    ensures
        m.adopted(id, rows, cols, requested, named, first).has_pane(id),
        m.adopted(id, rows, cols, requested, named, first).adopted(
            id,
            rows,
            cols,
            requested,
            named,
            second,
        ) == m.adopted(id, rows, cols, requested, named, first),
{
    let now = m.adopted(id, rows, cols, requested, named, first);
    if !m.has_pane(id) {
        assert(now.ids()[m.panes.len() as int] == id);
    }
}

/// A pane someone else opened lands in the list without moving the focus, and
/// takes no title this client queued.
pub proof fn law_panes_of_others_keep_the_focus(
    m: TerminalModel,
    id: PaneId,
    rows: u16,
    cols: u16,
    named: Option<Seq<char>>,
    screen: ScreenModel,
)
    ensures
        m.adopted(id, rows, cols, false, named, screen).active == m.active,
        m.active_id() is Some ==> m.adopted(id, rows, cols, false, named, screen).active_id()
            == m.active_id(),
        m.adopted(id, rows, cols, false, named, screen).pending == m.pending,
{
}

/// A pane this client asked for takes the focus when it arrives.
pub proof fn law_requested_panes_take_the_focus(
    m: TerminalModel,
    id: PaneId,
    rows: u16,
    cols: u16,
    named: Option<Seq<char>>,
    screen: ScreenModel,
)
    requires
        !m.has_pane(id),
        m.panes.len() <= usize::MAX,
    ensures
        m.adopted(id, rows, cols, true, named, screen).active_id() == Some(id),
{
}

/// The title queued with a request names the pane that answers it, when no
/// other request waits before it.
pub proof fn law_queued_title_names_the_pane(
    m: TerminalModel,
    command: Option<Seq<char>>,
    label: Option<Seq<char>>,
    id: PaneId,
    rows: u16,
    cols: u16,
    screen: ScreenModel,
)
    requires
        m.connected,
        m.pending.len() == 0,
        !m.has_pane(id),
        queued_title(command, label) is Some,
    ensures
        ({
            let now = asked(m, command, label, Ok(())).adopted(id, rows, cols, true, None, screen);
            now.panes.last().title == queued_title(command, label)->0 && now.pending.len() == 0
        }),
{
    let a = asked(m, command, label, Ok(()));
    assert(a.ids() =~= m.ids());
}

/// What a program says reaches its target: the title it set last is its pane's,
/// and the replies to what it asked go back to it, in order; no other pane is
/// renamed.
pub proof fn law_titles_and_replies_reach_their_pane(
    m: TerminalModel,
    id: PaneId,
    answer: Answer,
    i: int,
)
    requires
        m.screens.contains_key(id),
        0 <= i < m.panes.len(),
    ensures
        m.answered(id, answer).panes[i].title == if m.panes[i].id == id && title_of(
            answer.events,
        ) is Some {
            title_of(answer.events)->0
        } else {
            m.panes[i].title
        },
        m.answered(id, answer).calls == if m.connected && writes_of(answer.events).len() > 0 {
            m.calls.push(BackendCall::Send(id, writes_of(answer.events)))
        } else {
            m.calls
        },
{
}

/// Replies of the emulator and the titles programs set leave the scroll
/// positions and the prompt lines alone.
pub proof fn law_output_keeps_scroll_and_prompts(m: TerminalModel, id: PaneId, answer: Answer)
    ensures
        m.answered(id, answer).scroll == m.scroll,
        m.answered(id, answer).prompts == m.prompts,
        m.answered(id, answer).ids() == m.ids(),
        m.answered(id, answer).active == m.active,
{
    assert(m.answered(id, answer).ids() =~= m.ids());
}

/// Whoever does not own the sizing sends no resize and changes no screen.
pub proof fn law_only_the_owner_resizes(m: TerminalModel, layouts: Seq<(PaneId, u16, u16)>)
    requires
        !m.owns_size,
    ensures
        laid_out_all(m, layouts).calls == m.calls,
        laid_out_all(m, layouts).screens == m.screens,
        laid_out_all(m, layouts).sizes == m.sizes,
        !laid_out_all(m, layouts).owns_size,
    decreases layouts.len(),
{
    if layouts.len() > 0 {
        law_only_the_owner_resizes(m, layouts.drop_last());
    }
}

proof fn lemma_laid_out_sizes(m: TerminalModel, layouts: Seq<(PaneId, u16, u16)>, i: int)
    requires
        m.owns_size,
        0 <= i < layouts.len(),
        forall|j: int, k: int|
            0 <= j < layouts.len() && 0 <= k < layouts.len() && j != k ==> (#[trigger] layouts[j]).0
                != (#[trigger] layouts[k]).0,
    ensures
        laid_out_all(m, layouts).owns_size,
        laid_out_all(m, layouts).sizes.contains_key(layouts[i].0),
        laid_out_all(m, layouts).sizes[layouts[i].0] == clamped_size(layouts[i].1, layouts[i].2),
    decreases layouts.len(),
{
    let rest = layouts.drop_last();
    lemma_laid_out_owner(m, rest);
    if i < layouts.len() - 1 {
        lemma_laid_out_sizes(m, rest, i);
        assert(layouts[i].0 != layouts[layouts.len() - 1].0);
    }
}

proof fn lemma_laid_out_owner(m: TerminalModel, layouts: Seq<(PaneId, u16, u16)>)
    ensures
        laid_out_all(m, layouts).owns_size == m.owns_size,
    decreases layouts.len(),
{
    if layouts.len() > 0 {
        lemma_laid_out_owner(m, layouts.drop_last());
    }
}

proof fn lemma_laid_out_focus(m: TerminalModel, layouts: Seq<(PaneId, u16, u16)>)
    ensures
        laid_out_all(m, layouts).active_id() == m.active_id(),
    decreases layouts.len(),
{
    if layouts.len() > 0 {
        lemma_laid_out_focus(m, layouts.drop_last());
    }
}

proof fn lemma_laid_out_size(m: TerminalModel, layouts: Seq<(PaneId, u16, u16)>, i: int)
    requires
        0 <= i < layouts.len(),
        m.active_id() == Some(layouts[i].0),
        forall|j: int, k: int|
            0 <= j < layouts.len() && 0 <= k < layouts.len() && j != k ==> (#[trigger] layouts[j]).0
                != (#[trigger] layouts[k]).0,
    ensures
        laid_out_all(m, layouts).size == clamped_size(layouts[i].1, layouts[i].2),
    decreases layouts.len(),
{
    let rest = layouts.drop_last();
    lemma_laid_out_focus(m, rest);
    if i < layouts.len() - 1 {
        lemma_laid_out_size(m, rest, i);
        assert(layouts[i].0 != layouts[layouts.len() - 1].0);
    }
}

/// Fitting the same layouts again changes nothing and asks the backend for
/// nothing: every size is already what was asked for.
pub proof fn law_unchanged_layouts_ask_for_nothing(
    m: TerminalModel,
    layouts: Seq<(PaneId, u16, u16)>,
)
    requires
        forall|j: int, k: int|
            0 <= j < layouts.len() && 0 <= k < layouts.len() && j != k ==> (#[trigger] layouts[j]).0
                != (#[trigger] layouts[k]).0,
    ensures
        laid_out_all(laid_out_all(m, layouts), layouts) == laid_out_all(m, layouts),
{
    lemma_refit(m, layouts, layouts.len() as int);
    assert(layouts.take(layouts.len() as int) =~= layouts);
}

proof fn lemma_refit(m: TerminalModel, layouts: Seq<(PaneId, u16, u16)>, n: int)
    requires
        0 <= n <= layouts.len(),
        forall|j: int, k: int|
            0 <= j < layouts.len() && 0 <= k < layouts.len() && j != k ==> (#[trigger] layouts[j]).0
                != (#[trigger] layouts[k]).0,
    ensures
        laid_out_all(laid_out_all(m, layouts), layouts.take(n)) == laid_out_all(m, layouts),
    decreases n,
{
    let fitted = laid_out_all(m, layouts);
    if n > 0 {
        lemma_refit(m, layouts, n - 1);
        lemma_laid_out_owner(m, layouts);
        lemma_laid_out_focus(m, layouts);
        if m.owns_size {
            lemma_laid_out_sizes(m, layouts, n - 1);
        }
        if m.active_id() == Some(layouts[n - 1].0) {
            lemma_laid_out_size(m, layouts, n - 1);
        }
        assert(layouts.take(n).drop_last() =~= layouts.take(n - 1));
        assert(layouts.take(n).last() == layouts[n - 1]);
        assert(fitted.laid_out(layouts[n - 1]) =~= fitted);
    }
}

/// Gaining the sizing makes the next fit ask for every visible pane's size.
pub proof fn law_gaining_the_sizing_refits(m: TerminalModel, layout: (PaneId, u16, u16))
    requires
        !m.owns_size,
        m.connected,
    ensures
        m.size_owned(true).laid_out(layout).calls == m.calls.push(
            BackendCall::Resize(
                layout.0,
                clamped_size(layout.1, layout.2).0,
                clamped_size(layout.1, layout.2).1,
            ),
        ),
{
}

proof fn lemma_filter_one(panes: Seq<PaneModel>, at: int, id: PaneId)
    requires
        0 <= at < panes.len(),
        panes[at].id == id,
        panes.map_values(|p: PaneModel| p.id).no_duplicates(),
    ensures
        panes.filter(|p: PaneModel| p.id != id) == panes.remove(at),
    decreases panes.len(),
{
    let keep = |p: PaneModel| p.id != id;
    let ids = panes.map_values(|p: PaneModel| p.id);
    let rest = panes.drop_last();
    let rest_ids = rest.map_values(|p: PaneModel| p.id);
    reveal(Seq::filter);
    assert(panes =~= rest.push(panes.last()));
    assert(forall|i: int| 0 <= i < panes.len() ==> ids[i] == (#[trigger] panes[i]).id);
    if at == panes.len() - 1 {
        lemma_filter_none(rest, id);
        assert(panes.remove(at) =~= rest);
    } else {
        assert(rest_ids.no_duplicates()) by {
            assert forall|i: int, j: int|
                0 <= i < rest_ids.len() && 0 <= j < rest_ids.len() && i != j implies rest_ids[i]
                != rest_ids[j] by {
                assert(rest_ids[i] == ids[i] && rest_ids[j] == ids[j]);
            }
        }
        lemma_filter_one(rest, at, id);
        assert(ids[panes.len() - 1] != ids[at]);
        assert(panes.remove(at) =~= rest.remove(at).push(panes.last()));
    }
}

proof fn lemma_filter_none(panes: Seq<PaneModel>, id: PaneId)
    requires
        forall|i: int| 0 <= i < panes.len() ==> (#[trigger] panes[i]).id != id,
    ensures
        panes.filter(|p: PaneModel| p.id != id) == panes,
    decreases panes.len(),
{
    reveal(Seq::filter);
    if panes.len() > 0 {
        lemma_filter_none(panes.drop_last(), id);
        assert(panes =~= panes.drop_last().push(panes.last()));
    }
}

/// After the session set a listed pane to a size, that pane's screen has it,
/// with no fewer than one row and two columns, whoever owns the sizing. No
/// other screen changes, and nothing else but what is remembered of the size,
/// which an owner keeps as it asked for it.
pub proof fn law_resized_panes_take_the_size(
    m: TerminalModel,
    pane: PaneId,
    rows: u16,
    cols: u16,
    answer: Answer,
)
    requires
        m.screens.contains_key(pane),
        m.fits(BackendEvent::Resized { pane, rows, cols }, answer),
    ensures
        ({
            let now = m.after(BackendEvent::Resized { pane, rows, cols }, answer);
            let size = (at_least(rows, 1), at_least(cols, 2));
            &&& now.screens[pane].size() == (size.0 as usize, size.1 as usize)
            &&& now.screens[pane].term == refit(
                m.screens[pane].term,
                size.0 as usize,
                size.1 as usize,
            )
            &&& now.screens[pane].parser == m.screens[pane].parser
            &&& now.screens[pane].listener == m.screens[pane].listener
            &&& now.screens.dom() == m.screens.dom()
            &&& forall|other: PaneId|
                other != pane ==> #[trigger] now.screens[other] == m.screens[other]
            &&& now.sizes == if m.owns_size {
                m.sizes
            } else {
                m.sizes.insert(pane, size)
            }
            &&& now == TerminalModel { screens: now.screens, sizes: now.sizes, ..m }
        }),
{
    let now = m.after(BackendEvent::Resized { pane, rows, cols }, answer);
    assert(now.screens.dom() =~= m.screens.dom());
}

/// A size for a pane that is not listed changes no screen.
pub proof fn law_sizes_of_unknown_panes_change_no_screen(
    m: TerminalModel,
    pane: PaneId,
    rows: u16,
    cols: u16,
    answer: Answer,
)
    requires
        !m.screens.contains_key(pane),
    ensures
        m.after(BackendEvent::Resized { pane, rows, cols }, answer).screens == m.screens,
        m.after(BackendEvent::Resized { pane, rows, cols }, answer).panes == m.panes,
{
}

/// A pane that arrives is listed last, under the session's name for it, else
/// under the title that was queued for it, else numbered by its place. It has
/// the screen it came with, at its own size, and only a pane that this client
/// asked for moves the focus and uses up a queued title. Everything of the
/// other panes stays.
pub proof fn law_arrivals_are_listed_last(
    m: TerminalModel,
    pane: PaneId,
    rows: u16,
    cols: u16,
    requested: bool,
    title: Option<String>,
    answer: Answer,
)
    requires
        !m.has_pane(pane),
        m.fits(BackendEvent::Created { pane, rows, cols, requested, title }, answer),
    ensures
        ({
            let now = m.after(
                BackendEvent::Created { pane, rows, cols, requested, title },
                answer,
            );
            let size = (at_least(rows, 1), at_least(cols, 2));
            &&& now.panes.len() == m.panes.len() + 1
            &&& forall|i: int| 0 <= i < m.panes.len() ==> #[trigger] now.panes[i] == m.panes[i]
            &&& now.panes.last().id == pane
            &&& title matches Some(name) ==> now.panes.last().title == name@ && now.pending
                == m.pending
            &&& title is None && requested && m.pending.len() > 0 ==> now.pending
                == m.pending.skip(1) && (m.pending[0] matches Some(queued)
                ==> now.panes.last().title == queued)
            &&& title is None && !requested ==> now.pending == m.pending
            &&& title is None && (!requested || m.pending.len() == 0 || m.pending[0] is None)
                ==> now.panes.last().title == seq!['s', 'h', 'e', 'l', 'l', ' '] + decimal_text(
                now.panes.len(),
            )
            &&& requested && m.panes.len() <= usize::MAX ==> now.active == m.panes.len()
            &&& !requested ==> now.active == m.active
            &&& now.screens == m.screens.insert(pane, answer.screen)
            &&& now.screens[pane].size() == (size.0 as usize, size.1 as usize)
            &&& display_offset_of(now.screens[pane].term) == 0
            &&& history_size_of(now.screens[pane].term) == 0
            &&& history_limit_of(now.screens[pane].term) == m.scrollback_lines
            &&& now.sizes == m.sizes.insert(pane, size)
            &&& now.window_stale
            &&& now.calls == m.calls
            &&& now.prompts == m.prompts
            &&& now.scroll == m.scroll
            &&& now.recoveries == m.recoveries
            &&& now.size == m.size
            &&& now.owns_size == m.owns_size
        }),
{
    reveal_strlit("shell ");
    assert("shell "@ =~= seq!['s', 'h', 'e', 'l', 'l', ' ']);
    if title is None && requested && m.pending.len() == 0 {
        let now = m.after(BackendEvent::Created { pane, rows, cols, requested, title }, answer);
        assert(now.pending == m.pending);
    }
}

/// Output changes the screen of its own pane alone, in the way that feeding it
/// the bytes does. Output of a pane that is not listed changes nothing.
pub proof fn law_output_reaches_its_own_screen(
    m: TerminalModel,
    pane: PaneId,
    data: Vec<u8>,
    answer: Answer,
)
    requires
        m.fits(BackendEvent::Output { pane, data }, answer),
    ensures
        ({
            let now = m.after(BackendEvent::Output { pane, data }, answer);
            &&& !m.screens.contains_key(pane) ==> now == m
            &&& m.screens.contains_key(pane) ==> {
                &&& now.screens == m.screens.insert(pane, answer.screen)
                &&& fed(
                    m.screens[pane].term,
                    m.screens[pane].parser,
                    data@,
                    now.screens[pane].term,
                    now.screens[pane].parser,
                    answer.events,
                )
                &&& now.screens[pane].size() == m.screens[pane].size()
                &&& history_limit_of(now.screens[pane].term) == history_limit_of(
                    m.screens[pane].term,
                )
                &&& now.ids() == m.ids()
                &&& forall|i: int|
                    0 <= i < m.panes.len() && m.panes[i].id != pane ==> #[trigger] now.panes[i]
                        == m.panes[i]
                &&& title_of(answer.events) is None ==> now.panes == m.panes
                &&& forall|i: int|
                    0 <= i < m.panes.len() && m.panes[i].id == pane && title_of(
                        answer.events,
                    ) is Some ==> (#[trigger] now.panes[i]).title == title_of(answer.events)->0
                &&& now.calls == if m.connected && writes_of(answer.events).len() > 0 {
                    m.calls.push(BackendCall::Send(pane, writes_of(answer.events)))
                } else {
                    m.calls
                }
                &&& now.active == m.active
                &&& now.sizes == m.sizes
                &&& now.scroll == m.scroll
                &&& now.pending == m.pending
                &&& now.recoveries == m.recoveries
            }
        }),
{
    let now = m.after(BackendEvent::Output { pane, data }, answer);
    if m.screens.contains_key(pane) {
        assert(now.ids() =~= m.ids());
    }
}

/// A listed pane whose child exited is taken out of the list, and everything
/// that was kept for it goes; what was typed at an unfinished prompt is handed
/// on, and a backend is told. All other panes keep their order, their titles
/// and everything that is kept for them.
pub proof fn law_exits_remove_one_pane(m: TerminalModel, at: int, answer: Answer)
    requires
        m.wf(),
        0 <= at < m.panes.len(),
    ensures
        ({
            let pane = m.panes[at].id;
            let now = m.after(BackendEvent::Exited { pane }, answer);
            &&& now.panes == m.panes.remove(at)
            &&& now.screens == m.screens.remove(pane)
            &&& now.sizes == m.sizes.remove(pane)
            &&& now.scroll == m.scroll.remove(pane)
            &&& now.prompts == m.prompts.remove(pane)
            &&& now.flushed == if m.prompts.contains_key(pane) && m.prompts[pane].len() > 0 {
                m.flushed.push((pane, m.prompts[pane]))
            } else {
                m.flushed
            }
            &&& now.calls == if m.connected {
                m.calls.push(BackendCall::Destroy(pane))
            } else {
                m.calls
            }
            &&& now.recoveries == m.recoveries
            &&& now.pending == m.pending
            &&& now.active == m.active
            &&& m.closes(BackendEvent::Exited { pane }) == Some(pane)
        }),
{
    let pane = m.panes[at].id;
    assert(m.ids()[at] == pane);
    lemma_filter_one(m.panes, at, pane);
}

/// An order that the session decided moves panes and changes none: each is
/// listed as often as before and under its title, the focus stays on its pane,
/// and those that the order names stand in its sequence.
pub proof fn law_orders_move_panes_only(m: TerminalModel, order: Vec<PaneId>, answer: Answer)
    requires
        m.wf(),
    ensures
        ({
            let now = m.after(BackendEvent::Reordered { order }, answer);
            &&& now.ids().to_multiset() == m.ids().to_multiset()
            &&& now.panes.len() == m.panes.len()
            &&& forall|i: int|
                0 <= i < now.panes.len() ==> m.panes.contains(#[trigger] now.panes[i])
            &&& m.active < m.panes.len() <= usize::MAX ==> now.active < now.panes.len()
                && now.panes[now.active as int] == m.panes[m.active as int]
            &&& forall|i: int, j: int|
                0 <= i < j < now.panes.len() && order@.contains(now.panes[i].id)
                    && order@.contains(now.panes[j].id) ==> #[trigger] comes_first(
                    order@,
                    now.panes[i].id,
                    now.panes[j].id,
                )
            &&& forall|i: int|
                0 <= i < now.panes.len() && !order@.contains(m.panes[i].id)
                    ==> #[trigger] now.panes[i] == m.panes[i]
            &&& now == TerminalModel { panes: now.panes, active: now.active, ..m }
        }),
{
    let ids = m.ids();
    let put = arranged(ids, order@);
    let now = m.after(BackendEvent::Reordered { order }, answer);
    law_arranging_keeps_every_pane(ids, order@);
    law_arranging_follows_the_order(ids, order@);
    assert(ids.to_multiset().len() == ids.len()) by {
        ids.to_multiset_ensures();
    }
    assert(put.to_multiset().len() == put.len()) by {
        put.to_multiset_ensures();
    }
    assert forall|i: int| 0 <= i < put.len() implies ids.contains(#[trigger] put[i]) by {
        put.to_multiset_ensures();
        ids.to_multiset_ensures();
        assert(put.contains(put[i]));
        vstd::seq_lib::to_multiset_contains(put, put[i]);
        vstd::seq_lib::to_multiset_contains(ids, put[i]);
    }
    assert forall|i: int| 0 <= i < put.len() implies (#[trigger] now.panes[i]).id == put[i]
        && m.panes.contains(now.panes[i]) by {
        let at = ids.index_of(put[i]);
        assert(ids.contains(put[i]));
        assert(0 <= at < ids.len() && ids[at] == put[i]);
        assert(m.panes.contains(m.panes[at]));
    }
    assert(now.ids() =~= put);
    if m.active < m.panes.len() {
        let id = m.panes[m.active as int].id;
        assert(ids[m.active as int] == id);
        vstd::seq_lib::to_multiset_contains(put, id);
        vstd::seq_lib::to_multiset_contains(ids, id);
        assert(put.contains(id));
        let at = put.index_of(id);
        assert(0 <= at < put.len() && put[at] == id);
        assert(ids.contains(put[at]));
        let back = ids.index_of(put[at]);
        assert(ids[back] == id);
        assert(back == m.active);
    }
    assert forall|i: int, j: int|
        0 <= i < j < now.panes.len() && order@.contains(now.panes[i].id) && order@.contains(
            now.panes[j].id,
        ) implies #[trigger] comes_first(order@, now.panes[i].id, now.panes[j].id) by {
        assert(now.panes[i].id == put[i] && now.panes[j].id == put[j]);
    }
    assert forall|i: int|
        0 <= i < now.panes.len() && !order@.contains(m.panes[i].id) implies #[trigger] now.panes[i]
        == m.panes[i] by {
        law_omitted_panes_keep_their_place(ids, order@, i);
        assert(ids[i] == m.panes[i].id);
        assert(put[i] == ids[i]);
        let back = ids.index_of(put[i]);
        assert(ids.contains(put[i]));
        assert(ids[back] == ids[i]);
        assert(back == i);
    }
}

/// A plugin's report about a pane is kept whole until the next one; one that
/// says `cancelled` ends it. Nothing else changes.
pub proof fn law_reports_are_kept_until_cancelled(
    m: TerminalModel,
    pane: PaneId,
    state: String,
    detail: Option<String>,
    deadline_epoch: Option<i64>,
    attempt: u32,
    answer: Answer,
)
    ensures
        ({
            let now = m.after(
                BackendEvent::Recovery { pane, state, detail, deadline_epoch, attempt },
                answer,
            );
            let ends = state@ == seq!['c', 'a', 'n', 'c', 'e', 'l', 'l', 'e', 'd'];
            &&& now.recoveries.contains_key(pane) == !ends
            &&& !ends ==> {
                &&& now.recoveries[pane].state == state@
                &&& now.recoveries[pane].detail == opt_string(detail)
                &&& now.recoveries[pane].deadline_epoch == deadline_epoch
                &&& now.recoveries[pane].attempt == attempt
            }
            &&& now.recoveries.remove(pane) == m.recoveries.remove(pane)
            &&& now == TerminalModel { recoveries: now.recoveries, ..m }
        }),
{
    reveal_strlit("cancelled");
    assert("cancelled"@ =~= seq!['c', 'a', 'n', 'c', 'e', 'l', 'l', 'e', 'd']);
    let now = m.after(
        BackendEvent::Recovery { pane, state, detail, deadline_epoch, attempt },
        answer,
    );
    assert(now.recoveries.remove(pane) =~= m.recoveries.remove(pane));
}

/// The session says who sizes. A client that gains the sizing forgets every
/// size that was applied, one that has it or loses it forgets none.
pub proof fn law_ownership_follows_the_session(m: TerminalModel, owned: bool, answer: Answer)
    ensures
        ({
            let now = m.after(BackendEvent::SizeOwnership { owned }, answer);
            &&& now.owns_size == owned
            &&& owned && !m.owns_size ==> forall|id: PaneId|
                !(#[trigger] now.sizes.contains_key(id))
            &&& !(owned && !m.owns_size) ==> now.sizes == m.sizes
            &&& now == TerminalModel { sizes: now.sizes, owns_size: owned, ..m }
        }),
{
}

/// An owner that lays a pane out at a size that was not applied to it yet asks
/// the session for it and refits the pane's screen, with no fewer than one row
/// and two columns. No other pane is touched; the focused pane's size is what
/// the next pane is born at.
pub proof fn law_owners_resize_what_changed(m: TerminalModel, layout: (PaneId, u16, u16))
    requires
        m.owns_size,
        !(m.sizes.contains_key(layout.0) && m.sizes[layout.0] == (
            at_least(layout.1, 1),
            at_least(layout.2, 2),
        )),
    ensures
        ({
            let now = laid_out_all(m, seq![layout]);
            let size = (at_least(layout.1, 1), at_least(layout.2, 2));
            &&& now.calls == if m.connected {
                m.calls.push(BackendCall::Resize(layout.0, size.0, size.1))
            } else {
                m.calls
            }
            &&& m.screens.contains_key(layout.0) ==> now.screens == m.screens.insert(
                layout.0,
                ScreenModel {
                    term: refit(
                        m.screens[layout.0].term,
                        size.0 as usize,
                        size.1 as usize,
                    ),
                    ..m.screens[layout.0]
                },
            )
            &&& !m.screens.contains_key(layout.0) ==> now.screens == m.screens
            &&& now.sizes == m.sizes.insert(layout.0, size)
            &&& now.size == if m.active_id() == Some(layout.0) {
                size
            } else {
                m.size
            }
            &&& now.panes == m.panes
            &&& now.active == m.active
            &&& now.scroll == m.scroll
        }),
{
    assert(seq![layout].drop_last() =~= Seq::<(PaneId, u16, u16)>::empty());
    assert(laid_out_all(m, seq![layout].drop_last()) == m);
}

/// Layouts are applied one after another, each to what the ones before it left.
pub proof fn law_layouts_are_applied_in_order(
    m: TerminalModel,
    first: Seq<(PaneId, u16, u16)>,
    second: Seq<(PaneId, u16, u16)>,
)
    ensures
        laid_out_all(m, first + second) == laid_out_all(laid_out_all(m, first), second),
    decreases second.len(),
{
    if second.len() == 0 {
        assert(first + second =~= first);
    } else {
        law_layouts_are_applied_in_order(m, first, second.drop_last());
        assert((first + second).drop_last() =~= first + second.drop_last());
    }
}

/// What a batch of events does is what its parts do one after the other, and
/// the panes that it closes are those that the parts close.
pub proof fn law_events_are_applied_in_order(
    m: TerminalModel,
    first: Seq<BackendEvent>,
    first_answers: Seq<Answer>,
    second: Seq<BackendEvent>,
    second_answers: Seq<Answer>,
)
    requires
        first.len() == first_answers.len(),
        second.len() == second_answers.len(),
    ensures
        after_all(m, first + second, first_answers + second_answers) == after_all(
            after_all(m, first, first_answers),
            second,
            second_answers,
        ),
        closed_by(m, first + second, first_answers + second_answers) == closed_by(
            m,
            first,
            first_answers,
        ) + closed_by(after_all(m, first, first_answers), second, second_answers),
    decreases second.len(),
{
    if second.len() == 0 {
        assert(first + second =~= first);
        assert(first_answers + second_answers =~= first_answers);
    } else {
        law_events_are_applied_in_order(
            m,
            first,
            first_answers,
            second.drop_last(),
            second_answers.drop_last(),
        );
        assert((first + second).drop_last() =~= first + second.drop_last());
        assert((first_answers + second_answers).drop_last() =~= first_answers
            + second_answers.drop_last());
    }
}

/// One event does what it does on its own, and closes a pane exactly where it
/// reports the exit of one that is listed.
pub proof fn law_one_event_closes_one_pane(m: TerminalModel, event: BackendEvent, answer: Answer)
    ensures
        after_all(m, seq![event], seq![answer]) == m.after(event, answer),
        forall|pane: PaneId|
            #![trigger m.has_pane(pane)]
            event == (BackendEvent::Exited { pane }) && m.has_pane(pane) ==> closed_by(
                m,
                seq![event],
                seq![answer],
            ) == seq![pane],
        !(event is Exited) || !m.has_pane(event->Exited_pane) ==> closed_by(
            m,
            seq![event],
            seq![answer],
        ).len() == 0,
{
    assert(seq![event].drop_last() =~= Seq::<BackendEvent>::empty());
    assert(seq![answer].drop_last() =~= Seq::<Answer>::empty());
    assert(after_all(m, seq![event].drop_last(), seq![answer].drop_last()) == m);
    assert(closed_by(m, seq![event].drop_last(), seq![answer].drop_last()) == Seq::<
        PaneId,
    >::empty());
    assert(closed_by(m, seq![event], seq![answer]) == match m.closes(event) {
        Some(id) => Seq::<PaneId>::empty().push(id),
        None => Seq::<PaneId>::empty(),
    });
}

/// A pane is asked for at the size last applied to the focused pane, or at the
/// size of this terminal where there is none, with no fewer than one row and
/// two columns, and with the command as it was given.
pub proof fn law_panes_are_asked_for_at_the_focused_size(
    m: TerminalModel,
    command: Option<Seq<char>>,
    label: Option<Seq<char>>,
    now: TerminalModel,
    r: Result<(), CreateError>,
)
    requires
        m.connected,
        was_asked(m, command, label, now, r),
    ensures
        ({
            let focused = m.active < m.panes.len() && m.sizes.contains_key(
                m.panes[m.active as int].id,
            );
            let size = if focused {
                m.sizes[m.panes[m.active as int].id]
            } else {
                m.size
            };
            now.calls == m.calls.push(
                BackendCall::Create {
                    rows: at_least(size.0, 1),
                    cols: at_least(size.1, 2),
                    command,
                },
            )
        }),
        now.screens == m.screens,
        now.sizes == m.sizes,
{
}

/// A pane is queued under its label, where that shows anything, else under its
/// command, where that does; each without the white space around it.
pub proof fn law_labels_come_before_commands(
    command: Option<Seq<char>>,
    label: Option<Seq<char>>,
)
    ensures
        label matches Some(text) ==> trim_text(text).len() > 0 ==> queued_title(command, label)
            == Some(trim_text(text)),
        label is None || trim_text(label->0).len() == 0 ==> (command matches Some(text)
            ==> trim_text(text).len() > 0 ==> queued_title(command, label) == Some(
            trim_text(text),
        )),
        queued_title(command, label) is None <==> (label is None || trim_text(label->0).len() == 0)
            && (command is None || trim_text(command->0).len() == 0),
{
}

} // verus!

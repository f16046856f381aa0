//! What a terminal backend does for the panes, and what it reports.

use vstd::prelude::*;

verus! {

pub type PaneId = u32;

#[derive(Debug)]
pub enum BackendEvent {
    /// A pane now exists. Reported rather than returned from `create_pane`
    /// because a backend serving a shared session cannot answer on the spot:
    /// the id comes from wherever the PTY actually lives.
    Created {
        pane: PaneId,
        rows: u16,
        cols: u16,
        /// Whether this side asked for it. A pane someone else opened must not
        /// take the focus away from what this client is looking at.
        requested: bool,
        /// The name the session gives the pane, which only a configured startup
        /// terminal has. `None` leaves the naming to this client.
        title: Option<String>,
    },
    Output { pane: PaneId, data: Vec<u8> },
    Exited { pane: PaneId },
    /// The size a pane's PTY is now set to.
    ///
    /// Only a backend serving a shared session reports this, and it is not
    /// necessarily what this side asked for: the size belongs to whichever
    /// client owns the sizing.
    Resized { pane: PaneId, rows: u16, cols: u16 },
    /// The canonical order of the panes. Ids this side does not know are
    /// ignored and panes the order omits keep their place.
    Reordered { order: Vec<PaneId> },
    /// Whether this side is the one whose layout sets the pane sizes.
    SizeOwnership { owned: bool },
    /// What a plugin driving `pane` reports about getting it running again.
    Recovery {
        pane: PaneId,
        /// The plugin's own short label. The one value with a meaning is
        /// `"cancelled"`, which ends the report.
        state: String,
        detail: Option<String>,
        /// When the wait ends, in unix epoch seconds, or `None` when no clock is
        /// involved.
        deadline_epoch: Option<i64>,
        attempt: u32,
    },
}

/// Why a backend could not do what it was asked.
#[derive(Debug)]
pub struct BackendError {
    pub message: String,
}

/// One thing a backend was asked to do.
pub enum BackendCall {
    Create { rows: u16, cols: u16, command: Option<Seq<char>> },
    Destroy(PaneId),
    Send(PaneId, Seq<u8>),
    Resize(PaneId, u16, u16),
    Reorder(Seq<PaneId>),
    ClaimSize,
    CancelRecovery(PaneId),
}

/// The text of an optional string.
pub open spec fn opt_text(s: Option<&str>) -> Option<Seq<char>> {
    match s {
        Some(s) => Some(s@),
        None => None,
    }
}

/// The text of an optional string.
pub open spec fn opt_string(s: Option<String>) -> Option<Seq<char>> {
    match s {
        Some(s) => Some(s@),
        None => None,
    }
}

pub trait TerminalBackend {
    /// Everything this backend was asked to do, in order.
    spec fn calls(&self) -> Seq<BackendCall>;

    /// Everything this backend has reported, one batch for each time it was
    /// asked what happened.
    spec fn reported(&self) -> Seq<Seq<BackendEvent>>;

    /// What this backend answered each time it was asked for a pane.
    spec fn replies(&self) -> Seq<Result<(), BackendError>>;

    /// Ask for a pane sized `rows`x`cols`. When `command` is `Some`, the
    /// pane's shell runs that command immediately; `None` spawns a bare
    /// interactive shell.
    ///
    /// The pane arrives as `BackendEvent::Created`, not as a return value.
    fn create_pane(&mut self, rows: u16, cols: u16, command: Option<&str>) -> (r: Result<
        (),
        BackendError,
    >)
        ensures
            final(self).calls() == old(self).calls().push(
                BackendCall::Create { rows, cols, command: opt_text(command) },
            ),
            final(self).reported() == old(self).reported(),
            final(self).replies() == old(self).replies().push(r),
    ;

    fn destroy_pane(&mut self, id: PaneId)
        ensures
            final(self).calls() == old(self).calls().push(BackendCall::Destroy(id)),
            final(self).reported() == old(self).reported(),
            final(self).replies() == old(self).replies(),
    ;

    fn send_input(&mut self, id: PaneId, data: &[u8]) -> (r: Result<(), BackendError>)
        ensures
            final(self).calls() == old(self).calls().push(BackendCall::Send(id, data@)),
            final(self).reported() == old(self).reported(),
            final(self).replies() == old(self).replies(),
    ;

    fn resize(&mut self, id: PaneId, rows: u16, cols: u16)
        ensures
            final(self).calls() == old(self).calls().push(BackendCall::Resize(id, rows, cols)),
            final(self).reported() == old(self).reported(),
            final(self).replies() == old(self).replies(),
    ;

    /// What happened since the last call.
    fn drain_events(&mut self) -> (r: Vec<BackendEvent>)
        ensures
            final(self).calls() == old(self).calls(),
            final(self).reported() == old(self).reported().push(r@),
            final(self).replies() == old(self).replies(),
    ;

    /// Ask for the panes to be put in this order. A backend that owns its
    /// panes has no one to negotiate the order with and does nothing more; a
    /// shared session answers with `BackendEvent::Reordered`.
    fn reorder(&mut self, order: &[PaneId])
        ensures
            final(self).calls() == old(self).calls().push(BackendCall::Reorder(order@)),
            final(self).reported() == old(self).reported(),
            final(self).replies() == old(self).replies(),
    ;

    /// Ask to become the client whose layout sets the pane sizes. Only a
    /// backend serving a shared session has anyone to ask.
    fn claim_size(&mut self)
        ensures
            final(self).calls() == old(self).calls().push(BackendCall::ClaimSize),
            final(self).reported() == old(self).reported(),
            final(self).replies() == old(self).replies(),
    ;

    /// Ask the session to give up on a pane's pending recovery. The session
    /// answers with a `BackendEvent::Recovery` whose state is `"cancelled"`.
    fn cancel_recovery(&mut self, pane: PaneId)
        ensures
            final(self).calls() == old(self).calls().push(BackendCall::CancelRecovery(pane)),
            final(self).reported() == old(self).reported(),
            final(self).replies() == old(self).replies(),
    ;
}

/// A call as it is remembered.
#[derive(Debug)]
pub enum RecordedCall {
    Create { rows: u16, cols: u16, command: Option<String> },
    Destroy(PaneId),
    Send(PaneId, Vec<u8>),
    Resize(PaneId, u16, u16),
    Reorder(Vec<PaneId>),
    ClaimSize,
    CancelRecovery(PaneId),
}

impl RecordedCall {
    pub open spec fn call(&self) -> BackendCall {
        match self {
            RecordedCall::Create { rows, cols, command } => BackendCall::Create {
                rows: *rows,
                cols: *cols,
                command: opt_string(*command),
            },
            RecordedCall::Destroy(id) => BackendCall::Destroy(*id),
            RecordedCall::Send(id, data) => BackendCall::Send(*id, data@),
            RecordedCall::Resize(id, rows, cols) => BackendCall::Resize(*id, *rows, *cols),
            RecordedCall::Reorder(order) => BackendCall::Reorder(order@),
            RecordedCall::ClaimSize => BackendCall::ClaimSize,
            RecordedCall::CancelRecovery(pane) => BackendCall::CancelRecovery(*pane),
        }
    }
}

/// A backend with no PTY behind it: it remembers what it was asked and
/// reports the events it was given.
pub struct RecordingBackend {
    pub recorded: Vec<RecordedCall>,
    pub pending: Vec<BackendEvent>,
    /// What `create_pane` fails with, when it is to fail.
    pub refusal: Option<String>,
    /// What was reported so far.
    pub handed_out: Ghost<Seq<Seq<BackendEvent>>>,
    /// What was answered so far to those who asked for a pane.
    pub given: Ghost<Seq<Result<(), BackendError>>>,
}

impl RecordingBackend {
    pub fn new() -> (r: RecordingBackend)
        ensures
            r.calls() == Seq::<BackendCall>::empty(),
            r.reported() == Seq::<Seq<BackendEvent>>::empty(),
            r.replies() == Seq::<Result<(), BackendError>>::empty(),
            r.pending@ == Seq::<BackendEvent>::empty(),
            r.refusal is None,
    {
        let r = RecordingBackend {
            recorded: Vec::new(),
            pending: Vec::new(),
            refusal: None,
            handed_out: Ghost(Seq::empty()),
            given: Ghost(Seq::empty()),
        };
        proof {
            assert(r.calls() =~= Seq::<BackendCall>::empty());
        }
        r
    }

    fn record(&mut self, call: RecordedCall)
        ensures
            final(self).calls() == old(self).calls().push(call.call()),
            final(self).pending == old(self).pending,
            final(self).refusal == old(self).refusal,
            final(self).handed_out == old(self).handed_out,
            final(self).given == old(self).given,
    {
        self.recorded.push(call);
        proof {
            assert(self.calls() =~= old(self).calls().push(call.call()));
        }
    }
}

impl TerminalBackend for RecordingBackend {
    open spec fn calls(&self) -> Seq<BackendCall> {
        self.recorded@.map_values(|c: RecordedCall| c.call())
    }

    open spec fn reported(&self) -> Seq<Seq<BackendEvent>> {
        self.handed_out@
    }

    open spec fn replies(&self) -> Seq<Result<(), BackendError>> {
        self.given@
    }

    fn create_pane(&mut self, rows: u16, cols: u16, command: Option<&str>) -> (r: Result<
        (),
        BackendError,
    >)
        ensures
            match old(self).refusal {
                Some(message) => r matches Err(error) && error.message@ == message@,
                None => r is Ok,
            },
            final(self).pending == old(self).pending,
            final(self).refusal == old(self).refusal,
    {
        let command = match command {
            Some(c) => Some(c.to_owned()),
            None => None,
        };
        self.record(RecordedCall::Create { rows, cols, command });
        let r = match &self.refusal {
            Some(message) => Err(BackendError { message: message.clone() }),
            None => Ok(()),
        };
        proof {
            self.given@ = self.given@.push(r);
        }
        r
    }

    fn destroy_pane(&mut self, id: PaneId)
        ensures
            final(self).pending == old(self).pending,
            final(self).refusal == old(self).refusal,
    {
        self.record(RecordedCall::Destroy(id));
    }

    fn send_input(&mut self, id: PaneId, data: &[u8]) -> (r: Result<(), BackendError>)
        ensures
            r is Ok,
            final(self).pending == old(self).pending,
            final(self).refusal == old(self).refusal,
    {
        self.record(RecordedCall::Send(id, vstd::slice::slice_to_vec(data)));
        Ok(())
    }

    fn resize(&mut self, id: PaneId, rows: u16, cols: u16)
        ensures
            final(self).pending == old(self).pending,
            final(self).refusal == old(self).refusal,
    {
        self.record(RecordedCall::Resize(id, rows, cols));
    }

    fn drain_events(&mut self) -> (r: Vec<BackendEvent>)
        ensures
            r@ == old(self).pending@,
            final(self).pending@ == Seq::<BackendEvent>::empty(),
            final(self).refusal == old(self).refusal,
    {
        let mut out: Vec<BackendEvent> = Vec::new();
        out.append(&mut self.pending);
        proof {
            assert(out@ =~= old(self).pending@);
            self.handed_out@ = self.handed_out@.push(out@);
        }
        out
    }

    fn reorder(&mut self, order: &[PaneId])
        ensures
            final(self).pending == old(self).pending,
            final(self).refusal == old(self).refusal,
    {
        self.record(RecordedCall::Reorder(vstd::slice::slice_to_vec(order)));
    }

    fn claim_size(&mut self)
        ensures
            final(self).pending == old(self).pending,
            final(self).refusal == old(self).refusal,
    {
        self.record(RecordedCall::ClaimSize);
    }

    fn cancel_recovery(&mut self, pane: PaneId)
        ensures
            final(self).pending == old(self).pending,
            final(self).refusal == old(self).refusal,
    {
        self.record(RecordedCall::CancelRecovery(pane));
    }
}

} // verus!

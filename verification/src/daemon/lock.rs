//! The single-instance lock. Two daemons on one socket would each serve half
//! the attaching clients, so deciding which is running has to be exact, which
//! rules out asking the socket. An advisory lock answers instead: the kernel
//! holds it for as long as the descriptor is open and releases it when the
//! process ends, however it ends.

use crate::native::{native_parent, NativePath};
use crate::text::lossy_text;
use vstd::prelude::*;

verus! {

/// How an attempt to take the lock went.
#[derive(Debug, Clone, Copy, PartialEq, Eq, Structural)]
pub enum LockAnswer {
    /// The lock is ours.
    Taken,
    /// Someone else has it.
    WouldBlock,
    /// A signal arrived mid-call.
    Interrupted,
    /// Any other error.
    Error,
}

/// What a failed lock means for the caller.
#[derive(Debug, Clone, Copy, PartialEq, Eq, Structural)]
pub enum Attempt {
    /// Another daemon holds it.
    Held,
    /// A signal arrived mid-call and the lock was never attempted. Says nothing
    /// about who holds what, so the only correct response is to ask again.
    Interrupted,
    /// Something else went wrong.
    Failed,
}

/// Read a lock failure. An interruption earns its own answer because a signal
/// is how the daemon is asked to shut down: reported as a failure it would
/// refuse to start a daemon for no reason.
pub open spec fn meaning(answer: LockAnswer) -> Attempt {
    match answer {
        LockAnswer::WouldBlock => Attempt::Held,
        LockAnswer::Interrupted => Attempt::Interrupted,
        _ => Attempt::Failed,
    }
}

/// Read a lock failure.
pub fn outcome_of(answer: LockAnswer) -> (r: Attempt)
    ensures
        r == meaning(answer),
{
    match answer {
        LockAnswer::WouldBlock => Attempt::Held,
        LockAnswer::Interrupted => Attempt::Interrupted,
        _ => Attempt::Failed,
    }
}

/// What to do after one attempt.
#[derive(Debug, Clone, Copy, PartialEq, Eq, Structural)]
pub enum LockStep {
    /// The lock is held: go on as the daemon.
    Acquired,
    /// Another daemon runs.
    Refused,
    /// Ask again.
    Retry,
    /// Report the error.
    Fail,
}

/// What to do after one attempt.
pub open spec fn step_after(answer: LockAnswer) -> LockStep {
    if answer == LockAnswer::Taken {
        LockStep::Acquired
    } else {
        match meaning(answer) {
            Attempt::Held => LockStep::Refused,
            Attempt::Interrupted => LockStep::Retry,
            Attempt::Failed => LockStep::Fail,
        }
    }
}

/// What to do after one attempt to take the lock.
pub fn acquire_step(answer: LockAnswer) -> (r: LockStep)
    ensures
        r == step_after(answer),
{
    match answer {
        LockAnswer::Taken => LockStep::Acquired,
        failed => match outcome_of(failed) {
            Attempt::Held => LockStep::Refused,
            Attempt::Interrupted => LockStep::Retry,
            Attempt::Failed => LockStep::Fail,
        },
    }
}

/// Where a run of attempts ends: at the first answer that is no interruption.
pub open spec fn run_of(answers: Seq<LockAnswer>) -> LockStep
    decreases answers.len(),
{
    if answers.len() == 0 {
        LockStep::Retry
    } else if step_after(answers[0]) == LockStep::Retry {
        run_of(answers.skip(1))
    } else {
        step_after(answers[0])
    }
}

/// Being interrupted decides nothing: however often it happens, the first
/// other answer counts.
pub proof fn law_interruptions_decide_nothing(answers: Seq<LockAnswer>, n: int)
    requires
        0 <= n < answers.len(),
        forall|i: int| 0 <= i < n ==> answers[i] == LockAnswer::Interrupted,
        answers[n] != LockAnswer::Interrupted,
    ensures
        run_of(answers) == step_after(answers[n]),
        run_of(answers) == LockStep::Acquired <==> answers[n] == LockAnswer::Taken,
    decreases n,
{
    if n > 0 {
        assert(answers[0] == LockAnswer::Interrupted);
        assert(answers.skip(1)[n - 1] == answers[n]);
        law_interruptions_decide_nothing(answers.skip(1), n - 1);
    }
}

/// How far taking the lock has come: what is to be done now.
#[derive(Debug, Clone, Copy, PartialEq, Eq, Structural)]
pub enum LockPhase {
    /// Make the directory the lock file is in.
    CreateDir,
    /// Open the lock file, making it where it is missing.
    Open,
    /// Try to lock it.
    TryLock,
    /// It is ours.
    Acquired,
    /// Another daemon has it.
    Refused,
    Failed,
}

/// What came of it.
#[derive(Debug)]
pub enum LockEvent {
    Done,
    /// The answer to an attempt, with the error where there was one.
    Answered(LockAnswer, String),
    Failed(String),
}

/// Whether an event can come of a phase.
pub open spec fn lock_fits(phase: LockPhase, event: LockEvent) -> bool {
    match event {
        LockEvent::Answered(_, _) => phase is TryLock,
        _ => phase is CreateDir || phase is Open,
    }
}

/// The claim on being the daemon, as plain values.
#[verifier::ext_equal]
pub struct LockModel {
    pub path: Seq<u8>,
    /// The directory it is in.
    pub dir: Option<Seq<u8>>,
    pub phase: LockPhase,
    pub error: Seq<char>,
}

impl LockModel {
    pub open spec fn begun(path: Seq<u8>) -> LockModel {
        LockModel {
            path,
            dir: native_parent(path),
            phase: if native_parent(path) is Some {
                LockPhase::CreateDir
            } else {
                LockPhase::Open
            },
            error: Seq::empty(),
        }
    }

    pub open spec fn failed(self, what: Seq<char>, reason: Seq<char>) -> LockModel {
        LockModel { phase: LockPhase::Failed, error: what + ": "@ + reason, ..self }
    }

    pub open spec fn stepped(self, event: LockEvent) -> LockModel {
        match event {
            LockEvent::Done => LockModel {
                phase: if self.phase is CreateDir {
                    LockPhase::Open
                } else {
                    LockPhase::TryLock
                },
                ..self
            },
            LockEvent::Failed(reason) => if self.phase is CreateDir {
                self.failed("creating the daemon directory "@ + lossy_text(self.dir->Some_0), reason@)
            } else {
                self.failed("opening the daemon lock "@ + lossy_text(self.path), reason@)
            },
            LockEvent::Answered(answer, reason) => match step_after(answer) {
                LockStep::Acquired => LockModel { phase: LockPhase::Acquired, ..self },
                LockStep::Refused => LockModel { phase: LockPhase::Refused, ..self },
                LockStep::Retry => self,
                LockStep::Fail => self.failed("locking "@ + lossy_text(self.path), reason@),
            },
        }
    }
}

/// An exclusive claim on being the daemon.
///
/// The lock file is never removed: unlinking it would let a second daemon lock
/// a file that the first had already deleted, and both would believe they hold
/// it. The lock is the advisory lock, not the file.
#[derive(Debug)]
pub struct InstanceLock {
    path: NativePath,
    dir: Option<NativePath>,
    phase: LockPhase,
    error: String,
}

fn failure(what: &str, path: &NativePath, reason: &str) -> (r: String)
    ensures
        r@ == what@ + lossy_text(path@) + ": "@ + reason@,
{
    what.to_owned().concat(path.shown().as_str()).concat(": ").concat(reason)
}

impl InstanceLock {
    pub closed spec fn model(&self) -> LockModel {
        LockModel {
            path: self.path@,
            dir: match self.dir {
                Some(dir) => Some(dir@),
                None => None,
            },
            phase: self.phase,
            error: self.error@,
        }
    }

    /// The directory is made only where there is one.
    pub closed spec fn wf(&self) -> bool {
        self.phase is CreateDir ==> self.dir is Some
    }

    /// Begin to take the lock at `path`.
    pub fn acquire(path: &NativePath) -> (r: InstanceLock)
        ensures
            r.wf(),
            r.model() == LockModel::begun(path@),
    {
        let dir = path.parent();
        let phase = if dir.is_some() {
            LockPhase::CreateDir
        } else {
            LockPhase::Open
        };
        let r = InstanceLock { path: path.duplicate(), dir, phase, error: String::new() };
        proof {
            assert(r.model() =~= LockModel::begun(path@));
        }
        r
    }

    /// What is to be done now.
    pub fn phase(&self) -> (r: LockPhase)
        ensures
            r == self.model().phase,
    {
        self.phase
    }

    /// The directory to make.
    pub fn dir(&self) -> (r: Option<&NativePath>)
        ensures
            match r {
                Some(dir) => self.model().dir == Some(dir@),
                None => self.model().dir is None,
            },
    {
        match &self.dir {
            Some(dir) => Some(dir),
            None => None,
        }
    }

    /// Why the lock could not be asked for.
    pub fn error(&self) -> (r: &str)
        ensures
            r@ == self.model().error,
    {
        self.error.as_str()
    }

    /// Take in what came of the phase.
    pub fn step(&mut self, event: LockEvent)
        requires
            old(self).wf(),
            lock_fits(old(self).model().phase, event),
        ensures
            final(self).wf(),
            final(self).model() == old(self).model().stepped(event),
    {
        let ghost before = self.model();
        let ghost given = event;
        match event {
            LockEvent::Done => {
                self.phase = if self.phase == LockPhase::CreateDir {
                    LockPhase::Open
                } else {
                    LockPhase::TryLock
                };
            },
            LockEvent::Failed(reason) => {
                let error = match (&self.phase, &self.dir) {
                    (LockPhase::CreateDir, Some(dir)) => failure(
                        "creating the daemon directory ",
                        dir,
                        reason.as_str(),
                    ),
                    _ => failure("opening the daemon lock ", &self.path, reason.as_str()),
                };
                self.error = error;
                self.phase = LockPhase::Failed;
            },
            LockEvent::Answered(answer, reason) => {
                match acquire_step(answer) {
                    LockStep::Acquired => {
                        self.phase = LockPhase::Acquired;
                    },
                    LockStep::Refused => {
                        self.phase = LockPhase::Refused;
                    },
                    LockStep::Retry => {},
                    LockStep::Fail => {
                        self.error = failure("locking ", &self.path, reason.as_str());
                        self.phase = LockPhase::Failed;
                    },
                }
            },
        }
        proof {
            assert(self.model() =~= before.stepped(given));
        }
    }
}

/// The lock is ours only where the system said so.
pub proof fn law_lock_is_ours_only_when_taken(lock: LockModel, event: LockEvent)
    requires
        lock_fits(lock.phase, event),
        lock.stepped(event).phase is Acquired,
    ensures
        event matches LockEvent::Answered(answer, _) && answer == LockAnswer::Taken,
{
}

/// A lock is ours where it was taken, someone else's where taking it would
/// block, tried again where the attempt was interrupted, and given up on any
/// other error.
pub proof fn law_answers_decide_the_lock(answer: LockAnswer)
    ensures
        step_after(answer) is Acquired <==> answer is Taken,
        step_after(answer) is Refused <==> answer is WouldBlock,
        step_after(answer) is Retry <==> answer is Interrupted,
        step_after(answer) is Fail <==> answer is Error,
{
}

/// The lock's directory is made first, where it lies in one, then the lock is
/// opened, and then it is tried for until the attempt is not interrupted. What
/// fails ends it, and says what failed and why.
pub proof fn law_locking_goes_in_order(path: Seq<u8>, m: LockModel, event: LockEvent)
    requires
        lock_fits(m.phase, event),
    ensures
        LockModel::begun(path).path == path,
        LockModel::begun(path).dir == native_parent(path),
        LockModel::begun(path).phase is CreateDir <==> native_parent(path) is Some,
        LockModel::begun(path).phase is Open <==> native_parent(path) is None,
        ({
            let now = m.stepped(event);
            &&& now.path == m.path && now.dir == m.dir
            &&& event is Done && m.phase is CreateDir ==> now.phase is Open
            &&& event is Done && m.phase is Open ==> now.phase is TryLock
            &&& event matches LockEvent::Failed(reason) ==> now.phase is Failed && now.error == if m.phase is CreateDir {
                "creating the daemon directory "@ + lossy_text(m.dir->Some_0) + ": "@ + reason@
            } else {
                "opening the daemon lock "@ + lossy_text(m.path) + ": "@ + reason@
            }
            &&& event matches LockEvent::Answered(answer, reason) ==> {
                &&& answer is Taken <==> now.phase is Acquired
                &&& answer is WouldBlock <==> now.phase is Refused
                &&& answer is Interrupted ==> now == m
                &&& answer is Error ==> now.phase is Failed && now.error == "locking "@
                    + lossy_text(m.path) + ": "@ + reason@
            }
        }),
{
}

} // verus!

//! The trust boundary between an untrusted plugin and the panes.
//!
//! Decoding a command checks shape and bounds; it never checks authority.
//! Everything a plugin asks for passes through `Guard::judge`, which returns
//! either an `Approved` action naming a real pane or a `Refused` saying why
//! not. There is no other way through.
//!
//! Times and durations are nanoseconds; a time counts from an arbitrary
//! moment, the same for all of them.

use crate::backend::PaneId;
use crate::plugin::protocol::{LogLevel, PaneGeneration, PaneToken, PluginCommand, MAX_INPUT_BYTES};
use crate::text::{chars_of, is_control, is_ctrl, part_of, string_of};
use crate::textmap::TextMap;
use vstd::prelude::*;
use vstd::utf8::encode_utf8;

verus! {

/// What the guard needs to know about the pane a command names.
///
/// Supplied by the caller rather than looked up here, so the guard holds no
/// reference to the backend.
#[derive(Debug, Clone)]
pub struct PaneFacts {
    pub pane: PaneId,
    pub generation: PaneGeneration,
    /// This plugin already has the pane, by opt-in or by an earlier request to
    /// watch it.
    pub opted_in: bool,
    /// Some other plugin has the pane.
    pub watched_by_another: bool,
    /// Whether the operator allowed the requesting plugin to be given a pane
    /// it was never named by.
    pub may_watch_on_signal: bool,
    /// The pane's process is still running.
    pub alive: bool,
    /// Since the pane last produced output.
    pub idle: u128,
    /// The pane's configured startup command, or `None` for a bare shell.
    pub launch_command: Option<String>,
}

/// A command that passed every rule, addressed to a pane by id.
#[derive(Debug, Clone, PartialEq, Eq)]
pub enum Approved {
    SendInput { pane: PaneId, data: Vec<u8> },
    Relaunch {
        pane: PaneId,
        resume_args: Vec<String>,
        /// The line that was validated and built. Carried so the caller runs
        /// exactly what was approved instead of rebuilding it.
        command_line: String,
    },
    Status {
        pane: PaneId,
        state: String,
        detail: Option<String>,
        deadline_epoch: Option<i64>,
        attempt: u32,
    },
    /// The plugin may be given this pane.
    WatchPane { pane: PaneId },
    Log { level: LogLevel, message: String },
}

/// Why a command was refused.
#[derive(Debug)]
pub enum Refused {
    /// The token resolves to no pane.
    UnknownPane { token: PaneToken },
    /// The plugin does not have the pane.
    NotOptedIn { pane: PaneId, token: PaneToken },
    /// The command speaks of another spawn of the slot.
    StaleGeneration { pane: PaneId, claimed: PaneGeneration, current: PaneGeneration },
    /// Typing would reach whatever occupies the slot next.
    PaneNotRunning { pane: PaneId },
    /// The pane has not been quiet for long enough.
    PaneBusy { pane: PaneId, idle: u128, min_idle: u128 },
    InputTooLarge { pane: PaneId, bytes: usize, limit: usize },
    ControlCharacter { pane: PaneId, code: u32 },
    /// Only an exited pane can be relaunched.
    PaneStillRunning { pane: PaneId },
    /// A bare shell has nothing to resume.
    NoLaunchCommand { pane: PaneId },
    ResumeArgsRejected { pane: PaneId, reason: String },
    /// The slot has spent what it may spend for now.
    RateLimited { pane: PaneId, action: RateAction },
    /// Another plugin has the pane.
    WatchedByAnother { pane: PaneId },
    /// The operator did not allow the plugin to ask for panes.
    WatchNotAllowed { pane: PaneId },
}

/// What is limited by rate.
#[derive(Debug, Clone, Copy, PartialEq, Eq, Structural)]
pub enum RateAction {
    SendInput,
    Relaunch,
}

/// How many actions of each kind one slot may be given within a window.
#[derive(Debug, Clone, Copy)]
pub struct RateLimits {
    pub window: u128,
    pub send_input: usize,
    pub relaunch: usize,
}

impl RateLimits {
    pub open spec fn limit(self, action: RateAction) -> usize {
        match action {
            RateAction::SendInput => self.send_input,
            RateAction::Relaunch => self.relaunch,
        }
    }
}

/// When one slot's actions were approved.
#[derive(Debug)]
pub struct Spending {
    pub sends: Vec<u128>,
    pub relaunches: Vec<u128>,
}

/// When one slot's actions were approved, as a plain value.
#[verifier::ext_equal]
pub struct SpendingModel {
    pub sends: Seq<u128>,
    pub relaunches: Seq<u128>,
}

impl SpendingModel {
    pub open spec fn of(self, action: RateAction) -> Seq<u128> {
        match action {
            RateAction::SendInput => self.sends,
            RateAction::Relaunch => self.relaunches,
        }
    }

    pub open spec fn with(self, action: RateAction, times: Seq<u128>) -> SpendingModel {
        match action {
            RateAction::SendInput => SpendingModel { sends: times, ..self },
            RateAction::Relaunch => SpendingModel { relaunches: times, ..self },
        }
    }

    pub open spec fn none() -> SpendingModel {
        SpendingModel { sends: Seq::empty(), relaunches: Seq::empty() }
    }
}

impl Spending {
    pub open spec fn model(&self) -> SpendingModel {
        SpendingModel { sends: self.sends@, relaunches: self.relaunches@ }
    }
}

/// The times among `times` that a window ending at `now` still holds.
pub open spec fn recent(times: Seq<u128>, now: u128, window: u128) -> Seq<u128> {
    times.filter(|t: u128| now < t + window)
}

fn recent_times(times: &Vec<u128>, now: u128, window: u128) -> (r: Vec<u128>)
    ensures
        r@ == recent(times@, now, window),
{
    let ghost keep = |t: u128| now < t + window;
    let mut out: Vec<u128> = Vec::new();
    let mut i: usize = 0;
    proof {
        reveal(Seq::filter);
        assert(times@.take(0) =~= Seq::<u128>::empty());
    }
    while i < times.len()
        invariant
            i <= times@.len(),
            keep == (|t: u128| now < t + window),
            out@ == times@.take(i as int).filter(keep),
        decreases times.len() - i,
    {
        proof {
            assert(times@.take(i + 1) =~= times@.take(i as int).push(times@[i as int]));
            times@.take(i as int).lemma_filter_push(times@[i as int], keep);
        }
        let t: u128 = times[i];
        if t > now || now - t < window {
            out.push(t);
        }
        i += 1;
    }
    proof {
        assert(times@.take(i as int) =~= times@);
    }
    out
}

/// What each slot has spent.
pub struct Budgets {
    pub slots: TextMap<Spending>,
}

/// What each slot has spent, as a plain value.
pub type Ledger = Map<Seq<char>, SpendingModel>;

/// What `slot` has spent.
pub open spec fn spent_by(ledger: Ledger, slot: Seq<char>) -> SpendingModel {
    if ledger.contains_key(slot) {
        ledger[slot]
    } else {
        SpendingModel::none()
    }
}

/// Whether `slot` may be given one more action.
pub open spec fn affordable(
    ledger: Ledger,
    slot: Seq<char>,
    action: RateAction,
    limits: RateLimits,
    now: u128,
) -> bool {
    recent(spent_by(ledger, slot).of(action), now, limits.window).len() < limits.limit(action)
}

/// The ledger after `slot` was given one more action.
pub open spec fn after_spending(
    ledger: Ledger,
    slot: Seq<char>,
    action: RateAction,
    limits: RateLimits,
    now: u128,
) -> Ledger {
    let spent = spent_by(ledger, slot);
    ledger.insert(
        slot,
        spent.with(action, recent(spent.of(action), now, limits.window).push(now)),
    )
}

/// Nobody has been given more than the limits allow at a time.
pub open spec fn within_limits(ledger: Ledger, limits: RateLimits) -> bool {
    forall|slot: Seq<char>| #[trigger]
        ledger.contains_key(slot) ==> ledger[slot].sends.len() <= limits.send_input
            && ledger[slot].relaunches.len() <= limits.relaunch
}

impl Budgets {
    pub open spec fn ledger(&self) -> Ledger {
        self.slots@.map_values(|s: Spending| s.model())
    }

    pub open spec fn wf(&self) -> bool {
        self.slots.wf()
    }

    pub fn new() -> (r: Budgets)
        ensures
            r.wf(),
            r.ledger() == Map::<Seq<char>, SpendingModel>::empty(),
    {
        let r = Budgets { slots: TextMap::new() };
        proof {
            assert(r.ledger() =~= Map::<Seq<char>, SpendingModel>::empty());
        }
        r
    }

    /// Forget what the slot has spent.
    pub fn clear(&mut self, token: &PaneToken)
        requires
            old(self).wf(),
        ensures
            final(self).wf(),
            final(self).ledger() == old(self).ledger().remove(token.text@),
    {
        let ghost before = self.ledger();
        self.slots.remove(token.text.as_str());
        proof {
            assert(self.ledger() =~= before.remove(token.text@));
        }
    }

    /// Give the slot one more action, if its window has room.
    pub fn spend(
        &mut self,
        token: &PaneToken,
        pane: PaneId,
        action: RateAction,
        limits: &RateLimits,
        now: u128,
    ) -> (r: Result<(), Refused>)
        requires
            old(self).wf(),
        ensures
            final(self).wf(),
            affordable(old(self).ledger(), token.text@, action, *limits, now) ==> r is Ok
                && final(self).ledger() == after_spending(
                old(self).ledger(),
                token.text@,
                action,
                *limits,
                now,
            ),
            !affordable(old(self).ledger(), token.text@, action, *limits, now) ==> r == Err::<
                (),
                Refused,
            >(Refused::RateLimited { pane, action }) && final(self).ledger() == old(self).ledger(),
    {
        let ghost before = self.ledger();
        let ghost spent = spent_by(before, token.text@);
        let (sends, relaunches) = match self.slots.get(token.text.as_str()) {
            Some(spending) => (
                vstd::slice::slice_to_vec(spending.sends.as_slice()),
                vstd::slice::slice_to_vec(spending.relaunches.as_slice()),
            ),
            None => (Vec::new(), Vec::new()),
        };
        let mut spending = Spending { sends, relaunches };
        proof {
            assert(spending.model() =~= spent);
        }
        let mut times = match action {
            RateAction::SendInput => recent_times(&spending.sends, now, limits.window),
            RateAction::Relaunch => recent_times(&spending.relaunches, now, limits.window),
        };
        let limit: usize = match action {
            RateAction::SendInput => limits.send_input,
            RateAction::Relaunch => limits.relaunch,
        };
        if times.len() >= limit {
            return Err(Refused::RateLimited { pane, action });
        }
        times.push(now);
        let ghost all = times@;
        match action {
            RateAction::SendInput => {
                spending.sends = times;
            },
            RateAction::Relaunch => {
                spending.relaunches = times;
            },
        }
        let ghost model = spending.model();
        self.slots.insert(token.text.clone(), spending);
        proof {
            assert(model =~= spent.with(action, all));
            assert(self.ledger() =~= after_spending(before, token.text@, action, *limits, now));
        }
        Ok(())
    }
}

/// A control character that input may not carry: any but those a person types
/// to end or to indent a line.
pub open spec fn forbidden(c: char) -> bool {
    is_ctrl(c) && c != '\n' && c != '\r' && c != '\t'
}

/// A control character that input may not carry.
pub fn is_forbidden_control(c: char) -> (r: bool)
    ensures
        r == forbidden(c),
{
    is_control(c) && c != '\n' && c != '\r' && c != '\t'
}

/// The first character of `s` that input may not carry.
pub open spec fn first_forbidden(s: Seq<char>) -> Option<char>
    decreases s.len(),
{
    if s.len() == 0 {
        None
    } else if forbidden(s[0]) {
        Some(s[0])
    } else {
        first_forbidden(s.skip(1))
    }
}

fn find_forbidden(s: &str) -> (r: Option<char>)
    ensures
        r == first_forbidden(s@),
{
    let chars = chars_of(s);
    let mut i: usize = 0;
    proof {
        assert(chars@.skip(0) =~= chars@);
    }
    while i < chars.len()
        invariant
            i <= chars@.len(),
            chars@ == s@,
            first_forbidden(s@) == first_forbidden(chars@.skip(i as int)),
        decreases chars.len() - i,
    {
        proof {
            assert(chars@.skip(i as int).skip(1) =~= chars@.skip(i + 1));
            assert(chars@.skip(i as int)[0] == chars@[i as int]);
        }
        if is_forbidden_control(chars[i]) {
            return Some(chars[i]);
        }
        i += 1;
    }
    None
}

/// Most of a plugin's log line that is kept, in characters.
pub const MAX_LOG_CHARS: usize = 2000;

/// The part of a log line that is kept.
pub open spec fn kept_message(message: Seq<char>) -> Seq<char> {
    if message.len() <= MAX_LOG_CHARS {
        message
    } else {
        message.take(MAX_LOG_CHARS as int)
    }
}

/// Cut a log line to what is kept of it.
pub fn truncate_message(message: String) -> (r: String)
    ensures
        r@ == kept_message(message@),
{
    let chars = chars_of(message.as_str());
    if chars.len() <= MAX_LOG_CHARS {
        return message;
    }
    let kept = part_of(&chars, 0, MAX_LOG_CHARS);
    let r = string_of(&kept);
    proof {
        assert(kept@ =~= message@.take(MAX_LOG_CHARS as int));
    }
    r
}

/// An approved action as a plain value.
pub enum ApprovedModel {
    SendInput { pane: PaneId, data: Seq<u8> },
    Relaunch { pane: PaneId, resume_args: Vec<String>, command_line: String },
    Status {
        pane: PaneId,
        state: String,
        detail: Option<String>,
        deadline_epoch: Option<i64>,
        attempt: u32,
    },
    WatchPane { pane: PaneId },
    Log { level: LogLevel, message: Seq<char> },
}

impl Approved {
    pub open spec fn model(&self) -> ApprovedModel {
        match *self {
            Approved::SendInput { pane, data } => ApprovedModel::SendInput { pane, data: data@ },
            Approved::Relaunch { pane, resume_args, command_line } => ApprovedModel::Relaunch {
                pane,
                resume_args,
                command_line,
            },
            Approved::Status { pane, state, detail, deadline_epoch, attempt } => ApprovedModel::Status {
                pane,
                state,
                detail,
                deadline_epoch,
                attempt,
            },
            Approved::WatchPane { pane } => ApprovedModel::WatchPane { pane },
            Approved::Log { level, message } => ApprovedModel::Log { level, message: message@ },
        }
    }
}

/// A verdict as a plain value.
pub open spec fn verdict_model(r: Result<Approved, Refused>) -> Result<ApprovedModel, Refused> {
    match r {
        Ok(approved) => Ok(approved.model()),
        Err(refused) => Err(refused),
    }
}

/// The pane must exist, the plugin must have it, and it must be the same spawn.
pub open spec fn pane_verdict(
    token: PaneToken,
    generation: PaneGeneration,
    facts: Option<&PaneFacts>,
) -> Result<PaneFacts, Refused> {
    match facts {
        None => Err(Refused::UnknownPane { token }),
        Some(facts) => if !facts.opted_in {
            Err(Refused::NotOptedIn { pane: facts.pane, token })
        } else if generation != facts.generation {
            Err(
                Refused::StaleGeneration {
                    pane: facts.pane,
                    claimed: generation,
                    current: facts.generation,
                },
            )
        } else {
            Ok(*facts)
        },
    }
}

/// The pane must exist, the plugin must have it, and it must be the same spawn.
fn pane_facts<'a>(
    token: &PaneToken,
    generation: PaneGeneration,
    facts: Option<&'a PaneFacts>,
) -> (r: Result<&'a PaneFacts, Refused>)
    ensures
        match r {
            Ok(known) => pane_verdict(*token, generation, facts) == Ok::<PaneFacts, Refused>(*known),
            Err(refused) => pane_verdict(*token, generation, facts) == Err::<PaneFacts, Refused>(
                refused,
            ),
        },
{
    match facts {
        None => Err(Refused::UnknownPane { token: token.duplicate() }),
        Some(facts) => {
            if !facts.opted_in {
                return Err(Refused::NotOptedIn { pane: facts.pane, token: token.duplicate() });
            }
            if generation != facts.generation {
                return Err(
                    Refused::StaleGeneration {
                        pane: facts.pane,
                        claimed: generation,
                        current: facts.generation,
                    },
                );
            }
            Ok(facts)
        },
    }
}

/// Who may be given a pane it asks for. This is the only rule that can widen
/// what a plugin is allowed to see: a plugin keeps a pane it has, takes none
/// from another plugin, and gains one only where the operator allowed it.
pub open spec fn watch_verdict(token: PaneToken, facts: Option<&PaneFacts>) -> Result<
    ApprovedModel,
    Refused,
> {
    match facts {
        None => Err(Refused::UnknownPane { token }),
        Some(facts) => if facts.opted_in {
            Ok(ApprovedModel::WatchPane { pane: facts.pane })
        } else if facts.watched_by_another {
            Err(Refused::WatchedByAnother { pane: facts.pane })
        } else if !facts.may_watch_on_signal {
            Err(Refused::WatchNotAllowed { pane: facts.pane })
        } else {
            Ok(ApprovedModel::WatchPane { pane: facts.pane })
        },
    }
}

/// Who may be given a pane it asks for.
pub fn judge_watch(token: &PaneToken, facts: Option<&PaneFacts>) -> (r: Result<Approved, Refused>)
    ensures
        verdict_model(r) == watch_verdict(*token, facts),
{
    match facts {
        None => Err(Refused::UnknownPane { token: token.duplicate() }),
        Some(facts) => {
            if facts.opted_in {
                return Ok(Approved::WatchPane { pane: facts.pane });
            }
            if facts.watched_by_another {
                return Err(Refused::WatchedByAnother { pane: facts.pane });
            }
            if !facts.may_watch_on_signal {
                return Err(Refused::WatchNotAllowed { pane: facts.pane });
            }
            Ok(Approved::WatchPane { pane: facts.pane })
        },
    }
}

pub struct Guard {
    pub min_idle: u128,
    pub limits: RateLimits,
    pub budgets: Budgets,
}

/// A guard as a plain value.
pub struct GuardModel {
    pub min_idle: u128,
    pub limits: RateLimits,
    pub ledger: Ledger,
}

impl GuardModel {
    /// Whether input may be typed into the pane, budget aside.
    pub open spec fn input_verdict(self, facts: PaneFacts, data: Seq<char>) -> Result<
        ApprovedModel,
        Refused,
    > {
        let pane = facts.pane;
        if !facts.alive {
            Err(Refused::PaneNotRunning { pane })
        } else if facts.idle < self.min_idle {
            Err(Refused::PaneBusy { pane, idle: facts.idle, min_idle: self.min_idle })
        } else if encode_utf8(data).len() > MAX_INPUT_BYTES {
            Err(
                Refused::InputTooLarge {
                    pane,
                    bytes: encode_utf8(data).len() as usize,
                    limit: MAX_INPUT_BYTES,
                },
            )
        } else if first_forbidden(data) is Some {
            Err(Refused::ControlCharacter { pane, code: first_forbidden(data)->0 as u32 })
        } else {
            Ok(ApprovedModel::SendInput { pane, data: encode_utf8(data) })
        }
    }

    /// Whether the pane may be relaunched, budget aside. `resumed` is the line
    /// that its command and the arguments make, or why they make none.
    pub open spec fn relaunch_verdict(
        self,
        facts: PaneFacts,
        resume_args: Vec<String>,
        resumed: Result<String, String>,
    ) -> Result<ApprovedModel, Refused> {
        let pane = facts.pane;
        if facts.alive {
            Err(Refused::PaneStillRunning { pane })
        } else if facts.launch_command is None {
            Err(Refused::NoLaunchCommand { pane })
        } else {
            match resumed {
                Err(reason) => Err(Refused::ResumeArgsRejected { pane, reason }),
                Ok(command_line) => Ok(
                    ApprovedModel::Relaunch { pane, resume_args, command_line },
                ),
            }
        }
    }

    /// What a command comes to, budget aside.
    pub open spec fn rule(
        self,
        cmd: PluginCommand,
        facts: Option<&PaneFacts>,
        resumed: Result<String, String>,
    ) -> Result<ApprovedModel, Refused> {
        match cmd {
            PluginCommand::Log { v, level, message } => Ok(
                ApprovedModel::Log { level, message: kept_message(message@) },
            ),
            PluginCommand::SendInput { v, token, generation, data } => match pane_verdict(
                token,
                generation,
                facts,
            ) {
                Err(refused) => Err(refused),
                Ok(facts) => self.input_verdict(facts, data@),
            },
            PluginCommand::Relaunch { v, token, generation, resume_args } => match pane_verdict(
                token,
                generation,
                facts,
            ) {
                Err(refused) => Err(refused),
                Ok(facts) => self.relaunch_verdict(facts, resume_args, resumed),
            },
            PluginCommand::WatchPane { v, token } => watch_verdict(token, facts),
            PluginCommand::Status { v, token, generation, state, detail, deadline_epoch, attempt } =>
            match pane_verdict(token, generation, facts) {
                Err(refused) => Err(refused),
                Ok(facts) => Ok(
                    ApprovedModel::Status {
                        pane: facts.pane,
                        state,
                        detail,
                        deadline_epoch,
                        attempt,
                    },
                ),
            },
        }
    }

    /// What a command would spend if it were approved: its slot and the kind.
    pub open spec fn price(cmd: PluginCommand) -> Option<(PaneToken, RateAction)> {
        match cmd {
            PluginCommand::SendInput { token, .. } => Some((token, RateAction::SendInput)),
            PluginCommand::Relaunch { token, .. } => Some((token, RateAction::Relaunch)),
            _ => None,
        }
    }

    /// What a command comes to.
    pub open spec fn verdict(
        self,
        cmd: PluginCommand,
        facts: Option<&PaneFacts>,
        resumed: Result<String, String>,
        now: u128,
    ) -> Result<ApprovedModel, Refused> {
        match self.rule(cmd, facts, resumed) {
            Err(refused) => Err(refused),
            Ok(approved) => match GuardModel::price(cmd) {
                None => Ok(approved),
                Some((token, action)) => if affordable(
                    self.ledger,
                    token.text@,
                    action,
                    self.limits,
                    now,
                ) {
                    Ok(approved)
                } else {
                    Err(Refused::RateLimited { pane: facts->0.pane, action })
                },
            },
        }
    }

    /// What the slots have spent once a command was judged.
    pub open spec fn ledger_after(
        self,
        cmd: PluginCommand,
        facts: Option<&PaneFacts>,
        resumed: Result<String, String>,
        now: u128,
    ) -> Ledger {
        match (self.verdict(cmd, facts, resumed, now), GuardModel::price(cmd)) {
            (Ok(_), Some((token, action))) => after_spending(
                self.ledger,
                token.text@,
                action,
                self.limits,
                now,
            ),
            _ => self.ledger,
        }
    }
}

impl Guard {
    pub open spec fn model(&self) -> GuardModel {
        GuardModel {
            min_idle: self.min_idle,
            limits: self.limits,
            ledger: self.budgets.ledger(),
        }
    }

    pub open spec fn wf(&self) -> bool {
        &&& self.budgets.wf()
        &&& within_limits(self.budgets.ledger(), self.limits)
    }

    /// `min_idle` is how long a pane must have been quiet before input may be
    /// typed into it.
    pub fn new(min_idle: u128, limits: RateLimits) -> (r: Guard)
        ensures
            r.wf(),
            r.model() == (GuardModel { min_idle, limits, ledger: Map::empty() }),
    {
        Guard { min_idle, limits, budgets: Budgets::new() }
    }

    /// Forget everything held for the slot `token` names.
    ///
    /// Called when a human types into the pane, when the pane closes, and when
    /// the session is replaced: in all three the plugin's spent budget belongs
    /// to a situation that no longer exists.
    pub fn cancel(&mut self, token: &PaneToken)
        requires
            old(self).wf(),
        ensures
            final(self).wf(),
            final(self).model() == (GuardModel {
                ledger: old(self).model().ledger.remove(token.text@),
                ..old(self).model()
            }),
    {
        self.budgets.clear(token);
    }

    /// Decide one command.
    ///
    /// `facts` is what the caller knows about the pane `cmd`'s token resolves
    /// to, or `None` if it resolves to nothing. `resumed` is the line that the
    /// pane's command and a relaunch's arguments make under the plugin's
    /// allowed flags, or why they make none; it matters to a relaunch only.
    pub fn judge(
        &mut self,
        cmd: PluginCommand,
        facts: Option<&PaneFacts>,
        resumed: Result<String, String>,
        now: u128,
    ) -> (r: Result<Approved, Refused>)
        requires
            old(self).wf(),
        ensures
            final(self).wf(),
            verdict_model(r) == old(self).model().verdict(cmd, facts, resumed, now),
            final(self).model() == (GuardModel {
                ledger: old(self).model().ledger_after(cmd, facts, resumed, now),
                ..old(self).model()
            }),
    {
        match cmd {
            // Not pane-scoped, so none of the pane rules can apply to it.
            PluginCommand::Log { v: _, level, message } => Ok(
                Approved::Log { level, message: truncate_message(message) },
            ),
            PluginCommand::SendInput { v: _, token, generation, data } => {
                match pane_facts(&token, generation, facts) {
                    Err(refused) => Err(refused),
                    Ok(facts) => self.judge_send_input(&token, facts, data, now),
                }
            },
            PluginCommand::Relaunch { v: _, token, generation, resume_args } => {
                match pane_facts(&token, generation, facts) {
                    Err(refused) => Err(refused),
                    Ok(facts) => self.judge_relaunch(&token, facts, resume_args, resumed, now),
                }
            },
            // The one command whose whole point is a pane the plugin does not
            // have, and it names no generation to check.
            PluginCommand::WatchPane { v: _, token } => judge_watch(&token, facts),
            PluginCommand::Status { v: _, token, generation, state, detail, deadline_epoch, attempt } => {
                match pane_facts(&token, generation, facts) {
                    Err(refused) => Err(refused),
                    // Nothing happens to the pane, so there is no effect to
                    // limit by rate.
                    Ok(facts) => Ok(
                        Approved::Status {
                            pane: facts.pane,
                            state,
                            detail,
                            deadline_epoch,
                            attempt,
                        },
                    ),
                }
            },
        }
    }

    fn judge_send_input(
        &mut self,
        token: &PaneToken,
        facts: &PaneFacts,
        data: String,
        now: u128,
    ) -> (r: Result<Approved, Refused>)
        requires
            old(self).wf(),
        ensures
            final(self).wf(),
            final(self).min_idle == old(self).min_idle,
            final(self).limits == old(self).limits,
            ({
                let m = old(self).model();
                let free = affordable(
                    m.ledger,
                    token.text@,
                    RateAction::SendInput,
                    m.limits,
                    now,
                );
                match m.input_verdict(*facts, data@) {
                    Err(refused) => r == Err::<Approved, Refused>(refused)
                        && final(self).model().ledger == m.ledger,
                    Ok(approved) => if free {
                        verdict_model(r) == Ok::<ApprovedModel, Refused>(approved)
                            && final(self).model().ledger == after_spending(
                            m.ledger,
                            token.text@,
                            RateAction::SendInput,
                            m.limits,
                            now,
                        )
                    } else {
                        r == Err::<Approved, Refused>(
                            Refused::RateLimited { pane: facts.pane, action: RateAction::SendInput },
                        ) && final(self).model().ledger == m.ledger
                    },
                }
            }),
    {
        let pane: PaneId = facts.pane;
        if !facts.alive {
            return Err(Refused::PaneNotRunning { pane });
        }
        if facts.idle < self.min_idle {
            return Err(Refused::PaneBusy { pane, idle: facts.idle, min_idle: self.min_idle });
        }
        let bytes = vstd::slice::slice_to_vec(data.as_str().as_bytes());
        if bytes.len() > MAX_INPUT_BYTES {
            return Err(Refused::InputTooLarge { pane, bytes: bytes.len(), limit: MAX_INPUT_BYTES });
        }
        if let Some(bad) = find_forbidden(data.as_str()) {
            return Err(Refused::ControlCharacter { pane, code: bad as u32 });
        }
        match self.budgets.spend(token, pane, RateAction::SendInput, &self.limits, now) {
            Err(refused) => Err(refused),
            Ok(()) => {
                proof {
                    lemma_spending_within_limits(
                        old(self).model().ledger,
                        token.text@,
                        RateAction::SendInput,
                        old(self).limits,
                        now,
                    );
                }
                Ok(Approved::SendInput { pane, data: bytes })
            },
        }
    }

    fn judge_relaunch(
        &mut self,
        token: &PaneToken,
        facts: &PaneFacts,
        resume_args: Vec<String>,
        resumed: Result<String, String>,
        now: u128,
    ) -> (r: Result<Approved, Refused>)
        requires
            old(self).wf(),
        ensures
            final(self).wf(),
            final(self).min_idle == old(self).min_idle,
            final(self).limits == old(self).limits,
            ({
                let m = old(self).model();
                let free = affordable(
                    m.ledger,
                    token.text@,
                    RateAction::Relaunch,
                    m.limits,
                    now,
                );
                match m.relaunch_verdict(*facts, resume_args, resumed) {
                    Err(refused) => r == Err::<Approved, Refused>(refused)
                        && final(self).model().ledger == m.ledger,
                    Ok(approved) => if free {
                        verdict_model(r) == Ok::<ApprovedModel, Refused>(approved)
                            && final(self).model().ledger == after_spending(
                            m.ledger,
                            token.text@,
                            RateAction::Relaunch,
                            m.limits,
                            now,
                        )
                    } else {
                        r == Err::<Approved, Refused>(
                            Refused::RateLimited { pane: facts.pane, action: RateAction::Relaunch },
                        ) && final(self).model().ledger == m.ledger
                    },
                }
            }),
    {
        let pane: PaneId = facts.pane;
        if facts.alive {
            // Half of the guarantee that one incident is handled once: input
            // recovery acts on live panes, relaunch only on exited ones.
            return Err(Refused::PaneStillRunning { pane });
        }
        if facts.launch_command.is_none() {
            // Putting a process back into a bare shell would start the shell
            // again, not whatever the person ran inside it.
            return Err(Refused::NoLaunchCommand { pane });
        }
        let command_line = match resumed {
            Ok(line) => line,
            Err(reason) => {
                return Err(Refused::ResumeArgsRejected { pane, reason });
            },
        };
        match self.budgets.spend(token, pane, RateAction::Relaunch, &self.limits, now) {
            Err(refused) => Err(refused),
            Ok(()) => {
                proof {
                    lemma_spending_within_limits(
                        old(self).model().ledger,
                        token.text@,
                        RateAction::Relaunch,
                        old(self).limits,
                        now,
                    );
                }
                Ok(Approved::Relaunch { pane, resume_args, command_line })
            },
        }
    }
}

proof fn lemma_spending_within_limits(
    ledger: Ledger,
    slot: Seq<char>,
    action: RateAction,
    limits: RateLimits,
    now: u128,
)
    requires
        within_limits(ledger, limits),
        affordable(ledger, slot, action, limits, now),
    ensures
        within_limits(after_spending(ledger, slot, action, limits, now), limits),
{
    let after = after_spending(ledger, slot, action, limits, now);
    assert forall|s: Seq<char>| #[trigger] after.contains_key(s) implies after[s].sends.len()
        <= limits.send_input && after[s].relaunches.len() <= limits.relaunch by {
        if s != slot {
            assert(ledger.contains_key(s));
        }
    }
}

/// A refused command spends nothing.
pub proof fn law_refusals_cost_nothing(
    guard: GuardModel,
    cmd: PluginCommand,
    facts: Option<&PaneFacts>,
    resumed: Result<String, String>,
    now: u128,
)
    requires
        guard.verdict(cmd, facts, resumed, now) is Err,
    ensures
        guard.ledger_after(cmd, facts, resumed, now) == guard.ledger,
{
}

/// Nothing reaches a pane that the plugin does not have, except that it may be
/// given one it asks to watch; and a command about another spawn of the slot
/// is refused.
pub proof fn law_only_own_panes_are_touched(
    guard: GuardModel,
    cmd: PluginCommand,
    facts: Option<&PaneFacts>,
    resumed: Result<String, String>,
    now: u128,
)
    requires
        guard.verdict(cmd, facts, resumed, now) is Ok,
        !(cmd is Log),
        !(cmd is WatchPane),
    ensures
        facts matches Some(known) && known.opted_in
            && crate::plugin::protocol::addressed_spawn(cmd) == Some(known.generation),
{
}

/// A plugin gains a pane it does not have only where the operator allowed it
/// and no other plugin has it.
pub proof fn law_watching_never_takes_a_pane(
    guard: GuardModel,
    token: PaneToken,
    v: u32,
    facts: Option<&PaneFacts>,
    resumed: Result<String, String>,
    now: u128,
)
    requires
        guard.verdict(PluginCommand::WatchPane { v, token }, facts, resumed, now) is Ok,
    ensures
        facts matches Some(known) && (known.opted_in || (known.may_watch_on_signal
            && !known.watched_by_another)),
{
}

/// One incident is handled once: in no state of a pane is both typing into it
/// and relaunching it approved.
pub proof fn law_input_and_relaunch_exclude_each_other(
    guard: GuardModel,
    input: PluginCommand,
    relaunch: PluginCommand,
    facts: Option<&PaneFacts>,
    resumed: Result<String, String>,
    now: u128,
)
    requires
        input is SendInput,
        relaunch is Relaunch,
    ensures
        !(guard.verdict(input, facts, resumed, now) is Ok && guard.verdict(
            relaunch,
            facts,
            resumed,
            now,
        ) is Ok),
{
}

/// Cancelling a slot gives it a whole budget again and leaves the others as
/// they were.
pub proof fn law_cancelling_restores_the_budget(
    ledger: Ledger,
    slot: Seq<char>,
    other: Seq<char>,
    action: RateAction,
    limits: RateLimits,
    now: u128,
)
    requires
        limits.limit(action) > 0,
        other != slot,
    ensures
        affordable(ledger.remove(slot), slot, action, limits, now),
        spent_by(ledger.remove(slot), other) == spent_by(ledger, other),
{
    reveal(Seq::filter);
    assert(recent(Seq::<u128>::empty(), now, limits.window).len() == 0);
}

/// What is typed into a pane carries no forbidden control character and no
/// more than the limit, however it was decoded.
pub proof fn law_approved_input_is_clean(
    guard: GuardModel,
    cmd: PluginCommand,
    facts: Option<&PaneFacts>,
    resumed: Result<String, String>,
    now: u128,
    i: int,
)
    requires
        guard.verdict(cmd, facts, resumed, now) is Ok,
        cmd is SendInput,
        0 <= i < cmd->SendInput_data@.len(),
    ensures
        !forbidden(cmd->SendInput_data@[i]),
        encode_utf8(cmd->SendInput_data@).len() <= MAX_INPUT_BYTES,
{
    lemma_none_forbidden(cmd->SendInput_data@, i);
}

proof fn lemma_none_forbidden(s: Seq<char>, i: int)
    requires
        first_forbidden(s) is None,
        0 <= i < s.len(),
    ensures
        !forbidden(s[i]),
    decreases s.len(),
{
    if i > 0 {
        lemma_none_forbidden(s.skip(1), i - 1);
    }
}

/// Whether the pane that a command names is one the plugin has, in the spawn
/// that the command means.
pub open spec fn has_the_pane(facts: Option<&PaneFacts>, generation: PaneGeneration) -> bool {
    facts matches Some(known) && known.opted_in && known.generation == generation
}

/// How many of `times` lie less than `window` before `now`.
pub open spec fn spent_lately(times: Seq<u128>, now: u128, window: u128) -> nat {
    times.filter(|t: u128| now < t + window).len()
}

/// Input is approved exactly where the plugin has the pane in the spawn it
/// means, the pane runs and has been quiet long enough, the text is not too
/// long and holds no control character but those that end or indent a line,
/// and fewer inputs than the limit were approved for the slot within the
/// window. What is approved is the whole text, for that pane.
pub proof fn law_approved_input_is_the_whole_text(
    m: GuardModel,
    v: u32,
    token: PaneToken,
    generation: PaneGeneration,
    data: String,
    facts: Option<&PaneFacts>,
    resumed: Result<String, String>,
    now: u128,
)
    ensures
        ({
            let verdict = m.verdict(
                PluginCommand::SendInput { v, token, generation, data },
                facts,
                resumed,
                now,
            );
            let spent = if m.ledger.contains_key(token.text@) {
                spent_lately(m.ledger[token.text@].sends, now, m.limits.window)
            } else {
                0
            };
            &&& verdict is Ok ==> verdict == Ok::<ApprovedModel, Refused>(
                ApprovedModel::SendInput { pane: facts->0.pane, data: encode_utf8(data@) },
            )
            &&& verdict is Ok <==> {
                &&& has_the_pane(facts, generation)
                &&& facts->0.alive
                &&& facts->0.idle >= m.min_idle
                &&& encode_utf8(data@).len() <= 8192
                &&& forall|i: int|
                    0 <= i < data@.len() ==> {
                        let c = #[trigger] data@[i];
                        c == '\n' || c == '\r' || c == '\t' || (c as u32 > 0x1f && !(0x7f
                            <= c as u32 <= 0x9f))
                    }
                &&& spent < m.limits.send_input
            }
        }),
{
    lemma_first_forbidden(data@);
    lemma_none_recent(now, m.limits.window);
}

proof fn lemma_none_recent(now: u128, window: u128)
    ensures
        recent(Seq::<u128>::empty(), now, window).len() == 0,
{
    reveal(Seq::filter);
}

/// The first character that input may not carry stands in it, with none before
/// it; input has none exactly where each of its characters is allowed.
proof fn lemma_first_forbidden(s: Seq<char>)
    ensures
        first_forbidden(s) is None <==> forall|i: int|
            0 <= i < s.len() ==> !forbidden(#[trigger] s[i]),
        first_forbidden(s) matches Some(c) ==> exists|i: int|
            0 <= i < s.len() && #[trigger] s[i] == c && forbidden(c) && forall|j: int|
                0 <= j < i ==> !forbidden(#[trigger] s[j]),
    decreases s.len(),
{
    if s.len() > 0 && !forbidden(s[0]) {
        let rest = s.skip(1);
        lemma_first_forbidden(rest);
        if first_forbidden(rest) is None {
            assert forall|i: int| 0 <= i < s.len() implies !forbidden(#[trigger] s[i]) by {
                if i > 0 {
                    assert(rest[i - 1] == s[i]);
                }
            }
        } else {
            let c = first_forbidden(rest)->0;
            let i = choose|i: int|
                0 <= i < rest.len() && #[trigger] rest[i] == c && forbidden(c) && forall|j: int|
                    0 <= j < i ==> !forbidden(#[trigger] rest[j]);
            assert(s[i + 1] == c);
            assert forall|j: int| 0 <= j < i + 1 implies !forbidden(#[trigger] s[j]) by {
                if j > 0 {
                    assert(rest[j - 1] == s[j]);
                }
            }
        }
    }
}

/// Refused input is told the first thing that stands against it: the pane, the
/// plugin's claim to it, the spawn, whether it runs, how long it was quiet, the
/// length of the text, its first forbidden character, and last the budget.
pub proof fn law_refused_input_says_why(
    m: GuardModel,
    v: u32,
    token: PaneToken,
    generation: PaneGeneration,
    data: String,
    facts: Option<&PaneFacts>,
    resumed: Result<String, String>,
    now: u128,
)
    ensures
        ({
            let verdict = m.verdict(
                PluginCommand::SendInput { v, token, generation, data },
                facts,
                resumed,
                now,
            );
            &&& facts is None <==> verdict == Err::<ApprovedModel, Refused>(
                Refused::UnknownPane { token },
            )
            &&& facts matches Some(known) ==> {
                let pane = known.pane;
                let clean = forall|i: int|
                    0 <= i < data@.len() ==> !forbidden(#[trigger] data@[i]);
                &&& !known.opted_in <==> verdict == Err::<ApprovedModel, Refused>(
                    Refused::NotOptedIn { pane, token },
                )
                &&& known.opted_in && known.generation != generation <==> verdict == Err::<
                    ApprovedModel,
                    Refused,
                >(
                    Refused::StaleGeneration {
                        pane,
                        claimed: generation,
                        current: known.generation,
                    },
                )
                &&& has_the_pane(facts, generation) && !known.alive <==> verdict == Err::<
                    ApprovedModel,
                    Refused,
                >(Refused::PaneNotRunning { pane })
                &&& has_the_pane(facts, generation) && known.alive && known.idle < m.min_idle
                    <==> verdict == Err::<ApprovedModel, Refused>(
                    Refused::PaneBusy { pane, idle: known.idle, min_idle: m.min_idle },
                )
                &&& has_the_pane(facts, generation) && known.alive && known.idle >= m.min_idle
                    && encode_utf8(data@).len() > 8192 <==> (verdict matches Err(
                    Refused::InputTooLarge { pane: named, bytes, limit },
                ) && named == pane && limit == 8192)
                &&& has_the_pane(facts, generation) && known.alive && known.idle >= m.min_idle
                    && encode_utf8(data@).len() <= 8192 && !clean ==> (verdict matches Err(
                    Refused::ControlCharacter { pane: named, code },
                ) && named == pane && exists|i: int|
                    0 <= i < data@.len() && #[trigger] data@[i] as u32 == code && forbidden(
                        data@[i],
                    ) && forall|j: int| 0 <= j < i ==> !forbidden(#[trigger] data@[j]))
            }
        }),
{
    lemma_first_forbidden(data@);
    if first_forbidden(data@) is Some {
        let c = first_forbidden(data@)->0;
        let i = choose|i: int|
            0 <= i < data@.len() && #[trigger] data@[i] == c && forbidden(c) && forall|j: int|
                0 <= j < i ==> !forbidden(#[trigger] data@[j]);
        assert(data@[i] as u32 == c as u32);
    }
}

/// A relaunch is approved exactly where the plugin has the pane in the spawn
/// it means, the pane has stopped and was launched by a command, its arguments
/// are allowed, and the slot's budget has room. The arguments and the line they
/// make are handed on as they are.
pub proof fn law_approved_relaunches_keep_their_arguments(
    m: GuardModel,
    v: u32,
    token: PaneToken,
    generation: PaneGeneration,
    resume_args: Vec<String>,
    facts: Option<&PaneFacts>,
    resumed: Result<String, String>,
    now: u128,
)
    ensures
        ({
            let verdict = m.verdict(
                PluginCommand::Relaunch { v, token, generation, resume_args },
                facts,
                resumed,
                now,
            );
            let spent = if m.ledger.contains_key(token.text@) {
                spent_lately(m.ledger[token.text@].relaunches, now, m.limits.window)
            } else {
                0
            };
            let stopped = has_the_pane(facts, generation) && !facts->0.alive;
            &&& verdict is Ok ==> verdict == Ok::<ApprovedModel, Refused>(
                ApprovedModel::Relaunch {
                    pane: facts->0.pane,
                    resume_args,
                    command_line: resumed->Ok_0,
                },
            )
            &&& verdict is Ok <==> stopped && facts->0.launch_command is Some && resumed is Ok
                && spent < m.limits.relaunch
            &&& has_the_pane(facts, generation) && facts->0.alive ==> verdict == Err::<
                ApprovedModel,
                Refused,
            >(Refused::PaneStillRunning { pane: facts->0.pane })
            &&& stopped && facts->0.launch_command is None ==> verdict == Err::<
                ApprovedModel,
                Refused,
            >(Refused::NoLaunchCommand { pane: facts->0.pane })
            &&& stopped && facts->0.launch_command is Some && resumed is Err ==> verdict == Err::<
                ApprovedModel,
                Refused,
            >(Refused::ResumeArgsRejected { pane: facts->0.pane, reason: resumed->Err_0 })
            &&& stopped && facts->0.launch_command is Some && resumed is Ok && spent
                >= m.limits.relaunch ==> verdict == Err::<ApprovedModel, Refused>(
                Refused::RateLimited { pane: facts->0.pane, action: RateAction::Relaunch },
            )
        }),
{
    lemma_none_recent(now, m.limits.window);
}

/// A report of a plugin about a pane that it has, in the spawn it means, is
/// passed on word for word, whatever the pane does and whatever was spent.
pub proof fn law_reports_are_passed_on_whole(
    m: GuardModel,
    v: u32,
    token: PaneToken,
    generation: PaneGeneration,
    state: String,
    detail: Option<String>,
    deadline_epoch: Option<i64>,
    attempt: u32,
    facts: Option<&PaneFacts>,
    resumed: Result<String, String>,
    now: u128,
)
    ensures
        ({
            let verdict = m.verdict(
                PluginCommand::Status {
                    v,
                    token,
                    generation,
                    state,
                    detail,
                    deadline_epoch,
                    attempt,
                },
                facts,
                resumed,
                now,
            );
            &&& verdict is Ok <==> has_the_pane(facts, generation)
            &&& verdict is Ok ==> verdict == Ok::<ApprovedModel, Refused>(
                ApprovedModel::Status {
                    pane: facts->0.pane,
                    state,
                    detail,
                    deadline_epoch,
                    attempt,
                },
            )
        }),
{
}

/// A plugin is given a pane to watch exactly where it has the pane already, or
/// nobody else does and the operator lets it ask.
pub proof fn law_free_panes_may_be_watched(
    m: GuardModel,
    v: u32,
    token: PaneToken,
    facts: Option<&PaneFacts>,
    resumed: Result<String, String>,
    now: u128,
)
    ensures
        ({
            let verdict = m.verdict(PluginCommand::WatchPane { v, token }, facts, resumed, now);
            &&& facts is None ==> verdict == Err::<ApprovedModel, Refused>(
                Refused::UnknownPane { token },
            )
            &&& facts matches Some(known) ==> {
                &&& verdict is Ok <==> known.opted_in || (!known.watched_by_another
                    && known.may_watch_on_signal)
                &&& verdict is Ok ==> verdict == Ok::<ApprovedModel, Refused>(
                    ApprovedModel::WatchPane { pane: known.pane },
                )
                &&& !known.opted_in && known.watched_by_another ==> verdict == Err::<
                    ApprovedModel,
                    Refused,
                >(Refused::WatchedByAnother { pane: known.pane })
                &&& !known.opted_in && !known.watched_by_another && !known.may_watch_on_signal
                    ==> verdict == Err::<ApprovedModel, Refused>(
                    Refused::WatchNotAllowed { pane: known.pane },
                )
            }
        }),
{
}

/// A plugin may always log. A line of up to two thousand characters is kept
/// whole, a longer one up to there.
pub proof fn law_log_lines_are_kept(
    m: GuardModel,
    v: u32,
    level: LogLevel,
    message: String,
    facts: Option<&PaneFacts>,
    resumed: Result<String, String>,
    now: u128,
)
    ensures
        ({
            let verdict = m.verdict(
                PluginCommand::Log { v, level, message },
                facts,
                resumed,
                now,
            );
            &&& verdict matches Ok(ApprovedModel::Log { level: kept_level, message: kept })
            &&& kept_level == level
            &&& message@.len() <= 2000 ==> kept == message@
            &&& message@.len() > 2000 ==> kept.len() == 2000
            &&& forall|i: int| 0 <= i < kept.len() ==> #[trigger] kept[i] == message@[i]
        }),
{
}

/// An approved input or relaunch is noted for its slot with the time, beside
/// those of its kind that the window still holds; what the other kind and the
/// other slots have spent stays.
pub proof fn law_approvals_are_noted(
    m: GuardModel,
    cmd: PluginCommand,
    facts: Option<&PaneFacts>,
    resumed: Result<String, String>,
    now: u128,
)
    requires
        m.verdict(cmd, facts, resumed, now) is Ok,
    ensures
        ({
            let after = m.ledger_after(cmd, facts, resumed, now);
            &&& cmd matches PluginCommand::SendInput { token, .. } ==> {
                let slot = token.text@;
                let before = if m.ledger.contains_key(slot) {
                    m.ledger[slot]
                } else {
                    SpendingModel { sends: Seq::empty(), relaunches: Seq::empty() }
                };
                &&& after.remove(slot) == m.ledger.remove(slot)
                &&& after.contains_key(slot)
                &&& after[slot].sends == before.sends.filter(
                    |t: u128| now < t + m.limits.window,
                ).push(now)
                &&& after[slot].relaunches == before.relaunches
            }
            &&& cmd matches PluginCommand::Relaunch { token, .. } ==> {
                let slot = token.text@;
                let before = if m.ledger.contains_key(slot) {
                    m.ledger[slot]
                } else {
                    SpendingModel { sends: Seq::empty(), relaunches: Seq::empty() }
                };
                &&& after.remove(slot) == m.ledger.remove(slot)
                &&& after.contains_key(slot)
                &&& after[slot].relaunches == before.relaunches.filter(
                    |t: u128| now < t + m.limits.window,
                ).push(now)
                &&& after[slot].sends == before.sends
            }
            &&& cmd is WatchPane || cmd is Status || cmd is Log ==> after == m.ledger
        }),
{
    match cmd {
        PluginCommand::SendInput { token, .. } => {
            assert(m.ledger_after(cmd, facts, resumed, now).remove(token.text@)
                =~= m.ledger.remove(token.text@));
        },
        PluginCommand::Relaunch { token, .. } => {
            assert(m.ledger_after(cmd, facts, resumed, now).remove(token.text@)
                =~= m.ledger.remove(token.text@));
        },
        _ => {},
    }
}

} // verus!

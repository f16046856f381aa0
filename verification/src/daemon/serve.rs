//! The daemon's accept loop: who is let in, in what order clients follow a
//! change, and how one client's time here goes.

use crate::daemon::clients::{AttachedClients, AttachedModel, ClientsModel};
use crate::daemon::terminals::{arrivals, tried_in, BridgesModel, TerminalBridges};
use vstd::prelude::*;

verus! {

/// Clients that may be attached at once. Each is a person at a terminal, so
/// this is generous for the real case while still bounding a client stuck in a
/// reconnect loop.
pub const MAX_ATTACHED_CLIENTS: usize = 16;

/// Whether one more client may attach. One that may not is dropped rather than
/// answered: writing a refusal would let one stalled client hold up every
/// attach behind it.
pub fn may_attach(clients: &AttachedClients) -> (r: bool)
    ensures
        r == (clients.model().clients.len() < MAX_ATTACHED_CLIENTS),
        r == (clients.model().clients.len() < 16),
{
    clients.len() < MAX_ATTACHED_CLIENTS
}

/// What the connections share.
pub struct Session {
    pub clients: AttachedClients,
    /// Each attached client's terminal subscriptions, oldest client first. Kept
    /// here rather than with the client's connection, because a repository can
    /// appear for reasons that have nothing to do with it.
    pub bridges: Vec<TerminalBridges>,
}

/// One client's subscriptions as plain values.
#[verifier::ext_equal]
pub struct BridgedModel {
    pub client: u64,
    pub bridges: BridgesModel,
}

#[verifier::ext_equal]
pub struct SessionModel {
    pub clients: ClientsModel,
    pub bridged: Seq<BridgedModel>,
}

impl SessionModel {
    /// Nobody is attached, nobody is leaving or waits to be hung up on, no id
    /// was given out, and there are no subscriptions.
    pub open spec fn started() -> SessionModel {
        SessionModel {
            clients: ClientsModel {
                clients: Seq::empty(),
                next_id: 0,
                leaving: Seq::empty(),
                hang_ups: Seq::empty(),
            },
            bridged: Seq::empty(),
        }
    }

    /// The subscriptions stand in the order in which their clients came, and
    /// there is one entry for a client.
    pub open spec fn wf(self) -> bool {
        &&& self.clients.wf()
        &&& clients_ascend(self.bridged, self.clients.next_id)
    }

    /// Whether a client has subscriptions here.
    pub open spec fn is_bridged(self, id: u64) -> bool {
        exists|i: int| 0 <= i < self.bridged.len() && (#[trigger] self.bridged[i]).client == id
    }

    /// One more client is in the set, owed what is open, with no subscriptions
    /// yet.
    pub open spec fn registered(self) -> SessionModel {
        let id = self.clients.next_id;
        SessionModel {
            clients: ClientsModel {
                clients: self.clients.clients.push(
                    AttachedModel { id, queue: Seq::empty(), gone: false, owed_set: true },
                ),
                next_id: (id + 1) as u64,
                ..self.clients
            },
            bridged: self.bridged.push(
                BridgedModel {
                    client: id,
                    bridges: BridgesModel { open: Set::empty(), arrived: false },
                },
            ),
        }
    }

    /// A client's subscriptions are gone.
    pub open spec fn unbridged(self, id: u64) -> SessionModel {
        SessionModel { bridged: self.bridged.filter(|b: BridgedModel| b.client != id), ..self }
    }

    /// A client is out of the set.
    pub open spec fn disconnected(self, id: u64) -> SessionModel {
        SessionModel {
            clients: match self.clients.at(id) {
                Some(i) => self.clients.without(i),
                None => self.clients,
            },
            ..self
        }
    }

    /// Every client followed the set, each with how its subscriptions went.
    pub open spec fn followed(
        self,
        repos: Seq<String>,
        known: Seq<bool>,
        started: Seq<Vec<bool>>,
    ) -> SessionModel {
        SessionModel {
            bridged: Seq::new(
                self.bridged.len(),
                |i: int|
                    BridgedModel {
                        client: self.bridged[i].client,
                        bridges: self.bridged[i].bridges.followed(
                            repos,
                            known,
                            started[i]@,
                            repos.len() as int,
                        ),
                    },
            ),
            ..self
        }
    }
}

proof fn lemma_kept_entries(s: Seq<BridgedModel>, id: u64, i: int)
    requires
        0 <= i < s.filter(|b: BridgedModel| b.client != id).len(),
    ensures
        s.filter(|b: BridgedModel| b.client != id)[i].client != id,
        exists|k: int| 0 <= k < s.len() && s.filter(|b: BridgedModel| b.client != id)[i] == s[k],
    decreases s.len(),
{
    let keep = |b: BridgedModel| b.client != id;
    reveal(Seq::filter);
    if s.len() > 0 {
        let rest = s.drop_last();
        if i < rest.filter(keep).len() {
            lemma_kept_entries(rest, id, i);
            let k = choose|k: int| 0 <= k < rest.len() && rest.filter(keep)[i] == rest[k];
            assert(s.filter(keep)[i] == s[k]);
        } else {
            assert(s.filter(keep)[i] == s[s.len() - 1]);
        }
    }
}

/// Whether the clients ascend and stay below `bound`.
pub open spec fn clients_ascend(s: Seq<BridgedModel>, bound: u64) -> bool {
    &&& forall|i: int| 0 <= i < s.len() ==> (#[trigger] s[i]).client < bound
    &&& forall|i: int, j: int|
        0 <= i < j < s.len() ==> (#[trigger] s[i]).client < (#[trigger] s[j]).client
}

proof fn lemma_kept_order(s: Seq<BridgedModel>, keep: spec_fn(BridgedModel) -> bool, bound: u64)
    requires
        clients_ascend(s, bound),
    ensures
        clients_ascend(s.filter(keep), bound),
    decreases s.len(),
{
    reveal(Seq::filter);
    if s.len() > 0 {
        assert(clients_ascend(s.drop_last(), s.last().client));
        lemma_kept_order(s.drop_last(), keep, s.last().client);
    }
}

impl Session {
    pub open spec fn model(&self) -> SessionModel {
        SessionModel {
            clients: self.clients.model(),
            bridged: self.bridges@.map_values(
                |b: TerminalBridges| BridgedModel { client: b.client, bridges: b.model() },
            ),
        }
    }

    pub open spec fn wf(&self) -> bool {
        &&& self.model().wf()
        &&& forall|i: int| 0 <= i < self.bridges@.len() ==> (#[trigger] self.bridges@[i]).wf()
    }

    pub fn start() -> (r: Session)
        ensures
            r.wf(),
            r.model() == SessionModel::started(),
    {
        let r = Session { clients: AttachedClients::default(), bridges: Vec::new() };
        proof {
            assert(r.model() =~= SessionModel::started());
        }
        r
    }

    /// Put one more client into the set, with its subscriptions, which are none
    /// yet. Its id.
    pub fn register(&mut self) -> (r: u64)
        requires
            old(self).wf(),
            old(self).model().clients.next_id < u64::MAX,
        ensures
            final(self).wf(),
            r == old(self).model().clients.next_id,
            final(self).model() == old(self).model().registered(),
    {
        let ghost before = self.model();
        let id: u64 = self.clients.connect();
        self.bridges.push(TerminalBridges::new(id));
        proof {
            assert(self.model().bridged =~= before.registered().bridged);
            assert(self.model() =~= before.registered());
        }
        id
    }

    /// Drop a client's subscriptions.
    pub fn drop_bridges(&mut self, id: u64)
        requires
            old(self).wf(),
        ensures
            final(self).wf(),
            final(self).model() == old(self).model().unbridged(id),
    {
        let ghost before = self.model();
        let ghost keep = |b: BridgedModel| b.client != id;
        let mut left: Vec<TerminalBridges> = Vec::new();
        left.append(&mut self.bridges);
        let n: usize = left.len();
        let mut done: usize = 0;
        proof {
            reveal(Seq::filter);
            assert(before.bridged.take(0) =~= Seq::<BridgedModel>::empty());
            assert(self.model().bridged =~= Seq::<BridgedModel>::empty());
            assert(left@.len() == before.bridged.len());
            assert forall|k: int| 0 <= k < left@.len() implies (BridgedModel {
                client: (#[trigger] left@[k]).client,
                bridges: left@[k].model(),
            }) == before.bridged[k] && left@[k].wf() by {
                assert(left@[k] == old(self).bridges@[k]);
            }
        }
        while done < n
            invariant
                done <= n,
                n == before.bridged.len(),
                left@.len() == n - done,
                keep == (|b: BridgedModel| b.client != id),
                self.clients == old(self).clients,
                forall|k: int|
                    0 <= k < left@.len() ==> (BridgedModel {
                        client: (#[trigger] left@[k]).client,
                        bridges: left@[k].model(),
                    }) == before.bridged[done + k] && left@[k].wf(),
                forall|k: int| 0 <= k < self.bridges@.len() ==> (#[trigger] self.bridges@[k]).wf(),
                self.model().bridged == before.bridged.take(done as int).filter(keep),
            decreases n - done,
        {
            let ghost rest = left@;
            let ghost kept = self.model().bridged;
            let ghost entry = before.bridged[done as int];
            let one = left.remove(0);
            proof {
                assert(rest[0] == one);
                assert forall|k: int| 0 <= k < left@.len() implies (BridgedModel {
                    client: (#[trigger] left@[k]).client,
                    bridges: left@[k].model(),
                }) == before.bridged[done + 1 + k] && left@[k].wf() by {
                    assert(left@[k] == rest[k + 1]);
                }
                assert(before.bridged.take(done + 1) =~= before.bridged.take(done as int).push(
                    entry,
                ));
                before.bridged.take(done as int).lemma_filter_push(entry, keep);
            }
            if one.client != id {
                self.bridges.push(one);
                proof {
                    assert(self.model().bridged =~= kept.push(entry));
                }
            }
            done += 1;
        }
        proof {
            assert(before.bridged.take(done as int) =~= before.bridged);
            assert(self.model() =~= before.unbridged(id));
            lemma_kept_order(before.bridged, keep, before.clients.next_id);
        }
    }

    /// Take a client out of the set.
    pub fn disconnect(&mut self, id: u64)
        requires
            old(self).wf(),
        ensures
            final(self).wf(),
            final(self).model() == old(self).model().disconnected(id),
    {
        let ghost before = self.model();
        self.clients.disconnect(id);
        proof {
            assert(self.model() =~= before.disconnected(id));
        }
    }

    /// Bring every attached client's subscriptions in line with `repos`, oldest
    /// client first. `started[i]` says how subscriptions of the client at `i`
    /// go. Which subscriptions each client tried, and whether as an arrival.
    ///
    /// Subscribing is what takes a repository's pane sizing, and the newest
    /// connection is given it: with the newest client subscribing last, a
    /// repository that has just appeared is sized by the same client that sizes
    /// all the others.
    pub fn follow_all(
        &mut self,
        repos: &Vec<String>,
        known: &Vec<bool>,
        started: &Vec<Vec<bool>>,
    ) -> (r: Vec<(u64, Vec<(String, bool)>)>)
        requires
            old(self).wf(),
            known@.len() == repos@.len(),
            started@.len() >= old(self).bridges@.len(),
            forall|i: int|
                0 <= i < started@.len() ==> (#[trigger] started@[i])@.len() == repos@.len(),
        ensures
            final(self).wf(),
            final(self).model() == old(self).model().followed(repos@, known@, started@),
            r@.len() == old(self).model().bridged.len(),
            forall|i: int|
                #![trigger r@[i]]
                0 <= i < r@.len() ==> r@[i].0 == old(self).model().bridged[i].client && arrivals(
                    r@[i].1@,
                ) == tried_in(
                    old(self).model().bridged[i].bridges,
                    repos@,
                    known@,
                    started@[i]@,
                    repos@.len() as int,
                ),
            forall|i: int, j: int|
                0 <= i < j < r@.len() ==> (#[trigger] r@[i]).0 < (#[trigger] r@[j]).0,
    {
        let ghost before = self.model();
        let ghost start = self.bridges@;
        let mut tried: Vec<(u64, Vec<(String, bool)>)> = Vec::new();
        let mut i: usize = 0;
        while i < self.bridges.len()
            invariant
                i <= self.bridges@.len(),
                self.bridges@.len() == start.len(),
                start == old(self).bridges@,
                before == old(self).model(),
                self.clients == old(self).clients,
                known@.len() == repos@.len(),
                started@.len() >= start.len(),
                forall|k: int|
                    0 <= k < started@.len() ==> (#[trigger] started@[k])@.len() == repos@.len(),
                forall|k: int| 0 <= k < self.bridges@.len() ==> (#[trigger] self.bridges@[k]).wf(),
                forall|k: int|
                    #![trigger self.bridges@[k]]
                    0 <= k < i ==> self.bridges@[k].client == start[k].client
                        && self.bridges@[k].model() == start[k].model().followed(
                        repos@,
                        known@,
                        started@[k]@,
                        repos@.len() as int,
                    ),
                forall|k: int|
                    i <= k < self.bridges@.len() ==> #[trigger] self.bridges@[k] == start[k],
                tried@.len() == i,
                forall|k: int|
                    #![trigger tried@[k]]
                    0 <= k < i ==> tried@[k].0 == start[k].client && arrivals(tried@[k].1@)
                        == tried_in(
                        start[k].model(),
                        repos@,
                        known@,
                        started@[k]@,
                        repos@.len() as int,
                    ),
            decreases self.bridges.len() - i,
        {
            let ghost list = self.bridges@;
            let mut one = self.bridges.remove(i);
            let client: u64 = one.client;
            let asked = one.follow(repos, known, &started[i]);
            self.bridges.insert(i, one);
            tried.push((client, asked));
            proof {
                assert(self.bridges@ =~= list.update(i as int, self.bridges@[i as int]));
            }
            i += 1;
        }
        proof {
            let now = self.model();
            assert(now.bridged =~= before.followed(repos@, known@, started@).bridged);
            assert(now =~= before.followed(repos@, known@, started@));
            assert forall|k: int| 0 <= k < now.bridged.len() implies (
            #[trigger] now.bridged[k]).client == before.bridged[k].client by {}
            assert forall|k: int| 0 <= k < tried@.len() implies (#[trigger] tried@[k]).0
                == before.bridged[k].client by {}
        }
        tried
    }
}

/// Where one client's time here stands: what is to be done now.
#[derive(Debug, Clone, Copy, PartialEq, Eq, Structural)]
pub enum AttachPhase {
    /// Split the connection for the writer.
    SplitForWriter,
    /// Split it once more, so it can be ended if the client stops draining.
    SplitForHangUp,
    /// Put the client into the set, with its subscriptions.
    Register,
    StartWriter,
    /// Bring the client's subscriptions in line with what is open, by `retain`,
    /// `plan` and `settle` of its bridges, before the set can reach it. The
    /// attachment itself only waits for it.
    Subscribe,
    /// Wake whoever tells clients the set.
    Wake,
    /// Serve its requests until it detaches.
    ReadRequests,
    DropSubscriptions,
    Disconnect,
    /// Wait for the writer.
    JoinWriter,
    Done,
}

/// One client's time here.
#[derive(Debug)]
pub struct Attachment {
    phase: AttachPhase,
    id: u64,
    writing: bool,
}

/// The same as plain values.
#[verifier::ext_equal]
pub struct AttachModel {
    pub phase: AttachPhase,
    /// The client's id, once it is registered.
    pub id: u64,
    /// Whether its writer was started.
    pub writing: bool,
}

impl AttachModel {
    /// What follows, given whether what was to be done succeeded. Before the
    /// client is registered a failure ends its time here; after that nothing
    /// keeps it from being taken out again.
    pub open spec fn stepped(self, session: SessionModel, ok: bool) -> AttachModel {
        match self.phase {
            AttachPhase::SplitForWriter => AttachModel {
                phase: if ok {
                    AttachPhase::SplitForHangUp
                } else {
                    AttachPhase::Done
                },
                ..self
            },
            AttachPhase::SplitForHangUp => AttachModel {
                phase: if ok {
                    AttachPhase::Register
                } else {
                    AttachPhase::Done
                },
                ..self
            },
            AttachPhase::Register => AttachModel {
                phase: AttachPhase::StartWriter,
                id: session.clients.next_id,
                ..self
            },
            AttachPhase::StartWriter => AttachModel {
                phase: AttachPhase::Subscribe,
                writing: ok,
                ..self
            },
            AttachPhase::Subscribe => AttachModel { phase: AttachPhase::Wake, ..self },
            AttachPhase::Wake => AttachModel { phase: AttachPhase::ReadRequests, ..self },
            AttachPhase::ReadRequests => AttachModel {
                phase: AttachPhase::DropSubscriptions,
                ..self
            },
            AttachPhase::DropSubscriptions => AttachModel {
                phase: AttachPhase::Disconnect,
                ..self
            },
            AttachPhase::Disconnect => AttachModel {
                phase: if self.writing {
                    AttachPhase::JoinWriter
                } else {
                    AttachPhase::Done
                },
                ..self
            },
            AttachPhase::JoinWriter => AttachModel { phase: AttachPhase::Done, ..self },
            AttachPhase::Done => self,
        }
    }

    /// What a step does to the session.
    pub open spec fn changes(self, session: SessionModel) -> SessionModel {
        match self.phase {
            AttachPhase::Register => session.registered(),
            AttachPhase::DropSubscriptions => session.unbridged(self.id),
            AttachPhase::Disconnect => session.disconnected(self.id),
            _ => session,
        }
    }
}

/// Serve one client for as long as it stays attached.
pub fn attach() -> (r: Attachment)
    ensures
        r.model() == (AttachModel { phase: AttachPhase::SplitForWriter, id: 0, writing: false }),
{
    Attachment { phase: AttachPhase::SplitForWriter, id: 0, writing: false }
}

impl Attachment {
    pub closed spec fn model(&self) -> AttachModel {
        AttachModel { phase: self.phase, id: self.id, writing: self.writing }
    }

    /// What is to be done now.
    pub fn phase(&self) -> (r: AttachPhase)
        ensures
            r == self.model().phase,
    {
        self.phase
    }

    /// The client's id, once it is registered.
    pub fn id(&self) -> (r: u64)
        ensures
            r == self.model().id,
    {
        self.id
    }

    /// Go on, given whether what was to be done succeeded. Registering the
    /// client and taking it out again are done here.
    pub fn step(&mut self, session: &mut Session, ok: bool)
        requires
            old(session).wf(),
            old(self).model().phase is Register ==> old(session).model().clients.next_id < u64::MAX,
        ensures
            final(session).wf(),
            final(self).model() == old(self).model().stepped(old(session).model(), ok),
            final(session).model() == old(self).model().changes(old(session).model()),
    {
        self.phase = match self.phase {
            AttachPhase::SplitForWriter => if ok {
                AttachPhase::SplitForHangUp
            } else {
                AttachPhase::Done
            },
            AttachPhase::SplitForHangUp => if ok {
                AttachPhase::Register
            } else {
                AttachPhase::Done
            },
            AttachPhase::Register => {
                self.id = session.register();
                AttachPhase::StartWriter
            },
            AttachPhase::StartWriter => {
                self.writing = ok;
                AttachPhase::Subscribe
            },
            AttachPhase::Subscribe => AttachPhase::Wake,
            AttachPhase::Wake => AttachPhase::ReadRequests,
            AttachPhase::ReadRequests => AttachPhase::DropSubscriptions,
            AttachPhase::DropSubscriptions => {
                session.drop_bridges(self.id);
                AttachPhase::Disconnect
            },
            AttachPhase::Disconnect => {
                session.disconnect(self.id);
                if self.writing {
                    AttachPhase::JoinWriter
                } else {
                    AttachPhase::Done
                }
            },
            AttachPhase::JoinWriter => AttachPhase::Done,
            AttachPhase::Done => AttachPhase::Done,
        };
    }
}

/// The phase a client is in, given how each before it went.
pub open spec fn phase_at(outcomes: Seq<bool>, session: SessionModel) -> AttachModel
    decreases outcomes.len(),
{
    if outcomes.len() == 0 {
        AttachModel { phase: AttachPhase::SplitForWriter, id: 0, writing: false }
    } else {
        phase_at(outcomes.drop_last(), session).stepped(session, outcomes.last())
    }
}

/// A client that was registered comes to have its subscriptions dropped and to
/// be disconnected, whatever fails between.
pub proof fn law_registered_clients_are_disconnected(
    outcomes: Seq<bool>,
    later: Seq<bool>,
    session: SessionModel,
)
    requires
        phase_at(outcomes, session).phase == AttachPhase::Register,
        later.len() == 6,
    ensures
        phase_at((outcomes + later).drop_last(), session).phase == AttachPhase::DropSubscriptions,
        phase_at(outcomes + later, session).phase == AttachPhase::Disconnect,
        phase_at(outcomes + later, session).id == session.clients.next_id,
{
    let all = outcomes + later;
    let n = outcomes.len() as int;
    assert(all.take(n) =~= outcomes);
    lemma_phase_step(all, n, session);
    lemma_phase_step(all, n + 1, session);
    lemma_phase_step(all, n + 2, session);
    lemma_phase_step(all, n + 3, session);
    lemma_phase_step(all, n + 4, session);
    lemma_phase_step(all, n + 5, session);
    assert(all.take(n + 6) =~= all);
    assert(all.take(n + 5) =~= all.drop_last());
}

proof fn lemma_phase_step(all: Seq<bool>, n: int, session: SessionModel)
    requires
        0 <= n < all.len(),
    ensures
        phase_at(all.take(n + 1), session) == phase_at(all.take(n), session).stepped(
            session,
            all[n],
        ),
{
    assert(all.take(n + 1).drop_last() =~= all.take(n));
    assert(all.take(n + 1).last() == all[n]);
}

/// A client's time here leaves nothing behind, whatever the other clients did
/// meanwhile: its subscriptions are gone once they were dropped, it is out of
/// the set once it was disconnected, and the subscriptions of the others are
/// untouched.
pub proof fn law_nothing_is_left_of_a_client(
    attachment: AttachModel,
    session: SessionModel,
    other: u64,
)
    requires
        session.wf(),
        other != attachment.id,
    ensures
        attachment.phase is DropSubscriptions ==> !attachment.changes(session).is_bridged(
            attachment.id,
        ),
        attachment.phase is DropSubscriptions && session.is_bridged(other) ==> attachment.changes(
            session,
        ).is_bridged(other),
        attachment.phase is Disconnect ==> attachment.changes(session).clients.at(attachment.id) is None,
{
    let id = attachment.id;
    let keep = |b: BridgedModel| b.client != id;
    if attachment.phase is DropSubscriptions {
        let after = attachment.changes(session);
        assert forall|i: int| 0 <= i < after.bridged.len() implies (
        #[trigger] after.bridged[i]).client != id by {
            lemma_kept_entries(session.bridged, id, i);
        }
        if session.is_bridged(other) {
            let i = choose|i: int|
                0 <= i < session.bridged.len() && (#[trigger] session.bridged[i]).client == other;
            session.bridged.lemma_filter_contains(keep, i);
            let k = choose|k: int|
                0 <= k < after.bridged.len() && after.bridged[k] == session.bridged[i];
            assert(after.bridged[k].client == other);
        }
    }
    if attachment.phase is Disconnect {
        let after = attachment.changes(session).clients;
        if session.clients.at(id) is Some {
            let i = session.clients.at(id)->0;
            assert(session.clients.clients[i].id == id);
            assert forall|k: int| 0 <= k < after.clients.len() implies (
            #[trigger] after.clients[k]).id != id by {
                let j = if k < i {
                    k
                } else {
                    k + 1
                };
                assert(after.clients[k] == session.clients.clients[j]);
            }
        }
    }
}

/// A client that registers is known under the next number, at the end of the
/// list, with nothing queued and the set still owed to it, and with no terminal
/// open. Everyone else stays as they are.
pub proof fn law_registering_adds_one_client(m: SessionModel)
    requires
        m.clients.next_id < u64::MAX,
    ensures
        ({
            let now = m.registered();
            let id = m.clients.next_id;
            &&& now.clients.next_id == id + 1
            &&& now.clients.clients.len() == m.clients.clients.len() + 1
            &&& now.clients.clients.drop_last() == m.clients.clients
            &&& now.clients.clients.last().id == id
            &&& now.clients.clients.last().queue.len() == 0
            &&& !now.clients.clients.last().gone
            &&& now.clients.clients.last().owed_set
            &&& now.clients.leaving == m.clients.leaving
            &&& now.clients.hang_ups == m.clients.hang_ups
            &&& now.bridged.drop_last() == m.bridged
            &&& now.bridged.last().client == id
            &&& now.bridged.last().bridges.open == Set::<Seq<char>>::empty()
            &&& !now.bridged.last().bridges.arrived
        }),
{
    let now = m.registered();
    assert(now.clients.clients.drop_last() =~= m.clients.clients);
    assert(now.bridged.drop_last() =~= m.bridged);
}

/// A client whose subscriptions are dropped loses its own terminals and nobody
/// else does; one that disconnects leaves the list with its queue, and nobody
/// else does.
pub proof fn law_leaving_touches_one_client(m: SessionModel, i: int)
    requires
        m.wf(),
        0 <= i < m.clients.clients.len(),
    ensures
        ({
            let id = m.clients.clients[i].id;
            &&& !m.unbridged(id).is_bridged(id)
            &&& m.unbridged(id).clients == m.clients
            &&& forall|other: u64|
                other != id ==> (#[trigger] m.unbridged(id).is_bridged(other) <==> m.is_bridged(
                    other,
                ))
            &&& m.disconnected(id).bridged == m.bridged
            &&& m.disconnected(id).clients.clients == m.clients.clients.remove(i)
            &&& m.disconnected(id).clients.leaving == m.clients.leaving.push(
                crate::daemon::clients::LeavingModel { id, queue: m.clients.clients[i].queue },
            )
            &&& m.disconnected(id).clients.hang_ups == m.clients.hang_ups
        }),
{
    let id = m.clients.clients[i].id;
    let all = m.clients.clients;
    assert(m.clients.at(id) == Some(i)) by {
        let k = m.clients.at(id)->0;
        assert(all[k].id == id);
        if k < i {
            assert(all[k].id < all[i].id);
        }
        if i < k {
            assert(all[i].id < all[k].id);
        }
    }
    let keep = |b: BridgedModel| b.client != id;
    let kept = m.bridged.filter(keep);
    assert(m.unbridged(id).bridged == kept);
    assert forall|k: int| 0 <= k < kept.len() implies (#[trigger] kept[k]).client != id
        && m.is_bridged(kept[k].client) by {
        m.bridged.lemma_filter_pred(keep, k);
        assert(m.bridged.filter(keep).contains(kept[k]));
        m.bridged.lemma_filter_contains_rev(keep, kept[k]);
        let j = choose|j: int| 0 <= j < m.bridged.len() && m.bridged[j] == kept[k];
        assert(m.bridged[j].client == kept[k].client);
    }
    assert forall|other: u64| other != id implies (#[trigger] m.unbridged(id).is_bridged(other)
        <==> m.is_bridged(other)) by {
        if m.is_bridged(other) {
            let j = choose|j: int| 0 <= j < m.bridged.len() && (#[trigger] m.bridged[j]).client == other;
            m.bridged.lemma_filter_contains(keep, j);
            let k = choose|k: int| 0 <= k < kept.len() && kept[k] == m.bridged[j];
            assert(m.unbridged(id).bridged[k].client == other);
        }
        if m.unbridged(id).is_bridged(other) {
            let k = choose|k: int|
                0 <= k < m.unbridged(id).bridged.len() && (#[trigger] m.unbridged(
                    id,
                ).bridged[k]).client == other;
            assert(kept[k].client == other);
            assert(m.is_bridged(kept[k].client));
        }
    }
}

/// An attachment goes through its phases in one order. Only splitting the
/// connection can end it early; it registers once and, whatever happens after
/// that, drops its subscriptions, disconnects and, if its writer was started,
/// waits for it.
pub proof fn law_attaching_goes_in_order(m: AttachModel, session: SessionModel, ok: bool)
    ensures
        m.phase is SplitForWriter && ok ==> m.stepped(session, ok).phase is SplitForHangUp,
        m.phase is SplitForHangUp && ok ==> m.stepped(session, ok).phase is Register,
        (m.phase is SplitForWriter || m.phase is SplitForHangUp) && !ok ==> m.stepped(
            session,
            ok,
        ).phase is Done,
        m.phase is Register ==> m.stepped(session, ok).phase is StartWriter && m.stepped(
            session,
            ok,
        ).id == session.clients.next_id,
        m.phase is StartWriter ==> m.stepped(session, ok).phase is Subscribe && m.stepped(
            session,
            ok,
        ).writing == ok,
        m.phase is Subscribe ==> m.stepped(session, ok).phase is Wake,
        m.phase is Wake ==> m.stepped(session, ok).phase is ReadRequests,
        m.phase is ReadRequests ==> m.stepped(session, ok).phase is DropSubscriptions,
        m.phase is DropSubscriptions ==> m.stepped(session, ok).phase is Disconnect && m.changes(
            session,
        ) == session.unbridged(m.id),
        m.phase is Disconnect ==> m.changes(session) == session.disconnected(m.id) && (
        m.stepped(session, ok).phase is JoinWriter <==> m.writing) && (m.stepped(
            session,
            ok,
        ).phase is Done <==> !m.writing),
        m.phase is JoinWriter || m.phase is Done ==> m.stepped(session, ok).phase is Done,
        !(m.phase is Register) ==> m.stepped(session, ok).id == m.id,
        !(m.phase is Register || m.phase is DropSubscriptions || m.phase is Disconnect)
            ==> m.changes(session) == session,
        m.phase is Register ==> m.changes(session) == session.registered(),
{
}

} // verus!

//! The set of attached clients, and how a change reaches all of them. The
//! session is shared, so a change one client makes is news for every other:
//! state changes are broadcast rather than returned, and each client gets a
//! queue that its writer drains.
//!
//! Refusals are not broadcast. "No such directory" is an answer to the client
//! that asked and noise to everyone else.
//!
//! Nothing here is ever skipped. These queues carry pane output, and a client
//! that misses one frame of it renders every frame after that from a corrupted
//! stream. So a client that stops keeping up is disconnected.

use crate::daemon::frame::{Frame, FrameView};
use std::collections::VecDeque;
use vstd::prelude::*;

verus! {

/// Frames one client may have queued before it is considered wedged. Reaching
/// the end means the client is not behind but stuck.
pub const CLIENT_QUEUE_DEPTH: usize = 256;

/// One attached client.
pub struct Attached {
    pub id: u64,
    pub queue: VecDeque<Frame>,
    /// Whether the writer that drains the queue has ended.
    pub gone: bool,
    /// Whether this client is still waiting to be told the session's shape.
    /// Set when it attaches, and when it asks for the set outright.
    pub owed_set: bool,
}

#[verifier::ext_equal]
pub struct AttachedModel {
    pub id: u64,
    pub queue: Seq<FrameView>,
    pub gone: bool,
    pub owed_set: bool,
}

/// The frames of a queue as plain values.
pub open spec fn frame_views(frames: Seq<Frame>) -> Seq<FrameView> {
    frames.map_values(|f: Frame| f@)
}

impl Attached {
    pub open spec fn model(&self) -> AttachedModel {
        AttachedModel {
            id: self.id,
            queue: frame_views(self.queue@),
            gone: self.gone,
            owed_set: self.owed_set,
        }
    }
}

impl AttachedModel {
    /// Whether this client can be sent one more frame.
    pub open spec fn takes(self) -> bool {
        !self.gone && self.queue.len() < CLIENT_QUEUE_DEPTH
    }

    /// Whether this client stopped keeping up: its connection is closed.
    pub open spec fn wedged(self) -> bool {
        !self.gone && self.queue.len() >= CLIENT_QUEUE_DEPTH
    }

    pub open spec fn sent(self, frame: FrameView) -> AttachedModel {
        AttachedModel { queue: self.queue.push(frame), ..self }
    }

    pub open spec fn told(self, frame: FrameView) -> AttachedModel {
        AttachedModel { queue: self.queue.push(frame), owed_set: false, ..self }
    }
}

/// A client that left the set with frames its writer has not drained.
pub struct Leaving {
    pub id: u64,
    pub queue: VecDeque<Frame>,
}

#[verifier::ext_equal]
pub struct LeavingModel {
    pub id: u64,
    pub queue: Seq<FrameView>,
}

impl Leaving {
    pub open spec fn model(&self) -> LeavingModel {
        LeavingModel { id: self.id, queue: frame_views(self.queue@) }
    }
}

/// Every client currently attached to the session.
pub struct AttachedClients {
    pub clients: Vec<Attached>,
    pub next_id: u64,
    /// Clients that left; their writers drain what was queued and then end.
    pub leaving: Vec<Leaving>,
    /// Connections to close, of clients that stopped keeping up. Stopping the
    /// writer alone would leave the reader blocked and the client believing it
    /// is attached.
    pub hang_ups: Vec<u64>,
}

#[verifier::ext_equal]
pub struct ClientsModel {
    pub clients: Seq<AttachedModel>,
    pub next_id: u64,
    pub leaving: Seq<LeavingModel>,
    pub hang_ups: Seq<u64>,
}

/// Where the client `id` that left first stands.
pub open spec fn first_left(leaving: Seq<LeavingModel>, id: u64) -> Option<int>
    decreases leaving.len(),
{
    if leaving.len() == 0 {
        None
    } else if leaving[0].id == id {
        Some(0)
    } else {
        match first_left(leaving.skip(1), id) {
            Some(k) => Some(k + 1),
            None => None,
        }
    }
}

impl ClientsModel {
    /// Ids are handed out in order and none is handed out twice, so whoever
    /// left stands once and is not attached.
    pub open spec fn wf(self) -> bool {
        &&& ascending(self.clients, self.next_id)
        &&& apart(self.leaving, self.clients, self.next_id)
    }

    pub open spec fn at(self, id: u64) -> Option<int> {
        if exists|i: int| 0 <= i < self.clients.len() && (#[trigger] self.clients[i]).id == id {
            Some(choose|i: int| 0 <= i < self.clients.len() && (#[trigger] self.clients[i]).id == id)
        } else {
            None
        }
    }

    pub open spec fn broadcasted(self, frame: FrameView) -> ClientsModel {
        ClientsModel {
            clients: self.clients.filter(|c: AttachedModel| c.takes()).map_values(
                |c: AttachedModel| c.told(frame),
            ),
            leaving: self.leaving + self.clients.filter(|c: AttachedModel| !c.takes()).map_values(
                |c: AttachedModel| LeavingModel { id: c.id, queue: c.queue },
            ),
            hang_ups: self.hang_ups + self.clients.filter(
                |c: AttachedModel| c.wedged(),
            ).map_values(|c: AttachedModel| c.id),
            ..self
        }
    }

    /// The client at `i` left the set.
    pub open spec fn without(self, i: int) -> ClientsModel {
        ClientsModel {
            clients: self.clients.remove(i),
            leaving: self.leaving.push(
                LeavingModel { id: self.clients[i].id, queue: self.clients[i].queue },
            ),
            ..self
        }
    }

    pub open spec fn sent_to(self, id: u64, frame: FrameView) -> ClientsModel {
        match self.at(id) {
            None => self,
            Some(i) => if self.clients[i].takes() {
                ClientsModel {
                    clients: self.clients.update(i, self.clients[i].sent(frame)),
                    ..self
                }
            } else {
                ClientsModel {
                    hang_ups: if self.clients[i].wedged() {
                        self.hang_ups.push(id)
                    } else {
                        self.hang_ups
                    },
                    ..self.without(i)
                }
            },
        }
    }

    pub open spec fn owing(self, id: u64) -> ClientsModel {
        match self.at(id) {
            None => self,
            Some(i) => ClientsModel {
                clients: self.clients.update(
                    i,
                    AttachedModel { owed_set: true, ..self.clients[i] },
                ),
                ..self
            },
        }
    }

    /// What the writer of `id` finds: the oldest frame, nothing yet, or
    /// (`None`) that nothing will come.
    pub open spec fn front(self, id: u64) -> Option<Option<FrameView>> {
        match self.at(id) {
            Some(i) => if self.clients[i].queue.len() > 0 {
                Some(Some(self.clients[i].queue[0]))
            } else {
                Some(None)
            },
            None => match first_left(self.leaving, id) {
                Some(k) => if self.leaving[k].queue.len() > 0 {
                    Some(Some(self.leaving[k].queue[0]))
                } else {
                    None
                },
                None => None,
            },
        }
    }

    /// The writer of `id` took what it found.
    pub open spec fn drained(self, id: u64) -> ClientsModel {
        match self.at(id) {
            Some(i) => if self.clients[i].queue.len() > 0 {
                ClientsModel {
                    clients: self.clients.update(
                        i,
                        AttachedModel {
                            queue: self.clients[i].queue.skip(1),
                            ..self.clients[i]
                        },
                    ),
                    ..self
                }
            } else {
                self
            },
            None => match first_left(self.leaving, id) {
                Some(k) => ClientsModel {
                    leaving: if self.leaving[k].queue.len() > 0 {
                        self.leaving.update(
                            k,
                            LeavingModel { queue: self.leaving[k].queue.skip(1), ..self.leaving[k] },
                        )
                    } else {
                        self.leaving.remove(k)
                    },
                    ..self
                },
                None => self,
            },
        }
    }

    /// The ids of the clients that wait to be told the session's shape.
    pub open spec fn owed(self) -> Seq<u64> {
        self.clients.filter(|c: AttachedModel| c.owed_set).map_values(|c: AttachedModel| c.id)
    }

    pub open spec fn settled(self) -> ClientsModel {
        ClientsModel {
            clients: self.clients.map_values(
                |c: AttachedModel| AttachedModel { owed_set: false, ..c },
            ),
            ..self
        }
    }
}

/// What a client's writer finds in its queue.
pub enum Drained {
    /// The oldest frame, taken out.
    Frame(Frame),
    /// Nothing yet.
    Waiting,
    /// Nothing, and nothing will come: the client left.
    Ended,
}

proof fn lemma_filter_step<T>(s: Seq<T>, i: int, p: spec_fn(T) -> bool)
    requires
        0 <= i < s.len(),
    ensures
        s.take(i + 1).filter(p) == if p(s[i]) {
            s.take(i).filter(p).push(s[i])
        } else {
            s.take(i).filter(p)
        },
{
    assert(s.take(i + 1) =~= s.take(i).push(s[i]));
    s.take(i).lemma_filter_push(s[i], p);
}

proof fn lemma_filter_start<T>(s: Seq<T>, p: spec_fn(T) -> bool)
    ensures
        s.take(0).filter(p) == Seq::<T>::empty(),
        s.take(s.len() as int) == s,
{
    reveal(Seq::filter);
    assert(s.take(0) =~= Seq::<T>::empty());
    assert(s.take(s.len() as int) =~= s);
}

/// No clients.
impl Default for AttachedClients {
    fn default() -> (r: AttachedClients)
        ensures
            r.wf(),
            r.model() == (ClientsModel {
                clients: Seq::empty(),
                next_id: 0,
                leaving: Seq::empty(),
                hang_ups: Seq::empty(),
            }),
    {
        let r = AttachedClients {
            clients: Vec::new(),
            next_id: 0,
            leaving: Vec::new(),
            hang_ups: Vec::new(),
        };
        proof {
            assert(r.model().clients =~= Seq::empty());
            assert(r.model().leaving =~= Seq::empty());
        }
        r
    }
}

impl AttachedClients {
    pub open spec fn model(&self) -> ClientsModel {
        ClientsModel {
            clients: self.clients@.map_values(|c: Attached| c.model()),
            next_id: self.next_id,
            leaving: self.leaving@.map_values(|l: Leaving| l.model()),
            hang_ups: self.hang_ups@,
        }
    }

    pub open spec fn wf(&self) -> bool {
        self.model().wf()
    }

    /// Register a client, returning its id. It has nothing on screen yet, so
    /// it is owed the session's shape.
    pub fn connect(&mut self) -> (r: u64)
        requires
            old(self).wf(),
            old(self).next_id < u64::MAX,
        ensures
            final(self).wf(),
            r == old(self).next_id,
            final(self).model() == (ClientsModel {
                clients: old(self).model().clients.push(
                    AttachedModel { id: r, queue: Seq::empty(), gone: false, owed_set: true },
                ),
                next_id: (r + 1) as u64,
                ..old(self).model()
            }),
    {
        let ghost before = self.model();
        let id: u64 = self.next_id;
        self.next_id = id + 1;
        self.clients.push(Attached { id, queue: VecDeque::new(), gone: false, owed_set: true });
        proof {
            let now = self.model();
            let fresh = AttachedModel { id, queue: Seq::empty(), gone: false, owed_set: true };
            assert(self.clients@.last().model() =~= fresh);
            assert(now.clients =~= before.clients.push(fresh));
            assert(now =~= (ClientsModel {
                clients: before.clients.push(fresh),
                next_id: (id + 1) as u64,
                ..before
            }));
            assert forall|k: int, i: int|
                0 <= k < now.leaving.len() && 0 <= i < now.clients.len() implies (
            #[trigger] now.leaving[k]).id != (#[trigger] now.clients[i]).id by {
                assert(now.leaving[k] == before.leaving[k]);
                if i < before.clients.len() {
                    assert(now.clients[i] == before.clients[i]);
                }
            }
        }
        id
    }

    fn position(&self, id: u64) -> (r: Option<usize>)
        requires
            self.wf(),
        ensures
            match r {
                Some(i) => i < self.clients@.len() && self.clients@[i as int].id == id
                    && self.model().at(id) == Some(i as int),
                None => self.model().at(id) is None,
            },
    {
        let mut i: usize = 0;
        while i < self.clients.len()
            invariant
                self.wf(),
                i <= self.clients@.len(),
                forall|k: int| 0 <= k < i ==> (#[trigger] self.clients@[k]).id != id,
            decreases self.clients.len() - i,
        {
            if self.clients[i].id == id {
                proof {
                    let m = self.model();
                    assert(m.clients[i as int].id == id);
                    let j = m.at(id)->0;
                    assert(m.clients[j].id == id);
                    if j != i {
                        assert(m.clients[i as int].id != m.clients[j].id);
                    }
                }
                return Some(i);
            }
            i += 1;
        }
        proof {
            let m = self.model();
            if m.at(id) is Some {
                let j = choose|j: int| 0 <= j < m.clients.len() && (#[trigger] m.clients[j]).id == id;
                assert(self.clients@[j].id == id);
            }
        }
        None
    }

    /// The client at `i` leaves the set; its writer drains what was queued.
    fn let_go(&mut self, i: usize)
        requires
            old(self).wf(),
            i < old(self).clients@.len(),
        ensures
            final(self).wf(),
            final(self).model() == old(self).model().without(i as int),
    {
        let ghost before = self.model();
        let client = self.clients.remove(i);
        let ghost left = LeavingModel { id: client.id, queue: frame_views(client.queue@) };
        self.leaving.push(Leaving { id: client.id, queue: client.queue });
        proof {
            let now = self.model();
            assert(now.clients =~= before.clients.remove(i as int));
            assert(now.leaving =~= before.leaving.push(left));
            assert(now =~= before.without(i as int));
            assert forall|a: int, b: int| 0 <= a < b < now.clients.len() implies (
            #[trigger] now.clients[a]).id < (#[trigger] now.clients[b]).id by {
                let x = if a < i {
                    a
                } else {
                    a + 1
                };
                let y = if b < i {
                    b
                } else {
                    b + 1
                };
                assert(now.clients[a] == before.clients[x]);
                assert(now.clients[b] == before.clients[y]);
            }
            assert forall|a: int| 0 <= a < now.clients.len() implies (
            #[trigger] now.clients[a]).id < now.next_id by {
                let x = if a < i {
                    a
                } else {
                    a + 1
                };
                assert(now.clients[a] == before.clients[x]);
            }
            assert forall|k: int, a: int|
                0 <= k < now.leaving.len() && 0 <= a < now.clients.len() implies (
            #[trigger] now.leaving[k]).id != (#[trigger] now.clients[a]).id by {
                let x = if a < i {
                    a
                } else {
                    a + 1
                };
                assert(now.clients[a] == before.clients[x]);
                if k < before.leaving.len() {
                    assert(now.leaving[k] == before.leaving[k]);
                } else {
                    assert(before.clients[x].id != before.clients[i as int].id);
                }
            }
            assert forall|k: int, l: int| 0 <= k < l < now.leaving.len() implies (
            #[trigger] now.leaving[k]).id != (#[trigger] now.leaving[l]).id by {
                assert(now.leaving[k] == before.leaving[k]);
                if l == before.leaving.len() {
                    assert(before.leaving[k].id != before.clients[i as int].id);
                }
            }
        }
    }

    /// Forget a client. Its writer ends once it has drained what was queued.
    pub fn disconnect(&mut self, id: u64)
        requires
            old(self).wf(),
        ensures
            final(self).wf(),
            final(self).model() == (match old(self).model().at(id) {
                Some(i) => old(self).model().without(i),
                None => old(self).model(),
            }),
    {
        if let Some(i) = self.position(id) {
            self.let_go(i);
        }
    }

    pub fn len(&self) -> (r: usize)
        ensures
            r == self.model().clients.len(),
    {
        self.clients.len()
    }

    /// Send `frame` to every attached client, and count them told: nobody is
    /// left owed a set by a broadcast that just reached them. The two are one
    /// act, because a client that attaches between them would be counted told
    /// of something it never got.
    ///
    /// Never waits: a client whose queue is full is cut off instead, for itself
    /// alone.
    pub fn broadcast(&mut self, frame: &Frame)
        requires
            old(self).wf(),
        ensures
            final(self).wf(),
            final(self).model() == old(self).model().broadcasted(frame@),
    {
        let ghost before = self.model();
        let ghost takes = |c: AttachedModel| c.takes();
        let ghost refuses = |c: AttachedModel| !c.takes();
        let ghost wedged = |c: AttachedModel| c.wedged();
        let mut old_clients: Vec<Attached> = Vec::new();
        old_clients.append(&mut self.clients);
        let n: usize = old_clients.len();
        proof {
            assert(old_clients@.map_values(|c: Attached| c.model()) =~= before.clients);
            assert(old_clients@.len() == before.clients.len());
            lemma_filter_start(before.clients, takes);
            lemma_filter_start(before.clients, refuses);
            lemma_filter_start(before.clients, wedged);
            assert(self.model().clients =~= Seq::empty());
            assert(self.model().leaving =~= before.leaving + Seq::<LeavingModel>::empty());
            assert(self.hang_ups@ =~= before.hang_ups + Seq::<u64>::empty());
            assert(Seq::<AttachedModel>::empty().map_values(|c: AttachedModel| c.told(frame@))
                =~= Seq::empty());
            assert(Seq::<AttachedModel>::empty().map_values(
                |c: AttachedModel| LeavingModel { id: c.id, queue: c.queue },
            ) =~= Seq::empty());
            assert(Seq::<AttachedModel>::empty().map_values(|c: AttachedModel| c.id)
                =~= Seq::empty());
        }
        let mut done: usize = 0;
        while done < n
            invariant
                done <= n,
                n == before.clients.len(),
                old_clients@.len() == n - done,
                takes == (|c: AttachedModel| c.takes()),
                refuses == (|c: AttachedModel| !c.takes()),
                wedged == (|c: AttachedModel| c.wedged()),
                forall|k: int|
                    0 <= k < n - done ==> (#[trigger] old_clients@[k]).model()
                        == before.clients[done + k],
                self.next_id == before.next_id,
                self.model().clients == before.clients.take(done as int).filter(takes).map_values(
                    |c: AttachedModel| c.told(frame@),
                ),
                self.model().leaving == before.leaving + before.clients.take(done as int).filter(
                    refuses,
                ).map_values(|c: AttachedModel| LeavingModel { id: c.id, queue: c.queue }),
                self.hang_ups@ == before.hang_ups + before.clients.take(done as int).filter(
                    wedged,
                ).map_values(|c: AttachedModel| c.id),
            decreases n - done,
        {
            let ghost m = before.clients[done as int];
            let ghost rest = old_clients@;
            let mut client = old_clients.remove(0);
            proof {
                assert(client.model() == m);
                assert forall|k: int| 0 <= k < n - (done + 1) implies (
                #[trigger] old_clients@[k]).model() == before.clients[done + 1 + k] by {
                    assert(old_clients@[k] == rest[k + 1]);
                }
                lemma_filter_step(before.clients, done as int, takes);
                lemma_filter_step(before.clients, done as int, refuses);
                lemma_filter_step(before.clients, done as int, wedged);
                assert(client.queue@.len() == m.queue.len());
            }
            let ghost kept = self.model().clients;
            let ghost left = self.model().leaving;
            let ghost cut = self.hang_ups@;
            let ghost kept_m = before.clients.take(done as int).filter(takes);
            let ghost left_m = before.clients.take(done as int).filter(refuses);
            let ghost cut_m = before.clients.take(done as int).filter(wedged);
            if !client.gone && client.queue.len() < CLIENT_QUEUE_DEPTH {
                client.owed_set = false;
                let copy = frame.duplicate();
                client.queue.push_back(copy);
                proof {
                    assert(client.model().queue =~= m.queue.push(frame@));
                    assert(client.model() =~= m.told(frame@));
                }
                self.clients.push(client);
                proof {
                    assert(self.model().clients =~= kept.push(m.told(frame@)));
                    assert(kept_m.push(m).map_values(|c: AttachedModel| c.told(frame@))
                        =~= kept_m.map_values(|c: AttachedModel| c.told(frame@)).push(
                        m.told(frame@),
                    ));
                }
            } else {
                if !client.gone {
                    self.hang_ups.push(client.id);
                    proof {
                        assert(cut_m.push(m).map_values(|c: AttachedModel| c.id)
                            =~= cut_m.map_values(|c: AttachedModel| c.id).push(m.id));
                        assert(self.hang_ups@ =~= before.hang_ups + cut_m.push(m).map_values(
                            |c: AttachedModel| c.id,
                        ));
                    }
                }
                let ghost gone = LeavingModel { id: m.id, queue: m.queue };
                self.leaving.push(Leaving { id: client.id, queue: client.queue });
                proof {
                    assert(self.model().leaving =~= left.push(gone));
                    assert(left_m.push(m).map_values(
                        |c: AttachedModel| LeavingModel { id: c.id, queue: c.queue },
                    ) =~= left_m.map_values(
                        |c: AttachedModel| LeavingModel { id: c.id, queue: c.queue },
                    ).push(gone));
                    assert(self.model().leaving =~= before.leaving + left_m.push(m).map_values(
                        |c: AttachedModel| LeavingModel { id: c.id, queue: c.queue },
                    ));
                }
            }
            done += 1;
        }
        proof {
            let now = self.model();
            assert(now =~= before.broadcasted(frame@));
            lemma_broadcast_wf(before, frame@);
        }
    }

    /// Note that `id` is waiting to be told the session's shape. Unknown ids
    /// are ignored: the client detached between asking and this.
    pub fn owe_set(&mut self, id: u64)
        requires
            old(self).wf(),
        ensures
            final(self).wf(),
            final(self).model() == old(self).model().owing(id),
    {
        let ghost before = self.model();
        if let Some(i) = self.position(id) {
            self.clients[i].owed_set = true;
            proof {
                let now = self.model();
                assert(now.clients =~= before.owing(id).clients);
                assert(now =~= before.owing(id));
                assert forall|k: int| 0 <= k < now.clients.len() implies (
                #[trigger] now.clients[k]).id == before.clients[k].id by {}
                lemma_same_ids_apart(before.leaving, before.clients, now.clients, before.next_id);
            }
        }
    }

    /// Take the ids waiting to be told the session's shape, clearing them.
    /// Drained rather than read, so a client is owed a set exactly once per
    /// asking.
    pub fn take_owed_sets(&mut self) -> (r: Vec<u64>)
        requires
            old(self).wf(),
        ensures
            final(self).wf(),
            r@ == old(self).model().owed(),
            final(self).model() == old(self).model().settled(),
    {
        let ghost before = self.model();
        let ghost waits = |c: AttachedModel| c.owed_set;
        let mut owed: Vec<u64> = Vec::new();
        let n: usize = self.clients.len();
        let mut i: usize = 0;
        proof {
            lemma_filter_start(before.clients, waits);
            assert(Seq::<AttachedModel>::empty().map_values(|c: AttachedModel| c.id)
                =~= Seq::<u64>::empty());
        }
        while i < n
            invariant
                i <= n,
                n == self.clients@.len(),
                n == before.clients.len(),
                waits == (|c: AttachedModel| c.owed_set),
                owed@ == before.clients.take(i as int).filter(waits).map_values(
                    |c: AttachedModel| c.id,
                ),
                self.next_id == before.next_id,
                self.hang_ups@ == before.hang_ups,
                self.model().leaving == before.leaving,
                forall|k: int|
                    0 <= k < i ==> (#[trigger] self.clients@[k]).model() == (AttachedModel {
                        owed_set: false,
                        ..before.clients[k]
                    }),
                forall|k: int|
                    i <= k < n ==> (#[trigger] self.clients@[k]).model() == before.clients[k],
            decreases n - i,
        {
            let ghost m = before.clients[i as int];
            let ghost known = before.clients.take(i as int).filter(waits);
            proof {
                assert(self.clients@[i as int].model() == m);
                lemma_filter_step(before.clients, i as int, waits);
            }
            if self.clients[i].owed_set {
                owed.push(self.clients[i].id);
                proof {
                    assert(known.push(m).map_values(|c: AttachedModel| c.id) =~= known.map_values(
                        |c: AttachedModel| c.id,
                    ).push(m.id));
                }
                self.clients[i].owed_set = false;
            }
            i += 1;
        }
        proof {
            let now = self.model();
            assert(now.clients =~= before.settled().clients);
            assert(now =~= before.settled());
            assert forall|k: int| 0 <= k < now.clients.len() implies (
            #[trigger] now.clients[k]).id == before.clients[k].id by {}
            lemma_same_ids_apart(before.leaving, before.clients, now.clients, before.next_id);
        }
        owed
    }

    /// Send `frame` to one client, if it is still attached.
    pub fn send_to(&mut self, id: u64, frame: Frame)
        requires
            old(self).wf(),
        ensures
            final(self).wf(),
            final(self).model() == old(self).model().sent_to(id, frame@),
    {
        let ghost before = self.model();
        let i: usize = match self.position(id) {
            Some(i) => i,
            None => {
                return;
            },
        };
        let ghost m = before.clients[i as int];
        proof {
            assert(self.clients@[i as int].queue@.len() == m.queue.len());
        }
        if self.clients[i].gone {
            self.let_go(i);
        } else if self.clients[i].queue.len() >= CLIENT_QUEUE_DEPTH {
            self.let_go(i);
            self.hang_ups.push(id);
        } else {
            let ghost sent = frame@;
            let ghost list = self.clients@;
            self.clients[i].queue.push_back(frame);
            proof {
                let now = self.model();
                assert(self.clients@[i as int].model().queue =~= m.queue.push(sent));
                assert(self.clients@[i as int].model() =~= m.sent(sent));
                assert(now.clients =~= before.clients.update(i as int, m.sent(sent)));
                assert(now =~= before.sent_to(id, sent));
                assert forall|k: int| 0 <= k < now.clients.len() implies (
                #[trigger] now.clients[k]).id == before.clients[k].id by {}
                lemma_same_ids_apart(before.leaving, before.clients, now.clients, before.next_id);
            }
        }
    }

    /// A client's writer ended: its socket broke.
    pub fn writer_ended(&mut self, id: u64)
        requires
            old(self).wf(),
        ensures
            final(self).wf(),
            final(self).model() == (match old(self).model().at(id) {
                Some(i) => ClientsModel {
                    clients: old(self).model().clients.update(
                        i,
                        AttachedModel { gone: true, ..old(self).model().clients[i] },
                    ),
                    ..old(self).model()
                },
                None => old(self).model(),
            }),
    {
        let ghost before = self.model();
        if let Some(i) = self.position(id) {
            self.clients[i].gone = true;
            proof {
                let now = self.model();
                assert(now.clients =~= before.clients.update(
                    i as int,
                    AttachedModel { gone: true, ..before.clients[i as int] },
                ));
                assert forall|k: int| 0 <= k < now.clients.len() implies (
                #[trigger] now.clients[k]).id == before.clients[k].id by {}
                lemma_same_ids_apart(before.leaving, before.clients, now.clients, before.next_id);
            }
        }
    }

    /// The next frame for an attached client's writer.
    pub fn next_frame(&mut self, id: u64) -> (r: Drained)
        requires
            old(self).wf(),
        ensures
            final(self).wf(),
            final(self).model() == old(self).model().drained(id),
            match old(self).model().front(id) {
                Some(Some(frame)) => r matches Drained::Frame(f) && f@ == frame,
                Some(None) => r is Waiting,
                None => r is Ended,
            },
    {
        let ghost before = self.model();
        if let Some(i) = self.position(id) {
            let ghost m = before.clients[i as int];
            proof {
                assert(self.clients@[i as int].model() == m);
                assert(self.clients@[i as int].queue@.len() == m.queue.len());
            }
            if self.clients[i].queue.len() == 0 {
                return Drained::Waiting;
            }
            let frame = self.clients[i].queue.pop_front();
            proof {
                let now = self.model();
                assert(self.clients@[i as int].model().queue =~= m.queue.skip(1));
                assert(self.clients@[i as int].model() =~= (AttachedModel {
                    queue: m.queue.skip(1),
                    ..m
                }));
                assert(now.clients =~= before.clients.update(
                    i as int,
                    AttachedModel { queue: m.queue.skip(1), ..m },
                ));
                assert forall|k: int| 0 <= k < now.clients.len() implies (
                #[trigger] now.clients[k]).id == before.clients[k].id by {}
                lemma_same_ids_apart(before.leaving, before.clients, now.clients, before.next_id);
            }
            return match frame {
                Some(frame) => Drained::Frame(frame),
                None => Drained::Waiting,
            };
        }
        self.next_left(id)
    }

    /// The next frame for the writer of a client that left.
    fn next_left(&mut self, id: u64) -> (r: Drained)
        requires
            old(self).wf(),
            old(self).model().at(id) is None,
        ensures
            final(self).wf(),
            final(self).model() == old(self).model().drained(id),
            match old(self).model().front(id) {
                Some(Some(frame)) => r matches Drained::Frame(f) && f@ == frame,
                Some(None) => r is Waiting,
                None => r is Ended,
            },
    {
        let ghost before = self.model();
        let mut i: usize = 0;
        proof {
            assert(before.leaving.skip(0) =~= before.leaving);
        }
        while i < self.leaving.len()
            invariant
                i <= self.leaving@.len(),
                self.model() == before,
                before == old(self).model(),
                before.wf(),
                before.at(id) is None,
                first_left(before.leaving, id) == (match first_left(
                    before.leaving.skip(i as int),
                    id,
                ) {
                    Some(k) => Some(k + i),
                    None => None,
                }),
            decreases self.leaving.len() - i,
        {
            let ghost m = before.leaving[i as int];
            proof {
                assert(before.leaving.skip(i as int)[0] == m);
                assert(before.leaving.skip(i as int).skip(1) =~= before.leaving.skip(i + 1));
                assert(self.leaving@[i as int].model() == m);
                assert(self.leaving@[i as int].queue@.len() == m.queue.len());
            }
            if self.leaving[i].id == id {
                proof {
                    assert(first_left(before.leaving, id) == Some(i as int));
                }
                if self.leaving[i].queue.len() == 0 {
                    self.leaving.remove(i);
                    proof {
                        assert(self.model().leaving =~= before.leaving.remove(i as int));
                        assert(self.model() =~= before.drained(id));
                        lemma_removed_apart(before, i as int);
                    }
                    return Drained::Ended;
                }
                let frame = self.leaving[i].queue.pop_front();
                proof {
                    assert(self.leaving@[i as int].model().queue =~= m.queue.skip(1));
                    assert(self.leaving@[i as int].model() =~= (LeavingModel {
                        queue: m.queue.skip(1),
                        ..m
                    }));
                    assert(self.model().leaving =~= before.leaving.update(
                        i as int,
                        LeavingModel { queue: m.queue.skip(1), ..m },
                    ));
                    assert(self.model() =~= before.drained(id));
                    let now = self.model();
                    assert forall|k: int| 0 <= k < now.leaving.len() implies (
                    #[trigger] now.leaving[k]).id == before.leaving[k].id by {}
                }
                return match frame {
                    Some(frame) => Drained::Frame(frame),
                    None => Drained::Ended,
                };
            }
            i += 1;
        }
        Drained::Ended
    }

    /// Take the connections to close.
    pub fn take_hang_ups(&mut self) -> (r: Vec<u64>)
        requires
            old(self).wf(),
        ensures
            final(self).wf(),
            r@ == old(self).model().hang_ups,
            final(self).model() == (ClientsModel {
                hang_ups: Seq::empty(),
                ..old(self).model()
            }),
    {
        let mut out: Vec<u64> = Vec::new();
        out.append(&mut self.hang_ups);
        proof {
            assert(out@ =~= old(self).model().hang_ups);
            assert(self.model() =~= (ClientsModel { hang_ups: Seq::empty(), ..old(self).model() }));
        }
        out
    }
}

/// Whether ids ascend and stay below `bound`.
pub open spec fn ascending(s: Seq<AttachedModel>, bound: u64) -> bool {
    &&& forall|i: int| 0 <= i < s.len() ==> (#[trigger] s[i]).id < bound
    &&& forall|i: int, j: int|
        0 <= i < j < s.len() ==> (#[trigger] s[i]).id < (#[trigger] s[j]).id
}

/// Whether those that left have ids below `bound`, each its own and none that of
/// an attached client.
pub open spec fn apart(leaving: Seq<LeavingModel>, clients: Seq<AttachedModel>, bound: u64) -> bool {
    &&& forall|k: int| 0 <= k < leaving.len() ==> (#[trigger] leaving[k]).id < bound
    &&& forall|k: int, l: int|
        0 <= k < l < leaving.len() ==> (#[trigger] leaving[k]).id != (#[trigger] leaving[l]).id
    &&& forall|k: int, i: int|
        0 <= k < leaving.len() && 0 <= i < clients.len() ==> (#[trigger] leaving[k]).id != (
        #[trigger] clients[i]).id
}

proof fn lemma_same_ids_apart(
    leaving: Seq<LeavingModel>,
    clients: Seq<AttachedModel>,
    changed: Seq<AttachedModel>,
    bound: u64,
)
    requires
        ascending(clients, bound),
        apart(leaving, clients, bound),
        changed.len() == clients.len(),
        forall|i: int| 0 <= i < clients.len() ==> (#[trigger] changed[i]).id == clients[i].id,
    ensures
        ascending(changed, bound),
        apart(leaving, changed, bound),
{
    assert forall|k: int, i: int| 0 <= k < leaving.len() && 0 <= i < changed.len() implies (
    #[trigger] leaving[k]).id != (#[trigger] changed[i]).id by {
        assert(leaving[k].id != clients[i].id);
    }
}

proof fn lemma_filter_ascending(s: Seq<AttachedModel>, p: spec_fn(AttachedModel) -> bool, bound: u64)
    requires
        ascending(s, bound),
    ensures
        ascending(s.filter(p), bound),
    decreases s.len(),
{
    reveal(Seq::filter);
    if s.len() > 0 {
        assert(ascending(s.drop_last(), s.last().id));
        lemma_filter_ascending(s.drop_last(), p, s.last().id);
    }
}

proof fn lemma_removed_apart(m: ClientsModel, at: int)
    requires
        m.wf(),
        0 <= at < m.leaving.len(),
    ensures
        apart(m.leaving.remove(at), m.clients, m.next_id),
{
    let now = m.leaving.remove(at);
    assert forall|k: int| 0 <= k < now.len() implies (#[trigger] now[k]) == m.leaving[if k < at {
        k
    } else {
        k + 1
    }] by {}
}

proof fn lemma_broadcast_wf(m: ClientsModel, frame: FrameView)
    requires
        m.wf(),
    ensures
        m.broadcasted(frame).wf(),
{
    let kept = m.clients.filter(|c: AttachedModel| c.takes());
    lemma_filter_ascending(m.clients, |c: AttachedModel| c.takes(), m.next_id);
    let after = m.broadcasted(frame);
    assert forall|i: int| 0 <= i < after.clients.len() implies (#[trigger] after.clients[i]).id
        == kept[i].id by {}
    let takes = |c: AttachedModel| c.takes();
    let refuses = |c: AttachedModel| !c.takes();
    let cut = m.clients.filter(refuses);
    lemma_filter_ascending(m.clients, refuses, m.next_id);
    let n = m.leaving.len() as int;
    assert forall|k: int| 0 <= k < after.leaving.len() implies (#[trigger] after.leaving[k]).id
        == if k < n {
        m.leaving[k].id
    } else {
        cut[k - n].id
    } by {}
    assert forall|k: int, l: int| 0 <= k < l < after.leaving.len() implies (
    #[trigger] after.leaving[k]).id != (#[trigger] after.leaving[l]).id by {
        if k < n && l >= n {
            lemma_filter_from(m.clients, refuses, l - n);
            let y = choose|y: int| 0 <= y < m.clients.len() && m.clients[y] == cut[l - n];
            assert(m.leaving[k].id != m.clients[y].id);
        }
    }
    assert forall|k: int, i: int|
        0 <= k < after.leaving.len() && 0 <= i < after.clients.len() implies (
    #[trigger] after.leaving[k]).id != (#[trigger] after.clients[i]).id by {
        lemma_filter_from(m.clients, takes, i);
        m.clients.lemma_filter_pred(takes, i);
        let x = choose|x: int| 0 <= x < m.clients.len() && m.clients[x] == kept[i];
        if k < n {
            assert(m.leaving[k].id != m.clients[x].id);
        } else {
            lemma_filter_from(m.clients, refuses, k - n);
            m.clients.lemma_filter_pred(refuses, k - n);
            let y = choose|y: int| 0 <= y < m.clients.len() && m.clients[y] == cut[k - n];
            assert(x != y);
            assert(m.clients[x].id != m.clients[y].id);
        }
    }
}

proof fn lemma_first_left(leaving: Seq<LeavingModel>, k: int)
    requires
        0 <= k < leaving.len(),
        forall|a: int, b: int|
            0 <= a < b < leaving.len() ==> (#[trigger] leaving[a]).id != (#[trigger] leaving[b]).id,
    ensures
        first_left(leaving, leaving[k].id) == Some(k),
    decreases leaving.len(),
{
    if k > 0 {
        let rest = leaving.skip(1);
        assert(leaving[0].id != leaving[k].id);
        assert(rest[k - 1] == leaving[k]);
        assert forall|a: int, b: int| 0 <= a < b < rest.len() implies (#[trigger] rest[a]).id != (
        #[trigger] rest[b]).id by {
            assert(leaving[a + 1].id != leaving[b + 1].id);
        }
        lemma_first_left(rest, k - 1);
    }
}

/// Whoever left is sent what was queued for it and nothing else: its writer
/// takes its own frames, oldest first, ends with the last of them, and leaves
/// everybody else's alone.
pub proof fn law_a_departed_client_drains_its_own_queue(m: ClientsModel, k: int)
    requires
        m.wf(),
        0 <= k < m.leaving.len(),
    ensures
        m.front(m.leaving[k].id) == if m.leaving[k].queue.len() > 0 {
            Some(Some(m.leaving[k].queue[0]))
        } else {
            None
        },
        m.drained(m.leaving[k].id) == (ClientsModel {
            leaving: if m.leaving[k].queue.len() > 0 {
                m.leaving.update(
                    k,
                    LeavingModel { queue: m.leaving[k].queue.skip(1), ..m.leaving[k] },
                )
            } else {
                m.leaving.remove(k)
            },
            ..m
        }),
{
    let id = m.leaving[k].id;
    lemma_first_left(m.leaving, k);
    assert(m.at(id) is None) by {
        if exists|i: int| 0 <= i < m.clients.len() && (#[trigger] m.clients[i]).id == id {
            let i = choose|i: int| 0 <= i < m.clients.len() && (#[trigger] m.clients[i]).id == id;
            assert(m.leaving[k].id != m.clients[i].id);
        }
    }
}

/// Leaving loses nothing: what a client's writer would have taken next it still
/// takes next once the client left.
pub proof fn law_leaving_keeps_the_queue(m: ClientsModel, i: int)
    requires
        m.wf(),
        0 <= i < m.clients.len(),
        m.clients[i].queue.len() > 0,
    ensures
        m.without(i).front(m.clients[i].id) == Some(Some(m.clients[i].queue[0])),
{
    let id = m.clients[i].id;
    let after = m.without(i);
    let n = m.leaving.len() as int;
    assert forall|a: int, b: int| 0 <= a < b < after.leaving.len() implies (
    #[trigger] after.leaving[a]).id != (#[trigger] after.leaving[b]).id by {
        assert(after.leaving[a] == m.leaving[a]);
        if b == n {
            assert(m.leaving[a].id != m.clients[i].id);
        }
    }
    assert(after.leaving[n].id == id);
    lemma_first_left(after.leaving, n);
    assert(after.at(id) is None) by {
        if exists|j: int| 0 <= j < after.clients.len() && (#[trigger] after.clients[j]).id == id {
            let j = choose|j: int|
                0 <= j < after.clients.len() && (#[trigger] after.clients[j]).id == id;
            let x = if j < i {
                j
            } else {
                j + 1
            };
            assert(after.clients[j] == m.clients[x]);
            assert(m.clients[x].id != m.clients[i].id);
        }
    }
}

/// A broadcast reaches every client that stays, as the last thing in its
/// queue, and leaves nobody owed a set.
pub proof fn law_broadcast_reaches_everyone(m: ClientsModel, frame: FrameView, i: int)
    requires
        0 <= i < m.broadcasted(frame).clients.len(),
    ensures
        m.broadcasted(frame).clients[i].queue.last() == frame,
        !m.broadcasted(frame).clients[i].owed_set,
        m.broadcasted(frame).owed().len() == 0,
{
    let after = m.broadcasted(frame);
    let waits = |c: AttachedModel| c.owed_set;
    assert forall|k: int| 0 <= k < after.clients.len() implies !waits(
        #[trigger] after.clients[k],
    ) by {}
    lemma_none_left(after.clients, waits);
}

proof fn lemma_none_left(s: Seq<AttachedModel>, p: spec_fn(AttachedModel) -> bool)
    requires
        forall|i: int| 0 <= i < s.len() ==> !p(#[trigger] s[i]),
    ensures
        s.filter(p).len() == 0,
    decreases s.len(),
{
    reveal(Seq::filter);
    if s.len() > 0 {
        lemma_none_left(s.drop_last(), p);
    }
}

/// Nothing is ever skipped: a client that a broadcast does not reach is no
/// longer in the set. Whoever was there and could take the frame still is.
pub proof fn law_nobody_is_skipped(m: ClientsModel, frame: FrameView, i: int)
    requires
        m.wf(),
        0 <= i < m.clients.len(),
    ensures
        m.broadcasted(frame).at(m.clients[i].id) is Some <==> m.clients[i].takes(),
{
    let after = m.broadcasted(frame);
    let takes = |c: AttachedModel| c.takes();
    let kept = m.clients.filter(takes);
    let id = m.clients[i].id;
    lemma_broadcast_wf(m, frame);
    if takes(m.clients[i]) {
        m.clients.lemma_filter_contains(takes, i);
        let k = choose|k: int| 0 <= k < kept.len() && kept[k] == m.clients[i];
        assert(after.clients[k].id == id);
    }
    if after.at(id) is Some {
        let k = choose|k: int| 0 <= k < after.clients.len() && (#[trigger] after.clients[k]).id == id;
        assert(kept[k].id == id);
        m.clients.lemma_filter_pred(takes, k);
        lemma_filter_from(m.clients, takes, k);
        let j = choose|j: int| 0 <= j < m.clients.len() && m.clients[j] == kept[k];
        assert(m.clients[j].id == id);
        if j != i {
            assert(m.clients[j].id != m.clients[i].id);
        }
    }
}

proof fn lemma_filter_from(s: Seq<AttachedModel>, p: spec_fn(AttachedModel) -> bool, k: int)
    requires
        0 <= k < s.filter(p).len(),
    ensures
        s.contains(s.filter(p)[k]),
    decreases s.len(),
{
    reveal(Seq::filter);
    if s.len() > 0 {
        if k < s.drop_last().filter(p).len() {
            lemma_filter_from(s.drop_last(), p, k);
            let j = choose|j: int|
                0 <= j < s.drop_last().len() && s.drop_last()[j] == s.drop_last().filter(p)[k];
            assert(s[j] == s.filter(p)[k]);
        } else {
            assert(s.filter(p)[k] == s.last());
            assert(s[s.len() - 1] == s.last());
        }
    }
}

/// A client is owed a set exactly once per asking: taking the list twice
/// gives nothing the second time.
pub proof fn law_owed_sets_are_taken_once(m: ClientsModel)
    ensures
        m.settled().owed().len() == 0,
{
    let after = m.settled();
    let waits = |c: AttachedModel| c.owed_set;
    assert forall|k: int| 0 <= k < after.clients.len() implies !waits(
        #[trigger] after.clients[k],
    ) by {}
    lemma_none_left(after.clients, waits);
}

/// Frames reach a client in the order they were sent: what is sent goes
/// behind everything queued, and what is drained comes from the front.
pub proof fn law_frames_keep_their_order(m: ClientsModel, id: u64, frame: FrameView)
    requires
        m.wf(),
        m.at(id) matches Some(i) && m.clients[i].takes() && m.clients[i].queue.len() > 0,
    ensures
        m.sent_to(id, frame).front(id) == m.front(id),
{
    let i = m.at(id)->0;
    let after = m.sent_to(id, frame);
    assert(after.clients[i].id == id);
    let k = after.at(id)->0;
    assert(after.clients[k].id == id);
    if k != i {
        assert(after.clients[k].id == m.clients[k].id);
        assert(m.clients[k].id != m.clients[i].id);
    }
}

/// A refusal or an answer goes to the one who asked and to no one else.
pub proof fn law_answers_reach_one_client(m: ClientsModel, id: u64, frame: FrameView, i: int)
    requires
        m.wf(),
        0 <= i < m.clients.len(),
        m.clients[i].id != id,
        m.at(id) matches Some(j) && m.clients[j].takes(),
    ensures
        m.sent_to(id, frame).clients[i] == m.clients[i],
{
    let j = m.at(id)->0;
    assert(m.clients[j].id == id);
}

/// A frame that is sent to a client goes behind what is queued for it, as long
/// as fewer than two hundred and fifty-six frames wait there and the client has
/// not gone; everything else of it stays. A client with no more room is dropped
/// and hung up on, one that has gone is dropped; what was queued is kept until
/// it is drained. No other client is touched.
pub proof fn law_sending_queues_or_drops(m: ClientsModel, i: int, frame: FrameView)
    requires
        m.wf(),
        0 <= i < m.clients.len(),
    ensures
        ({
            let id = m.clients[i].id;
            let now = m.sent_to(id, frame);
            let queue = m.clients[i].queue;
            &&& !m.clients[i].gone && queue.len() < 256 ==> {
                &&& now.clients == m.clients.update(
                    i,
                    AttachedModel { queue: queue.push(frame), ..m.clients[i] },
                )
                &&& now.leaving == m.leaving
                &&& now.hang_ups == m.hang_ups
            }
            &&& m.clients[i].gone || queue.len() >= 256 ==> {
                &&& now.clients == m.clients.remove(i)
                &&& now.leaving == m.leaving.push(LeavingModel { id, queue })
                &&& now.hang_ups == if m.clients[i].gone {
                    m.hang_ups
                } else {
                    m.hang_ups.push(id)
                }
            }
            &&& now.next_id == m.next_id
        }),
{
    let id = m.clients[i].id;
    assert(m.at(id) == Some(i)) by {
        let k = m.at(id)->0;
        assert(m.clients[k].id == id);
        if k < i {
            assert(m.clients[k].id < m.clients[i].id);
        }
        if i < k {
            assert(m.clients[i].id < m.clients[k].id);
        }
    }
}

/// A frame that is sent to nobody known changes nothing.
pub proof fn law_sending_to_nobody_does_nothing(m: ClientsModel, id: u64, frame: FrameView)
    requires
        forall|i: int| 0 <= i < m.clients.len() ==> (#[trigger] m.clients[i]).id != id,
    ensures
        m.sent_to(id, frame) == m,
        m.owing(id) == m,
{
}

/// A broadcast queues the frame for every client that has not gone and for
/// which fewer than two hundred and fifty-six frames wait, in the order they
/// are in; with it they have the set. The others are dropped with what was
/// queued for them, and those among them that have not gone are hung up on.
pub proof fn law_broadcasts_queue_or_drop(m: ClientsModel, frame: FrameView)
    ensures
        ({
            let now = m.broadcasted(frame);
            let stays = |c: AttachedModel| !c.gone && c.queue.len() < 256;
            let goes = |c: AttachedModel| c.gone || c.queue.len() >= 256;
            let full = |c: AttachedModel| !c.gone && c.queue.len() >= 256;
            &&& now.clients.len() == m.clients.filter(stays).len()
            &&& forall|k: int|
                0 <= k < now.clients.len() ==> #[trigger] now.clients[k] == (AttachedModel {
                    id: m.clients.filter(stays)[k].id,
                    queue: m.clients.filter(stays)[k].queue.push(frame),
                    gone: false,
                    owed_set: false,
                })
            &&& now.leaving.len() == m.leaving.len() + m.clients.filter(goes).len()
            &&& forall|k: int|
                0 <= k < m.leaving.len() ==> #[trigger] now.leaving[k] == m.leaving[k]
            &&& forall|k: int|
                0 <= k < m.clients.filter(goes).len() ==> #[trigger] now.leaving[m.leaving.len()
                    + k] == (LeavingModel {
                    id: m.clients.filter(goes)[k].id,
                    queue: m.clients.filter(goes)[k].queue,
                })
            &&& now.hang_ups == m.hang_ups + m.clients.filter(full).map_values(
                |c: AttachedModel| c.id,
            )
            &&& now.next_id == m.next_id
        }),
{
    let now = m.broadcasted(frame);
    let stays = |c: AttachedModel| !c.gone && c.queue.len() < 256;
    let goes = |c: AttachedModel| c.gone || c.queue.len() >= 256;
    let full = |c: AttachedModel| !c.gone && c.queue.len() >= 256;
    assert(stays =~= |c: AttachedModel| c.takes());
    assert(goes =~= |c: AttachedModel| !c.takes());
    assert(full =~= |c: AttachedModel| c.wedged());
    assert forall|k: int| 0 <= k < now.clients.len() implies #[trigger] now.clients[k] == (
    AttachedModel {
        id: m.clients.filter(stays)[k].id,
        queue: m.clients.filter(stays)[k].queue.push(frame),
        gone: false,
        owed_set: false,
    }) by {
        m.clients.lemma_filter_pred(stays, k);
    }
}

/// Draining hands out the oldest frame that waits for a client and takes that
/// one away; an empty queue is waited on while the client is there.
pub proof fn law_draining_takes_the_oldest(m: ClientsModel, i: int)
    requires
        m.wf(),
        0 <= i < m.clients.len(),
    ensures
        ({
            let id = m.clients[i].id;
            let queue = m.clients[i].queue;
            &&& queue.len() > 0 ==> m.front(id) == Some(Some(queue[0])) && m.drained(id)
                == (ClientsModel {
                clients: m.clients.update(
                    i,
                    AttachedModel { queue: queue.skip(1), ..m.clients[i] },
                ),
                ..m
            })
            &&& queue.len() == 0 ==> m.front(id) == Some(None::<FrameView>) && m.drained(id) == m
        }),
{
    let id = m.clients[i].id;
    assert(m.at(id) == Some(i)) by {
        let k = m.at(id)->0;
        assert(m.clients[k].id == id);
        if k < i {
            assert(m.clients[k].id < m.clients[i].id);
        }
        if i < k {
            assert(m.clients[i].id < m.clients[k].id);
        }
    }
}

/// A client is owed the set from when that was noted until the sets are taken
/// or a broadcast brings one: who is owed is listed, in order, and taking the
/// list changes nothing else.
pub proof fn law_owed_sets_are_those_noted(m: ClientsModel, i: int)
    requires
        m.wf(),
        0 <= i < m.clients.len(),
    ensures
        m.owed().contains(m.clients[i].id) <==> m.clients[i].owed_set,
        m.owing(m.clients[i].id) == (ClientsModel {
            clients: m.clients.update(i, AttachedModel { owed_set: true, ..m.clients[i] }),
            ..m
        }),
        m.settled().clients.len() == m.clients.len(),
        m.settled().clients[i] == (AttachedModel { owed_set: false, ..m.clients[i] }),
        m.settled().leaving == m.leaving,
        m.settled().hang_ups == m.hang_ups,
{
    let id = m.clients[i].id;
    let waits = |c: AttachedModel| c.owed_set;
    let owed = m.clients.filter(waits);
    assert(m.at(id) == Some(i)) by {
        let k = m.at(id)->0;
        assert(m.clients[k].id == id);
        if k < i {
            assert(m.clients[k].id < m.clients[i].id);
        }
        if i < k {
            assert(m.clients[i].id < m.clients[k].id);
        }
    }
    if m.clients[i].owed_set {
        m.clients.lemma_filter_contains(waits, i);
        let k = choose|k: int| 0 <= k < owed.len() && owed[k] == m.clients[i];
        assert(m.owed()[k] == id);
    }
    if m.owed().contains(id) {
        let k = choose|k: int| 0 <= k < m.owed().len() && m.owed()[k] == id;
        assert(owed[k].id == id);
        m.clients.lemma_filter_pred(waits, k);
        lemma_filter_from(m.clients, waits, k);
        let j = choose|j: int| 0 <= j < m.clients.len() && m.clients[j] == owed[k];
        if j < i {
            assert(m.clients[j].id < m.clients[i].id);
        }
        if i < j {
            assert(m.clients[i].id < m.clients[j].id);
        }
    }
}

} // verus!

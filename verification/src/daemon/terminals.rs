//! Wiring one attached client to every open repository's terminals. An
//! attaching client subscribes to all of them at once, because it renders a
//! tab per repository and a pane whose output it stopped reading would fall
//! behind its own scrollback.

use crate::backend::PaneId;
use crate::daemon::frame::{Frame, FrameKind, FrameView};
use crate::daemon::protocol::{rewrite_requester, rewritten, ServerMessage, TerminalEvent};
use crate::textmap::{contains_text, has_text, TextSet};
use vstd::prelude::*;

verus! {

/// One client's subscriptions, one per open repository.
pub struct TerminalBridges {
    pub client: u64,
    /// The repositories this client is subscribed to.
    pub open: TextSet,
    /// Whether this client's first subscription has been made. Attaching is a
    /// person sitting down, and that is the one moment this client takes the
    /// session's sizing. Every subscription after it follows a set that
    /// changed.
    pub arrived: bool,
}

#[verifier::ext_equal]
pub struct BridgesModel {
    pub open: Set<Seq<char>>,
    pub arrived: bool,
}

impl BridgesModel {
    /// Whether a repository of the set gets a new subscription.
    pub open spec fn wants(self, repo: Seq<char>, known: bool) -> bool {
        !self.open.contains(repo) && known
    }

    /// A subscription was tried. One that failed is left out, and the arrival
    /// left unspent, so the next set tries again.
    pub open spec fn tried(self, repo: Seq<char>, started: bool) -> BridgesModel {
        if started {
            BridgesModel { open: self.open.insert(repo), arrived: true }
        } else {
            self
        }
    }

    /// The repositories that are not in the set were dropped.
    pub open spec fn kept(self, repos: Seq<String>) -> BridgesModel {
        BridgesModel { open: self.open.filter(|r: Seq<char>| has_text(repos, r)), ..self }
    }

    /// The first `n` repositories of the set were gone through. `known` says
    /// which of them the catalog has, `started` how a subscription went.
    pub open spec fn followed(
        self,
        repos: Seq<String>,
        known: Seq<bool>,
        started: Seq<bool>,
        n: int,
    ) -> BridgesModel
        decreases n,
    {
        if n <= 0 {
            self.kept(repos)
        } else {
            let before = self.followed(repos, known, started, n - 1);
            if before.wants(repos[n - 1]@, known[n - 1]) {
                before.tried(repos[n - 1]@, started[n - 1])
            } else {
                before
            }
        }
    }
}

impl TerminalBridges {
    pub open spec fn model(&self) -> BridgesModel {
        BridgesModel { open: self.open@, arrived: self.arrived }
    }

    pub open spec fn wf(&self) -> bool {
        self.open.wf()
    }

    pub fn new(client: u64) -> (r: TerminalBridges)
        ensures
            r.wf(),
            r.client == client,
            r.model() == (BridgesModel { open: Set::empty(), arrived: false }),
    {
        TerminalBridges { client, open: TextSet::new(), arrived: false }
    }

    /// Drop the subscriptions to repositories that went; which ones.
    pub fn retain(&mut self, repos: &Vec<String>) -> (r: Vec<String>)
        requires
            old(self).wf(),
        ensures
            final(self).wf(),
            final(self).client == old(self).client,
            final(self).model() == old(self).model().kept(repos@),
            forall|repo: Seq<char>|
                has_text(r@, repo) <==> #[trigger] old(self).open@.contains(repo) && !has_text(
                    repos@,
                    repo,
                ),
    {
        let ghost before = self.open.items@;
        let ghost start = self.open@;
        let mut dropped: Vec<String> = Vec::new();
        let mut kept = TextSet::new();
        let mut i: usize = 0;
        while i < self.open.items.len()
            invariant
                *self == *old(self),
                self.wf(),
                before == self.open.items@,
                start == self.open@,
                i <= before.len(),
                kept.wf(),
                forall|repo: Seq<char>| #[trigger]
                    kept@.contains(repo) <==> has_text(before.take(i as int), repo) && has_text(
                        repos@,
                        repo,
                    ),
                forall|repo: Seq<char>| #[trigger]
                    has_text(dropped@, repo) <==> has_text(before.take(i as int), repo) && !has_text(
                        repos@,
                        repo,
                    ),
            decreases self.open.items.len() - i,
        {
            let ghost name = before[i as int]@;
            let ghost earlier = kept@;
            let ghost gone = dropped@;
            proof {
                assert forall|repo: Seq<char>| #[trigger]
                    has_text(before.take(i + 1), repo) <==> has_text(before.take(i as int), repo)
                        || repo == name by {
                    lemma_has_text_step(before, i as int, repo);
                }
            }
            if contains_text(repos.as_slice(), self.open.items[i].as_str()) {
                kept.insert(self.open.items[i].clone());
            } else {
                dropped.push(self.open.items[i].clone());
                proof {
                    assert forall|repo: Seq<char>| #[trigger]
                        has_text(dropped@, repo) <==> has_text(gone, repo) || repo == name by {
                        lemma_has_text_push(gone, dropped@.last(), repo);
                        assert(dropped@ =~= gone.push(dropped@.last()));
                    }
                }
            }
            i += 1;
        }
        proof {
            assert(before.take(i as int) =~= before);
            assert(kept@ =~= self.model().kept(repos@).open);
        }
        self.open = kept;
        dropped
    }

    /// Whether to subscribe to `repo`, which the catalog has or has not, and if
    /// so whether that subscription is this client's arrival.
    pub fn plan(&self, repo: &str, known: bool) -> (r: Option<bool>)
        ensures
            r is Some <==> self.model().wants(repo@, known),
            r matches Some(arriving) ==> arriving == !self.arrived,
    {
        if self.open.contains(repo) || !known {
            None
        } else {
            Some(!self.arrived)
        }
    }

    /// What a subscription comes to, given whether its relay could be started:
    /// whether to connect, and then whether as an arrival.
    ///
    /// The relay comes first. Connecting takes part in the session's sizing, and
    /// on an arrival takes it from whoever had it; with no relay nobody would
    /// read what it subscribed to.
    pub fn subscribe(&self, arriving: bool, relay_started: bool) -> (r: Option<bool>)
        ensures
            r == if relay_started {
                Some(arriving)
            } else {
                None::<bool>
            },
    {
        if relay_started {
            Some(arriving)
        } else {
            None
        }
    }

    /// A subscription was tried.
    pub fn settle(&mut self, repo: &str, started: bool)
        requires
            old(self).wf(),
        ensures
            final(self).wf(),
            final(self).client == old(self).client,
            final(self).model() == old(self).model().tried(repo@, started),
    {
        if started {
            self.open.insert(repo.to_owned());
            self.arrived = true;
        }
    }

    /// Subscribe to repositories that appeared and drop the ones that went.
    /// `known` says which the catalog has, and `started` how a subscription to
    /// each goes if it is tried. Which were tried, each with whether it was
    /// this client's arrival.
    pub fn follow(&mut self, repos: &Vec<String>, known: &Vec<bool>, started: &Vec<bool>) -> (r: Vec<
        (String, bool),
    >)
        requires
            old(self).wf(),
            known@.len() == repos@.len(),
            started@.len() == repos@.len(),
        ensures
            final(self).wf(),
            final(self).client == old(self).client,
            final(self).model() == old(self).model().followed(
                repos@,
                known@,
                started@,
                repos@.len() as int,
            ),
            arrivals(r@) == tried_in(
                old(self).model(),
                repos@,
                known@,
                started@,
                repos@.len() as int,
            ),
    {
        let ghost start = self.model();
        self.retain(repos);
        let mut tried: Vec<(String, bool)> = Vec::new();
        let mut i: usize = 0;
        proof {
            assert(arrivals(tried@) =~= Seq::<(Seq<char>, bool)>::empty());
        }
        while i < repos.len()
            invariant
                i <= repos@.len(),
                known@.len() == repos@.len(),
                started@.len() == repos@.len(),
                self.wf(),
                self.client == old(self).client,
                self.model() == start.followed(repos@, known@, started@, i as int),
                arrivals(tried@) == tried_in(start, repos@, known@, started@, i as int),
            decreases repos.len() - i,
        {
            if let Some(arriving) = self.plan(repos[i].as_str(), known[i]) {
                let ghost before = arrivals(tried@);
                tried.push((repos[i].clone(), arriving));
                proof {
                    assert(arrivals(tried@) =~= before.push((repos@[i as int]@, arriving)));
                }
                self.settle(repos[i].as_str(), started[i]);
            }
            i += 1;
        }
        tried
    }

    /// Whether a request goes to one repository's terminals. Unknown ids are
    /// dropped: the client may be a beat behind a close on another client.
    pub fn dispatch(&self, repo: &str) -> (r: bool)
        ensures
            r == self.open@.contains(repo@),
    {
        self.open.contains(repo)
    }
}

/// The tried subscriptions as plain values.
pub open spec fn arrivals(tried: Seq<(String, bool)>) -> Seq<(Seq<char>, bool)> {
    tried.map_values(|t: (String, bool)| (t.0@, t.1))
}

/// Which subscriptions are tried while the first `n` repositories are gone
/// through, each with whether it is the client's arrival.
pub open spec fn tried_in(
    start: BridgesModel,
    repos: Seq<String>,
    known: Seq<bool>,
    started: Seq<bool>,
    n: int,
) -> Seq<(Seq<char>, bool)>
    decreases n,
{
    if n <= 0 {
        Seq::empty()
    } else {
        let m = start.followed(repos, known, started, n - 1);
        let before = tried_in(start, repos, known, started, n - 1);
        if m.wants(repos[n - 1]@, known[n - 1]) {
            before.push((repos[n - 1]@, !m.arrived))
        } else {
            before
        }
    }
}

proof fn lemma_has_text_step(items: Seq<String>, i: int, text: Seq<char>)
    requires
        0 <= i < items.len(),
    ensures
        has_text(items.take(i + 1), text) <==> has_text(items.take(i), text) || text == items[i]@,
{
    assert(items.take(i + 1) =~= items.take(i).push(items[i]));
    lemma_has_text_push(items.take(i), items[i], text);
}

proof fn lemma_has_text_push(items: Seq<String>, last: String, text: Seq<char>)
    ensures
        has_text(items.push(last), text) <==> has_text(items, text) || text == last@,
{
    let longer = items.push(last);
    if has_text(items, text) {
        let k = choose|k: int| 0 <= k < items.len() && (#[trigger] items[k])@ == text;
        assert(longer[k]@ == text);
    }
    if has_text(longer, text) {
        let k = choose|k: int| 0 <= k < longer.len() && (#[trigger] longer[k])@ == text;
        if k < items.len() {
            assert(items[k]@ == text);
        }
    }
    assert(longer[items.len() as int]@ == last@);
}

/// An arrival that was spent stays spent.
proof fn lemma_arrived_stays(
    start: BridgesModel,
    repos: Seq<String>,
    known: Seq<bool>,
    started: Seq<bool>,
    n: int,
)
    requires
        start.arrived,
        0 <= n <= repos.len(),
    ensures
        start.followed(repos, known, started, n).arrived,
    decreases n,
{
    if n > 0 {
        lemma_arrived_stays(start, repos, known, started, n - 1);
    }
}

/// Only the first subscription is an arrival: a client that has arrived takes
/// the sizing with none of the subscriptions that follow a changed set.
pub proof fn law_a_client_arrives_once(
    start: BridgesModel,
    repos: Seq<String>,
    known: Seq<bool>,
    started: Seq<bool>,
    n: int,
    i: int,
)
    requires
        start.arrived,
        0 <= n <= repos.len(),
        0 <= i < tried_in(start, repos, known, started, n).len(),
    ensures
        !tried_in(start, repos, known, started, n)[i].1,
    decreases n,
{
    if n > 0 {
        lemma_arrived_stays(start, repos, known, started, n - 1);
        if i < tried_in(start, repos, known, started, n - 1).len() {
            law_a_client_arrives_once(start, repos, known, started, n - 1, i);
        }
    }
}

/// A client follows the set: once every known repository of it could be
/// subscribed to, exactly the known ones of the set are open, besides those of
/// the set that were open already.
pub proof fn law_following_opens_the_set(
    start: BridgesModel,
    repos: Seq<String>,
    known: Seq<bool>,
    started: Seq<bool>,
    n: int,
    repo: Seq<char>,
)
    requires
        known.len() == repos.len(),
        started.len() == repos.len(),
        forall|i: int| 0 <= i < started.len() ==> #[trigger] started[i],
        0 <= n <= repos.len(),
    ensures
        start.followed(repos, known, started, n).open.contains(repo) <==> ((start.open.contains(repo)
            && has_text(repos, repo)) || (exists|i: int|
            0 <= i < n && (#[trigger] repos[i])@ == repo && known[i])),
    decreases n,
{
    if n > 0 {
        law_following_opens_the_set(start, repos, known, started, n - 1, repo);
        assert(started[n - 1]);
        let before = start.followed(repos, known, started, n - 1);
        if exists|i: int| 0 <= i < n && (#[trigger] repos[i])@ == repo && known[i] {
            let i = choose|i: int| 0 <= i < n && (#[trigger] repos[i])@ == repo && known[i];
            if i < n - 1 {
                assert(repos[i]@ == repo && known[i]);
            }
        }
        if exists|i: int| 0 <= i < n - 1 && (#[trigger] repos[i])@ == repo && known[i] {
            let i = choose|i: int| 0 <= i < n - 1 && (#[trigger] repos[i])@ == repo && known[i];
            assert(0 <= i < n && repos[i]@ == repo && known[i]);
        }
    }
}

/// The bytes of a text.
fn bytes_of(text: &str) -> (r: Vec<u8>)
    ensures
        r@ == vstd::utf8::encode_utf8(text@),
{
    vstd::slice::slice_to_vec(text.as_bytes())
}

/// What a message is sent as, given what the serialiser made of it. A failure
/// becomes an error frame, so the client sees something instead of a silently
/// dropped message; `what` names what could not be sent.
pub open spec fn message_frame(serialised: Option<Seq<u8>>, what: Seq<char>) -> FrameView {
    FrameView {
        kind: FrameKind::Control,
        payload: match serialised {
            Some(json) => json,
            None => vstd::utf8::encode_utf8(
                "{\"type\":\"error\",\"message\":\""@ + what + " could not be encoded\"}"@,
            ),
        },
    }
}

/// What a message is sent as.
pub fn encode(serialised: Option<Vec<u8>>, what: &str) -> (r: Frame)
    ensures
        r@ == message_frame(
            match serialised {
                Some(json) => Some(json@),
                None => None,
            },
            what@,
        ),
{
    match serialised {
        Some(json) => Frame::control(json),
        None => Frame::control(
            bytes_of(
                "{\"type\":\"error\",\"message\":\"".to_owned().concat(what).concat(
                    " could not be encoded\"}",
                ).as_str(),
            ),
        ),
    }
}

/// What a repository's terminals hand to a client's relay.
#[derive(Debug)]
pub enum HubFrame {
    Output { pane: PaneId, data: Vec<u8> },
    /// An event, or `None` where it could not be read.
    Control(Option<TerminalEvent>),
}

/// The same for the client, tagged with its repository.
#[derive(Debug)]
pub enum Relayed {
    Output { repo: String, pane: PaneId, data: Vec<u8> },
    Message(ServerMessage),
}

/// Whether `relayed` is what a frame of the repository `repo` becomes for the
/// client `attached`, whose relay is known to the repository as `hub_client`.
pub open spec fn is_tagged(
    relayed: Relayed,
    repo: Seq<char>,
    frame: HubFrame,
    hub_client: u64,
    attached: u64,
) -> bool {
    match frame {
        HubFrame::Output { pane, data } => relayed matches Relayed::Output {
            repo: tagged,
            pane: to,
            data: kept,
        } && tagged@ == repo && to == pane && kept == data,
        HubFrame::Control(Some(event)) => relayed matches Relayed::Message(
            ServerMessage::Terminal { repo: tagged, event: told },
        ) && tagged@ == repo && told == rewritten(event, hub_client, attached),
        HubFrame::Control(None) => relayed matches Relayed::Message(
            ServerMessage::Error { message },
        ) && message@ == "terminal event could not be relayed"@,
    }
}

/// Turn one frame of a repository into one for this client, tagged with the
/// repository.
///
/// A pane that `hub_client` asked for is relayed as one that `attached` asked
/// for, so that the client can recognise its own pane by the id it was given
/// when it attached.
pub fn tag(repo: &str, frame: HubFrame, hub_client: u64, attached: u64) -> (r: Relayed)
    ensures
        is_tagged(r, repo@, frame, hub_client, attached),
{
    match frame {
        HubFrame::Output { pane, data } => Relayed::Output { repo: repo.to_owned(), pane, data },
        HubFrame::Control(event) => match event {
            Some(event) => Relayed::Message(
                ServerMessage::Terminal {
                    repo: repo.to_owned(),
                    event: rewrite_requester(event, hub_client, attached),
                },
            ),
            None => Relayed::Message(
                ServerMessage::Error { message: "terminal event could not be relayed".to_owned() },
            ),
        },
    }
}

proof fn lemma_open_stays(
    start: BridgesModel,
    repos: Seq<String>,
    known: Seq<bool>,
    started: Seq<bool>,
    n: int,
    repo: Seq<char>,
)
    requires
        0 <= n <= repos.len(),
        start.open.contains(repo),
        has_text(repos, repo),
    ensures
        start.followed(repos, known, started, n).open.contains(repo),
    decreases n,
{
    if n > 0 {
        lemma_open_stays(start, repos, known, started, n - 1, repo);
    }
}

/// Following tries nothing but repositories of the set that are known and that
/// were not open before, and every such repository is tried.
pub proof fn law_following_tries_what_is_new(
    start: BridgesModel,
    repos: Seq<String>,
    known: Seq<bool>,
    started: Seq<bool>,
    n: int,
    repo: Seq<char>,
)
    requires
        known.len() == repos.len(),
        started.len() == repos.len(),
        0 <= n <= repos.len(),
    ensures
        (exists|k: int|
            0 <= k < tried_in(start, repos, known, started, n).len() && (#[trigger] tried_in(
                start,
                repos,
                known,
                started,
                n,
            )[k]).0 == repo) <==> !start.open.contains(repo) && exists|i: int|
            0 <= i < n && (#[trigger] repos[i])@ == repo && known[i],
        start.followed(repos, known, started, n).open.contains(repo) ==> (start.open.contains(repo)
            && has_text(repos, repo)) || exists|i: int|
            0 <= i < n && (#[trigger] repos[i])@ == repo && known[i] && started[i],
    decreases n,
{
    if n > 0 {
        law_following_tries_what_is_new(start, repos, known, started, n - 1, repo);
        let before = tried_in(start, repos, known, started, n - 1);
        let all = tried_in(start, repos, known, started, n);
        let m = start.followed(repos, known, started, n - 1);
        let name = repos[n - 1]@;
        assert(has_text(repos, name)) by {
            assert(repos[n - 1]@ == name);
        }
        if exists|k: int| 0 <= k < before.len() && (#[trigger] before[k]).0 == repo {
            let k = choose|k: int| 0 <= k < before.len() && (#[trigger] before[k]).0 == repo;
            assert(all[k] == before[k]);
        }
        if exists|k: int| 0 <= k < all.len() && (#[trigger] all[k]).0 == repo {
            let k = choose|k: int| 0 <= k < all.len() && (#[trigger] all[k]).0 == repo;
            if k < before.len() {
                assert(before[k] == all[k]);
            } else {
                assert(name == repo && known[n - 1]);
                if start.open.contains(repo) {
                    lemma_open_stays(start, repos, known, started, n - 1, repo);
                }
            }
        }
        if !start.open.contains(repo) && name == repo && known[n - 1] {
            if m.open.contains(repo) {
                let i = choose|i: int|
                    0 <= i < n - 1 && (#[trigger] repos[i])@ == repo && known[i] && started[i];
                assert(repos[i]@ == repo && known[i]);
                assert(exists|k: int| 0 <= k < before.len() && (#[trigger] before[k]).0 == repo);
            } else {
                assert(all.last().0 == repo);
                assert(all[all.len() - 1].0 == repo);
            }
        }
        if exists|i: int| 0 <= i < n && (#[trigger] repos[i])@ == repo && known[i] {
            let i = choose|i: int| 0 <= i < n && (#[trigger] repos[i])@ == repo && known[i];
            if i < n - 1 {
                assert(repos[i]@ == repo && known[i]);
            }
        }
    }
}

/// What could be encoded is sent as it is, as a control frame.
pub proof fn law_encoded_messages_are_sent_whole(json: Seq<u8>, what: Seq<char>)
    ensures
        message_frame(Some(json), what).payload == json,
        message_frame(Some(json), what).kind == FrameKind::Control,
        message_frame(None, what).kind == FrameKind::Control,
{
}

/// Output is relayed whole, from its pane, under its repository.
pub proof fn law_output_is_relayed_whole(
    relayed: Relayed,
    repo: Seq<char>,
    pane: PaneId,
    data: Vec<u8>,
    hub_client: u64,
    attached: u64,
)
    requires
        is_tagged(relayed, repo, HubFrame::Output { pane, data }, hub_client, attached),
    ensures
        relayed matches Relayed::Output { repo: under, pane: from, data: kept } && under@ == repo
            && from == pane && kept@ == data@,
{
}

/// An event is relayed under its repository, with nothing but who asked for a
/// pane rewritten.
pub proof fn law_events_are_relayed_under_their_repository(
    relayed: Relayed,
    repo: Seq<char>,
    event: TerminalEvent,
    hub_client: u64,
    attached: u64,
)
    requires
        is_tagged(relayed, repo, HubFrame::Control(Some(event)), hub_client, attached),
    ensures
        relayed matches Relayed::Message(ServerMessage::Terminal { repo: under, event: told })
            && under@ == repo && told == rewritten(event, hub_client, attached),
{
}

/// Of what was open, following keeps what is still in the set.
pub proof fn law_following_keeps_what_is_in_the_set(
    start: BridgesModel,
    repos: Seq<String>,
    repo: Seq<char>,
)
    ensures
        start.kept(repos).open.contains(repo) <==> start.open.contains(repo) && exists|i: int|
            0 <= i < repos.len() && (#[trigger] repos[i])@ == repo,
        start.kept(repos).arrived == start.arrived,
{
}

} // verus!

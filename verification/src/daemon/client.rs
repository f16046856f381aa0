//! The attaching side of the daemon socket. The daemon speaks first (the
//! session changes under the client, and terminal output arrives unprompted),
//! so requests are queued and forgotten, and everything the daemon says lands
//! in a queue the caller drains on its own schedule.

use crate::daemon::protocol::{
    ClientMessage, ClientMessageModel, ServerMessage, TerminalEvent,
};
use crate::native::NativePath;
use crate::text::{lossy_text, same_text};
use crate::textmap::{contains_text, has_text, TextMap};
use vstd::prelude::*;

verus! {

/// What arrives on the connection.
#[derive(Debug)]
pub enum Incoming {
    Control(ServerMessage),
    /// Terminal traffic of a repository, which goes to that repository's
    /// inbox.
    Terminal,
    /// The daemon closed the connection.
    Closed,
}

/// How long the daemon may take to answer the handshake, in milliseconds. Only
/// the handshake is bounded: after it a quiet daemon is the normal state.
pub const HANDSHAKE_TIMEOUT_MS: u64 = 5_000;

/// How far attaching has come: what is to be done now.
#[derive(Debug, Clone, Copy, PartialEq, Eq, Structural)]
pub enum ConnectPhase {
    /// Connect to the socket.
    Connect,
    /// Split the connection, so that it can be read and written at once.
    Split,
    SendHello,
    /// Bound how long an answer is waited for.
    SetTimeout,
    AwaitHello,
    /// Lift the bound again, or an idle session would read as a dead one. One
    /// that stays in place does no harm.
    ClearTimeout,
    /// Start reading what the daemon says.
    SpawnReader,
    Attached,
    Failed,
}

/// What came of what was to be done.
#[derive(Debug)]
pub enum ConnectEvent {
    Done,
    Failed(String),
    /// Something arrived on the connection.
    Arrived(Incoming),
}

/// Whether an event can come of a phase.
pub open spec fn connect_fits(phase: ConnectPhase, event: ConnectEvent) -> bool {
    match event {
        ConnectEvent::Arrived(_) => phase is AwaitHello,
        ConnectEvent::Failed(_) => !(phase is Attached) && !(phase is Failed),
        ConnectEvent::Done => !(phase is AwaitHello) && !(phase is Attached) && !(phase is Failed),
    }
}

/// What is said before the reason of a failure, to tell what was being done.
pub open spec fn connect_context(phase: ConnectPhase, path: Seq<u8>) -> Seq<char> {
    match phase {
        ConnectPhase::Connect => "no nightcrow daemon on "@ + lossy_text(path)
            + " — start one with `nightcrow serve`: "@,
        ConnectPhase::Split => "splitting the daemon connection: "@,
        ConnectPhase::SetTimeout => "setting the handshake timeout: "@,
        ConnectPhase::SpawnReader => "spawning the daemon reader thread: "@,
        _ => ""@,
    }
}

/// Attaching, as a plain value.
#[verifier::ext_equal]
pub struct ConnectingModel {
    pub phase: ConnectPhase,
    pub path: Seq<u8>,
    pub version: Seq<char>,
    /// What the daemon volunteered before it answered.
    pub queued: Seq<ServerMessage>,
    /// This connection's id at the daemon, once it answered.
    pub client: u64,
    pub error: Seq<char>,
}

impl ConnectingModel {
    pub open spec fn begun(path: Seq<u8>, version: Seq<char>) -> ConnectingModel {
        ConnectingModel {
            phase: ConnectPhase::Connect,
            path,
            version,
            queued: Seq::empty(),
            client: 0,
            error: Seq::empty(),
        }
    }

    pub open spec fn failed(self, error: Seq<char>) -> ConnectingModel {
        ConnectingModel { phase: ConnectPhase::Failed, error, ..self }
    }

    /// Something arrived before the answer, or is it.
    ///
    /// Terminal traffic can start before the answer, and so can the repository
    /// set, which is the state this client is about to render. A reload answer
    /// cannot be to a request of this client and is dropped.
    pub open spec fn heard(self, incoming: Incoming) -> ConnectingModel {
        match incoming {
            Incoming::Closed => self.failed(
                "the daemon closed the connection during the handshake"@,
            ),
            Incoming::Terminal => self,
            Incoming::Control(message) => match message {
                ServerMessage::Hello { version, client } => if version@ == self.version {
                    ConnectingModel { phase: ConnectPhase::ClearTimeout, client, ..self }
                } else {
                    self.failed("daemon is "@ + version@ + ", this client is "@ + self.version)
                },
                ServerMessage::Error { message } => self.failed(
                    "daemon refused the attach: "@ + message@,
                ),
                ServerMessage::Repos { .. } => ConnectingModel {
                    queued: self.queued.push(message),
                    ..self
                },
                ServerMessage::Terminal { .. } => ConnectingModel {
                    queued: self.queued.push(message),
                    ..self
                },
                ServerMessage::Reloaded => self,
            },
        }
    }

    /// Attaching after an event.
    pub open spec fn stepped(self, event: ConnectEvent) -> ConnectingModel {
        match event {
            ConnectEvent::Arrived(incoming) => self.heard(incoming),
            ConnectEvent::Failed(reason) => if self.phase is ClearTimeout {
                ConnectingModel { phase: ConnectPhase::SpawnReader, ..self }
            } else {
                self.failed(connect_context(self.phase, self.path) + reason@)
            },
            ConnectEvent::Done => ConnectingModel { phase: connect_after(self.phase), ..self },
        }
    }
}

/// What is to be done once a phase was done.
pub open spec fn connect_after(phase: ConnectPhase) -> ConnectPhase {
    match phase {
        ConnectPhase::Connect => ConnectPhase::Split,
        ConnectPhase::Split => ConnectPhase::SendHello,
        ConnectPhase::SendHello => ConnectPhase::SetTimeout,
        ConnectPhase::SetTimeout => ConnectPhase::AwaitHello,
        ConnectPhase::AwaitHello => ConnectPhase::ClearTimeout,
        ConnectPhase::ClearTimeout => ConnectPhase::SpawnReader,
        ConnectPhase::SpawnReader => ConnectPhase::Attached,
        ConnectPhase::Attached => ConnectPhase::Attached,
        ConnectPhase::Failed => ConnectPhase::Failed,
    }
}

fn phase_after_done(phase: ConnectPhase) -> (r: ConnectPhase)
    ensures
        r == connect_after(phase),
{
    match phase {
        ConnectPhase::Connect => ConnectPhase::Split,
        ConnectPhase::Split => ConnectPhase::SendHello,
        ConnectPhase::SendHello => ConnectPhase::SetTimeout,
        ConnectPhase::SetTimeout => ConnectPhase::AwaitHello,
        ConnectPhase::AwaitHello => ConnectPhase::ClearTimeout,
        ConnectPhase::ClearTimeout => ConnectPhase::SpawnReader,
        ConnectPhase::SpawnReader => ConnectPhase::Attached,
        ConnectPhase::Attached => ConnectPhase::Attached,
        ConnectPhase::Failed => ConnectPhase::Failed,
    }
}

/// The opening of a connection: this side says its version and waits for the
/// daemon's, so that whoever is attached talks to a daemon of its own build.
#[derive(Debug)]
pub struct Connecting {
    phase: ConnectPhase,
    path: NativePath,
    version: String,
    queued: Vec<ServerMessage>,
    client: u64,
    error: String,
}

impl Connecting {
    pub closed spec fn model(&self) -> ConnectingModel {
        ConnectingModel {
            phase: self.phase,
            path: self.path@,
            version: self.version@,
            queued: self.queued@,
            client: self.client,
            error: self.error@,
        }
    }

    /// What is to be done now.
    pub fn phase(&self) -> (r: ConnectPhase)
        ensures
            r == self.model().phase,
    {
        self.phase
    }

    /// The socket to connect to.
    pub fn path(&self) -> (r: &NativePath)
        ensures
            r@ == self.model().path,
    {
        &self.path
    }

    /// Why attaching failed.
    pub fn error(&self) -> (r: &str)
        ensures
            r@ == self.model().error,
    {
        self.error.as_str()
    }

    /// The message that opens the handshake.
    pub fn hello(&self) -> (r: ClientMessage)
        ensures
            r.model() == (ClientMessageModel::Hello { version: self.model().version }),
    {
        ClientMessage::Hello { version: self.version.clone() }
    }

    fn context(&self) -> (r: String)
        ensures
            r@ == connect_context(self.model().phase, self.model().path),
    {
        match self.phase {
            ConnectPhase::Connect => "no nightcrow daemon on ".to_owned().concat(
                self.path.shown().as_str(),
            ).concat(" — start one with `nightcrow serve`: "),
            ConnectPhase::Split => "splitting the daemon connection: ".to_owned(),
            ConnectPhase::SetTimeout => "setting the handshake timeout: ".to_owned(),
            ConnectPhase::SpawnReader => "spawning the daemon reader thread: ".to_owned(),
            _ => "".to_owned(),
        }
    }

    fn fail(&mut self, error: String)
        ensures
            final(self).model() == old(self).model().failed(error@),
    {
        self.error = error;
        self.phase = ConnectPhase::Failed;
    }

    fn hear(&mut self, incoming: Incoming)
        ensures
            final(self).model() == old(self).model().heard(incoming),
    {
        match incoming {
            Incoming::Closed => {
                self.fail("the daemon closed the connection during the handshake".to_owned());
            },
            Incoming::Terminal => {},
            Incoming::Control(message) => match message {
                ServerMessage::Hello { version, client } => {
                    if same_text(version.as_str(), self.version.as_str()) {
                        self.client = client;
                        self.phase = ConnectPhase::ClearTimeout;
                    } else {
                        let text = "daemon is ".to_owned().concat(version.as_str()).concat(
                            ", this client is ",
                        ).concat(self.version.as_str());
                        self.fail(text);
                    }
                },
                ServerMessage::Error { message } => {
                    self.fail("daemon refused the attach: ".to_owned().concat(message.as_str()));
                },
                ServerMessage::Repos { repos } => {
                    self.queued.push(ServerMessage::Repos { repos });
                },
                ServerMessage::Terminal { repo, event } => {
                    self.queued.push(ServerMessage::Terminal { repo, event });
                },
                ServerMessage::Reloaded => {},
            },
        }
    }

    /// Take in what came of the phase.
    pub fn step(&mut self, event: ConnectEvent)
        requires
            connect_fits(old(self).model().phase, event),
        ensures
            final(self).model() == old(self).model().stepped(event),
    {
        match event {
            ConnectEvent::Arrived(incoming) => self.hear(incoming),
            ConnectEvent::Failed(reason) => {
                if self.phase == ConnectPhase::ClearTimeout {
                    self.phase = ConnectPhase::SpawnReader;
                } else {
                    let text = self.context().concat(reason.as_str());
                    self.fail(text);
                }
            },
            ConnectEvent::Done => {
                self.phase = phase_after_done(self.phase);
            },
        }
    }

    /// The client that attached. What the daemon volunteered meanwhile is
    /// queued like any other message.
    pub fn finish(self) -> (r: DaemonClient)
        requires
            self.model().phase is Attached,
        ensures
            r.wf(),
            r.connected,
            r.client == self.model().client,
            r.incoming@ == self.model().queued,
            r.requests() == Seq::<ClientMessageModel>::empty(),
            r.terminals@ == Map::<Seq<char>, Vec<Traffic>>::empty(),
    {
        let r = DaemonClient {
            out: Vec::new(),
            incoming: self.queued,
            terminals: TextMap::new(),
            client: self.client,
            connected: true,
        };
        proof {
            assert(r.requests() =~= Seq::<ClientMessageModel>::empty());
        }
        r
    }
}

/// Whoever attaches talks to a daemon of its own build: the wait for the answer
/// ends well only with an answer that names this version, and nothing the daemon
/// said of the session before that is lost.
pub proof fn law_only_the_same_build_attaches(connecting: ConnectingModel, event: ConnectEvent)
    requires
        connecting.phase is AwaitHello,
        connect_fits(connecting.phase, event),
    ensures
        ({
            let next = connecting.stepped(event);
            &&& next.phase is ClearTimeout <==> (event matches ConnectEvent::Arrived(
                Incoming::Control(ServerMessage::Hello { version, client }),
            ) && version@ == connecting.version)
            &&& next.phase is ClearTimeout || next.phase is AwaitHello || next.phase is Failed
            &&& connecting.queued.is_prefix_of(next.queued)
        }),
{
}

/// Attaching moves forward only: past the answer nothing can refuse it but the
/// reader that does not start.
pub proof fn law_an_answered_attach_fails_only_without_a_reader(
    connecting: ConnectingModel,
    event: ConnectEvent,
)
    requires
        connecting.phase is ClearTimeout || connecting.phase is SpawnReader,
        connect_fits(connecting.phase, event),
    ensures
        connecting.stepped(event).phase is Failed ==> connecting.phase is SpawnReader
            && event is Failed,
        connecting.stepped(event).client == connecting.client,
        connecting.stepped(event).queued == connecting.queued,
{
}

/// One repository's end of a connection, for the backend behind its terminal
/// panes.
#[derive(Debug)]
pub struct TerminalLink {
    pub repo: String,
    /// This connection's id at the daemon, which tells a pane this client
    /// opened from one another client did.
    pub client: u64,
}

/// What a repository's inbox holds.
#[derive(Debug)]
pub enum Traffic {
    Output { pane: u32, data: Vec<u8> },
    Event(TerminalEvent),
}

/// An attached client's end of the connection.
pub struct DaemonClient {
    /// Requests to send.
    pub out: Vec<ClientMessage>,
    /// What the daemon said and nobody has looked at.
    pub incoming: Vec<ServerMessage>,
    /// Terminal traffic, split per repository for the backends that drain it.
    pub terminals: TextMap<Vec<Traffic>>,
    /// This connection's id at the daemon, from the handshake.
    pub client: u64,
    /// Cleared when the daemon goes away.
    pub connected: bool,
}

impl DaemonClient {
    pub open spec fn wf(&self) -> bool {
        self.terminals.wf()
    }

    /// What a repository's inbox holds.
    pub open spec fn inbox(&self, repo: Seq<char>) -> Seq<Traffic> {
        if self.terminals@.contains_key(repo) {
            self.terminals@[repo]@
        } else {
            Seq::empty()
        }
    }

    /// The requests to send, as plain values.
    pub open spec fn requests(&self) -> Seq<ClientMessageModel> {
        self.out@.map_values(|m: ClientMessage| m.model())
    }

    /// `self` is `before` with one more request.
    pub open spec fn asked(&self, before: &DaemonClient, request: ClientMessageModel) -> bool {
        &&& self.requests() == before.requests().push(request)
        &&& self.incoming == before.incoming
        &&& self.terminals == before.terminals
        &&& self.client == before.client
        &&& self.connected == before.connected
    }

    /// Attach to the daemon listening on `path`, as a client of this version.
    pub fn connect(path: &NativePath, version: &str) -> (r: Connecting)
        ensures
            r.model() == ConnectingModel::begun(path@, version@),
    {
        let r = Connecting {
            phase: ConnectPhase::Connect,
            path: path.duplicate(),
            version: version.to_owned(),
            queued: Vec::new(),
            client: 0,
            error: String::new(),
        };
        proof {
            assert(r.model() =~= ConnectingModel::begun(path@, version@));
        }
        r
    }

    fn send(&mut self, message: ClientMessage)
        ensures
            final(self).asked(old(self), message.model()),
    {
        let ghost model = message.model();
        self.out.push(message);
        proof {
            assert(self.requests() =~= old(self).requests().push(model));
        }
    }

    /// One repository's end of this connection.
    pub fn terminal_link(&self, repo: &str) -> (r: TerminalLink)
        ensures
            r.repo@ == repo@,
            r.client == self.client,
    {
        TerminalLink { repo: repo.to_owned(), client: self.client }
    }

    /// Drop the terminal inboxes of repositories that are no longer open.
    pub fn retain_repos(&mut self, open: &[String])
        requires
            old(self).wf(),
        ensures
            final(self).wf(),
            forall|repo: Seq<char>|
                #![trigger final(self).terminals@.contains_key(repo)]
                final(self).terminals@.contains_key(repo) <==> old(self).terminals@.contains_key(
                    repo,
                ) && has_text(open@, repo),
            forall|repo: Seq<char>|
                final(self).terminals@.contains_key(repo) ==> #[trigger] final(self).terminals@[repo]
                    == old(self).terminals@[repo],
            final(self).out == old(self).out,
            final(self).incoming == old(self).incoming,
            final(self).client == old(self).client,
            final(self).connected == old(self).connected,
    {
        let ghost before = self.terminals@;
        let mut i: usize = 0;
        while i < self.terminals.keys.len()
            invariant
                self.wf(),
                i <= self.terminals.keys@.len(),
                forall|repo: Seq<char>|
                    #![trigger self.terminals@.contains_key(repo)]
                    self.terminals@.contains_key(repo) ==> before.contains_key(repo)
                        && self.terminals@[repo] == before[repo],
                forall|repo: Seq<char>|
                    #![trigger before.contains_key(repo)]
                    before.contains_key(repo) && has_text(open@, repo)
                        ==> self.terminals@.contains_key(repo),
                forall|k: int|
                    0 <= k < i ==> has_text(open@, (#[trigger] self.terminals.keys@[k])@),
                before == old(self).terminals@,
                self.out == old(self).out,
                self.incoming == old(self).incoming,
                self.client == old(self).client,
                self.connected == old(self).connected,
            decreases self.terminals.keys.len() - i,
        {
            if contains_text(open, self.terminals.keys[i].as_str()) {
                i += 1;
            } else {
                let ghost now = self.terminals@;
                let ghost key = self.terminals.keys@[i as int]@;
                self.terminals.remove_at(i);
                proof {
                    assert(self.terminals@ == now.remove(key));
                    assert forall|repo: Seq<char>|
                        #![trigger self.terminals@.contains_key(repo)]
                        self.terminals@.contains_key(repo) implies before.contains_key(repo)
                        && self.terminals@[repo] == before[repo] by {
                        assert(now.contains_key(repo));
                    }
                    assert forall|repo: Seq<char>|
                        #![trigger before.contains_key(repo)]
                        before.contains_key(repo) && has_text(open@, repo) implies
                        self.terminals@.contains_key(repo) by {
                        assert(now.contains_key(repo));
                    }
                }
            }
        }
        proof {
            assert forall|repo: Seq<char>|
                #![trigger self.terminals@.contains_key(repo)]
                self.terminals@.contains_key(repo) <==> before.contains_key(repo) && has_text(
                    open@,
                    repo,
                ) by {
                if self.terminals@.contains_key(repo) {
                    let k = choose|k: int|
                        0 <= k < self.terminals.keys@.len() && (
                        #[trigger] self.terminals.keys@[k])@ == repo;
                    assert(has_text(open@, self.terminals.keys@[k]@));
                }
            }
        }
    }

    /// Ask the daemon to open a repository. The answer arrives as a broadcast.
    pub fn open_repo(&mut self, path: &str)
        ensures
            final(self).asked(old(self), ClientMessageModel::OpenRepo { path: path@ }),
    {
        self.send(ClientMessage::OpenRepo { path: path.to_owned() });
    }

    /// Ask the daemon to put a repository in front, by catalog id.
    pub fn focus_repo(&mut self, id: &str)
        ensures
            final(self).asked(old(self), ClientMessageModel::FocusRepo { repo: id@ }),
    {
        self.send(ClientMessage::FocusRepo { repo: id.to_owned() });
    }

    /// Ask the daemon to paint the session in `accent`.
    pub fn set_accent(&mut self, accent: usize)
        ensures
            final(self).asked(old(self), ClientMessageModel::SetAccent { accent }),
    {
        self.send(ClientMessage::SetAccent { accent });
    }

    /// Ask the daemon to read its configuration again. Answered to this client
    /// alone.
    pub fn reload_config(&mut self)
        ensures
            final(self).asked(old(self), ClientMessageModel::ReloadConfig),
    {
        self.send(ClientMessage::ReloadConfig);
    }

    /// Ask the daemon to close a repository, by catalog id.
    pub fn close_repo(&mut self, id: &str)
        ensures
            final(self).asked(old(self), ClientMessageModel::CloseRepo { repo: id@ }),
    {
        self.send(ClientMessage::CloseRepo { repo: id.to_owned() });
    }

    /// Take the requests to send.
    pub fn take_requests(&mut self) -> (r: Vec<ClientMessage>)
        ensures
            r@ == old(self).out@,
            final(self).out@ == Seq::<ClientMessage>::empty(),
            final(self).incoming == old(self).incoming,
            final(self).terminals == old(self).terminals,
            final(self).client == old(self).client,
            final(self).connected == old(self).connected,
    {
        let mut out: Vec<ClientMessage> = Vec::new();
        out.append(&mut self.out);
        proof {
            assert(out@ =~= old(self).out@);
        }
        out
    }

    /// The daemon said something.
    pub fn deliver(&mut self, message: ServerMessage)
        ensures
            final(self).incoming@ == old(self).incoming@.push(message),
            final(self).out == old(self).out,
            final(self).terminals == old(self).terminals,
            final(self).client == old(self).client,
            final(self).connected == old(self).connected,
    {
        self.incoming.push(message);
    }

    /// Terminal traffic of a repository arrived: it goes to the end of that
    /// repository's inbox.
    pub fn file(&mut self, repo: &str, traffic: Traffic)
        requires
            old(self).wf(),
        ensures
            final(self).wf(),
            final(self).inbox(repo@) == old(self).inbox(repo@).push(traffic),
            forall|other: Seq<char>|
                other != repo@ ==> #[trigger] final(self).inbox(other) == old(self).inbox(other),
            final(self).out == old(self).out,
            final(self).incoming == old(self).incoming,
            final(self).client == old(self).client,
            final(self).connected == old(self).connected,
    {
        let mut inbox = match self.terminals.remove(repo) {
            Some(inbox) => inbox,
            None => Vec::new(),
        };
        inbox.push(traffic);
        self.terminals.insert(repo.to_owned(), inbox);
    }

    /// Take what a repository's inbox holds.
    pub fn take_inbox(&mut self, repo: &str) -> (r: Vec<Traffic>)
        requires
            old(self).wf(),
        ensures
            final(self).wf(),
            r@ == old(self).inbox(repo@),
            final(self).inbox(repo@) == Seq::<Traffic>::empty(),
            forall|other: Seq<char>|
                other != repo@ ==> #[trigger] final(self).inbox(other) == old(self).inbox(other),
            final(self).out == old(self).out,
            final(self).incoming == old(self).incoming,
            final(self).client == old(self).client,
            final(self).connected == old(self).connected,
    {
        match self.terminals.remove(repo) {
            Some(inbox) => inbox,
            None => Vec::new(),
        }
    }

    /// The connection ended.
    pub fn lost(&mut self)
        ensures
            *final(self) == (DaemonClient { connected: false, ..*old(self) }),
    {
        self.connected = false;
    }

    /// Everything the daemon has said since the last drain. Never waits: a
    /// daemon that has gone away still has its last messages delivered, and
    /// `is_connected` reports the loss separately.
    pub fn drain(&mut self) -> (r: Vec<ServerMessage>)
        ensures
            r@ == old(self).incoming@,
            final(self).incoming@ == Seq::<ServerMessage>::empty(),
            final(self).out == old(self).out,
            final(self).terminals == old(self).terminals,
            final(self).client == old(self).client,
            final(self).connected == old(self).connected,
    {
        let mut out: Vec<ServerMessage> = Vec::new();
        out.append(&mut self.incoming);
        proof {
            assert(out@ =~= old(self).incoming@);
        }
        out
    }

    /// Whether the daemon is still there. Messages it already delivered stay
    /// in the queue and are still drained.
    pub fn is_connected(&self) -> (r: bool)
        ensures
            r == self.connected,
    {
        self.connected
    }
}

/// An attach in which every step succeeds and the daemon answers with the same
/// version comes to be attached, under the number that the daemon gave, to the
/// path it was begun with.
pub proof fn law_an_answered_attach_succeeds(
    path: Seq<u8>,
    version: Seq<char>,
    answer: String,
    client: u64,
)
    requires
        answer@ == version,
    ensures
        ({
            let hello = ConnectEvent::Arrived(
                Incoming::Control(ServerMessage::Hello { version: answer, client }),
            );
            let start = ConnectingModel::begun(path, version);
            let sent = start.stepped(ConnectEvent::Done).stepped(ConnectEvent::Done).stepped(
                ConnectEvent::Done,
            );
            let waiting = sent.stepped(ConnectEvent::Done);
            let attached = waiting.stepped(hello).stepped(ConnectEvent::Done).stepped(
                ConnectEvent::Done,
            );
            &&& start.phase is Connect
            &&& start.stepped(ConnectEvent::Done).phase is Split
            &&& start.stepped(ConnectEvent::Done).stepped(ConnectEvent::Done).phase is SendHello
            &&& sent.phase is SetTimeout
            &&& waiting.phase is AwaitHello
            &&& waiting.stepped(hello).phase is ClearTimeout
            &&& waiting.stepped(hello).stepped(ConnectEvent::Done).phase is SpawnReader
            &&& attached.phase is Attached
            &&& attached.client == client
            &&& attached.path == path
            &&& attached.queued.len() == 0
        }),
{
}

/// While the answer is awaited, repositories and terminal events that come
/// before it are kept in order; nothing else that is not an answer changes
/// anything. An answer of another version, a refusal and a closed connection
/// each end the attach, and say what the daemon said.
pub proof fn law_what_comes_before_the_answer_is_kept(m: ConnectingModel, incoming: Incoming)
    requires
        m.phase is AwaitHello,
    ensures
        ({
            let now = m.stepped(ConnectEvent::Arrived(incoming));
            &&& incoming matches Incoming::Control(message) ==> {
                &&& message is Repos || message is Terminal ==> now == (ConnectingModel {
                    queued: m.queued.push(message),
                    ..m
                })
                &&& message is Reloaded ==> now == m
                &&& message matches ServerMessage::Error { message: said } ==> now.phase is Failed
                    && now.error == "daemon refused the attach: "@ + said@
                &&& message matches ServerMessage::Hello { version, client } ==> {
                    &&& version@ == m.version ==> now == (ConnectingModel {
                        phase: ConnectPhase::ClearTimeout,
                        client,
                        ..m
                    })
                    &&& version@ != m.version ==> now.phase is Failed && now.error
                        == "daemon is "@ + version@ + ", this client is "@ + m.version
                }
            }
            &&& incoming is Terminal ==> now == m
            &&& incoming is Closed ==> now.phase is Failed
        }),
{
}

/// A step that fails ends the attach, with the reason at the end of what is
/// said, but for taking the timeout off again, which may fail.
pub proof fn law_a_failed_step_ends_the_attach(m: ConnectingModel, reason: String)
    requires
        connect_fits(m.phase, ConnectEvent::Failed(reason)),
    ensures
        ({
            let now = m.stepped(ConnectEvent::Failed(reason));
            &&& m.phase is ClearTimeout ==> now == (ConnectingModel {
                phase: ConnectPhase::SpawnReader,
                ..m
            })
            &&& !(m.phase is ClearTimeout) ==> now.phase is Failed
            &&& m.phase is Connect ==> now.error == "no nightcrow daemon on "@ + lossy_text(m.path)
                + " — start one with `nightcrow serve`: "@ + reason@
            &&& m.phase is Split ==> now.error == "splitting the daemon connection: "@ + reason@
            &&& m.phase is SetTimeout ==> now.error == "setting the handshake timeout: "@
                + reason@
            &&& m.phase is SpawnReader ==> now.error == "spawning the daemon reader thread: "@
                + reason@
            &&& m.phase is SendHello || m.phase is AwaitHello ==> now.error == reason@
        }),
{
    reveal_strlit("");
    assert(""@ + reason@ =~= reason@);
}

} // verus!

//! What the commands of the program do, in which order, and what they say.

use crate::daemon::frame::{Frame, FrameKind, FrameView};
use crate::daemon::protocol::{ClientMessage, ClientMessageModel};
use crate::home::{home_dir, is_below, path_below, NoHome};
use crate::native::NativePath;
use crate::text::{decimal, decimal_text, decimal_usize, lossy_text, texts};
use vstd::prelude::*;

verus! {

/// Where a session in the background writes what it would have printed. Beside
/// the socket rather than in the log directory: this is the startup banner and
/// any error in starting, which a person goes looking for by hand.
pub fn daemon_output_path() -> (r: Result<NativePath, NoHome>)
    ensures
        exists|home: Option<NativePath>| #[trigger] is_below(home, ".nightcrow/daemon.out"@, r),
{
    let home = home_dir();
    output_path_in(&home)
}

/// The same, given where home is.
pub fn output_path_in(home: &Option<NativePath>) -> (r: Result<NativePath, NoHome>)
    ensures
        is_below(*home, ".nightcrow/daemon.out"@, r),
{
    path_below(home, ".nightcrow/daemon.out")
}

/// How far starting and running the session has come: what is to be done now.
#[derive(Debug, Clone, Copy, PartialEq, Eq, Structural)]
pub enum Stage {
    /// Find out where a session in the background writes.
    LocateOutput,
    /// Start a copy in the background.
    Respawn,
    /// Catch stop signals. Before anything that can be interrupted: until then
    /// a signal ends the process outright and leaves behind what it started.
    RegisterSignals,
    /// Forward them to where the session waits.
    ForwardSignals,
    LoadConfig,
    /// Start logging. Before anything is served, so that what goes wrong then
    /// has somewhere to go.
    InitLogging,
    /// Find out where the configuration is.
    LocateConfig,
    /// Make sure that there is a password for the browser.
    EnsurePassword,
    /// Find out which repositories were open last time.
    LoadRepos,
    /// Work out the startup panes. Before anything is served, so that too many
    /// of them is an error at startup.
    ResolveStartup,
    /// Serve the browser. Before the socket, so that a port in use is reported
    /// before there is a socket file to clean up.
    StartServer,
    /// Find out where the socket goes.
    LocateSocket,
    BindSocket,
    CloneListener,
    /// Start the session. Before anything is accepted, so that a session that
    /// cannot start is reported where it can still fail.
    StartSession,
    SpawnAccept,
    AwaitShutdown,
    StopServer,
    /// Remove the socket and give up the lock. Only once the session has
    /// stopped, so that nothing can attach to one that is going.
    ReleaseSocket,
    Finished,
    Failed,
}

/// The browser's settings.
#[derive(Debug)]
pub struct WebViewer {
    pub port: u16,
    pub bind: String,
}

/// A repository that was open last time, and whether it is still a directory.
#[derive(Debug)]
pub struct RememberedRepo {
    pub path: String,
    pub is_dir: bool,
}

/// What came of what was to be done.
#[derive(Debug)]
pub enum StageEvent {
    Done,
    /// Something was found at this path.
    Located(NativePath),
    /// A copy runs in the background.
    Respawned(u32),
    Loaded(WebViewer),
    /// The password that was made, where none was set.
    Password(Option<String>),
    Remembered(Vec<RememberedRepo>),
    /// The browser is served at this address.
    Served { addr: String, ip: String, loopback: bool },
    /// A stop was asked for, by a signal of this name or as if by one.
    Stopped(String),
    Failed(String),
}

/// Whether an event can come of a stage.
pub open spec fn fits(stage: Stage, event: StageEvent) -> bool {
    match event {
        StageEvent::Failed(_) => !(stage is Finished) && !(stage is Failed) && !(
        stage is StopServer) && !(stage is ReleaseSocket) && !(stage is InitLogging) && !(
        stage is LoadRepos),
        StageEvent::Located(_) => stage is LocateOutput || stage is LocateConfig
            || stage is LocateSocket,
        StageEvent::Respawned(_) => stage is Respawn,
        StageEvent::Loaded(_) => stage is LoadConfig,
        StageEvent::Password(_) => stage is EnsurePassword,
        StageEvent::Remembered(_) => stage is LoadRepos,
        StageEvent::Served { .. } => stage is StartServer,
        StageEvent::Stopped(_) => stage is AwaitShutdown,
        StageEvent::Done => stage is RegisterSignals || stage is ForwardSignals
            || stage is InitLogging || stage is ResolveStartup || stage is BindSocket
            || stage is CloneListener || stage is StartSession || stage is SpawnAccept
            || stage is StopServer || stage is ReleaseSocket,
    }
}

/// What is to be done once a stage was done.
pub open spec fn after(stage: Stage) -> Stage {
    match stage {
        Stage::LocateOutput => Stage::Respawn,
        Stage::Respawn => Stage::Finished,
        Stage::RegisterSignals => Stage::ForwardSignals,
        Stage::ForwardSignals => Stage::LoadConfig,
        Stage::LoadConfig => Stage::InitLogging,
        Stage::InitLogging => Stage::LocateConfig,
        Stage::LocateConfig => Stage::EnsurePassword,
        Stage::EnsurePassword => Stage::LoadRepos,
        Stage::LoadRepos => Stage::ResolveStartup,
        Stage::ResolveStartup => Stage::StartServer,
        Stage::StartServer => Stage::LocateSocket,
        Stage::LocateSocket => Stage::BindSocket,
        Stage::BindSocket => Stage::CloneListener,
        Stage::CloneListener => Stage::StartSession,
        Stage::StartSession => Stage::SpawnAccept,
        Stage::SpawnAccept => Stage::AwaitShutdown,
        Stage::AwaitShutdown => Stage::StopServer,
        Stage::StopServer => Stage::ReleaseSocket,
        Stage::ReleaseSocket => Stage::Finished,
        Stage::Finished => Stage::Finished,
        Stage::Failed => Stage::Failed,
    }
}

fn stage_after(stage: Stage) -> (r: Stage)
    ensures
        r == after(stage),
{
    match stage {
        Stage::LocateOutput => Stage::Respawn,
        Stage::Respawn => Stage::Finished,
        Stage::RegisterSignals => Stage::ForwardSignals,
        Stage::ForwardSignals => Stage::LoadConfig,
        Stage::LoadConfig => Stage::InitLogging,
        Stage::InitLogging => Stage::LocateConfig,
        Stage::LocateConfig => Stage::EnsurePassword,
        Stage::EnsurePassword => Stage::LoadRepos,
        Stage::LoadRepos => Stage::ResolveStartup,
        Stage::ResolveStartup => Stage::StartServer,
        Stage::StartServer => Stage::LocateSocket,
        Stage::LocateSocket => Stage::BindSocket,
        Stage::BindSocket => Stage::CloneListener,
        Stage::CloneListener => Stage::StartSession,
        Stage::StartSession => Stage::SpawnAccept,
        Stage::SpawnAccept => Stage::AwaitShutdown,
        Stage::AwaitShutdown => Stage::StopServer,
        Stage::StopServer => Stage::ReleaseSocket,
        Stage::ReleaseSocket => Stage::Finished,
        Stage::Finished => Stage::Finished,
        Stage::Failed => Stage::Failed,
    }
}

/// What is said before the reason of a failure, to tell what was being done.
pub open spec fn failure_context(stage: Stage) -> Seq<char> {
    match stage {
        Stage::ForwardSignals => "spawning the signal-forwarding thread: "@,
        Stage::CloneListener => "cloning the daemon listener: "@,
        Stage::SpawnAccept => "spawning the daemon accept thread: "@,
        Stage::AwaitShutdown => "the shutdown channel closed without a signal: "@,
        _ => ""@,
    }
}

/// The remembered repositories that are still there, in their order. One that
/// was moved or deleted is dropped rather than served as a broken tab.
pub open spec fn still_there(repos: Seq<RememberedRepo>) -> Seq<Seq<char>>
    decreases repos.len(),
{
    if repos.len() == 0 {
        Seq::empty()
    } else {
        let before = still_there(repos.drop_last());
        if repos.last().is_dir {
            before.push(repos.last().path@)
        } else {
            before
        }
    }
}

/// The session's run, as plain values.
#[verifier::ext_equal]
pub struct RunModel {
    pub stage: Stage,
    /// The commands of the panes to open besides the configured ones.
    pub extra_panes: Seq<Seq<char>>,
    pub port: Option<u16>,
    pub bind: Option<Seq<char>>,
    /// Where the last thing that was looked for is.
    pub path: Seq<u8>,
    /// The browser's settings, with what the command line overrides.
    pub web: Option<(u16, Seq<char>)>,
    pub repos: Seq<Seq<char>>,
    pub ip: Seq<char>,
    pub loopback: bool,
    pub error: Seq<char>,
}

/// What is said about the repositories that are served.
pub open spec fn serving_text(repos: nat, addr: Seq<char>) -> Seq<char> {
    if repos == 0 {
        "nightcrow: serving an empty catalog at http://"@ + addr
            + "/ — open a repository from a client"@
    } else {
        "nightcrow: web viewer serving "@ + decimal_text(repos) + " repositor"@ + (if repos == 1 {
            "y"@
        } else {
            "ies"@
        }) + " at http://"@ + addr + "/"@
    }
}

impl RunModel {
    /// The run of a command. One that is to go to the background, and is not
    /// there already, only starts a copy; it takes neither the socket nor the
    /// lock.
    pub open spec fn begun(
        extra_panes: Seq<Seq<char>>,
        port: Option<u16>,
        bind: Option<Seq<char>>,
        detach: bool,
        is_child: bool,
    ) -> RunModel {
        RunModel {
            stage: if detach && !is_child {
                Stage::LocateOutput
            } else {
                Stage::RegisterSignals
            },
            extra_panes,
            port,
            bind,
            path: Seq::empty(),
            web: None,
            repos: Seq::empty(),
            ip: Seq::empty(),
            loopback: true,
            error: Seq::empty(),
        }
    }

    /// The run after an event.
    pub open spec fn stepped(self, event: StageEvent) -> RunModel {
        let next = RunModel { stage: after(self.stage), ..self };
        match event {
            StageEvent::Done => next,
            StageEvent::Located(path) => RunModel { path: path@, ..next },
            StageEvent::Respawned(_) => next,
            StageEvent::Loaded(web) => RunModel {
                web: Some(
                    (
                        match self.port {
                            Some(port) => port,
                            None => web.port,
                        },
                        match self.bind {
                            Some(bind) => bind,
                            None => web.bind@,
                        },
                    ),
                ),
                ..next
            },
            StageEvent::Password(_) => next,
            StageEvent::Remembered(repos) => RunModel { repos: still_there(repos@), ..next },
            StageEvent::Served { addr, ip, loopback } => RunModel { ip: ip@, loopback, ..next },
            StageEvent::Stopped(_) => next,
            StageEvent::Failed(reason) => RunModel {
                stage: Stage::Failed,
                error: failure_context(self.stage) + reason@,
                ..self
            },
        }
    }

    /// What is printed on an event.
    pub open spec fn said(self, event: StageEvent) -> Seq<Seq<char>> {
        match event {
            StageEvent::Respawned(pid) => seq![
                "nightcrow: session running in the background (pid "@ + decimal_text(pid as nat)
                    + ")"@,
                "nightcrow: its output goes to "@ + lossy_text(self.path),
            ],
            StageEvent::Password(Some(password)) => seq![
                "nightcrow: generated a web viewer password and saved it to "@ + lossy_text(self.path)
                    + ":"@,
                "  "@ + password@,
            ],
            StageEvent::Served { addr, ip, loopback } => seq![
                serving_text(self.repos.len(), addr@),
            ],
            StageEvent::Done => if self.stage is BindSocket {
                seq![
                    "nightcrow: attach with `nightcrow attach` ("@ + lossy_text(self.path) + ")"@,
                ]
            } else if self.stage is SpawnAccept {
                if self.loopback {
                    seq!["nightcrow: press Ctrl-C to stop"@]
                } else {
                    seq![
                        "nightcrow: WARNING bound to "@ + self.ip
                            + " — repository contents and interactive"@,
                        "nightcrow: shells are reachable from the network over plain HTTP."@,
                        "nightcrow: press Ctrl-C to stop"@,
                    ]
                }
            } else {
                Seq::empty()
            },
            StageEvent::Stopped(signal) => seq![
                "nightcrow: "@ + signal@ + " received, stopping"@,
            ],
            _ => Seq::empty(),
        }
    }
}

/// The session's run.
#[derive(Debug)]
pub struct DaemonRun {
    stage: Stage,
    extra_panes: Vec<String>,
    port: Option<u16>,
    bind: Option<String>,
    path: NativePath,
    web: Option<WebViewer>,
    repos: Vec<String>,
    ip: String,
    loopback: bool,
    error: String,
}

/// The settings as plain values.
pub open spec fn web_model(web: Option<WebViewer>) -> Option<(u16, Seq<char>)> {
    match web {
        Some(web) => Some((web.port, web.bind@)),
        None => None,
    }
}

/// A text that may be missing, as a plain value.
pub open spec fn text_model(text: Option<String>) -> Option<Seq<char>> {
    match text {
        Some(text) => Some(text@),
        None => None,
    }
}

impl DaemonRun {
    pub closed spec fn model(&self) -> RunModel {
        RunModel {
            stage: self.stage,
            extra_panes: texts(self.extra_panes@),
            port: self.port,
            bind: text_model(self.bind),
            path: self.path@,
            web: web_model(self.web),
            repos: texts(self.repos@),
            ip: self.ip@,
            loopback: self.loopback,
            error: self.error@,
        }
    }

    /// Run the session in the foreground until it is stopped, or start a copy
    /// of it in the background.
    ///
    /// The starting catalog is whatever was open last time, which may be
    /// nothing. Repositories are opened from inside the session, where every
    /// other client sees it.
    pub fn run_daemon(
        extra_panes: Vec<String>,
        port: Option<u16>,
        bind: Option<String>,
        detach: bool,
        is_child: bool,
    ) -> (r: DaemonRun)
        ensures
            r.model() == RunModel::begun(
                texts(extra_panes@),
                port,
                text_model(bind),
                detach,
                is_child,
            ),
    {
        let ghost expected = RunModel::begun(
            texts(extra_panes@),
            port,
            text_model(bind),
            detach,
            is_child,
        );
        let r = DaemonRun {
            stage: if detach && !is_child {
                Stage::LocateOutput
            } else {
                Stage::RegisterSignals
            },
            extra_panes,
            port,
            bind,
            path: NativePath { bytes: Vec::new() },
            web: None,
            repos: Vec::new(),
            ip: String::new(),
            loopback: true,
            error: String::new(),
        };
        proof {
            assert(r.model() =~= expected);
        }
        r
    }

    /// What is to be done now.
    pub fn stage(&self) -> (r: Stage)
        ensures
            r == self.model().stage,
    {
        self.stage
    }

    /// The commands of the panes to open besides the configured ones. Kept
    /// through the run: these panes are not in the configuration, so reading
    /// that again does not bring them back.
    pub fn extra_panes(&self) -> (r: &Vec<String>)
        ensures
            texts(r@) == self.model().extra_panes,
    {
        &self.extra_panes
    }

    /// Where the last thing that was looked for is.
    pub fn path(&self) -> (r: &NativePath)
        ensures
            r@ == self.model().path,
    {
        &self.path
    }

    /// The browser's settings, once they are loaded.
    pub fn web(&self) -> (r: Option<&WebViewer>)
        ensures
            match r {
                Some(web) => self.model().web == Some((web.port, web.bind@)),
                None => self.model().web is None,
            },
    {
        match &self.web {
            Some(web) => Some(web),
            None => None,
        }
    }

    /// The repositories to serve.
    pub fn repos(&self) -> (r: &Vec<String>)
        ensures
            texts(r@) == self.model().repos,
    {
        &self.repos
    }

    /// Why the run failed.
    pub fn error(&self) -> (r: &str)
        ensures
            r@ == self.model().error,
    {
        self.error.as_str()
    }

    fn lines_for(&self, event: &StageEvent) -> (r: Vec<String>)
        requires
            fits(self.model().stage, *event),
        ensures
            texts(r@) == self.model().said(*event),
    {
        let ghost expected = self.model().said(*event);
        let mut out: Vec<String> = Vec::new();
        match event {
            StageEvent::Respawned(pid) => {
                out.push(
                    "nightcrow: session running in the background (pid ".to_owned().concat(
                        decimal(*pid as u64).as_str(),
                    ).concat(")"),
                );
                out.push(
                    "nightcrow: its output goes to ".to_owned().concat(self.path.shown().as_str()),
                );
            },
            StageEvent::Password(Some(password)) => {
                out.push(
                    "nightcrow: generated a web viewer password and saved it to ".to_owned().concat(
                        self.path.shown().as_str(),
                    ).concat(":"),
                );
                out.push("  ".to_owned().concat(password.as_str()));
            },
            StageEvent::Served { addr, ip, loopback } => {
                out.push(serving_line(self.repos.len(), addr.as_str()));
            },
            StageEvent::Done => {
                if self.stage == Stage::BindSocket {
                    out.push(
                        "nightcrow: attach with `nightcrow attach` (".to_owned().concat(
                            self.path.shown().as_str(),
                        ).concat(")"),
                    );
                } else if self.stage == Stage::SpawnAccept {
                    if !self.loopback {
                        out.push(
                            "nightcrow: WARNING bound to ".to_owned().concat(
                                self.ip.as_str(),
                            ).concat(" — repository contents and interactive"),
                        );
                        out.push(
                            "nightcrow: shells are reachable from the network over plain HTTP.".to_owned(),
                        );
                    }
                    out.push("nightcrow: press Ctrl-C to stop".to_owned());
                }
            },
            StageEvent::Stopped(signal) => {
                out.push(
                    "nightcrow: ".to_owned().concat(signal.as_str()).concat(
                        " received, stopping",
                    ),
                );
            },
            _ => {},
        }
        proof {
            assert(texts(out@) =~= expected);
        }
        out
    }

    /// Take in what came of the stage: what is printed. A failure ends the run.
    pub fn step(&mut self, event: StageEvent) -> (r: Vec<String>)
        requires
            fits(old(self).model().stage, event),
        ensures
            final(self).model() == old(self).model().stepped(event),
            texts(r@) == old(self).model().said(event),
    {
        let ghost before = self.model();
        let ghost given = event;
        let lines = self.lines_for(&event);
        match event {
            StageEvent::Located(path) => {
                self.path = path;
            },
            StageEvent::Loaded(web) => {
                let port: u16 = match self.port {
                    Some(port) => port,
                    None => web.port,
                };
                let bind = match &self.bind {
                    Some(bind) => bind.clone(),
                    None => web.bind,
                };
                self.web = Some(WebViewer { port, bind });
            },
            StageEvent::Remembered(repos) => {
                self.repos = kept_repos(&repos);
            },
            StageEvent::Served { addr, ip, loopback } => {
                self.ip = ip;
                self.loopback = loopback;
            },
            StageEvent::Failed(reason) => {
                self.error = context_of(self.stage).to_owned().concat(reason.as_str());
                self.stage = Stage::Failed;
                proof {
                    assert(self.model() =~= before.stepped(given));
                }
                return lines;
            },
            _ => {},
        }
        self.stage = stage_after(self.stage);
        proof {
            assert(self.model() =~= before.stepped(given));
        }
        lines
    }
}

fn context_of(stage: Stage) -> (r: &'static str)
    ensures
        r@ == failure_context(stage),
{
    match stage {
        Stage::ForwardSignals => "spawning the signal-forwarding thread: ",
        Stage::CloneListener => "cloning the daemon listener: ",
        Stage::SpawnAccept => "spawning the daemon accept thread: ",
        Stage::AwaitShutdown => "the shutdown channel closed without a signal: ",
        _ => "",
    }
}

fn serving_line(repos: usize, addr: &str) -> (r: String)
    ensures
        r@ == serving_text(repos as nat, addr@),
{
    if repos == 0 {
        "nightcrow: serving an empty catalog at http://".to_owned().concat(addr).concat(
            "/ — open a repository from a client",
        )
    } else {
        let ending = if repos == 1 {
            "y"
        } else {
            "ies"
        };
        "nightcrow: web viewer serving ".to_owned().concat(decimal_usize(repos).as_str()).concat(
            " repositor",
        ).concat(ending).concat(" at http://").concat(addr).concat("/")
    }
}

fn kept_repos(repos: &Vec<RememberedRepo>) -> (r: Vec<String>)
    ensures
        texts(r@) == still_there(repos@),
{
    let mut out: Vec<String> = Vec::new();
    let mut i: usize = 0;
    proof {
        assert(repos@.take(0) =~= Seq::<RememberedRepo>::empty());
        assert(texts(out@) =~= Seq::<Seq<char>>::empty());
    }
    while i < repos.len()
        invariant
            i <= repos@.len(),
            texts(out@) == still_there(repos@.take(i as int)),
        decreases repos.len() - i,
    {
        let ghost before = texts(out@);
        proof {
            assert(repos@.take(i + 1).drop_last() =~= repos@.take(i as int));
            assert(repos@.take(i + 1).last() == repos@[i as int]);
        }
        if repos[i].is_dir {
            out.push(repos[i].path.clone());
            proof {
                assert(texts(out@) =~= before.push(repos@[i as int].path@));
            }
        }
        i += 1;
    }
    proof {
        assert(repos@.take(i as int) =~= repos@);
    }
    out
}

/// The place of a stage in the order in which they come.
pub open spec fn rank(stage: Stage) -> int {
    match stage {
        Stage::LocateOutput => 17,
        Stage::Respawn => 18,
        Stage::RegisterSignals => 1,
        Stage::ForwardSignals => 2,
        Stage::LoadConfig => 3,
        Stage::InitLogging => 4,
        Stage::LocateConfig => 5,
        Stage::EnsurePassword => 6,
        Stage::LoadRepos => 7,
        Stage::ResolveStartup => 8,
        Stage::StartServer => 9,
        Stage::LocateSocket => 10,
        Stage::BindSocket => 11,
        Stage::CloneListener => 12,
        Stage::StartSession => 13,
        Stage::SpawnAccept => 14,
        Stage::AwaitShutdown => 15,
        Stage::StopServer => 16,
        Stage::ReleaseSocket => 18,
        Stage::Finished => 19,
        Stage::Failed => 20,
    }
}

/// A run moves forward only: it does nothing twice, and it comes to an end once
/// a stop was asked for. So signals are caught before anything is started, the
/// browser is served before the socket is bound, and the socket is given up only
/// after the session has stopped.
pub proof fn law_run_moves_forward(run: RunModel, event: StageEvent)
    requires
        fits(run.stage, event),
    ensures
        rank(run.stepped(event).stage) > rank(run.stage),
        run.stage is AwaitShutdown && !(event is Failed) ==> run.stepped(event).stage is StopServer,
        run.stage is StopServer ==> run.stepped(event).stage is ReleaseSocket,
        run.stage is ReleaseSocket ==> run.stepped(event).stage is Finished,
{
}

/// A run that goes to the background only starts the copy: whatever comes of
/// it, it never reaches a stage that binds, serves or locks anything.
pub proof fn law_foreground_copy_only_hands_over(
    extra_panes: Seq<Seq<char>>,
    port: Option<u16>,
    bind: Option<Seq<char>>,
    first: StageEvent,
    second: StageEvent,
)
    requires
        fits(RunModel::begun(extra_panes, port, bind, true, false).stage, first),
        fits(RunModel::begun(extra_panes, port, bind, true, false).stepped(first).stage, second),
    ensures
        ({
            let begun = RunModel::begun(extra_panes, port, bind, true, false);
            let then = begun.stepped(first);
            let last = then.stepped(second);
            &&& begun.stage is LocateOutput
            &&& then.stage is Respawn
            &&& last.stage is Finished || last.stage is Failed
        }),
{
}

/// The copy in the background runs the session itself, whatever flags it was
/// given.
pub proof fn law_background_copy_runs_the_session(
    extra_panes: Seq<Seq<char>>,
    port: Option<u16>,
    bind: Option<Seq<char>>,
    detach: bool,
)
    ensures
        RunModel::begun(extra_panes, port, bind, detach, true).stage is RegisterSignals,
{
}

/// What the command line says about the browser wins over the configuration,
/// and what it does not say is left alone.
pub proof fn law_command_line_overrides_the_configuration(run: RunModel, web: WebViewer)
    ensures
        ({
            let loaded = run.stepped(StageEvent::Loaded(web)).web->Some_0;
            &&& run.port matches Some(port) ==> loaded.0 == port
            &&& run.port is None ==> loaded.0 == web.port
            &&& run.bind matches Some(bind) ==> loaded.1 == bind
            &&& run.bind is None ==> loaded.1 == web.bind@
        }),
{
}

/// How long attaching waits for a session it started, in milliseconds. Starting
/// opens every remembered repository and runs the startup panes before the
/// socket is bound.
pub const DAEMON_READY_TIMEOUT_MS: u64 = 20_000;

/// Gap between two looks while waiting for that, in milliseconds.
pub const DAEMON_READY_POLL_MS: u64 = 50;

/// What `nightcrow -d attach` does.
#[derive(Debug, Clone, Copy, PartialEq, Eq, Structural)]
pub enum AttachPlan {
    /// Attach to the session that runs.
    Attach,
    /// Start one in the background, wait for it, and attach.
    StartFirst,
}

/// What `nightcrow -d attach` does, given whether a session accepts. One that
/// runs is attached to as it is: a second would only lose the lock.
pub fn run_attach_detached(accepts: bool) -> (r: AttachPlan)
    ensures
        r == if accepts {
            AttachPlan::Attach
        } else {
            AttachPlan::StartFirst
        },
{
    if accepts {
        AttachPlan::Attach
    } else {
        AttachPlan::StartFirst
    }
}

/// What is printed once a session was started for attaching.
pub fn started_lines(pid: u32, log: &NativePath) -> (r: Vec<String>)
    ensures
        texts(r@) == seq![
            "nightcrow: started a session in the background (pid "@ + decimal_text(pid as nat)
                + ")"@,
            "nightcrow: its output goes to "@ + lossy_text(log@),
        ],
{
    let mut out: Vec<String> = Vec::new();
    out.push(
        "nightcrow: started a session in the background (pid ".to_owned().concat(
            decimal(pid as u64).as_str(),
        ).concat(")"),
    );
    out.push("nightcrow: its output goes to ".to_owned().concat(log.shown().as_str()));
    proof {
        assert(texts(out@) =~= seq![
            "nightcrow: started a session in the background (pid "@ + decimal_text(pid as nat)
                + ")"@,
            "nightcrow: its output goes to "@ + lossy_text(log@),
        ]);
    }
    out
}

/// What is said where a session does not come up.
pub open spec fn not_ready_text(log: Seq<u8>) -> Seq<char> {
    "the session did not start within 20s — see "@ + lossy_text(log)
}

/// One look while waiting for the session: `None` where it is to be looked for
/// again after `DAEMON_READY_POLL_MS`. Past the deadline it is not asked any
/// more. An early failure shows up as running out of time, so the error says
/// where to look.
pub fn wait_for_daemon(now: u64, deadline: u64, accepts: bool, log: &NativePath) -> (r: Option<
    Result<(), String>,
>)
    ensures
        if now >= deadline {
            r matches Some(Err(text)) && text@ == not_ready_text(log@)
        } else if accepts {
            r == Some(Ok::<(), String>(()))
        } else {
            r is None
        },
{
    if now >= deadline {
        return Some(
            Err(
                "the session did not start within 20s — see ".to_owned().concat(
                    log.shown().as_str(),
                ),
            ),
        );
    }
    if accepts {
        return Some(Ok(()));
    }
    None
}

/// What writing a starter configuration came to.
#[derive(Debug)]
pub enum InitOutcome {
    Created(NativePath),
    AlreadyExists(NativePath),
}

/// What is printed about a starter configuration.
pub open spec fn init_text(outcome: InitOutcome) -> Seq<Seq<char>> {
    match outcome {
        InitOutcome::Created(path) => seq![
            "Created starter config at "@ + lossy_text(path@),
            "Edit it to reserve startup commands, panel layout, theme, and more."@,
        ],
        InitOutcome::AlreadyExists(path) => seq![
            "Config already exists at "@ + lossy_text(path@)
                + " — left untouched (pass --force to overwrite)."@,
        ],
    }
}

/// What is printed about a starter configuration.
pub fn run_init(outcome: &InitOutcome) -> (r: Vec<String>)
    ensures
        texts(r@) == init_text(*outcome),
{
    let mut out: Vec<String> = Vec::new();
    match outcome {
        InitOutcome::Created(path) => {
            out.push("Created starter config at ".to_owned().concat(path.shown().as_str()));
            out.push(
                "Edit it to reserve startup commands, panel layout, theme, and more.".to_owned(),
            );
        },
        InitOutcome::AlreadyExists(path) => {
            out.push(
                "Config already exists at ".to_owned().concat(path.shown().as_str()).concat(
                    " — left untouched (pass --force to overwrite).",
                ),
            );
        },
    }
    proof {
        assert(texts(out@) =~= init_text(*outcome));
    }
    out
}

/// How the daemon answered a request to stop.
#[derive(Debug)]
pub enum StopReply {
    /// It closed the connection.
    Closed,
    /// It said something first.
    Said,
    ConnectionReset,
    ConnectionAborted,
    UnexpectedEnd,
    /// Reading failed in another way.
    Unreadable(String),
}

/// How far a request to stop came.
#[derive(Debug)]
pub enum StopProgress {
    /// There is no socket.
    NoSocket,
    CannotConnect(String),
    CannotEncode(String),
    CannotSend(String),
    CannotFlush(String),
    /// The request is on its way.
    Sent(StopReply),
}

/// What the daemon is asked, to stop it.
pub fn stop_request() -> (r: ClientMessage)
    ensures
        r.model() == ClientMessageModel::Shutdown,
{
    ClientMessage::Shutdown
}

/// The frame that asks the daemon to stop, from the encoded request.
pub fn stop_frame(request: Vec<u8>) -> (r: Frame)
    ensures
        r@ == (FrameView { kind: FrameKind::Control, payload: request@ }),
{
    Frame::control(request)
}

/// The socket a request to stop goes to: the one given, else the default.
pub fn stop_socket(socket: Option<NativePath>, default: Result<NativePath, NoHome>) -> (r: Result<
    NativePath,
    NoHome,
>)
    ensures
        r == match socket {
            Some(path) => Ok::<NativePath, NoHome>(path),
            None => default,
        },
{
    match socket {
        Some(path) => Ok(path),
        None => default,
    }
}

/// What a request to stop comes to: what is printed, or what went wrong.
pub open spec fn stop_outcome(path: Seq<u8>, progress: StopProgress) -> Result<
    Seq<char>,
    Seq<char>,
> {
    match progress {
        StopProgress::NoSocket => Err(
            "no daemon socket at "@ + lossy_text(path) + " — is a nightcrow daemon running?"@,
        ),
        StopProgress::CannotConnect(reason) => Err(
            "could not connect to the daemon socket at "@ + lossy_text(path)
                + " — the daemon may have stopped: "@ + reason@,
        ),
        StopProgress::CannotEncode(reason) => Err("encoding the shutdown request: "@ + reason@),
        StopProgress::CannotSend(reason) => Err("sending the shutdown request: "@ + reason@),
        StopProgress::CannotFlush(reason) => Err("flushing the shutdown request: "@ + reason@),
        StopProgress::Sent(StopReply::Unreadable(reason)) => Err(
            "waiting for the daemon to acknowledge the shutdown: "@ + reason@,
        ),
        StopProgress::Sent(_) => Ok("nightcrow: daemon is shutting down"@),
    }
}

/// What a request to stop comes to.
///
/// The daemon closes the connection as its acknowledgment; the request carries
/// no answer by design. A connection that breaks after the request was sent is
/// how that can look from here, so it counts as acknowledged too.
pub fn run_stop(path: &NativePath, progress: &StopProgress) -> (r: Result<String, String>)
    ensures
        match stop_outcome(path@, *progress) {
            Ok(line) => r matches Ok(said) && said@ == line,
            Err(text) => r matches Err(said) && said@ == text,
        },
{
    match progress {
        StopProgress::NoSocket => Err(
            "no daemon socket at ".to_owned().concat(path.shown().as_str()).concat(
                " — is a nightcrow daemon running?",
            ),
        ),
        StopProgress::CannotConnect(reason) => Err(
            "could not connect to the daemon socket at ".to_owned().concat(
                path.shown().as_str(),
            ).concat(" — the daemon may have stopped: ").concat(reason.as_str()),
        ),
        StopProgress::CannotEncode(reason) => Err(
            "encoding the shutdown request: ".to_owned().concat(reason.as_str()),
        ),
        StopProgress::CannotSend(reason) => Err(
            "sending the shutdown request: ".to_owned().concat(reason.as_str()),
        ),
        StopProgress::CannotFlush(reason) => Err(
            "flushing the shutdown request: ".to_owned().concat(reason.as_str()),
        ),
        StopProgress::Sent(reply) => match reply {
            StopReply::Unreadable(reason) => Err(
                "waiting for the daemon to acknowledge the shutdown: ".to_owned().concat(
                    reason.as_str(),
                ),
            ),
            _ => Ok("nightcrow: daemon is shutting down".to_owned()),
        },
    }
}

/// Stopping is reported as done only where the request was sent.
pub proof fn law_stop_succeeds_only_once_sent(path: Seq<u8>, progress: StopProgress)
    requires
        stop_outcome(path, progress) is Ok,
    ensures
        progress is Sent,
{
}

/// The stages of a run in the foreground, one after another.
pub proof fn law_a_run_goes_in_order()
    ensures
        after(Stage::RegisterSignals) == Stage::ForwardSignals,
        after(Stage::ForwardSignals) == Stage::LoadConfig,
        after(Stage::LoadConfig) == Stage::InitLogging,
        after(Stage::InitLogging) == Stage::LocateConfig,
        after(Stage::LocateConfig) == Stage::EnsurePassword,
        after(Stage::EnsurePassword) == Stage::LoadRepos,
        after(Stage::LoadRepos) == Stage::ResolveStartup,
        after(Stage::ResolveStartup) == Stage::StartServer,
        after(Stage::StartServer) == Stage::LocateSocket,
        after(Stage::LocateSocket) == Stage::BindSocket,
        after(Stage::BindSocket) == Stage::CloneListener,
        after(Stage::CloneListener) == Stage::StartSession,
        after(Stage::StartSession) == Stage::SpawnAccept,
        after(Stage::SpawnAccept) == Stage::AwaitShutdown,
        after(Stage::AwaitShutdown) == Stage::StopServer,
        after(Stage::StopServer) == Stage::ReleaseSocket,
        after(Stage::ReleaseSocket) == Stage::Finished,
        after(Stage::LocateOutput) == Stage::Respawn,
        after(Stage::Respawn) == Stage::Finished,
{
}

/// A run goes to the background exactly where that is asked for and it is not
/// the background copy already, and otherwise serves here; it keeps the panes,
/// the port and the address it was given.
pub proof fn law_runs_begin_where_they_were_asked_to(
    extra_panes: Seq<Seq<char>>,
    port: Option<u16>,
    bind: Option<Seq<char>>,
    detach: bool,
    is_child: bool,
)
    ensures
        ({
            let run = RunModel::begun(extra_panes, port, bind, detach, is_child);
            &&& run.stage is LocateOutput <==> detach && !is_child
            &&& run.stage is RegisterSignals <==> !detach || is_child
            &&& run.extra_panes == extra_panes
            &&& run.port == port
            &&& run.bind == bind
            &&& run.repos.len() == 0
            &&& run.web is None
        }),
{
}

/// A step that succeeds goes on to the next stage and changes nothing but what
/// it brings: a path, the port and address, where those given on the command
/// line win over those in the configuration, the repositories that are still
/// directories, and where the server listens.
pub proof fn law_steps_keep_what_they_bring(m: RunModel, event: StageEvent)
    ensures
        ({
            let now = m.stepped(event);
            &&& !(event is Failed) ==> now.stage == after(m.stage) && now.error == m.error
            &&& now.extra_panes == m.extra_panes && now.port == m.port && now.bind == m.bind
            &&& now.path == match event {
                StageEvent::Located(path) => path@,
                _ => m.path,
            }
            &&& event matches StageEvent::Loaded(web) ==> {
                &&& now.web is Some
                &&& m.port matches Some(port) ==> (now.web->0).0 == port
                &&& m.port is None ==> (now.web->0).0 == web.port
                &&& m.bind matches Some(bind) ==> (now.web->0).1 == bind
                &&& m.bind is None ==> (now.web->0).1 == web.bind@
            }
            &&& !(event is Loaded) ==> now.web == m.web
            &&& event matches StageEvent::Remembered(repos) ==> now.repos == repos@.filter(
                |r: RememberedRepo| r.is_dir,
            ).map_values(|r: RememberedRepo| r.path@)
            &&& !(event is Remembered) ==> now.repos == m.repos
            &&& event matches StageEvent::Served { addr, ip, loopback } ==> now.ip == ip@
                && now.loopback == loopback
            &&& !(event is Served) ==> now.ip == m.ip && now.loopback == m.loopback
        }),
{
    if let StageEvent::Remembered(repos) = event {
        lemma_still_there(repos@);
    }
}

proof fn lemma_still_there(repos: Seq<RememberedRepo>)
    ensures
        still_there(repos) == repos.filter(|r: RememberedRepo| r.is_dir).map_values(
            |r: RememberedRepo| r.path@,
        ),
    decreases repos.len(),
{
    reveal(Seq::filter);
    if repos.len() > 0 {
        lemma_still_there(repos.drop_last());
        let keep = |r: RememberedRepo| r.is_dir;
        let path = |r: RememberedRepo| r.path@;
        let before = repos.drop_last().filter(keep);
        if repos.last().is_dir {
            assert(before.push(repos.last()).map_values(path) =~= before.map_values(path).push(
                repos.last().path@,
            ));
        }
    } else {
        assert(repos.filter(|r: RememberedRepo| r.is_dir) =~= Seq::<RememberedRepo>::empty());
    }
}

/// A stage that fails ends the run, with the reason at the end of what is said
/// of it.
pub proof fn law_failed_stages_end_the_run(m: RunModel, reason: String)
    ensures
        m.stepped(StageEvent::Failed(reason)).stage is Failed,
        m.stage is ForwardSignals ==> m.stepped(StageEvent::Failed(reason)).error
            == "spawning the signal-forwarding thread: "@ + reason@,
        m.stage is CloneListener ==> m.stepped(StageEvent::Failed(reason)).error
            == "cloning the daemon listener: "@ + reason@,
        m.stage is SpawnAccept ==> m.stepped(StageEvent::Failed(reason)).error
            == "spawning the daemon accept thread: "@ + reason@,
        m.stage is AwaitShutdown ==> m.stepped(StageEvent::Failed(reason)).error
            == "the shutdown channel closed without a signal: "@ + reason@,
        !(m.stage is ForwardSignals || m.stage is CloneListener || m.stage is SpawnAccept
            || m.stage is AwaitShutdown) ==> m.stepped(StageEvent::Failed(reason)).error
            == reason@,
{
    reveal_strlit("");
    assert(""@ + reason@ =~= reason@);
}

/// What is served is told with the number of repositories, and that one is
/// reachable from elsewhere is warned of.
pub proof fn law_serving_is_announced(m: RunModel, addr: Seq<char>, repos: nat)
    ensures
        serving_text(0, addr) == "nightcrow: serving an empty catalog at http://"@ + addr
            + "/ — open a repository from a client"@,
        serving_text(1, addr) == "nightcrow: web viewer serving "@ + decimal_text(1)
            + " repositor"@ + "y"@ + " at http://"@ + addr + "/"@,
        repos > 1 ==> serving_text(repos, addr) == "nightcrow: web viewer serving "@
            + decimal_text(repos) + " repositor"@ + "ies"@ + " at http://"@ + addr + "/"@,
        m.stage is SpawnAccept && m.loopback ==> m.said(StageEvent::Done)
            == seq!["nightcrow: press Ctrl-C to stop"@],
        m.stage is SpawnAccept && !m.loopback ==> m.said(StageEvent::Done) == seq![
            "nightcrow: WARNING bound to "@ + m.ip + " — repository contents and interactive"@,
            "nightcrow: shells are reachable from the network over plain HTTP."@,
            "nightcrow: press Ctrl-C to stop"@,
        ],
        m.stage is BindSocket ==> m.said(StageEvent::Done) == seq![
            "nightcrow: attach with `nightcrow attach` ("@ + lossy_text(m.path) + ")"@,
        ],
        !(m.stage is SpawnAccept || m.stage is BindSocket) ==> m.said(StageEvent::Done).len() == 0,
{
}

/// A stop has succeeded wherever the request was sent, unless the answer could
/// not be read for another reason than that the daemon is gone; every failure
/// says why at its end.
pub proof fn law_a_sent_stop_succeeds(path: Seq<u8>, progress: StopProgress)
    ensures
        stop_outcome(path, progress) is Ok <==> (progress matches StopProgress::Sent(reply) && !(
        reply is Unreadable)),
        progress matches StopProgress::CannotConnect(reason) ==> stop_outcome(path, progress)
            == Err::<Seq<char>, Seq<char>>(
            "could not connect to the daemon socket at "@ + lossy_text(path)
                + " — the daemon may have stopped: "@ + reason@,
        ),
        progress matches StopProgress::CannotEncode(reason) ==> stop_outcome(path, progress)
            == Err::<Seq<char>, Seq<char>>("encoding the shutdown request: "@ + reason@),
        progress matches StopProgress::CannotSend(reason) ==> stop_outcome(path, progress) == Err::<
            Seq<char>,
            Seq<char>,
        >("sending the shutdown request: "@ + reason@),
        progress matches StopProgress::CannotFlush(reason) ==> stop_outcome(path, progress)
            == Err::<Seq<char>, Seq<char>>("flushing the shutdown request: "@ + reason@),
        progress is NoSocket ==> stop_outcome(path, progress) == Err::<Seq<char>, Seq<char>>(
            "no daemon socket at "@ + lossy_text(path) + " — is a nightcrow daemon running?"@,
        ),
{
}

} // verus!

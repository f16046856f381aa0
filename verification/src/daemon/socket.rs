//! The daemon's Unix socket: where it lives, and what to do about one left
//! behind by a process that is gone.
//!
//! Authentication is the filesystem. The socket sits under the user's own
//! directory and only its owner may open it, so reaching it already means
//! being that user.

use crate::home::{home_dir, is_below, path_below, NoHome};
use crate::native::{
    law_paths_are_taken_apart_as_spelled, native_reextended, spelled, NativePath,
};
use crate::paths::{
    extension_of, front_len, lemma_other_name, lemma_trimmed_name, name_of, parts_of, reextended,
    trimmed, PartModel,
};
use crate::text::{decimal_text, decimal_usize, lossy_text};
use vstd::prelude::*;
use vstd::utf8::{encode_utf8, is_ascii_chars, is_ascii_chars_encode_utf8};

verus! {

/// Longest path, in bytes, that a Unix socket can have, plus one.
pub const SOCKET_PATH_LIMIT: usize = 108;

/// The lock file guarding `socket`: the same name with a `.lock` extension, so
/// a non-default socket path brings its own lock rather than sharing one.
pub open spec fn lock_beside(socket: Seq<u8>) -> Seq<u8> {
    native_reextended(socket, encode_utf8("lock"@))
}

/// The lock file guarding `socket`.
pub fn lock_path_for(socket: &NativePath) -> (r: NativePath)
    ensures
        r@ == lock_beside(socket@),
{
    socket.with_extension("lock")
}

/// Default path: `~/.nightcrow/daemon.sock`. Beside the config and workspace
/// files rather than in a directory the system cleans: a socket that disappears
/// under a running daemon strands every client.
pub fn default_socket_path() -> (r: Result<NativePath, NoHome>)
    ensures
        exists|home: Option<NativePath>| #[trigger] is_below(home, ".nightcrow/daemon.sock"@, r),
{
    let home = home_dir();
    socket_path_in(&home)
}

/// The default path, given where home is.
pub fn socket_path_in(home: &Option<NativePath>) -> (r: Result<NativePath, NoHome>)
    ensures
        is_below(*home, ".nightcrow/daemon.sock"@, r),
{
    path_below(home, ".nightcrow/daemon.sock")
}

/// What a daemon says that finds another one running.
pub open spec fn already_running_text(lock_path: Seq<u8>) -> Seq<char> {
    "a nightcrow daemon is already running (holding "@ + lossy_text(lock_path) + ")"@
}

/// What a daemon says that finds another one running.
pub fn already_running_message(lock_path: &NativePath) -> (r: String)
    ensures
        r@ == already_running_text(lock_path@),
{
    "a nightcrow daemon is already running (holding ".to_owned().concat(
        lock_path.shown().as_str(),
    ).concat(")")
}

/// What a failed bind says: a path over the system's limit is named as the
/// likely reason.
pub open spec fn bind_failure_text(path: Seq<u8>) -> Seq<char> {
    if path.len() >= SOCKET_PATH_LIMIT {
        "binding the daemon socket "@ + lossy_text(path) + " — the path is "@ + decimal_text(
            path.len(),
        ) + " bytes, over the ~107 byte AF_UNIX limit"@
    } else {
        "binding the daemon socket "@ + lossy_text(path)
    }
}

/// What a failed bind says.
pub fn bind_failure_message(path: &NativePath) -> (r: String)
    ensures
        r@ == bind_failure_text(path@),
{
    let len: usize = path.bytes.len();
    let said = "binding the daemon socket ".to_owned().concat(path.shown().as_str());
    if len >= SOCKET_PATH_LIMIT {
        said.concat(" — the path is ").concat(decimal_usize(len).as_str()).concat(
            " bytes, over the ~107 byte AF_UNIX limit",
        )
    } else {
        said
    }
}

proof fn lemma_spelled_lock()
    ensures
        spelled(encode_utf8("lock"@)) == "lock"@,
{
    reveal_strlit("lock");
    assert(is_ascii_chars("lock"@));
    is_ascii_chars_encode_utf8("lock"@);
    assert(spelled(encode_utf8("lock"@)) =~= "lock"@);
}

/// The lock and the socket it guards lie side by side and are two files, as
/// long as the socket is not itself named `.lock`.
pub proof fn law_lock_lies_beside_the_socket(socket: Seq<u8>)
    requires
        name_of(parts_of(spelled(socket))) is Some,
        extension_of(name_of(parts_of(spelled(socket)))->0) != Some("lock"@),
    ensures
        parts_of(spelled(lock_beside(socket))).drop_last() == parts_of(spelled(socket)).drop_last(),
        parts_of(spelled(lock_beside(socket))) != parts_of(spelled(socket)),
{
    let text = spelled(socket);
    let lock = spelled(lock_beside(socket));
    let parts = parts_of(text);
    let name = name_of(parts)->0;
    let stem = crate::paths::stem_of(name);
    reveal_strlit("lock");
    reveal_strlit(".");
    reveal_strlit("..");
    let renamed = stem + "."@ + "lock"@;
    law_paths_are_taken_apart_as_spelled(socket, encode_utf8("lock"@));
    lemma_spelled_lock();
    assert(lock == reextended(text, "lock"@));
    lemma_trimmed_name(text);
    let t = trimmed(text);
    assert(lock == t.take(front_len(t)) + renamed);
    assert(renamed.len() >= 5);
    assert(!renamed.contains('/')) by {
        crate::paths::lemma_name_holds_no_separator(text);
        crate::text::lemma_last_index(name, '.');
        if renamed.contains('/') {
            let k = choose|k: int| 0 <= k < renamed.len() && renamed[k] == '/';
            assert(k < stem.len());
            assert(stem[k] == name[k]);
            assert(name.contains('/'));
        }
    }
    lemma_other_name(text, renamed);
    assert(parts_of(lock).drop_last() =~= parts.drop_last());
    if parts_of(lock) == parts {
        assert(parts.last() == PartModel::Name(renamed));
        assert(name == renamed);
        crate::text::lemma_last_index(name, '.');
        let n = stem.len() as int;
        assert(name[n] == '.');
        assert(name.contains('.'));
        if crate::paths::dot_of(name) is Some {
            let i = crate::paths::dot_of(name)->0;
            assert(n == i);
            assert(name.skip(i + 1) =~= "lock"@);
        } else {
            assert(stem == name);
            assert(name.len() == n);
        }
    }
}

/// How far binding the socket has come: what is to be done now.
#[derive(Debug, Clone, Copy, PartialEq, Eq, Structural)]
pub enum BindPhase {
    /// Take the lock beside the socket.
    Lock,
    /// See whether a socket file is there.
    Look,
    /// Remove it: the lock is ours, so nothing is listening on it.
    RemoveStale,
    Bind,
    /// Let only its owner open it. After binding, which makes the file.
    Restrict,
    Bound,
    Failed,
}

/// What came of it.
#[derive(Debug)]
pub enum BindEvent {
    Done,
    /// Whether the lock was taken.
    Locked(bool),
    /// Whether a socket file is there.
    Seen(bool),
    Failed(String),
}

/// Whether an event can come of a phase.
pub open spec fn bind_fits(phase: BindPhase, event: BindEvent) -> bool {
    match event {
        BindEvent::Locked(_) => phase is Lock,
        BindEvent::Seen(_) => phase is Look,
        BindEvent::Done => phase is RemoveStale || phase is Bind || phase is Restrict,
        BindEvent::Failed(_) => phase is Lock || phase is RemoveStale || phase is Bind
            || phase is Restrict,
    }
}

/// A socket that is being bound, as plain values.
#[verifier::ext_equal]
pub struct SocketModel {
    pub path: Seq<u8>,
    pub phase: BindPhase,
    pub error: Seq<char>,
}

impl SocketModel {
    pub open spec fn begun(path: Seq<u8>) -> SocketModel {
        SocketModel { path, phase: BindPhase::Lock, error: Seq::empty() }
    }

    pub open spec fn failed(self, error: Seq<char>) -> SocketModel {
        SocketModel { phase: BindPhase::Failed, error, ..self }
    }

    pub open spec fn stepped(self, event: BindEvent) -> SocketModel {
        match event {
            BindEvent::Locked(ours) => if ours {
                SocketModel { phase: BindPhase::Look, ..self }
            } else {
                self.failed(already_running_text(lock_beside(self.path)))
            },
            BindEvent::Seen(there) => SocketModel {
                phase: if there {
                    BindPhase::RemoveStale
                } else {
                    BindPhase::Bind
                },
                ..self
            },
            BindEvent::Done => SocketModel {
                phase: match self.phase {
                    BindPhase::RemoveStale => BindPhase::Bind,
                    BindPhase::Bind => BindPhase::Restrict,
                    _ => BindPhase::Bound,
                },
                ..self
            },
            BindEvent::Failed(reason) => self.failed(
                match self.phase {
                    BindPhase::RemoveStale => "removing the stale socket "@ + lossy_text(
                        self.path,
                    ) + ": "@ + reason@,
                    BindPhase::Bind => bind_failure_text(self.path) + ": "@ + reason@,
                    BindPhase::Restrict => "restricting the daemon socket "@ + lossy_text(
                        self.path,
                    ) + ": "@ + reason@,
                    _ => reason@,
                },
            ),
        }
    }
}

/// The daemon's socket, held together with the claim that makes it ours.
#[derive(Debug)]
pub struct DaemonSocket {
    path: NativePath,
    phase: BindPhase,
    error: String,
}

impl DaemonSocket {
    pub closed spec fn model(&self) -> SocketModel {
        SocketModel { path: self.path@, phase: self.phase, error: self.error@ }
    }

    /// Begin to bind the socket at `path`, which refuses to start beside a
    /// daemon that already runs.
    ///
    /// The lock decides, not the socket file. A socket outliving its process is
    /// the normal case after a crash, and it is indistinguishable from a live
    /// one by inspection. Only once the lock is ours is whatever file is there
    /// debris.
    pub fn bind(path: &NativePath) -> (r: DaemonSocket)
        ensures
            r.model() == SocketModel::begun(path@),
    {
        let r = DaemonSocket {
            path: path.duplicate(),
            phase: BindPhase::Lock,
            error: String::new(),
        };
        proof {
            assert(r.model() =~= SocketModel::begun(path@));
        }
        r
    }

    /// What is to be done now.
    pub fn phase(&self) -> (r: BindPhase)
        ensures
            r == self.model().phase,
    {
        self.phase
    }

    /// Where the socket is.
    pub fn path(&self) -> (r: &NativePath)
        ensures
            r@ == self.model().path,
    {
        &self.path
    }

    /// Why it could not be bound.
    pub fn error(&self) -> (r: &str)
        ensures
            r@ == self.model().error,
    {
        self.error.as_str()
    }

    /// Take in what came of the phase.
    pub fn step(&mut self, event: BindEvent)
        requires
            bind_fits(old(self).model().phase, event),
        ensures
            final(self).model() == old(self).model().stepped(event),
    {
        let ghost before = self.model();
        let ghost given = event;
        match event {
            BindEvent::Locked(ours) => {
                if ours {
                    self.phase = BindPhase::Look;
                } else {
                    let lock = lock_path_for(&self.path);
                    self.error = already_running_message(&lock);
                    self.phase = BindPhase::Failed;
                }
            },
            BindEvent::Seen(there) => {
                self.phase = if there {
                    BindPhase::RemoveStale
                } else {
                    BindPhase::Bind
                };
            },
            BindEvent::Done => {
                self.phase = match self.phase {
                    BindPhase::RemoveStale => BindPhase::Bind,
                    BindPhase::Bind => BindPhase::Restrict,
                    _ => BindPhase::Bound,
                };
            },
            BindEvent::Failed(reason) => {
                self.error = match self.phase {
                    BindPhase::RemoveStale => "removing the stale socket ".to_owned().concat(
                        self.path.shown().as_str(),
                    ).concat(": ").concat(reason.as_str()),
                    BindPhase::Bind => bind_failure_message(&self.path).concat(
                        ": ",
                    ).concat(reason.as_str()),
                    BindPhase::Restrict => "restricting the daemon socket ".to_owned().concat(
                        self.path.shown().as_str(),
                    ).concat(": ").concat(reason.as_str()),
                    _ => reason,
                };
                self.phase = BindPhase::Failed;
            },
        }
        proof {
            assert(self.model() =~= before.stepped(given));
        }
    }
}

/// Whether a phase lies behind taking the lock.
pub open spec fn behind_the_lock(phase: BindPhase) -> bool {
    phase is Look || phase is RemoveStale || phase is Bind || phase is Restrict || phase is Bound
}

/// No socket file is looked at, removed or bound before the lock is ours, and a
/// daemon that does not get the lock leaves everything alone.
pub proof fn law_lock_comes_first(socket: SocketModel, event: BindEvent)
    requires
        bind_fits(socket.phase, event),
        !behind_the_lock(socket.phase),
        behind_the_lock(socket.stepped(event).phase),
    ensures
        event == BindEvent::Locked(true),
        socket.phase is Lock,
{
}

/// A socket is bound behind the lock: what lies at its path from an earlier
/// daemon is removed first, then it is bound, then it is closed to others. Only
/// then is it bound.
pub proof fn law_binding_goes_in_order(path: Seq<u8>, stale: bool)
    ensures
        ({
            let start = SocketModel::begun(path);
            let locked = start.stepped(BindEvent::Locked(true));
            let seen = locked.stepped(BindEvent::Seen(stale));
            let cleared = if stale {
                seen.stepped(BindEvent::Done)
            } else {
                seen
            };
            let bound = cleared.stepped(BindEvent::Done);
            let closed = bound.stepped(BindEvent::Done);
            &&& start.phase is Lock
            &&& locked.phase is Look
            &&& seen.phase is RemoveStale <==> stale
            &&& cleared.phase is Bind
            &&& bound.phase is Restrict
            &&& closed.phase is Bound
            &&& closed.path == path
        }),
{
}

/// A lock that is someone else's ends the binding and names the lock; so does
/// whatever fails, and says what failed, and why at the end.
pub proof fn law_binding_fails_aloud(m: SocketModel, event: BindEvent)
    requires
        bind_fits(m.phase, event),
    ensures
        event == BindEvent::Locked(false) ==> m.stepped(event).phase is Failed && m.stepped(
            event,
        ).error == "a nightcrow daemon is already running (holding "@ + lossy_text(
            native_reextended(m.path, encode_utf8("lock"@)),
        ) + ")"@,
        event matches BindEvent::Failed(reason) ==> m.stepped(event).phase is Failed && m.stepped(
            event,
        ).error == match m.phase {
            BindPhase::Lock => reason@,
            BindPhase::RemoveStale => "removing the stale socket "@ + lossy_text(m.path) + ": "@
                + reason@,
            BindPhase::Bind => bind_failure_text(m.path) + ": "@ + reason@,
            _ => "restricting the daemon socket "@ + lossy_text(m.path) + ": "@ + reason@,
        },
        m.stepped(event).phase is Failed <==> event == BindEvent::Locked(false)
            || event is Failed,
{
}

/// A path of at most a hundred and seven bytes fits a socket's address, and a
/// failure to bind it is not put down to its length.
pub proof fn law_long_paths_are_named_as_such(path: Seq<u8>)
    ensures
        path.len() <= 107 ==> bind_failure_text(path) == "binding the daemon socket "@
            + lossy_text(path),
        path.len() > 107 ==> bind_failure_text(path) == "binding the daemon socket "@ + lossy_text(
            path,
        ) + " — the path is "@ + decimal_text(path.len())
            + " bytes, over the ~107 byte AF_UNIX limit"@,
{
}

} // verus!

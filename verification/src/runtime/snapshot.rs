//! The background reading of a repository's status.

use crate::git::diff::types::{ChangedFile, RepoSnapshot};
use crate::native::{native_joined, raw_paths, NativePath};
use crate::runtime::snapshot_watch::Wake;
use crate::textmap::TextMap;
use vstd::prelude::*;
use vstd::utf8::encode_utf8;

verus! {

/// Shortest gap between two reads, in milliseconds. The rate limit is what
/// makes watching safe: a tree that churns without pause costs what reading on
/// a timer costs and never more.
pub const MIN_READ_INTERVAL_MS: u64 = 1000;

/// Longest gap between two reads while awake and watching, in milliseconds: a
/// watcher can miss an event. With no watcher at all the reader falls back to
/// the shortest gap.
pub const IDLE_READ_INTERVAL_MS: u64 = 10_000;

/// How many reads an open repository handle serves before it is opened anew, so
/// that changes behind its back are seen.
pub const REOPEN_REPO_EVERY_READS: u32 = 30;

/// What a read came to: a status with the times its files were last written, in
/// nanoseconds since the epoch, or what went wrong.
#[derive(Debug)]
pub enum SnapshotMsg {
    Read(RepoSnapshot, TextMap<i128>),
    Failed(String),
}

/// Why there is no message.
#[derive(Debug, Clone, Copy, PartialEq, Eq, Structural)]
pub enum TryRecvError {
    /// None yet.
    Empty,
    /// None any more: the reader is gone.
    Disconnected,
}

/// What turns the reading on and off.
#[derive(Debug)]
pub struct SnapshotWatch {
    awake: bool,
    wakes: Vec<Wake>,
    wired: bool,
}

/// The same, as plain values: what wakes are on their way to the reader, and
/// whether it still listens for them.
#[verifier::ext_equal]
pub struct WatchModel {
    pub awake: bool,
    pub wakes: Seq<WakeModel>,
    pub wired: bool,
}

#[verifier::ext_equal]
pub enum WakeModel {
    Changed(Seq<Seq<u8>>),
    Stop,
}

pub open spec fn wake_model(wake: Wake) -> WakeModel {
    match wake {
        Wake::Changed(paths) => WakeModel::Changed(raw_paths(paths@)),
        Wake::Stop => WakeModel::Stop,
    }
}

impl WatchModel {
    /// With a wake sent, if anyone listens.
    pub open spec fn woken(self, wake: WakeModel) -> WatchModel {
        if self.wired {
            WatchModel { wakes: self.wakes.push(wake), ..self }
        } else {
            self
        }
    }

    /// With the reading turned on or off. The reader is woken rather than left
    /// to its interval: resuming means that a client is waiting to see this
    /// repository.
    pub open spec fn set(self, awake: bool) -> WatchModel {
        WatchModel { awake, ..self }.woken(WakeModel::Changed(Seq::empty()))
    }

    /// With the reader told to stop, and nothing further said to it.
    pub open spec fn ended(self) -> WatchModel {
        WatchModel { wired: false, ..self.woken(WakeModel::Stop) }
    }
}

impl SnapshotWatch {
    pub closed spec fn model(&self) -> WatchModel {
        WatchModel {
            awake: self.awake,
            wakes: self.wakes@.map_values(|w: Wake| wake_model(w)),
            wired: self.wired,
        }
    }

    fn send(&mut self, wake: Wake)
        ensures
            final(self).model() == old(self).model().woken(wake_model(wake)),
    {
        let ghost before = self.model();
        if self.wired {
            let ghost sent = wake;
            self.wakes.push(wake);
            proof {
                assert(self.model().wakes =~= before.wakes.push(wake_model(sent)));
            }
        }
    }

    /// Whether the reading is on.
    pub fn is_awake(&self) -> (r: bool)
        ensures
            r == self.model().awake,
    {
        self.awake
    }

    /// Turn the reading on or off. Takes effect at once.
    pub fn set_awake(&mut self, awake: bool)
        ensures
            final(self).model() == old(self).model().set(awake),
    {
        self.awake = awake;
        let none: Vec<NativePath> = Vec::new();
        proof {
            assert(raw_paths(none@) =~= Seq::<Seq<u8>>::empty());
        }
        self.send(Wake::Changed(none));
    }

    /// The reader takes the next wake, if there is one.
    pub fn next_wake(&mut self) -> (r: Option<Wake>)
        ensures
            if old(self).model().wakes.len() > 0 {
                &&& r matches Some(wake) && wake_model(wake) == old(self).model().wakes[0]
                &&& final(self).model() == (WatchModel {
                    wakes: old(self).model().wakes.skip(1),
                    ..old(self).model()
                })
            } else {
                &&& r is None
                &&& final(self).model() == old(self).model()
            },
    {
        let ghost before = self.model();
        if self.wakes.len() == 0 {
            return None;
        }
        let wake = self.wakes.remove(0);
        proof {
            assert(self.model().wakes =~= before.wakes.skip(1));
        }
        Some(wake)
    }
}

/// The owner's end of the reading of one repository.
#[derive(Debug)]
pub struct SnapshotChannel {
    root: String,
    watch: SnapshotWatch,
    messages: Vec<SnapshotMsg>,
    reader_gone: bool,
}

/// The same, as plain values.
#[verifier::ext_equal]
pub struct ChannelModel {
    /// The repository that is read.
    pub root: Seq<char>,
    pub watch: WatchModel,
    pub messages: Seq<SnapshotMsg>,
    pub reader_gone: bool,
}

impl ChannelModel {
    pub open spec fn started(root: Seq<char>, awake: bool) -> ChannelModel {
        ChannelModel {
            root,
            watch: WatchModel { awake, wakes: Seq::empty(), wired: true },
            messages: Seq::empty(),
            reader_gone: false,
        }
    }
}

impl SnapshotChannel {
    pub closed spec fn model(&self) -> ChannelModel {
        ChannelModel {
            root: self.root@,
            watch: self.watch.model(),
            messages: self.messages@,
            reader_gone: self.reader_gone,
        }
    }

    /// Start reading at once, for an owner that is about to show the repository.
    pub fn spawn(repo_path: &str) -> (r: SnapshotChannel)
        ensures
            r.model() == ChannelModel::started(repo_path@, true),
    {
        SnapshotChannel::start(repo_path, true)
    }

    /// Start without reading, for an owner that knows nobody is looking yet.
    ///
    /// Not the same as starting and then turning the reading off: the reader
    /// could read before that, and walk a tree that nobody asked about.
    pub fn spawn_asleep(repo_path: &str) -> (r: SnapshotChannel)
        ensures
            r.model() == ChannelModel::started(repo_path@, false),
    {
        SnapshotChannel::start(repo_path, false)
    }

    fn start(repo_path: &str, awake: bool) -> (r: SnapshotChannel)
        ensures
            r.model() == ChannelModel::started(repo_path@, awake),
    {
        let r = SnapshotChannel {
            root: repo_path.to_owned(),
            watch: SnapshotWatch { awake, wakes: Vec::new(), wired: true },
            messages: Vec::new(),
            reader_gone: false,
        };
        proof {
            assert(r.model() =~= ChannelModel::started(repo_path@, awake));
        }
        r
    }

    /// The repository that is read.
    pub fn root(&self) -> (r: &str)
        ensures
            r@ == self.model().root,
    {
        self.root.as_str()
    }

    /// What turns the reading on and off.
    pub fn watch(&mut self) -> (r: &mut SnapshotWatch)
        ensures
            r.model() == old(self).model().watch,
            final(self).model() == (ChannelModel {
                watch: final(r).model(),
                ..old(self).model()
            }),
    {
        &mut self.watch
    }

    /// The reader has something to say.
    pub fn deliver(&mut self, message: SnapshotMsg)
        ensures
            final(self).model() == (ChannelModel {
                messages: old(self).model().messages.push(message),
                ..old(self).model()
            }),
    {
        self.messages.push(message);
    }

    /// The reader is gone.
    pub fn reader_ended(&mut self)
        ensures
            final(self).model() == (ChannelModel { reader_gone: true, ..old(self).model() }),
    {
        self.reader_gone = true;
    }

    /// The oldest message, if there is one. What was said before the reader
    /// went is still heard.
    pub fn try_recv(&mut self) -> (r: Result<SnapshotMsg, TryRecvError>)
        ensures
            if old(self).model().messages.len() > 0 {
                &&& r == Ok::<SnapshotMsg, TryRecvError>(old(self).model().messages[0])
                &&& final(self).model() == (ChannelModel {
                    messages: old(self).model().messages.skip(1),
                    ..old(self).model()
                })
            } else {
                &&& r == Err::<SnapshotMsg, TryRecvError>(
                    if old(self).model().reader_gone {
                        TryRecvError::Disconnected
                    } else {
                        TryRecvError::Empty
                    },
                )
                &&& final(self).model() == old(self).model()
            },
    {
        let ghost before = self.model();
        if self.messages.len() == 0 {
            return if self.reader_gone {
                Err(TryRecvError::Disconnected)
            } else {
                Err(TryRecvError::Empty)
            };
        }
        let message = self.messages.remove(0);
        proof {
            assert(self.messages@ =~= before.messages.skip(1));
        }
        Ok(message)
    }

    /// The owner is done: the reader is told to stop, at once rather than when
    /// its interval is over, and is told nothing after that.
    pub fn close(&mut self)
        ensures
            final(self).model() == (ChannelModel {
                watch: old(self).model().watch.ended(),
                ..old(self).model()
            }),
    {
        self.watch.send(Wake::Stop);
        self.watch.wired = false;
    }
}

/// Where a file of a snapshot is.
pub fn file_path(repo_root: &NativePath, file: &ChangedFile) -> (r: NativePath)
    ensures
        r@ == native_joined(repo_root@, encode_utf8(file.path@)),
{
    repo_root.join(file.path.as_str())
}

/// The times at which the first `n` files were last written, those that would
/// not tell left out.
pub open spec fn mtimes_of(files: Seq<ChangedFile>, stats: Seq<Option<i128>>, n: int) -> Map<
    Seq<char>,
    i128,
>
    decreases n,
{
    if n <= 0 {
        Map::empty()
    } else {
        let before = mtimes_of(files, stats, n - 1);
        match stats[n - 1] {
            Some(time) => before.insert(files[n - 1].path@, time),
            None => before,
        }
    }
}

/// The times at which the files of a snapshot were last written, from what
/// asking after each of them came to. One that cannot be asked after, because
/// it was deleted since, is left out.
pub fn collect_mtimes(snapshot: &RepoSnapshot, stats: &Vec<Option<i128>>) -> (r: TextMap<i128>)
    requires
        stats@.len() == snapshot.files@.len(),
    ensures
        r.wf(),
        r@ == mtimes_of(snapshot.files@, stats@, snapshot.files@.len() as int),
{
    let mut out: TextMap<i128> = TextMap::new();
    let mut i: usize = 0;
    while i < snapshot.files.len()
        invariant
            i <= snapshot.files@.len(),
            stats@.len() == snapshot.files@.len(),
            out.wf(),
            out@ == mtimes_of(snapshot.files@, stats@, i as int),
        decreases snapshot.files.len() - i,
    {
        if let Some(time) = stats[i] {
            out.insert(snapshot.files[i].path.clone(), time);
        }
        i += 1;
    }
    out
}

/// What a read comes to. `stats` is what asking after the files came to, or
/// `None` for a repository with no working tree.
pub fn read(status: Result<RepoSnapshot, String>, stats: Option<&Vec<Option<i128>>>) -> (r:
    SnapshotMsg)
    requires
        status matches Ok(snapshot) ==> (stats matches Some(s) ==> s@.len()
            == snapshot.files@.len()),
    ensures
        match status {
            Err(reason) => r == SnapshotMsg::Failed(reason),
            Ok(snapshot) => match r {
                SnapshotMsg::Read(told, mtimes) => told == snapshot && mtimes.wf() && mtimes@
                    == match stats {
                    Some(s) => mtimes_of(snapshot.files@, s@, snapshot.files@.len() as int),
                    None => Map::<Seq<char>, i128>::empty(),
                },
                SnapshotMsg::Failed(_) => false,
            },
        },
{
    match status {
        Err(reason) => SnapshotMsg::Failed(reason),
        Ok(snapshot) => {
            let mtimes = match stats {
                Some(s) => collect_mtimes(&snapshot, s),
                None => TextMap::new(),
            };
            SnapshotMsg::Read(snapshot, mtimes)
        },
    }
}

/// Turning the reading on or off always reaches a reader that listens: the last
/// thing it is told is to look again.
pub proof fn law_set_awake_wakes_the_reader(watch: WatchModel, awake: bool)
    requires
        watch.wired,
    ensures
        watch.set(awake).awake == awake,
        watch.set(awake).wakes.last() == WakeModel::Changed(Seq::empty()),
        watch.set(awake).wakes.drop_last() == watch.wakes,
{
    assert(watch.set(awake).wakes.drop_last() =~= watch.wakes);
}

/// The last thing a reader is ever told is to stop.
pub proof fn law_stop_is_the_last_word(watch: WatchModel, awake: bool)
    requires
        watch.wired,
    ensures
        watch.ended().wakes.last() == WakeModel::Stop,
        watch.ended().set(awake).wakes == watch.ended().wakes,
        watch.ended().ended() == watch.ended(),
{
}

proof fn lemma_mtimes_name_files(files: Seq<ChangedFile>, stats: Seq<Option<i128>>, n: int)
    requires
        0 <= n <= files.len(),
        stats.len() == files.len(),
    ensures
        forall|path: Seq<char>| #[trigger]
            mtimes_of(files, stats, n).contains_key(path) <==> exists|i: int|
                0 <= i < n && (#[trigger] files[i]).path@ == path && stats[i] is Some,
    decreases n,
{
    if n > 0 {
        lemma_mtimes_name_files(files, stats, n - 1);
        assert forall|path: Seq<char>| #[trigger]
            mtimes_of(files, stats, n).contains_key(path) <==> exists|i: int|
                0 <= i < n && (#[trigger] files[i]).path@ == path && stats[i] is Some by {
            assert(mtimes_of(files, stats, n - 1).contains_key(path) <==> exists|i: int|
                0 <= i < n - 1 && (#[trigger] files[i]).path@ == path && stats[i] is Some);
            if stats[n - 1] is Some && files[n - 1].path@ == path {
                assert(mtimes_of(files, stats, n).contains_key(path));
            }
        }
    }
}

/// A time is known of exactly the files that the snapshot lists and that could
/// be asked after.
pub proof fn law_times_are_of_listed_files(
    files: Seq<ChangedFile>,
    stats: Seq<Option<i128>>,
    path: Seq<char>,
)
    requires
        stats.len() == files.len(),
    ensures
        mtimes_of(files, stats, files.len() as int).contains_key(path) <==> exists|i: int|
            0 <= i < files.len() && (#[trigger] files[i]).path@ == path && stats[i] is Some,
{
    lemma_mtimes_name_files(files, stats, files.len() as int);
}

/// A file has a time exactly where one was read for it.
pub proof fn law_files_have_times_that_were_read(
    files: Seq<ChangedFile>,
    stats: Seq<Option<i128>>,
    n: int,
    path: Seq<char>,
)
    requires
        0 <= n <= files.len(),
    ensures
        mtimes_of(files, stats, n).contains_key(path) <==> exists|i: int|
            0 <= i < n && (#[trigger] files[i]).path@ == path && stats[i] is Some,
    decreases n,
{
    if n > 0 {
        law_files_have_times_that_were_read(files, stats, n - 1, path);
        if files[n - 1].path@ == path && stats[n - 1] is Some {
            assert(mtimes_of(files, stats, n).contains_key(path));
        }
    }
}

/// The time that is kept of a file is the one that was read for it, the last
/// where it is listed more than once.
pub proof fn law_each_file_has_its_last_time(
    files: Seq<ChangedFile>,
    stats: Seq<Option<i128>>,
    n: int,
    i: int,
)
    requires
        0 <= i < n <= files.len(),
        stats[i] is Some,
        forall|j: int|
            i < j < n && (#[trigger] files[j]).path@ == files[i].path@ ==> stats[j] is None,
    ensures
        mtimes_of(files, stats, n).contains_key(files[i].path@),
        mtimes_of(files, stats, n)[files[i].path@] == stats[i]->0,
    decreases n,
{
    if i < n - 1 {
        law_each_file_has_its_last_time(files, stats, n - 1, i);
        if files[n - 1].path@ == files[i].path@ {
            assert(stats[n - 1] is None);
        }
    }
}

/// A channel begins with its root, with nothing told yet, and awake or asleep
/// as it was asked to be.
pub proof fn law_channels_begin_quiet(root: Seq<char>, awake: bool)
    ensures
        ({
            let c = ChannelModel::started(root, awake);
            &&& c.root == root
            &&& c.watch.awake == awake
            &&& c.watch.wakes.len() == 0
            &&& c.watch.wired
            &&& c.messages.len() == 0
            &&& !c.reader_gone
        }),
{
}

/// A wake goes behind those that wait, while there is a reader to wake; after
/// the end there is none.
pub proof fn law_wakes_wait_in_order(watch: WatchModel, wake: WakeModel)
    ensures
        watch.wired ==> watch.woken(wake).wakes == watch.wakes.push(wake),
        !watch.wired ==> watch.woken(wake) == watch,
        watch.woken(wake).awake == watch.awake,
        watch.woken(wake).wired == watch.wired,
        !watch.ended().wired,
        watch.wired ==> watch.ended().wakes == watch.wakes.push(WakeModel::Stop),
{
}

} // verus!

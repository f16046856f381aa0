//! Watching the directories that the file tree shows.
//!
//! Only those the user has expanded, and the root, and not recursively: a
//! watch over the whole work tree would take one watch per directory and fall
//! over on large repositories. Events are reported as the directories whose
//! contents changed. Refreshing on entry remains the fallback where watching
//! cannot start.

use crate::native::{
    law_paths_are_put_together_as_spelled, law_paths_are_taken_apart_as_spelled,
    law_spelling_is_undone, native_joined, native_parent, native_parts, native_rest, raw_paths,
    spelled, NativePath,
};
use crate::paths::{
    below, is_filler, is_plain, joined, law_parent_drops_the_last_component,
    law_rest_names_the_other_components, law_rest_undoes_join, law_strip_undoes_join,
    lemma_last_name, lemma_parts_not_empty, lemma_plain_starts, parent_text, part_models, parts_of,
    rest_text, strip_prefix, Part, PartModel,
};
use crate::sorting::{lemma_text_before_total, text_before, Ranked};
use crate::text::{chars_of, lemma_last_index, lossy_text, pieces, string_of};
use crate::textmap::{has_text, TextSet};
use vstd::prelude::*;
use vstd::utf8::encode_utf8;

verus! {

/// Coalescing window for filesystem events, in milliseconds: long enough to
/// batch the burst that one operation produces, short enough to feel live.
pub const DEBOUNCE_MS: u64 = 300;

/// What changed since the last poll.
#[derive(Debug, PartialEq, Eq)]
pub struct TreeChanges {
    /// Directories, seen from the root, whose contents changed.
    pub dirs: TextSet,
    /// Something changed that could not be attributed to a directory. The
    /// caller must read everything again rather than trust `dirs`.
    pub unknown: bool,
}

/// Nothing changed.
impl Default for TreeChanges {
    fn default() -> (r: TreeChanges)
        ensures
            r.dirs.wf(),
            r.dirs@ == Set::<Seq<char>>::empty(),
            !r.unknown,
    {
        TreeChanges { dirs: TextSet::new(), unknown: false }
    }
}

impl TreeChanges {
    /// Whether nothing changed.
    pub fn is_empty(&self) -> (r: bool)
        ensures
            r == (self.dirs@ == Set::<Seq<char>>::empty() && !self.unknown),
    {
        proof {
            if self.dirs.items@.len() == 0 {
                assert(self.dirs@ =~= Set::<Seq<char>>::empty());
            } else {
                assert(self.dirs@.contains(self.dirs.items@[0]@));
            }
        }
        self.dirs.items.len() == 0 && !self.unknown
    }
}

/// What the watcher reports at once.
#[derive(Debug)]
pub enum Batch {
    /// The paths that changed.
    Events(Vec<NativePath>),
    /// An error: events may have been dropped.
    Error,
}

/// A directory to start or stop watching.
#[derive(Debug)]
pub struct WatchTarget {
    /// As seen from the root; empty for the root itself.
    pub rel: String,
    pub path: NativePath,
}

/// What is to be done to watch exactly what is wanted.
#[derive(Debug)]
pub struct SyncPlan {
    /// To stop watching. A failure to do so is benign.
    pub stale: Vec<WatchTarget>,
    /// To start watching. What came of it is told to `settle`.
    pub fresh: Vec<WatchTarget>,
}

/// `rel` below `workdir`; nothing at all stands for the root.
pub open spec fn target_path(workdir: Seq<u8>, rel: Seq<char>) -> Seq<u8> {
    if rel.len() == 0 {
        workdir
    } else {
        native_joined(workdir, encode_utf8(rel))
    }
}

/// `rel` below `workdir`.
pub fn join_rel(workdir: &NativePath, rel: &str) -> (r: NativePath)
    ensures
        r@ == target_path(workdir@, rel@),
{
    if chars_of(rel).len() == 0 {
        return workdir.duplicate();
    }
    workdir.join(rel)
}

/// Whether `targets` are the directories for which `wanted` holds, in order,
/// with their paths below `workdir`.
pub open spec fn targets_are(
    targets: Seq<WatchTarget>,
    workdir: Seq<u8>,
    wanted: Set<Seq<char>>,
) -> bool {
    &&& forall|i: int|
        0 <= i < targets.len() ==> wanted.contains((#[trigger] targets[i]).rel@)
            && targets[i].path@ == target_path(workdir, targets[i].rel@)
    &&& forall|i: int, j: int|
        0 <= i < j < targets.len() ==> text_before(
            (#[trigger] targets[i]).rel@,
            (#[trigger] targets[j]).rel@,
        )
    &&& forall|t: Seq<char>| #[trigger]
        wanted.contains(t) ==> exists|i: int|
            0 <= i < targets.len() && (#[trigger] targets[i]).rel@ == t
}

/// The members of `from` that `without` does not hold, as targets.
fn targets_of(from: &TextSet, without: &TextSet, workdir: &NativePath) -> (r: Vec<WatchTarget>)
    requires
        from.wf(),
    ensures
        targets_are(r@, workdir@, from@.difference(without@)),
{
    let mut out: Vec<WatchTarget> = Vec::new();
    let mut i: usize = 0;
    let ghost wanted = from@.difference(without@);
    while i < from.items.len()
        invariant
            from.wf(),
            i <= from.items@.len(),
            wanted == from@.difference(without@),
            forall|k: int|
                0 <= k < out@.len() ==> wanted.contains((#[trigger] out@[k]).rel@) && out@[k].path@
                    == target_path(workdir@, out@[k].rel@) && exists|m: int|
                    0 <= m < i && (#[trigger] from.items@[m])@ == out@[k].rel@,
            forall|k: int, l: int|
                0 <= k < l < out@.len() ==> text_before(
                    (#[trigger] out@[k]).rel@,
                    (#[trigger] out@[l]).rel@,
                ),
            forall|m: int|
                0 <= m < i && wanted.contains((#[trigger] from.items@[m])@) ==> exists|k: int|
                    0 <= k < out@.len() && (#[trigger] out@[k]).rel@ == from.items@[m]@,
        decreases from.items.len() - i,
    {
        let ghost before = out@;
        let rel = from.items[i].clone();
        proof {
            assert(from@.contains(from.items@[i as int]@));
        }
        if !without.contains(rel.as_str()) {
            let path = join_rel(workdir, rel.as_str());
            out.push(WatchTarget { rel, path });
            proof {
                assert forall|k: int, l: int| 0 <= k < l < out@.len() implies text_before(
                    (#[trigger] out@[k]).rel@,
                    (#[trigger] out@[l]).rel@,
                ) by {
                    if l == before.len() {
                        let m = choose|m: int|
                            0 <= m < i && (#[trigger] from.items@[m])@ == before[k].rel@;
                        assert(before[k] == out@[k]);
                        assert(from.items@[m].ranks(from.items@[i as int]));
                        lemma_text_before_total(from.items@[m]@, from.items@[i as int]@);
                    }
                }
                assert forall|m: int|
                    0 <= m < i + 1 && wanted.contains(
                        (#[trigger] from.items@[m])@,
                    ) implies exists|k: int|
                    0 <= k < out@.len() && (#[trigger] out@[k]).rel@ == from.items@[m]@ by {
                    if m < i {
                        let k = choose|k: int|
                            0 <= k < before.len() && (#[trigger] before[k]).rel@
                                == from.items@[m]@;
                        assert(out@[k] == before[k]);
                    } else {
                        assert(out@[before.len() as int].rel@ == from.items@[m]@);
                    }
                }
            }
        }
        i += 1;
    }
    proof {
        assert forall|t: Seq<char>| #[trigger] wanted.contains(t) implies exists|k: int|
            0 <= k < out@.len() && (#[trigger] out@[k]).rel@ == t by {
            assert(from@.contains(t));
            let m = choose|m: int|
                0 <= m < from.items@.len() && (#[trigger] from.items@[m])@ == t;
            assert(wanted.contains(from.items@[m]@));
        }
    }
    out
}

/// `s` with its backslashes made slashes.
pub open spec fn slashed(s: Seq<char>) -> Seq<char> {
    s.map_values(
        |c: char|
            if c == '\\' {
                '/'
            } else {
                c
            },
    )
}

fn with_slashes(s: &str) -> (r: String)
    ensures
        r@ == slashed(s@),
{
    let chars = chars_of(s);
    let mut out: Vec<char> = Vec::new();
    let mut i: usize = 0;
    while i < chars.len()
        invariant
            i <= chars@.len(),
            chars@ == s@,
            out@ == slashed(s@).take(i as int),
        decreases chars.len() - i,
    {
        let c: char = if chars[i] == '\\' {
            '/'
        } else {
            chars[i]
        };
        out.push(c);
        proof {
            assert(slashed(s@).take(i + 1) =~= slashed(s@).take(i as int).push(
                slashed(s@)[i as int],
            ));
        }
        i += 1;
    }
    proof {
        assert(slashed(s@).take(i as int) =~= slashed(s@));
    }
    string_of(&out)
}

/// The path of the directory that holds `path`, seen from `root`.
pub open spec fn holding(root: Option<Seq<PartModel>>, path: Seq<u8>) -> Option<Seq<u8>> {
    match root {
        None => None,
        Some(root) => match native_parent(path) {
            None => None,
            Some(up) => match below(native_parts(up), root) {
                None => None,
                Some(_) => Some(native_rest(up, root.len())),
            },
        },
    }
}

/// The directory that holds `path`, as listings name it: as text, with slashes.
pub open spec fn holder(root: Option<Seq<PartModel>>, path: Seq<u8>) -> Option<Seq<char>> {
    match holding(root, path) {
        Some(dir) => Some(slashed(lossy_text(dir))),
        None => None,
    }
}

/// The paths that batches name, in order.
pub open spec fn named(batches: Seq<Batch>) -> Seq<Seq<u8>>
    decreases batches.len(),
{
    if batches.len() == 0 {
        Seq::empty()
    } else {
        named(batches.drop_last()) + match batches.last() {
            Batch::Events(paths) => raw_paths(paths@),
            Batch::Error => Seq::empty(),
        }
    }
}

/// The directories that hold any of `paths`.
pub open spec fn holders(root: Option<Seq<PartModel>>, paths: Seq<Seq<u8>>) -> Set<Seq<char>> {
    Set::new(
        |dir: Seq<char>|
            exists|i: int| 0 <= i < paths.len() && holder(root, #[trigger] paths[i]) == Some(dir),
    )
}

/// Whether any of `paths` is held by no directory that is known.
pub open spec fn unheld(root: Option<Seq<PartModel>>, paths: Seq<Seq<u8>>) -> bool {
    exists|i: int| 0 <= i < paths.len() && holder(root, #[trigger] paths[i]) is None
}

/// Whether any batch is an error.
pub open spec fn errs(batches: Seq<Batch>) -> bool {
    exists|i: int| 0 <= i < batches.len() && (#[trigger] batches[i]) is Error
}

/// The watcher of the file tree, as plain values.
#[verifier::ext_equal]
pub struct WatcherModel {
    /// Whether the system's watcher runs.
    pub live: bool,
    pub watched: Set<Seq<char>>,
    pub root: Option<Seq<PartModel>>,
    pub pending: Seq<Batch>,
}

impl WatcherModel {
    pub open spec fn fresh(live: bool) -> WatcherModel {
        WatcherModel { live, watched: Set::empty(), root: None, pending: Seq::empty() }
    }

    /// After the watcher was told what is wanted. With no watcher running only
    /// the intent is kept.
    pub open spec fn synced(self, workdir: Seq<u8>, desired: Set<Seq<char>>) -> WatcherModel {
        WatcherModel {
            root: Some(native_parts(workdir)),
            watched: if self.live {
                self.watched.intersect(desired)
            } else {
                desired
            },
            ..self
        }
    }

    /// After an attempt to watch `rel`.
    pub open spec fn settled(self, rel: Seq<char>, watching: bool) -> WatcherModel {
        if watching {
            WatcherModel { watched: self.watched.insert(rel), ..self }
        } else {
            self
        }
    }
}

/// The watcher of the file tree.
#[derive(Debug)]
pub struct TreeWatcher {
    live: bool,
    watched: TextSet,
    root: Option<Vec<Part>>,
    pending: Vec<Batch>,
}

impl TreeWatcher {
    pub closed spec fn wf(&self) -> bool {
        self.watched.wf()
    }

    pub closed spec fn model(&self) -> WatcherModel {
        WatcherModel {
            live: self.live,
            watched: self.watched@,
            root: match self.root {
                Some(root) => Some(part_models(root@)),
                None => None,
            },
            pending: self.pending@,
        }
    }

    /// A watcher, live or inert by whether the system's could be started. A
    /// failure is not fatal: refreshing on entry then carries the feature.
    pub fn new(started: bool) -> (r: TreeWatcher)
        ensures
            r.wf(),
            r.model() == WatcherModel::fresh(started),
    {
        let r = TreeWatcher {
            live: started,
            watched: TextSet::new(),
            root: None,
            pending: Vec::new(),
        };
        proof {
            assert(r.model() =~= WatcherModel::fresh(started));
        }
        r
    }

    /// An inert watcher that never observes anything.
    pub fn disabled() -> (r: TreeWatcher)
        ensures
            r.wf(),
            r.model() == WatcherModel::fresh(false),
    {
        TreeWatcher::new(false)
    }

    /// Watch exactly `desired`, directories as seen from the root, resolved
    /// against `workdir`: what is to be done for that. Unchanged directories are
    /// left alone.
    pub fn sync(&mut self, workdir: &NativePath, desired: &TextSet) -> (r: SyncPlan)
        requires
            old(self).wf(),
            desired.wf(),
        ensures
            final(self).wf(),
            final(self).model() == old(self).model().synced(workdir@, desired@),
            if old(self).model().live {
                &&& targets_are(
                    r.stale@,
                    workdir@,
                    old(self).model().watched.difference(desired@),
                )
                &&& targets_are(
                    r.fresh@,
                    workdir@,
                    desired@.difference(old(self).model().watched),
                )
            } else {
                r.stale@.len() == 0 && r.fresh@.len() == 0
            },
    {
        let ghost before = self.model();
        self.root = Some(workdir.parts());
        if !self.live {
            self.watched = copy_of(desired);
            return SyncPlan { stale: Vec::new(), fresh: Vec::new() };
        }
        let stale = targets_of(&self.watched, desired, workdir);
        let fresh = targets_of(desired, &self.watched, workdir);
        let mut i: usize = 0;
        while i < stale.len()
            invariant
                i <= stale@.len(),
                self.watched.wf(),
                self.live == before.live,
                self.pending@ == before.pending,
                self.root matches Some(root) && part_models(root@) == native_parts(workdir@),
                targets_are(stale@, workdir@, before.watched.difference(desired@)),
                forall|t: Seq<char>| #[trigger]
                    self.watched@.contains(t) <==> (before.watched.contains(t) && !exists|k: int|
                        0 <= k < i && (#[trigger] stale@[k]).rel@ == t),
            decreases stale.len() - i,
        {
            let ghost earlier = self.watched@;
            self.watched.remove(stale[i].rel.as_str());
            proof {
                assert forall|t: Seq<char>| #[trigger]
                    self.watched@.contains(t) <==> (before.watched.contains(t) && !exists|k: int|
                        0 <= k < i + 1 && (#[trigger] stale@[k]).rel@ == t) by {
                    assert(earlier.contains(t) <==> (before.watched.contains(t) && !exists|k: int|
                        0 <= k < i && (#[trigger] stale@[k]).rel@ == t));
                    if t == stale@[i as int].rel@ {
                        assert(!self.watched@.contains(t));
                    } else {
                        assert(self.watched@.contains(t) == earlier.contains(t));
                        if exists|k: int| 0 <= k < i + 1 && (#[trigger] stale@[k]).rel@ == t {
                            let k = choose|k: int|
                                0 <= k < i + 1 && (#[trigger] stale@[k]).rel@ == t;
                            assert(k < i);
                        }
                    }
                }
            }
            i += 1;
        }
        proof {
            assert(self.watched@ =~= before.watched.intersect(desired@)) by {
                assert forall|t: Seq<char>| #[trigger]
                    self.watched@.contains(t) <==> before.watched.intersect(
                        desired@,
                    ).contains(t) by {
                    let gone = before.watched.difference(desired@);
                    if before.watched.contains(t) && !desired@.contains(t) {
                        assert(gone.contains(t));
                    }
                    if exists|k: int|
                        0 <= k < stale@.len() && (#[trigger] stale@[k]).rel@ == t {
                        assert(gone.contains(t));
                    }
                }
            }
        }
        SyncPlan { stale, fresh }
    }

    /// What came of the attempt to watch `rel`. One that failed is skipped, not
    /// retried.
    pub fn settle(&mut self, rel: String, watching: bool)
        requires
            old(self).wf(),
        ensures
            final(self).wf(),
            final(self).model() == old(self).model().settled(rel@, watching),
    {
        if watching {
            self.watched.insert(rel);
        }
    }

    /// The watcher reported something.
    pub fn deliver(&mut self, batch: Batch)
        requires
            old(self).wf(),
        ensures
            final(self).wf(),
            final(self).model() == (WatcherModel {
                pending: old(self).model().pending.push(batch),
                ..old(self).model()
            }),
    {
        self.pending.push(batch);
    }

    /// What the pending events touched.
    ///
    /// An event is attributed to the directory that holds its path: that is the
    /// listing whose contents changed. Anything that cannot be placed in the
    /// working tree makes the set incomplete, and a watcher error too.
    pub fn drain_changed(&mut self) -> (r: TreeChanges)
        requires
            old(self).wf(),
        ensures
            final(self).wf(),
            final(self).model() == (WatcherModel { pending: Seq::empty(), ..old(self).model() }),
            r.dirs.wf(),
            r.dirs@ == holders(old(self).model().root, named(old(self).model().pending)),
            r.unknown == (unheld(old(self).model().root, named(old(self).model().pending)) || errs(
                old(self).model().pending,
            )),
    {
        let ghost before = self.model();
        let mut changes = TreeChanges::default();
        let mut i: usize = 0;
        proof {
            assert(before.pending.take(0) =~= Seq::<Batch>::empty());
            assert(changes.dirs@ =~= holders(before.root, named(before.pending.take(0))));
        }
        while i < self.pending.len()
            invariant
                i <= self.pending@.len(),
                self.wf(),
                self.model() == before,
                changes.dirs.wf(),
                changes.dirs@ == holders(before.root, named(before.pending.take(i as int))),
                changes.unknown == (unheld(before.root, named(before.pending.take(i as int)))
                    || errs(before.pending.take(i as int))),
            decreases self.pending.len() - i,
        {
            let ghost seen = named(before.pending.take(i as int));
            proof {
                assert(before.pending.take(i + 1).drop_last() =~= before.pending.take(i as int));
                assert(before.pending.take(i + 1).last() == before.pending[i as int]);
                lemma_errs_step(before.pending, i as int);
            }
            match &self.pending[i] {
                Batch::Events(paths) => {
                    let mut j: usize = 0;
                    let ghost all = raw_paths(paths@);
                    proof {
                        assert(seen + all.take(0) =~= seen);
                    }
                    while j < paths.len()
                        invariant
                            j <= paths@.len(),
                            all == raw_paths(paths@),
                            self.wf(),
                            self.model() == before,
                            changes.dirs.wf(),
                            changes.dirs@ == holders(before.root, seen + all.take(j as int)),
                            changes.unknown == (unheld(before.root, seen + all.take(j as int))
                                || errs(before.pending.take(i as int))),
                        decreases paths.len() - j,
                    {
                        let ghost so_far = seen + all.take(j as int);
                        proof {
                            assert(seen + all.take(j + 1) =~= so_far.push(paths@[j as int]@));
                            lemma_holders_step(before.root, so_far, paths@[j as int]@);
                        }
                        match self.relative_parent(&paths[j]) {
                            Some(dir) => {
                                changes.dirs.insert(dir);
                            },
                            None => {
                                changes.unknown = true;
                            },
                        }
                        j += 1;
                    }
                    proof {
                        assert(all.take(j as int) =~= all);
                    }
                },
                Batch::Error => {
                    changes.unknown = true;
                    proof {
                        assert(seen + Seq::<Seq<u8>>::empty() =~= seen);
                    }
                },
            }
            i += 1;
        }
        proof {
            assert(before.pending.take(i as int) =~= before.pending);
        }
        self.pending = Vec::new();
        proof {
            assert(self.model() =~= (WatcherModel { pending: Seq::empty(), ..before }));
        }
        changes
    }

    /// The directory that holds `path`, seen from the root, or `None` where it
    /// lies outside or no root is known yet.
    fn relative_parent(&self, path: &NativePath) -> (r: Option<String>)
        ensures
            match r {
                Some(dir) => holder(self.model().root, path@) == Some(dir@),
                None => holder(self.model().root, path@) is None,
            },
    {
        let root = match &self.root {
            Some(root) => root,
            None => {
                return None;
            },
        };
        let up = match path.parent() {
            Some(up) => up,
            None => {
                return None;
            },
        };
        match strip_prefix(up.parts().as_slice(), root.as_slice()) {
            Some(_) => Some(with_slashes(up.rest_from(root.len()).shown().as_str())),
            None => None,
        }
    }
}

fn copy_of(set: &TextSet) -> (r: TextSet)
    requires
        set.wf(),
    ensures
        r.wf(),
        r@ == set@,
{
    let mut out = TextSet::new();
    let mut i: usize = 0;
    while i < set.items.len()
        invariant
            i <= set.items@.len(),
            out.wf(),
            forall|t: Seq<char>| #[trigger] out@.contains(t) <==> has_text(set.items@.take(i as int), t),
        decreases set.items.len() - i,
    {
        let ghost before = out@;
        out.insert(set.items[i].clone());
        proof {
            let shorter = set.items@.take(i as int);
            let longer = set.items@.take(i + 1);
            assert forall|t: Seq<char>| #[trigger] out@.contains(t) <==> has_text(longer, t) by {
                assert(before.contains(t) <==> has_text(shorter, t));
                if has_text(shorter, t) {
                    let k = choose|k: int| 0 <= k < shorter.len() && (#[trigger] shorter[k])@ == t;
                    assert(longer[k]@ == t);
                }
                if has_text(longer, t) {
                    let k = choose|k: int| 0 <= k < longer.len() && (#[trigger] longer[k])@ == t;
                    if k < i {
                        assert(shorter[k]@ == t);
                    }
                }
                if t == set.items@[i as int]@ {
                    assert(longer[i as int]@ == t);
                }
            }
        }
        i += 1;
    }
    proof {
        assert(set.items@.take(i as int) =~= set.items@);
        assert(out@ =~= set@);
    }
    out
}

proof fn lemma_errs_step(batches: Seq<Batch>, i: int)
    requires
        0 <= i < batches.len(),
    ensures
        errs(batches.take(i + 1)) == (errs(batches.take(i)) || batches[i] is Error),
{
    let shorter = batches.take(i);
    let longer = batches.take(i + 1);
    if errs(shorter) {
        let k = choose|k: int| 0 <= k < shorter.len() && (#[trigger] shorter[k]) is Error;
        assert(longer[k] is Error);
    }
    if errs(longer) {
        let k = choose|k: int| 0 <= k < longer.len() && (#[trigger] longer[k]) is Error;
        if k < i {
            assert(shorter[k] is Error);
        }
    }
    assert(longer[i] == batches[i]);
}

proof fn lemma_holders_step(root: Option<Seq<PartModel>>, paths: Seq<Seq<u8>>, path: Seq<u8>)
    ensures
        holder(root, path) matches Some(dir) ==> holders(root, paths.push(path)) == holders(
            root,
            paths,
        ).insert(dir) && unheld(root, paths.push(path)) == unheld(root, paths),
        holder(root, path) is None ==> holders(root, paths.push(path)) == holders(root, paths)
            && unheld(root, paths.push(path)),
{
    let longer = paths.push(path);
    assert(longer[paths.len() as int] == path);
    assert forall|dir: Seq<char>| holders(root, longer).contains(dir) == (holders(
        root,
        paths,
    ).contains(dir) || holder(root, path) == Some(dir)) by {
        if holders(root, paths).contains(dir) {
            let i = choose|i: int|
                0 <= i < paths.len() && holder(root, #[trigger] paths[i]) == Some(dir);
            assert(longer[i] == paths[i]);
        }
        if holders(root, longer).contains(dir) {
            let i = choose|i: int|
                0 <= i < longer.len() && holder(root, #[trigger] longer[i]) == Some(dir);
            if i < paths.len() {
                assert(paths[i] == longer[i]);
            }
        }
    }
    if unheld(root, paths) {
        let i = choose|i: int| 0 <= i < paths.len() && holder(root, #[trigger] paths[i]) is None;
        assert(longer[i] == paths[i]);
    }
    if unheld(root, longer) {
        let i = choose|i: int| 0 <= i < longer.len() && holder(root, #[trigger] longer[i]) is None;
        if i < paths.len() {
            assert(paths[i] == longer[i]);
        }
    }
    match holder(root, path) {
        Some(dir) => {
            assert(holders(root, longer) =~= holders(root, paths).insert(dir));
        },
        None => {
            assert(holders(root, longer) =~= holders(root, paths));
        },
    }
}

/// After every fresh directory was watched.
pub open spec fn all_settled(model: WatcherModel, fresh: Seq<WatchTarget>) -> WatcherModel
    decreases fresh.len(),
{
    if fresh.len() == 0 {
        model
    } else {
        all_settled(model, fresh.drop_last()).settled(fresh.last().rel@, true)
    }
}

proof fn lemma_all_settled(model: WatcherModel, fresh: Seq<WatchTarget>)
    ensures
        forall|t: Seq<char>| #[trigger]
            all_settled(model, fresh).watched.contains(t) <==> (model.watched.contains(t)
                || exists|i: int| 0 <= i < fresh.len() && (#[trigger] fresh[i]).rel@ == t),
    decreases fresh.len(),
{
    if fresh.len() > 0 {
        let front = fresh.drop_last();
        lemma_all_settled(model, front);
        assert forall|t: Seq<char>| #[trigger]
            all_settled(model, fresh).watched.contains(t) <==> (model.watched.contains(t)
                || exists|i: int| 0 <= i < fresh.len() && (#[trigger] fresh[i]).rel@ == t) by {
            assert(all_settled(model, front).watched.contains(t) <==> (model.watched.contains(t)
                || exists|i: int| 0 <= i < front.len() && (#[trigger] front[i]).rel@ == t));
            if exists|i: int| 0 <= i < front.len() && (#[trigger] front[i]).rel@ == t {
                let i = choose|i: int| 0 <= i < front.len() && (#[trigger] front[i]).rel@ == t;
                assert(fresh[i] == front[i]);
            }
            if exists|i: int| 0 <= i < fresh.len() && (#[trigger] fresh[i]).rel@ == t {
                let i = choose|i: int| 0 <= i < fresh.len() && (#[trigger] fresh[i]).rel@ == t;
                if i < front.len() {
                    assert(front[i] == fresh[i]);
                }
            }
            if t == fresh.last().rel@ {
                assert(fresh[fresh.len() - 1].rel@ == t);
            }
        }
    }
}

proof fn lemma_spelled_changes(workdir: Seq<char>, rel: Seq<char>, name: Seq<char>)
    requires
        rel.len() > 0 ==> is_plain(rel),
        !is_filler(name),
        !name.contains('/'),
    ensures
        ({
            let dir = if rel.len() == 0 {
                workdir
            } else {
                joined(workdir, rel)
            };
            let path = joined(dir, name);
            &&& parent_text(path) is Some
            &&& below(parts_of(parent_text(path)->0), parts_of(workdir)) is Some
            &&& rest_text(parent_text(path)->0, parts_of(workdir).len()) == rel
        }),
{
    let dir = if rel.len() == 0 {
        workdir
    } else {
        joined(workdir, rel)
    };
    let path = joined(dir, name);
    let root = parts_of(workdir);
    reveal_strlit(".");
    reveal_strlit("..");
    reveal_strlit("/");
    lemma_last_index(name, '/');
    assert(pieces(name, '/') =~= seq![name]);
    assert(name[0] != '/') by {
        if name[0] == '/' {
            assert(name.contains('/'));
        }
    }
    law_strip_undoes_join(dir, name);
    assert(parts_of(name).len() == 1 && parts_of(name)[0] != PartModel::Root) by {
        reveal_with_fuel(crate::paths::parts_from, 2);
        assert(seq![name].drop_last() =~= Seq::<Seq<char>>::empty());
    }
    law_parent_drops_the_last_component(path);
    if parent_text(path) is None {
        assert(parts_of(path).last() == parts_of(name)[0]);
        assert(parts_of(path).last() == PartModel::Root);
    }
    let up = parent_text(path)->0;
    assert(parts_of(up) =~= parts_of(dir));
    if rel.len() == 0 {
        law_rest_names_the_other_components(up, root.len());
        let rest = rest_text(up, root.len());
        assert(parts_of(up).skip(root.len() as int) =~= Seq::<PartModel>::empty());
        if rest.len() > 0 {
            lemma_parts_not_empty(rest);
        }
        assert(rest =~= rel);
        assert(parts_of(up).take(root.len() as int) =~= root);
    } else {
        law_rest_undoes_join(workdir, rel);
        lemma_plain_starts(rel);
        law_strip_undoes_join(workdir, rel);
        assert(dir.last() == rel.last());
        assert(path =~= dir + "/"@ + name);
        assert(path.skip(dir.len() as int + 1) =~= name);
        lemma_last_name(path, dir.len() as int);
        assert(path.take(dir.len() as int) =~= dir);
        assert(up == dir);
    }
}

/// A change right inside a watched directory is attributed to that directory,
/// by the path under which it is watched.
pub proof fn law_changes_belong_to_the_directory_they_are_in(
    workdir: Seq<u8>,
    rel: Seq<char>,
    name: Seq<u8>,
)
    requires
        rel.len() > 0 ==> is_plain(spelled(encode_utf8(rel))),
        !is_filler(spelled(name)),
        !spelled(name).contains('/'),
    ensures
        holding(
            Some(native_parts(workdir)),
            native_joined(target_path(workdir, rel), name),
        ) == Some(encode_utf8(rel)),
{
    let dir = target_path(workdir, rel);
    let path = native_joined(dir, name);
    let bytes = encode_utf8(rel);
    vstd::utf8::encode_utf8_decode_utf8(rel);
    if bytes.len() == 0 {
        assert(bytes =~= Seq::<u8>::empty());
    }
    lemma_spelled_changes(spelled(workdir), spelled(bytes), spelled(name));
    law_paths_are_put_together_as_spelled(workdir, bytes);
    law_paths_are_put_together_as_spelled(dir, name);
    law_paths_are_taken_apart_as_spelled(path, bytes);
    law_spelling_is_undone(bytes);
}

/// Where every directory can be watched, the watcher ends up watching exactly
/// what was wanted, whatever it watched before.
pub proof fn law_sync_watches_exactly_what_is_wanted(
    before: WatcherModel,
    workdir: Seq<u8>,
    desired: Set<Seq<char>>,
    fresh: Seq<WatchTarget>,
)
    requires
        before.live,
        targets_are(fresh, workdir, desired.difference(before.watched)),
    ensures
        all_settled(before.synced(workdir, desired), fresh).watched == desired,
{
    let synced = before.synced(workdir, desired);
    lemma_all_settled(synced, fresh);
    let wanted = desired.difference(before.watched);
    assert forall|t: Seq<char>| #[trigger]
        all_settled(synced, fresh).watched.contains(t) <==> desired.contains(t) by {
        if desired.contains(t) && !before.watched.contains(t) {
            assert(wanted.contains(t));
        }
        if exists|i: int| 0 <= i < fresh.len() && (#[trigger] fresh[i]).rel@ == t {
            assert(wanted.contains(t));
        }
    }
    assert(all_settled(synced, fresh).watched =~= desired);
}

/// An inert watcher keeps the intent: after being told what is wanted, it has
/// just that.
pub proof fn law_inert_watcher_keeps_the_intent(
    before: WatcherModel,
    workdir: Seq<u8>,
    desired: Set<Seq<char>>,
)
    requires
        !before.live,
    ensures
        before.synced(workdir, desired).watched == desired,
{
}

/// Every path that was reported is looked at, in order, and an error names
/// none.
pub proof fn law_reported_paths_are_all_looked_at(first: Seq<Batch>, second: Seq<Batch>, batch: Batch)
    ensures
        named(first + second) == named(first) + named(second),
        batch matches Batch::Events(paths) ==> named(seq![batch]) == raw_paths(paths@),
        batch is Error ==> named(seq![batch]).len() == 0,
        errs(seq![batch]) <==> batch is Error,
    decreases second.len(),
{
    assert(seq![batch].drop_last() =~= Seq::<Batch>::empty());
    assert(named(seq![batch].drop_last()) =~= Seq::<Seq<u8>>::empty());
    match batch {
        Batch::Events(paths) => {
            assert(named(seq![batch]) =~= raw_paths(paths@));
        },
        Batch::Error => {
            assert(seq![batch][0] is Error);
        },
    }
    if second.len() == 0 {
        assert(first + second =~= first);
    } else {
        law_reported_paths_are_all_looked_at(first, second.drop_last(), batch);
        assert((first + second).drop_last() =~= first + second.drop_last());
        assert((first + second).last() == second.last());
        assert(named(first + second) =~= named(first) + named(second));
    }
}

/// A directory is told with slashes, whatever separates its parts here; nothing
/// else of its text changes.
pub proof fn law_directories_are_told_with_slashes(s: Seq<char>, i: int)
    requires
        0 <= i < s.len(),
    ensures
        slashed(s).len() == s.len(),
        s[i] == '\\' ==> slashed(s)[i] == '/',
        s[i] != '\\' ==> slashed(s)[i] == s[i],
{
}

/// The root is watched as it is, every other directory where it lies below it.
pub proof fn law_targets_lie_in_the_tree(workdir: Seq<u8>, rel: Seq<char>)
    ensures
        rel.len() == 0 ==> target_path(workdir, rel) == workdir,
        rel.len() > 0 ==> target_path(workdir, rel) == native_joined(workdir, encode_utf8(rel)),
{
}

/// Directories that are no longer wanted are given up and those that are stay;
/// a directory is watched from when that succeeded. A watcher that is not live
/// notes what is wanted.
pub proof fn law_watching_follows_what_is_wanted(
    m: WatcherModel,
    workdir: Seq<u8>,
    desired: Set<Seq<char>>,
    rel: Seq<char>,
    watching: bool,
    dir: Seq<char>,
)
    ensures
        ({
            let now = m.synced(workdir, desired);
            &&& m.live ==> (now.watched.contains(dir) <==> m.watched.contains(dir)
                && desired.contains(dir))
            &&& !m.live ==> now.watched == desired
            &&& now.root == Some(native_parts(workdir))
            &&& now.pending == m.pending
            &&& now.live == m.live
        }),
        m.settled(rel, watching).watched.contains(dir) <==> m.watched.contains(dir) || (watching
            && dir == rel),
        m.settled(rel, watching).root == m.root,
        m.settled(rel, watching).pending == m.pending,
{
}

} // verus!

//! Which filesystem events can change what a status says.
//!
//! The whole working tree is watched, so that the status reader can react to
//! changes instead of polling. Where that is refused, the reader falls back to
//! a fixed interval.

use crate::native::{native_parts, native_rest, NativePath};
use crate::paths::{
    below, extension, extension_of, file_name, name_of, part_models, strip_prefix, Part, PartModel,
};
use crate::text::same_text;
use vstd::prelude::*;

verus! {

/// What wakes the status reader.
#[derive(Debug)]
pub enum Wake {
    /// Paths that changed. An empty list means that something changed which the
    /// watcher could not name, its own error included: a reason to look rather
    /// than to stop.
    Changed(Vec<NativePath>),
    Stop,
}

/// How a file was open.
#[derive(Debug, Clone, Copy, PartialEq, Eq, Structural)]
pub enum AccessMode {
    Any,
    Execute,
    Read,
    Write,
    Other,
}

/// What was done with a file without changing it, or at the end of changing it.
#[derive(Debug, Clone, Copy, PartialEq, Eq, Structural)]
pub enum AccessKind {
    Any,
    Read,
    Open(AccessMode),
    Close(AccessMode),
    Other,
}

/// What kind of event the watcher reports.
#[derive(Debug, Clone, Copy, PartialEq, Eq, Structural)]
pub enum EventKind {
    Any,
    Access(AccessKind),
    Create,
    Modify,
    Remove,
    Other,
}

/// An event, with the paths it names.
#[derive(Debug)]
pub struct WatchEvent {
    pub kind: EventKind,
    pub paths: Vec<NativePath>,
}

/// Whether an event of this kind can mean that the tree changed. Reading is an
/// event too on some systems, and every status read opens files in the watched
/// tree: without leaving those out the reader would be its own event source.
/// The one access that counts is the end of writing.
pub open spec fn can_change(kind: EventKind) -> bool {
    match kind {
        EventKind::Access(access) => access == AccessKind::Close(AccessMode::Write),
        _ => true,
    }
}

/// The paths worth waking the reader for, or `None` where the event cannot mean
/// that the tree changed. A watcher error may have missed events, and naming
/// none of them is how that is said.
pub fn changed_paths(event: Result<WatchEvent, String>) -> (r: Option<Vec<NativePath>>)
    ensures
        match event {
            Err(_) => r matches Some(paths) && paths@.len() == 0,
            Ok(event) => r == if can_change(event.kind) {
                Some(event.paths)
            } else {
                None::<Vec<NativePath>>
            },
        },
{
    let event = match event {
        Ok(event) => event,
        Err(_) => {
            return Some(Vec::new());
        },
    };
    match event.kind {
        EventKind::Access(AccessKind::Close(AccessMode::Write)) => Some(event.paths),
        EventKind::Access(_) => None,
        _ => Some(event.paths),
    }
}

/// A directory as given, and as the filesystem reports it.
///
/// Both, because some systems resolve links in the paths they hand back. A path
/// that cannot be placed below the tree counts as changed, so getting this wrong
/// would silently turn the whole filter off.
#[derive(Debug)]
pub struct Prefix {
    given: Vec<Part>,
    canonical: Vec<Part>,
}

/// The two spellings of a directory.
#[verifier::ext_equal]
pub struct PrefixModel {
    pub given: Seq<PartModel>,
    pub canonical: Seq<PartModel>,
}

impl PrefixModel {
    pub open spec fn of(path: Seq<u8>, canonical: Option<&NativePath>) -> PrefixModel {
        PrefixModel {
            given: native_parts(path),
            canonical: match canonical {
                Some(c) => native_parts(c@),
                None => native_parts(path),
            },
        }
    }

    /// A path seen from the directory, in the reported spelling or else in the
    /// given one.
    pub open spec fn relative(self, path: Seq<PartModel>) -> Option<Seq<PartModel>> {
        match below(path, self.canonical) {
            Some(rest) => Some(rest),
            None => below(path, self.given),
        }
    }
}

impl Prefix {
    pub closed spec fn model(&self) -> PrefixModel {
        PrefixModel {
            given: part_models(self.given@),
            canonical: part_models(self.canonical@),
        }
    }

    /// The directory at `path`, which the filesystem knows as `canonical`;
    /// `None` where it would not say.
    pub fn of(path: &NativePath, canonical: Option<&NativePath>) -> (r: Prefix)
        ensures
            r.model() == PrefixModel::of(path@, canonical),
    {
        Prefix {
            given: path.parts(),
            canonical: match canonical {
                Some(c) => c.parts(),
                None => path.parts(),
            },
        }
    }

    /// A path seen from the directory.
    pub fn relative(&self, path: &[Part]) -> (r: Option<Vec<Part>>)
        ensures
            match r {
                Some(rest) => self.model().relative(part_models(path@)) == Some(
                    part_models(rest@),
                ),
                None => self.model().relative(part_models(path@)) is None,
            },
    {
        match strip_prefix(path, self.canonical.as_slice()) {
            Some(rest) => Some(rest),
            None => strip_prefix(path, self.given.as_slice()),
        }
    }
}

/// The directories an event can come from: the work tree, and the git directory
/// where the repository keeps it somewhere else.
#[derive(Debug)]
pub struct Roots {
    tree: Prefix,
    git_dir: Option<Prefix>,
}

#[verifier::ext_equal]
pub struct RootsModel {
    pub tree: PrefixModel,
    pub git_dir: Option<PrefixModel>,
}

impl Roots {
    pub closed spec fn model(&self) -> RootsModel {
        RootsModel {
            tree: self.tree.model(),
            git_dir: match self.git_dir {
                Some(dir) => Some(dir.model()),
                None => None,
            },
        }
    }

    /// The work tree at `root`, with the git directory inside it.
    pub fn of(root: Prefix) -> (r: Roots)
        ensures
            r.model() == (RootsModel { tree: root.model(), git_dir: None }),
    {
        Roots { tree: root, git_dir: None }
    }

    /// Where the git directory is if not inside the tree; `None` clears it.
    pub fn set_external_git_dir(&mut self, git_dir: Option<Prefix>)
        ensures
            final(self).model() == (RootsModel {
                git_dir: match git_dir {
                    Some(dir) => Some(dir.model()),
                    None => None,
                },
                ..old(self).model()
            }),
    {
        self.git_dir = git_dir;
    }
}

/// The repository's common directory where it does not lie inside the watched
/// tree. The common one, because it holds the index of a linked worktree and
/// the refs it shares with the others.
pub fn external_git_dir(common: &NativePath, roots: &Roots) -> (r: Option<NativePath>)
    ensures
        match roots.model().tree.relative(native_parts(common@)) {
            Some(_) => r is None,
            None => r matches Some(dir) && dir@ == common@,
        },
{
    match roots.tree.relative(common.parts().as_slice()) {
        Some(_) => None,
        None => Some(common.duplicate()),
    }
}

/// Whether a change at `inside`, seen from a git directory, could change what a
/// status says. Objects and reflogs churn on every commit and every fetch, and
/// neither changes a status by itself. A lock is taken before an operation and
/// removed after it, and the real event follows.
pub open spec fn metadata_matters(inside: Seq<PartModel>) -> bool {
    if inside.len() > 0 && (inside[0] == PartModel::Name("objects"@) || inside[0]
        == PartModel::Name("logs"@)) {
        false
    } else {
        match name_of(inside) {
            Some(name) => extension_of(name) != Some("lock"@),
            None => true,
        }
    }
}

fn starts_with_name(parts: &[Part], name: &str) -> (r: bool)
    ensures
        r == (parts@.len() > 0 && part_models(parts@)[0] == PartModel::Name(name@)),
{
    if parts.len() == 0 {
        return false;
    }
    match &parts[0] {
        Part::Name(first) => same_text(first.as_str(), name),
        _ => false,
    }
}

/// Whether a change at `inside`, seen from a git directory, could change what a
/// status says.
///
/// At the top level only. A submodule keeps a git directory of its own below
/// `modules`, but its name is its path in the tree, so the objects of one
/// submodule and the top of another cannot be told apart by the path.
pub fn git_metadata_matters(inside: &[Part]) -> (r: bool)
    ensures
        r == metadata_matters(part_models(inside@)),
{
    if starts_with_name(inside, "objects") || starts_with_name(inside, "logs") {
        return false;
    }
    match file_name(inside) {
        Some(name) => match extension(name.as_str()) {
            Some(ext) => !same_text(ext.as_str(), "lock"),
            None => true,
        },
        None => true,
    }
}

/// What a changed path calls for.
#[verifier::ext_equal]
pub enum Weight {
    /// It counts, or it does not.
    Settled(bool),
    /// It counts unless git ignores this path in the tree.
    UnlessIgnored(Seq<PartModel>),
}

/// What a changed path calls for. One that cannot be placed is read rather than
/// dropped.
pub open spec fn weight(roots: RootsModel, path: Seq<PartModel>) -> Weight {
    match roots.git_dir {
        Some(dir) if dir.relative(path) is Some => Weight::Settled(
            metadata_matters(dir.relative(path)->Some_0),
        ),
        _ => match roots.tree.relative(path) {
            None => Weight::Settled(true),
            Some(relative) => if relative.len() > 0 && relative[0] == PartModel::Name(".git"@) {
                Weight::Settled(metadata_matters(relative.skip(1)))
            } else {
                Weight::UnlessIgnored(relative)
            },
        },
    }
}

/// What is to be asked of git before a changed path is judged.
#[derive(Debug)]
pub enum Question {
    Settled(bool),
    /// Whether git ignores this path in the tree.
    Ignored(NativePath),
}

/// What is to be asked of git before a changed path is judged.
pub fn weigh(roots: &Roots, path: &NativePath) -> (r: Question)
    ensures
        match weight(roots.model(), native_parts(path@)) {
            Weight::Settled(counts) => r == Question::Settled(counts),
            Weight::UnlessIgnored(relative) => r matches Question::Ignored(asked) && asked@
                == native_rest(path@, (native_parts(path@).len() - relative.len()) as nat),
        },
{
    let parts = path.parts();
    if let Some(dir) = &roots.git_dir {
        if let Some(inside) = dir.relative(parts.as_slice()) {
            return Question::Settled(git_metadata_matters(inside.as_slice()));
        }
    }
    match roots.tree.relative(parts.as_slice()) {
        None => Question::Settled(true),
        Some(relative) => {
            if starts_with_name(relative.as_slice(), ".git") {
                let inside = crate::paths::slice_parts(relative.as_slice(), 1, relative.len());
                proof {
                    assert(part_models(inside@) =~= part_models(relative@).skip(1));
                }
                return Question::Settled(git_metadata_matters(inside.as_slice()));
            }
            Question::Ignored(path.rest_from(parts.len() - relative.len()))
        },
    }
}

/// A changed path, and whether git says it is ignored: `None` where it was not
/// asked, because no repository is open, or would not say.
#[derive(Debug)]
pub struct ChangedPath {
    pub path: NativePath,
    pub ignored: Option<bool>,
}

/// Whether a changed path counts. Build output is the loudest thing in a working
/// tree and the one thing git has been told to disregard.
pub open spec fn counts(roots: RootsModel, changed: ChangedPath) -> bool {
    match weight(roots, native_parts(changed.path@)) {
        Weight::Settled(counts) => counts,
        Weight::UnlessIgnored(_) => changed.ignored != Some(true),
    }
}

/// Whether a changed path counts.
pub fn matters(roots: &Roots, changed: &ChangedPath) -> (r: bool)
    ensures
        r == counts(roots.model(), *changed),
{
    match weigh(roots, &changed.path) {
        Question::Settled(counts) => counts,
        Question::Ignored(_) => match changed.ignored {
            Some(ignored) => !ignored,
            None => true,
        },
    }
}

/// Whether any of the paths could change what a status says. With nothing named
/// the watcher lost track, so look.
pub fn any_matters(roots: &Roots, paths: &[ChangedPath]) -> (r: bool)
    ensures
        r == (paths@.len() == 0 || exists|i: int|
            0 <= i < paths@.len() && counts(roots.model(), #[trigger] paths@[i])),
{
    if paths.len() == 0 {
        return true;
    }
    let mut i: usize = 0;
    while i < paths.len()
        invariant
            i <= paths@.len(),
            forall|k: int| 0 <= k < i ==> !counts(roots.model(), #[trigger] paths@[k]),
        decreases paths.len() - i,
    {
        if matters(roots, &paths[i]) {
            return true;
        }
        i += 1;
    }
    false
}

/// A status read does not wake the reader again: opening and reading files is
/// never taken for a change.
pub proof fn law_reading_does_not_wake(mode: AccessMode)
    ensures
        !can_change(EventKind::Access(AccessKind::Open(mode))),
        !can_change(EventKind::Access(AccessKind::Read)),
        !can_change(EventKind::Access(AccessKind::Close(AccessMode::Read))),
        can_change(EventKind::Other),
{
}

/// A path that belongs to neither directory always counts: nothing that cannot
/// be placed is dropped.
pub proof fn law_unplaced_paths_count(roots: RootsModel, changed: ChangedPath)
    requires
        roots.tree.relative(native_parts(changed.path@)) is None,
        roots.git_dir matches Some(dir) ==> dir.relative(native_parts(changed.path@)) is None,
    ensures
        counts(roots, changed),
{
}

/// In the work tree, only what git ignores is left out.
pub proof fn law_only_ignored_files_are_skipped(
    roots: RootsModel,
    changed: ChangedPath,
    relative: Seq<PartModel>,
)
    requires
        roots.git_dir is None,
        roots.tree.relative(native_parts(changed.path@)) == Some(relative),
        relative.len() == 0 || relative[0] != PartModel::Name(".git"@),
    ensures
        counts(roots, changed) == (changed.ignored != Some(true)),
{
}

/// Whether the git directory lies in the tree or outside it, the same file of
/// it counts the same.
pub proof fn law_git_dir_is_judged_alike_wherever_it_is(
    tree: PrefixModel,
    dir: PrefixModel,
    inside: Seq<PartModel>,
    path: Seq<PartModel>,
    outer: Seq<PartModel>,
)
    requires
        tree.relative(path) == Some(seq![PartModel::Name(".git"@)] + inside),
        dir.relative(outer) == Some(inside),
    ensures
        weight(RootsModel { tree, git_dir: None }, path) == weight(
            RootsModel { tree, git_dir: Some(dir) },
            outer,
        ),
{
    assert((seq![PartModel::Name(".git"@)] + inside).skip(1) =~= inside);
}

/// Every event can mean a change but an access; of those only closing a file
/// that was written can.
pub proof fn law_what_can_change(kind: EventKind)
    ensures
        can_change(kind) <==> !(kind is Access) || kind == EventKind::Access(
            AccessKind::Close(AccessMode::Write),
        ),
{
}

/// Of the repository's own files those under `objects` and `logs` are passed
/// over, and locks; every other counts.
pub proof fn law_which_metadata_counts(inside: Seq<PartModel>)
    ensures
        ({
            let passed_over = inside.len() > 0 && (inside[0] == PartModel::Name("objects"@)
                || inside[0] == PartModel::Name("logs"@));
            let locks = name_of(inside) matches Some(name) && extension_of(name) == Some("lock"@);
            metadata_matters(inside) <==> !passed_over && !locks
        }),
{
}

/// A path is placed below the tree as it was resolved, and if it does not lie
/// there, below the tree as it was given.
pub proof fn law_paths_are_placed_in_the_tree(prefix: PrefixModel, path: Seq<PartModel>)
    ensures
        below(path, prefix.canonical) matches Some(rest) ==> prefix.relative(path) == Some(rest),
        below(path, prefix.canonical) is None ==> prefix.relative(path) == below(
            path,
            prefix.given,
        ),
{
}

/// A changed path counts by where it lies: in a metadata directory outside the
/// tree or in `.git` by what it is there, elsewhere in the tree unless it is
/// ignored, and outside of everything in any case.
pub proof fn law_where_a_change_counts(roots: RootsModel, changed: ChangedPath)
    ensures
        ({
            let path = native_parts(changed.path@);
            let outside = match roots.git_dir {
                Some(dir) => dir.relative(path),
                None => None::<Seq<PartModel>>,
            };
            let inside = roots.tree.relative(path);
            let own = inside matches Some(rest) && rest.len() > 0 && rest[0] == PartModel::Name(
                ".git"@,
            );
            &&& outside matches Some(rest) ==> (counts(roots, changed) <==> metadata_matters(rest))
            &&& outside is None && inside is None ==> counts(roots, changed)
            &&& outside is None && own ==> (counts(roots, changed) <==> metadata_matters(
                inside->0.skip(1),
            ))
            &&& outside is None && inside is Some && !own ==> (counts(roots, changed)
                <==> changed.ignored != Some(true))
        }),
{
}

} // verus!

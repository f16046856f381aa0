//! Read-only directory listing for the file-tree navigator.
//!
//! Each listing is one directory level; the caller decides when to descend.
//! Symlinks are reported as non-directories so the navigator never follows
//! one, which keeps the tree free of cycles without a visited-set.

use crate::sorting::{
    comes_before, in_order, lemma_text_before_irreflexive, lemma_text_before_total,
    lemma_text_before_transitive, sort, text_before, Ranked,
};
use crate::text::{
    ascii_lowered, ascii_small, chars_of, contains_sub, lowercased, occurs, to_lowercase,
};
use vstd::prelude::*;

verus! {

/// One immediate child of a directory. `is_dir` is taken from the entry's own
/// file type (symlinks resolve to `false`), so a symlinked directory shows up
/// as a non-expandable row and is never descended into.
#[derive(Debug, Clone, PartialEq, Eq)]
pub struct TreeEntry {
    pub name: String,
    pub is_dir: bool,
}

#[verifier::ext_equal]
pub struct EntryModel {
    pub name: Seq<char>,
    pub is_dir: bool,
}

impl TreeEntry {
    pub open spec fn model(&self) -> EntryModel {
        EntryModel { name: self.name@, is_dir: self.is_dir }
    }
}

/// The entries of a listing as plain values.
pub open spec fn entry_models(entries: Seq<TreeEntry>) -> Seq<EntryModel> {
    entries.map_values(|e: TreeEntry| e.model())
}

/// Directories first, then case-sensitive alphabetical.
impl Ranked for TreeEntry {
    open spec fn ranks(self, other: TreeEntry) -> bool {
        if self.is_dir != other.is_dir {
            self.is_dir
        } else {
            !text_before(other.name@, self.name@)
        }
    }

    proof fn ranks_total(a: TreeEntry, b: TreeEntry) {
        lemma_text_before_total(a.name@, b.name@);
    }

    proof fn ranks_transitive(a: TreeEntry, b: TreeEntry, c: TreeEntry) {
        lemma_not_before_transitive(a.name@, b.name@, c.name@);
    }

    fn may_precede(&self, other: &TreeEntry) -> (r: bool) {
        if self.is_dir != other.is_dir {
            self.is_dir
        } else {
            !comes_before(other.name.as_str(), self.name.as_str())
        }
    }
}

proof fn lemma_not_before_transitive(a: Seq<char>, b: Seq<char>, c: Seq<char>)
    ensures
        !text_before(b, a) && !text_before(c, b) ==> !text_before(c, a),
{
    lemma_text_before_total(a, b);
    lemma_text_before_total(b, c);
    lemma_text_before_total(a, c);
    if text_before(a, b) && text_before(b, c) {
        lemma_text_before_transitive(a, b, c);
    }
    lemma_text_before_irreflexive(a);
}

/// What reading a directory found at one place in it.
#[derive(Debug)]
pub struct FoundEntry {
    /// The name, unless it is not UTF-8.
    pub name: Option<String>,
    /// Whether the entry itself is a directory, unless that cannot be told.
    pub is_dir: Option<bool>,
    /// Whether the repository's ignore rules cover the path.
    pub ignored: bool,
}

/// Whether a name is the repository's metadata directory, on any file system.
pub open spec fn names_git_dir(name: Seq<char>) -> bool {
    ascii_lowered(name) == ".git"@
}

/// Whether a name is the repository's metadata directory. An exact comparison
/// would still list `.GIT` on a case-insensitive file system.
pub fn is_git_dir_name(name: &str) -> (r: bool)
    ensures
        r == names_git_dir(name@),
{
    let chars = chars_of(name);
    proof {
        reveal_strlit(".git");
    }
    if chars.len() != 4 {
        proof {
            assert(ascii_lowered(name@).len() != 4);
        }
        return false;
    }
    let r = chars[0] == '.' && (chars[1] == 'g' || chars[1] == 'G') && (chars[2] == 'i' || chars[2]
        == 'I') && (chars[3] == 't' || chars[3] == 'T');
    proof {
        let small = ascii_lowered(name@);
        assert(small.len() == 4);
        assert(small[0] == ascii_small(name@[0]) && small[1] == ascii_small(name@[1]) && small[2]
            == ascii_small(name@[2]) && small[3] == ascii_small(name@[3]));
        lemma_small(name@[0], '.', '.');
        lemma_small(name@[1], 'g', 'G');
        lemma_small(name@[2], 'i', 'I');
        lemma_small(name@[3], 't', 'T');
        if r {
            assert(small =~= ".git"@);
        } else if small == ".git"@ {
            assert(".git"@[0] == '.' && ".git"@[1] == 'g' && ".git"@[2] == 'i' && ".git"@[3] == 't');
        }
    }
    r
}

proof fn lemma_small(c: char, small: char, capital: char)
    requires
        !('A' <= small <= 'Z'),
        ('A' <= capital <= 'Z' && capital as u32 + 32 == small as u32) || (capital == small && !(97
            <= small as u32 <= 122)),
    ensures
        ascii_small(c) == small <==> c == small || c == capital,
{
}

/// Whether an entry is shown: it has a name that can be addressed, it is not
/// repository metadata, its type is known, and it is not ignored.
pub open spec fn shown(found: FoundEntry, respect_gitignore: bool) -> Option<EntryModel> {
    if found.name is None || names_git_dir(found.name->0@) || found.is_dir is None || (
    respect_gitignore && found.ignored) {
        None
    } else {
        Some(EntryModel { name: found.name->0@, is_dir: found.is_dir->0 })
    }
}

/// The entries that are shown, in the order they were found.
pub open spec fn shown_entries(found: Seq<FoundEntry>, respect_gitignore: bool) -> Seq<EntryModel>
    decreases found.len(),
{
    if found.len() == 0 {
        Seq::empty()
    } else {
        let before = shown_entries(found.drop_last(), respect_gitignore);
        match shown(found.last(), respect_gitignore) {
            Some(entry) => before.push(entry),
            None => before,
        }
    }
}

/// What reading a directory came to.
#[derive(Debug)]
pub enum DirRead {
    /// The worktree itself could not be resolved.
    NoWorkdir { workdir: String, reason: String },
    /// The path does not lead to a place in the worktree that may be read.
    Rejected(String),
    /// What the path leads to could not be inspected.
    NoStat(String),
    NotADirectory,
    /// It could not be read.
    NoListing(String),
    Listed(Vec<FoundEntry>),
}

/// Why a directory could not be listed, in words.
pub open spec fn dir_failure(rel_dir: Seq<char>, read: DirRead) -> Option<Seq<char>> {
    match read {
        DirRead::NoWorkdir { workdir, reason } => Some(
            "failed to resolve workdir "@ + workdir@ + ": "@ + reason@,
        ),
        DirRead::Rejected(reason) => Some(reason@),
        DirRead::NoStat(reason) => Some("failed to stat "@ + rel_dir + ": "@ + reason@),
        DirRead::NotADirectory => Some("not a directory: "@ + rel_dir),
        DirRead::NoListing(reason) => Some(
            "failed to read directory "@ + rel_dir + ": "@ + reason@,
        ),
        DirRead::Listed(_) => None,
    }
}

proof fn lemma_models_multiset(a: Seq<TreeEntry>, b: Seq<TreeEntry>)
    requires
        a.to_multiset() == b.to_multiset(),
    ensures
        entry_models(a).to_multiset() == entry_models(b).to_multiset(),
    decreases a.len(),
{
    a.to_multiset_ensures();
    b.to_multiset_ensures();
    if a.len() == 0 {
        assert(a.to_multiset().len() == b.to_multiset().len());
        assert(entry_models(a) =~= entry_models(b));
    } else {
        let x = a.last();
        assert(a.to_multiset().contains(x)) by {
            assert(a.contains(x));
        }
        assert(b.contains(x));
        let i = b.index_of(x);
        let rest_a = a.drop_last();
        let rest_b = b.remove(i);
        assert(a =~= rest_a.push(x));
        vstd::seq_lib::to_multiset_build(rest_a, x);
        vstd::seq_lib::to_multiset_remove(b, i);
        assert(rest_a.to_multiset() =~= rest_b.to_multiset());
        lemma_models_multiset(rest_a, rest_b);
        assert(entry_models(a) =~= entry_models(rest_a).push(x.model()));
        vstd::seq_lib::to_multiset_build(entry_models(rest_a), x.model());
        assert(entry_models(rest_b) =~= entry_models(b).remove(i));
        vstd::seq_lib::to_multiset_remove(entry_models(b), i);
        vstd::seq_lib::to_multiset_contains(entry_models(b), x.model());
        assert(entry_models(b)[i] == x.model());
        assert(entry_models(b).contains(x.model()));
        assert(entry_models(a).to_multiset() =~= entry_models(b).to_multiset());
    }
}

/// The children of `rel_dir` (a repo-relative path; `""` is the root), from
/// what reading it found. Entries are filtered and returned sorted with
/// directories first, then case-sensitive alphabetical by name.
///
/// Repository metadata is skipped at every level. Names that are not UTF-8 are
/// skipped because files are addressed by text paths, and so are entries whose
/// type cannot be read, rather than failing the whole listing.
pub fn read_children(rel_dir: &str, read: &DirRead, respect_gitignore: bool) -> (r: Result<
    Vec<TreeEntry>,
    String,
>)
    ensures
        match dir_failure(rel_dir@, *read) {
            Some(text) => r matches Err(said) && said@ == text,
            None => r matches Ok(entries) && in_order(entries@) && entry_models(
                entries@,
            ).to_multiset() == shown_entries(read->Listed_0@, respect_gitignore).to_multiset(),
        },
{
    let found = match read {
        DirRead::NoWorkdir { workdir, reason } => {
            return Err(
                "failed to resolve workdir ".to_owned().concat(workdir.as_str()).concat(
                    ": ",
                ).concat(reason.as_str()),
            );
        },
        DirRead::Rejected(reason) => {
            return Err(reason.clone());
        },
        DirRead::NoStat(reason) => {
            return Err(
                "failed to stat ".to_owned().concat(rel_dir).concat(": ").concat(reason.as_str()),
            );
        },
        DirRead::NotADirectory => {
            return Err("not a directory: ".to_owned().concat(rel_dir));
        },
        DirRead::NoListing(reason) => {
            return Err(
                "failed to read directory ".to_owned().concat(rel_dir).concat(": ").concat(
                    reason.as_str(),
                ),
            );
        },
        DirRead::Listed(found) => found,
    };
    let mut out: Vec<TreeEntry> = Vec::new();
    let mut i: usize = 0;
    proof {
        assert(found@.take(0) =~= Seq::<FoundEntry>::empty());
        assert(entry_models(out@) =~= Seq::<EntryModel>::empty());
    }
    while i < found.len()
        invariant
            i <= found@.len(),
            entry_models(out@) == shown_entries(found@.take(i as int), respect_gitignore),
        decreases found.len() - i,
    {
        proof {
            assert(found@.take(i + 1).drop_last() =~= found@.take(i as int));
            assert(found@.take(i + 1).last() == found@[i as int]);
        }
        let entry = &found[i];
        i += 1;
        if let Some(name) = &entry.name {
            if let Some(entry_is_dir) = entry.is_dir {
                if !is_git_dir_name(name.as_str()) && !(respect_gitignore && entry.ignored) {
                    let ghost before = out@;
                    out.push(TreeEntry { name: name.clone(), is_dir: entry_is_dir });
                    proof {
                        assert(entry_models(out@) =~= entry_models(before).push(
                            EntryModel { name: name@, is_dir: entry_is_dir },
                        ));
                    }
                }
            }
        }
    }
    proof {
        assert(found@.take(i as int) =~= found@);
    }
    let ghost filtered = out@;
    let sorted = sort(out);
    proof {
        lemma_models_multiset(sorted@, filtered);
    }
    Ok(sorted)
}

/// No listing shows the repository's metadata directory.
pub proof fn law_git_dir_is_never_shown(found: Seq<FoundEntry>, respect_gitignore: bool, i: int)
    requires
        0 <= i < shown_entries(found, respect_gitignore).len(),
    ensures
        !names_git_dir(shown_entries(found, respect_gitignore)[i].name),
    decreases found.len(),
{
    if found.len() > 0 {
        let before = shown_entries(found.drop_last(), respect_gitignore);
        if i < before.len() {
            law_git_dir_is_never_shown(found.drop_last(), respect_gitignore, i);
        }
    }
}

/// The path of `name` in `dir` (`""` is the root).
pub open spec fn path_in(dir: Seq<char>, name: Seq<char>) -> Seq<char> {
    if dir.len() == 0 {
        name
    } else {
        dir + "/"@ + name
    }
}

/// The path of `name` in `dir` (`""` is the root).
pub fn child_path(dir: &str, name: &str) -> (r: String)
    ensures
        r@ == path_in(dir@, name@),
{
    if dir.is_empty() {
        name.to_owned()
    } else {
        dir.to_owned().concat("/").concat(name)
    }
}

/// One hit of a search: the full repo-relative path and whether the entry is a
/// directory.
#[derive(Debug, Clone, PartialEq, Eq)]
pub struct TreeMatch {
    pub path: String,
    pub is_dir: bool,
}

#[verifier::ext_equal]
pub struct MatchModel {
    pub path: Seq<char>,
    pub is_dir: bool,
}

impl TreeMatch {
    pub open spec fn model(&self) -> MatchModel {
        MatchModel { path: self.path@, is_dir: self.is_dir }
    }
}

/// Hits are listed by path.
impl Ranked for TreeMatch {
    open spec fn ranks(self, other: TreeMatch) -> bool {
        !text_before(other.path@, self.path@)
    }

    proof fn ranks_total(a: TreeMatch, b: TreeMatch) {
        lemma_text_before_total(a.path@, b.path@);
    }

    proof fn ranks_transitive(a: TreeMatch, b: TreeMatch, c: TreeMatch) {
        lemma_not_before_transitive(a.path@, b.path@, c.path@);
    }

    fn may_precede(&self, other: &TreeMatch) -> (r: bool) {
        !comes_before(other.path.as_str(), self.path.as_str())
    }
}

/// The entries of `dir`, unless it cannot be read.
pub open spec fn listing_of(tree: Map<Seq<char>, Seq<EntryModel>>, dir: Seq<char>) -> Option<
    Seq<EntryModel>,
> {
    if tree.contains_key(dir) {
        Some(tree[dir])
    } else {
        None
    }
}

/// Whether `m` is the entry `i` of `dir`.
pub open spec fn is_entry(
    tree: Map<Seq<char>, Seq<EntryModel>>,
    dir: Seq<char>,
    i: int,
    m: MatchModel,
) -> bool {
    &&& tree.contains_key(dir)
    &&& 0 <= i < tree[dir].len()
    &&& m == MatchModel { path: path_in(dir, tree[dir][i].name), is_dir: tree[dir][i].is_dir }
}

/// Whether one comes from the root to the directory `dir` in `depth` steps
/// down.
pub open spec fn lies_at(
    tree: Map<Seq<char>, Seq<EntryModel>>,
    dir: Seq<char>,
    depth: nat,
) -> bool
    decreases depth,
{
    if depth == 0 {
        dir.len() == 0
    } else {
        exists|up: Seq<char>, i: int|
            #![trigger is_entry(tree, up, i, MatchModel { path: dir, is_dir: true })]
            lies_at(tree, up, (depth - 1) as nat) && is_entry(
                tree,
                up,
                i,
                MatchModel { path: dir, is_dir: true },
            )
    }
}

/// Whether `m` is an entry of `tree` whose name holds the query, in a directory
/// no deeper than the limit.
pub open spec fn is_match(
    tree: Map<Seq<char>, Seq<EntryModel>>,
    query: Seq<char>,
    max_depth: nat,
    m: MatchModel,
) -> bool {
    exists|dir: Seq<char>, depth: nat, i: int|
        #![trigger lies_at(tree, dir, depth), is_entry(tree, dir, i, m)]
        depth <= max_depth && lies_at(tree, dir, depth) && is_entry(tree, dir, i, m) && occurs(
            lowercased(tree[dir][i].name),
            query,
        )
}

/// A search of the tree, one directory at a time: the caller reads the
/// directory the search asks for and hands in what it found.
pub struct TreeSearch {
    /// The query, in lower case.
    pub query: String,
    pub max_depth: usize,
    pub max_visits: usize,
    pub limit: usize,
    /// Directories still to read, each with the depth of its children.
    pub stack: Vec<(String, usize)>,
    pub matches: Vec<TreeMatch>,
    pub visited: usize,
    /// Whether the visit budget cut the walk short.
    pub budget_hit: bool,
}

#[verifier::ext_equal]
pub struct SearchModel {
    pub query: Seq<char>,
    pub max_depth: usize,
    pub max_visits: usize,
    pub stack: Seq<(Seq<char>, usize)>,
    pub matches: Seq<MatchModel>,
    pub visited: usize,
    pub budget_hit: bool,
}

impl SearchModel {
    /// A search of which nothing was read yet: the root is to be read first.
    pub open spec fn begun(query: Seq<char>, max_depth: usize, max_visits: usize) -> SearchModel {
        SearchModel {
            query,
            max_depth,
            max_visits,
            stack: seq![(Seq::empty(), 0usize)],
            matches: Seq::empty(),
            visited: 0,
            budget_hit: false,
        }
    }

    /// The search after at most `n` directories of `tree` were read. What
    /// `tree` does not hold cannot be read.
    pub open spec fn walked(self, tree: Map<Seq<char>, Seq<EntryModel>>, n: nat) -> SearchModel
        decreases n,
    {
        if n == 0 {
            self
        } else {
            let before = self.walked(tree, (n - 1) as nat);
            if before.wants_more() {
                before.advanced(listing_of(tree, before.stack.last().0))
            } else {
                before
            }
        }
    }

    /// Whether the walk is over with nothing cut off by the visit budget.
    pub open spec fn is_complete(self) -> bool {
        !self.budget_hit && self.stack.len() == 0
    }

    /// One entry of the directory `dir` was inspected.
    pub open spec fn inspected(self, dir: Seq<char>, depth: usize, entry: EntryModel) -> SearchModel {
        if self.budget_hit {
            self
        } else if self.visited >= self.max_visits {
            SearchModel { budget_hit: true, ..self }
        } else {
            let path = path_in(dir, entry.name);
            SearchModel {
                visited: (self.visited + 1) as usize,
                matches: if occurs(lowercased(entry.name), self.query) {
                    self.matches.push(MatchModel { path, is_dir: entry.is_dir })
                } else {
                    self.matches
                },
                stack: if entry.is_dir && depth < self.max_depth {
                    self.stack.push((path, (depth + 1) as usize))
                } else {
                    self.stack
                },
                ..self
            }
        }
    }

    /// The entries of the directory `dir` were inspected, in order.
    pub open spec fn inspected_all(
        self,
        dir: Seq<char>,
        depth: usize,
        entries: Seq<EntryModel>,
    ) -> SearchModel
        decreases entries.len(),
    {
        if entries.len() == 0 {
            self
        } else {
            self.inspected_all(dir, depth, entries.drop_last()).inspected(dir, depth, entries.last())
        }
    }

    /// The directory on top of the stack was read: its entries, or `None`
    /// where it could not be read.
    pub open spec fn advanced(self, listing: Option<Seq<EntryModel>>) -> SearchModel {
        let (dir, depth) = self.stack.last();
        let popped = SearchModel { stack: self.stack.drop_last(), ..self };
        match listing {
            None => popped,
            Some(entries) => popped.inspected_all(dir, depth, entries),
        }
    }

    /// Whether there is a directory to read.
    pub open spec fn wants_more(self) -> bool {
        !self.budget_hit && self.stack.len() > 0
    }
}

/// Begin a search for entries whose name contains `query`, in lower case.
///
/// `max_visits` bounds how many entries the walk may inspect, matching or not:
/// that is what bounds the work on a pathological tree. Directories deeper than
/// `max_depth` are not entered, and at most `limit` hits are returned. An empty
/// `query` matches every entry, so callers gate on non-empty input.
pub fn search_tree(query: &str, max_depth: usize, max_visits: usize, limit: usize) -> (r: TreeSearch)
    ensures
        r.model() == SearchModel::begun(lowercased(query@), max_depth, max_visits),
        r.limit == limit,
{
    start_search(to_lowercase(query), max_depth, max_visits, limit)
}

/// Begin a search for entries whose name in lower case contains `query`.
pub fn start_search(query: String, max_depth: usize, max_visits: usize, limit: usize) -> (r:
    TreeSearch)
    ensures
        r.model() == SearchModel::begun(query@, max_depth, max_visits),
        r.limit == limit,
{
    let mut stack: Vec<(String, usize)> = Vec::new();
    stack.push((String::new(), 0));
    let r = TreeSearch {
        query,
        max_depth,
        max_visits,
        limit,
        stack,
        matches: Vec::new(),
        visited: 0,
        budget_hit: false,
    };
    proof {
        assert(r.model().stack =~= seq![(Seq::empty(), 0usize)]);
        assert(r.model().matches =~= Seq::empty());
    }
    r
}

impl TreeSearch {
    pub open spec fn model(&self) -> SearchModel {
        SearchModel {
            query: self.query@,
            max_depth: self.max_depth,
            max_visits: self.max_visits,
            stack: self.stack@.map_values(|d: (String, usize)| (d.0@, d.1)),
            matches: self.matches@.map_values(|m: TreeMatch| m.model()),
            visited: self.visited,
            budget_hit: self.budget_hit,
        }
    }

    /// The directory to read next (`""` is the root), or `None` when the walk
    /// is over.
    pub fn next_dir(&self) -> (r: Option<&str>)
        ensures
            r is Some <==> self.model().wants_more(),
            r matches Some(dir) ==> dir@ == self.model().stack.last().0,
    {
        let n: usize = self.stack.len();
        if self.budget_hit || n == 0 {
            None
        } else {
            Some(self.stack[n - 1].0.as_str())
        }
    }

    fn inspect(&mut self, dir: &str, depth: usize, entry: &TreeEntry)
        ensures
            final(self).model() == old(self).model().inspected(dir@, depth, entry.model()),
            final(self).limit == old(self).limit,
    {
        let ghost before = self.model();
        if self.budget_hit {
            return;
        }
        if self.visited >= self.max_visits {
            self.budget_hit = true;
            return;
        }
        self.visited = self.visited + 1;
        let path = child_path(dir, entry.name.as_str());
        let ghost at = path@;
        let name = to_lowercase(entry.name.as_str());
        let hit = contains_sub(
            &chars_of(name.as_str()),
            &chars_of(self.query.as_str()),
        );
        if hit {
            self.matches.push(TreeMatch { path: path.clone(), is_dir: entry.is_dir });
            proof {
                assert(self.model().matches =~= before.matches.push(
                    MatchModel { path: at, is_dir: entry.is_dir },
                ));
            }
        }
        if entry.is_dir && depth < self.max_depth {
            self.stack.push((path, depth + 1));
            proof {
                assert(self.model().stack =~= before.stack.push((at, (depth + 1) as usize)));
            }
        }
        proof {
            assert(self.model() =~= before.inspected(dir@, depth, entry.model()));
        }
    }

    /// Take in the listing of the directory that `next_dir` named. `None`
    /// where it could not be read: the root must be readable, and a
    /// subdirectory that vanished mid-walk is skipped. Whether the search can
    /// go on.
    pub fn advance(&mut self, listing: Option<&Vec<TreeEntry>>) -> (r: bool)
        requires
            old(self).model().wants_more(),
        ensures
            r == !(listing is None && old(self).model().stack.last().0.len() == 0),
            final(self).model() == old(self).model().advanced(
                match listing {
                    Some(entries) => Some(entry_models(entries@)),
                    None => None,
                },
            ),
            final(self).limit == old(self).limit,
    {
        let ghost before = self.model();
        let n: usize = self.stack.len();
        let (dir, depth) = self.stack.remove(n - 1);
        let ghost popped = SearchModel { stack: before.stack.drop_last(), ..before };
        proof {
            assert(self.model().stack =~= before.stack.drop_last());
            assert(self.model() =~= popped);
        }
        let entries = match listing {
            None => {
                return !dir.as_str().is_empty();
            },
            Some(entries) => entries,
        };
        let ghost models = entry_models(entries@);
        let mut i: usize = 0;
        proof {
            assert(models.take(0) =~= Seq::<EntryModel>::empty());
        }
        while i < entries.len()
            invariant
                i <= entries@.len(),
                models == entry_models(entries@),
                self.limit == old(self).limit,
                self.model() == popped.inspected_all(dir@, depth, models.take(i as int)),
            decreases entries.len() - i,
        {
            self.inspect(dir.as_str(), depth, &entries[i]);
            proof {
                assert(models.take(i + 1).drop_last() =~= models.take(i as int));
                assert(models.take(i + 1).last() == entries@[i as int].model());
            }
            i += 1;
        }
        proof {
            assert(models.take(i as int) =~= models);
        }
        true
    }

    /// The hits, by path, and whether the listing is incomplete: the walk was
    /// cut short, or there were more hits than are returned.
    pub fn finish(self) -> (r: (Vec<TreeMatch>, bool))
        ensures
            in_order(r.0@),
            r.1 == (self.budget_hit || self.matches@.len() > self.limit),
            forall|i: int| 0 <= i < r.0@.len() ==> self.matches@.contains(#[trigger] r.0@[i]),
            !r.1 ==> r.0@.to_multiset() == self.matches@.to_multiset(),
            exists|all: Seq<TreeMatch>|
                {
                    &&& in_order(all)
                    &&& #[trigger] all.to_multiset() == self.matches@.to_multiset()
                    &&& r.0@ == if all.len() <= self.limit {
                        all
                    } else {
                        all.take(self.limit as int)
                    }
                },
    {
        let limit: usize = self.limit;
        let budget_hit = self.budget_hit;
        let mut sorted = sort(self.matches);
        let ghost all = sorted@;
        let truncated = budget_hit || sorted.len() > limit;
        sorted.truncate(limit);
        proof {
            assert(in_order(all));
            assert(all.to_multiset() == self.matches@.to_multiset());
            all.to_multiset_ensures();
            self.matches@.to_multiset_ensures();
            assert forall|i: int| 0 <= i < all.len() implies self.matches@.contains(
                #[trigger] all[i],
            ) by {
                assert(all.contains(all[i]));
                assert(all.to_multiset().contains(all[i]));
            }
            assert(all.len() == self.matches@.len());
            assert(sorted@ =~= if all.len() <= limit {
                all
            } else {
                all.take(limit as int)
            });
        }
        (sorted, truncated)
    }
}

/// The walk never inspects more entries than it may, and never has more hits
/// than it inspected entries.
pub proof fn law_search_is_bounded(
    search: SearchModel,
    dir: Seq<char>,
    depth: usize,
    entries: Seq<EntryModel>,
)
    requires
        search.visited <= search.max_visits,
        search.matches.len() <= search.visited,
    ensures
        ({
            let after = search.inspected_all(dir, depth, entries);
            &&& after.visited <= after.max_visits
            &&& after.matches.len() <= after.visited
            &&& after.max_visits == search.max_visits
            &&& after.max_depth == search.max_depth
            &&& after.query == search.query
        }),
    decreases entries.len(),
{
    if entries.len() > 0 {
        law_search_is_bounded(search, dir, depth, entries.drop_last());
    }
}

/// No directory deeper than the limit is ever asked for.
pub proof fn law_search_depth_is_bounded(
    search: SearchModel,
    dir: Seq<char>,
    depth: usize,
    entries: Seq<EntryModel>,
)
    requires
        forall|i: int| 0 <= i < search.stack.len() ==> (#[trigger] search.stack[i]).1
            <= search.max_depth,
    ensures
        ({
            let after = search.inspected_all(dir, depth, entries);
            after.max_depth == search.max_depth && forall|i: int|
                0 <= i < after.stack.len() ==> (#[trigger] after.stack[i]).1 <= after.max_depth
        }),
    decreases entries.len(),
{
    if entries.len() > 0 {
        law_search_depth_is_bounded(search, dir, depth, entries.drop_last());
    }
}

/// Whether `m` is one of `entries` of `dir` whose name holds the query.
spec fn is_hit_of(query: Seq<char>, dir: Seq<char>, entries: Seq<EntryModel>, m: MatchModel) -> bool {
    exists|i: int|
        #![trigger entries[i]]
        0 <= i < entries.len() && occurs(lowercased(entries[i].name), query) && m == (MatchModel {
            path: path_in(dir, entries[i].name),
            is_dir: entries[i].is_dir,
        })
}

/// Whether `path` is that of a directory among `entries` of `dir`.
spec fn is_dir_of(dir: Seq<char>, entries: Seq<EntryModel>, path: Seq<char>) -> bool {
    exists|i: int|
        #![trigger entries[i]]
        0 <= i < entries.len() && entries[i].is_dir && path == path_in(dir, entries[i].name)
}

/// Whether `child` is a directory among `entries` of `dir`, with the depth of its
/// children.
spec fn is_below(
    search: SearchModel,
    dir: Seq<char>,
    depth: usize,
    entries: Seq<EntryModel>,
    child: (Seq<char>, usize),
) -> bool {
    depth < search.max_depth && child.1 == depth + 1 && is_dir_of(dir, entries, child.0)
}

/// Whether an entry of `dir` is in the search: among the hits where its name
/// holds the query, and to be read where it is a directory that may be entered.
spec fn is_in(search: SearchModel, dir: Seq<char>, depth: usize, entry: EntryModel) -> bool {
    let path = path_in(dir, entry.name);
    &&& occurs(lowercased(entry.name), search.query) ==> search.matches.contains(
        (MatchModel { path, is_dir: entry.is_dir }),
    )
    &&& entry.is_dir && depth < search.max_depth ==> search.stack.contains(
        (path, (depth + 1) as usize),
    )
}

proof fn lemma_inspected_all(
    search: SearchModel,
    dir: Seq<char>,
    depth: usize,
    entries: Seq<EntryModel>,
)
    ensures
        search.inspected_all(dir, depth, entries).query == search.query,
        search.inspected_all(dir, depth, entries).max_depth == search.max_depth,
        search.inspected_all(dir, depth, entries).max_visits == search.max_visits,
        search.budget_hit ==> search.inspected_all(dir, depth, entries).budget_hit,
        search.visited <= search.inspected_all(dir, depth, entries).visited,
        search.visited <= search.max_visits ==> search.inspected_all(dir, depth, entries).visited
            <= search.max_visits,
        search.stack.len() <= search.inspected_all(dir, depth, entries).stack.len(),
        search.inspected_all(dir, depth, entries).stack.len() - search.stack.len()
            <= search.inspected_all(dir, depth, entries).visited - search.visited,
        search.inspected_all(dir, depth, entries).stack.take(search.stack.len() as int)
            == search.stack,
        search.matches.len() <= search.inspected_all(dir, depth, entries).matches.len(),
        search.inspected_all(dir, depth, entries).matches.take(search.matches.len() as int)
            == search.matches,
        forall|k: int|
            search.matches.len() <= k < search.inspected_all(dir, depth, entries).matches.len()
                ==> is_hit_of(
                search.query,
                dir,
                entries,
                #[trigger] search.inspected_all(dir, depth, entries).matches[k],
            ),
        forall|k: int|
            search.stack.len() <= k < search.inspected_all(dir, depth, entries).stack.len()
                ==> is_below(
                search,
                dir,
                depth,
                entries,
                #[trigger] search.inspected_all(dir, depth, entries).stack[k],
            ),
        !search.inspected_all(dir, depth, entries).budget_hit ==> forall|i: int|
            0 <= i < entries.len() ==> is_in(
                search.inspected_all(dir, depth, entries),
                dir,
                depth,
                #[trigger] entries[i],
            ),
    decreases entries.len(),
{
    let after = search.inspected_all(dir, depth, entries);
    if entries.len() == 0 {
        assert(search.stack.take(search.stack.len() as int) =~= search.stack);
        assert(search.matches.take(search.matches.len() as int) =~= search.matches);
    } else {
        let shorter = entries.drop_last();
        let before = search.inspected_all(dir, depth, shorter);
        let entry = entries.last();
        let n = entries.len() - 1;
        lemma_inspected_all(search, dir, depth, shorter);
        assert(after == before.inspected(dir, depth, entry));
        assert(entries[n] == entry);
        assert(after.stack.take(search.stack.len() as int) =~= before.stack.take(
            search.stack.len() as int,
        ));
        assert(after.matches.take(search.matches.len() as int) =~= before.matches.take(
            search.matches.len() as int,
        ));
        assert forall|k: int| search.matches.len() <= k < after.matches.len() implies is_hit_of(
            search.query,
            dir,
            entries,
            #[trigger] after.matches[k],
        ) by {
            if k < before.matches.len() {
                assert(after.matches[k] == before.matches[k]);
                let i = choose|i: int|
                    #![trigger shorter[i]]
                    0 <= i < shorter.len() && occurs(lowercased(shorter[i].name), search.query)
                        && before.matches[k] == (MatchModel {
                        path: path_in(dir, shorter[i].name),
                        is_dir: shorter[i].is_dir,
                    });
                assert(entries[i] == shorter[i]);
            }
        }
        assert forall|k: int| search.stack.len() <= k < after.stack.len() implies is_below(
            search,
            dir,
            depth,
            entries,
            #[trigger] after.stack[k],
        ) by {
            if k < before.stack.len() {
                assert(after.stack[k] == before.stack[k]);
                let path = before.stack[k].0;
                assert(is_below(search, dir, depth, shorter, before.stack[k]));
                assert(is_dir_of(dir, shorter, path));
                let i = choose|i: int|
                    #![trigger shorter[i]]
                    0 <= i < shorter.len() && shorter[i].is_dir && path == path_in(
                        dir,
                        shorter[i].name,
                    );
                assert(entries[i] == shorter[i]);
            }
        }
        if !after.budget_hit {
            assert forall|i: int| 0 <= i < entries.len() implies is_in(
                after,
                dir,
                depth,
                #[trigger] entries[i],
            ) by {
                let m = MatchModel {
                    path: path_in(dir, entries[i].name),
                    is_dir: entries[i].is_dir,
                };
                let child = (path_in(dir, entries[i].name), (depth + 1) as usize);
                if i < n {
                    assert(shorter[i] == entries[i]);
                    assert(is_in(before, dir, depth, shorter[i]));
                    if before.matches.contains(m) {
                        let k = choose|k: int|
                            0 <= k < before.matches.len() && before.matches[k] == m;
                        assert(after.matches[k] == m);
                    }
                    if before.stack.contains(child) {
                        let k = choose|k: int|
                            0 <= k < before.stack.len() && before.stack[k] == child;
                        assert(after.stack[k] == child);
                    }
                } else {
                    if occurs(lowercased(entry.name), search.query) {
                        assert(after.matches.last() == m);
                    }
                    if entry.is_dir && depth < search.max_depth {
                        assert(after.stack.last() == child);
                    }
                }
            }
        }
    }
}

/// What every state of a walk keeps: what was found matches, what is to be read
/// lies in the tree, and neither the budget nor the depth is exceeded.
pub open spec fn walk_holds(
    search: SearchModel,
    tree: Map<Seq<char>, Seq<EntryModel>>,
    read: nat,
) -> bool {
    &&& search.visited <= search.max_visits
    &&& search.wants_more() ==> search.stack.len() + read <= 1 + search.visited
    &&& forall|k: int|
        0 <= k < search.matches.len() ==> is_match(
            tree,
            search.query,
            search.max_depth as nat,
            #[trigger] search.matches[k],
        )
    &&& forall|k: int|
        0 <= k < search.stack.len() ==> (#[trigger] search.stack[k]).1 <= search.max_depth
            && lies_at(tree, search.stack[k].0, search.stack[k].1 as nat)
}

proof fn lemma_walk_holds(
    query: Seq<char>,
    max_depth: usize,
    max_visits: usize,
    tree: Map<Seq<char>, Seq<EntryModel>>,
    n: nat,
)
    ensures
        ({
            let search = SearchModel::begun(query, max_depth, max_visits).walked(tree, n);
            &&& walk_holds(search, tree, n)
            &&& search.query == query
            &&& search.max_depth == max_depth
            &&& search.max_visits == max_visits
        }),
    decreases n,
{
    let begun = SearchModel::begun(query, max_depth, max_visits);
    if n > 0 {
        let before = begun.walked(tree, (n - 1) as nat);
        let search = begun.walked(tree, n);
        lemma_walk_holds(query, max_depth, max_visits, tree, (n - 1) as nat);
        if before.wants_more() {
            let (dir, depth) = before.stack.last();
            let popped = SearchModel { stack: before.stack.drop_last(), ..before };
            let last = before.stack.len() - 1;
            assert(before.stack[last] == (dir, depth));
            assert(lies_at(tree, dir, depth as nat));
            if tree.contains_key(dir) {
                let entries = tree[dir];
                lemma_inspected_all(popped, dir, depth, entries);
                assert(search == popped.inspected_all(dir, depth, entries));
                assert forall|k: int| 0 <= k < search.matches.len() implies is_match(
                    tree,
                    query,
                    max_depth as nat,
                    #[trigger] search.matches[k],
                ) by {
                    if k < before.matches.len() {
                        assert(search.matches[k] == search.matches.take(
                            before.matches.len() as int,
                        )[k]);
                        assert(search.matches[k] == before.matches[k]);
                    } else {
                        let m = search.matches[k];
                        assert(is_hit_of(query, dir, entries, m));
                        let i = choose|i: int|
                            #![trigger entries[i]]
                            0 <= i < entries.len() && occurs(
                                lowercased(entries[i].name),
                                query,
                            ) && m == (MatchModel {
                                path: path_in(dir, entries[i].name),
                                is_dir: entries[i].is_dir,
                            });
                        assert(is_entry(tree, dir, i, m));
                    }
                }
                assert forall|k: int| 0 <= k < search.stack.len() implies (
                #[trigger] search.stack[k]).1 <= max_depth && lies_at(
                    tree,
                    search.stack[k].0,
                    search.stack[k].1 as nat,
                ) by {
                    if k < popped.stack.len() {
                        assert(search.stack[k] == search.stack.take(
                            popped.stack.len() as int,
                        )[k]);
                        assert(search.stack[k] == before.stack[k]);
                    } else {
                        let path = search.stack[k].0;
                        assert(is_below(popped, dir, depth, entries, search.stack[k]));
                        assert(is_dir_of(dir, entries, path));
                        let i = choose|i: int|
                            #![trigger entries[i]]
                            0 <= i < entries.len() && entries[i].is_dir && path == path_in(
                                dir,
                                entries[i].name,
                            );
                        assert(is_entry(tree, dir, i, MatchModel { path, is_dir: true }));
                        assert(lies_at(tree, path, (depth + 1) as nat));
                    }
                }
            } else {
                assert(search == popped);
            }
        }
    }
}

/// Whatever was read, every hit of a search is an entry of the tree whose name
/// holds the query, in a directory no deeper than the limit, and no more
/// entries were inspected than allowed.
pub proof fn law_hits_match(
    query: Seq<char>,
    max_depth: usize,
    max_visits: usize,
    tree: Map<Seq<char>, Seq<EntryModel>>,
    n: nat,
    k: int,
)
    ensures
        ({
            let search = SearchModel::begun(query, max_depth, max_visits).walked(tree, n);
            &&& search.visited <= max_visits
            &&& 0 <= k < search.matches.len() ==> is_match(
                tree,
                query,
                max_depth as nat,
                search.matches[k],
            )
        }),
{
    lemma_walk_holds(query, max_depth, max_visits, tree, n);
}

/// A search ends: once as many directories were read as it may inspect entries,
/// and the root, it wants no more.
pub proof fn law_search_ends(
    query: Seq<char>,
    max_depth: usize,
    max_visits: usize,
    tree: Map<Seq<char>, Seq<EntryModel>>,
    n: nat,
)
    requires
        n > max_visits,
    ensures
        !SearchModel::begun(query, max_depth, max_visits).walked(tree, n).wants_more(),
{
    lemma_walk_holds(query, max_depth, max_visits, tree, n);
}

/// The directories that were read, each with the depth of its children.
spec fn dirs_read(
    begun: SearchModel,
    tree: Map<Seq<char>, Seq<EntryModel>>,
    n: nat,
) -> Set<(Seq<char>, usize)>
    decreases n,
{
    if n == 0 {
        Set::empty()
    } else {
        let before = begun.walked(tree, (n - 1) as nat);
        let read = dirs_read(begun, tree, (n - 1) as nat);
        if before.wants_more() {
            read.insert(before.stack.last())
        } else {
            read
        }
    }
}

/// Whether a directory was read or is still to be read.
spec fn is_known(
    search: SearchModel,
    read: Set<(Seq<char>, usize)>,
    dir: Seq<char>,
    depth: usize,
) -> bool {
    read.contains((dir, depth)) || search.stack.contains((dir, depth))
}

/// Whether the entry `i` of a directory that was read was taken in: a match is
/// among the hits, and a directory that may be entered is known.
spec fn is_taken_in(
    search: SearchModel,
    read: Set<(Seq<char>, usize)>,
    tree: Map<Seq<char>, Seq<EntryModel>>,
    dir: Seq<char>,
    depth: usize,
    i: int,
) -> bool {
    let entry = tree[dir][i];
    let path = path_in(dir, entry.name);
    &&& occurs(lowercased(entry.name), search.query) ==> search.matches.contains(
        (MatchModel { path, is_dir: entry.is_dir }),
    )
    &&& entry.is_dir && depth < search.max_depth ==> is_known(
        search,
        read,
        path,
        (depth + 1) as usize,
    )
}

proof fn lemma_everything_is_taken_in(
    begun: SearchModel,
    query: Seq<char>,
    max_depth: usize,
    max_visits: usize,
    tree: Map<Seq<char>, Seq<EntryModel>>,
    n: nat,
)
    requires
        begun == SearchModel::begun(query, max_depth, max_visits),
        !begun.walked(tree, n).budget_hit,
    ensures
        is_known(begun.walked(tree, n), dirs_read(begun, tree, n), Seq::empty(), 0),
        forall|dir: Seq<char>, depth: usize, i: int|
            dirs_read(begun, tree, n).contains((dir, depth)) && tree.contains_key(dir) && 0 <= i
                < tree[dir].len() ==> #[trigger] is_taken_in(
                begun.walked(tree, n),
                dirs_read(begun, tree, n),
                tree,
                dir,
                depth,
                i,
            ),
    decreases n,
{
    let search = begun.walked(tree, n);
    let read = dirs_read(begun, tree, n);
    if n == 0 {
        assert(search.stack[0] == (Seq::<char>::empty(), 0usize));
    } else {
        let before = begun.walked(tree, (n - 1) as nat);
        let had = dirs_read(begun, tree, (n - 1) as nat);
        lemma_walk_holds(query, max_depth, max_visits, tree, (n - 1) as nat);
        if !before.wants_more() {
            lemma_everything_is_taken_in(begun, query, max_depth, max_visits, tree, (n - 1) as nat);
        } else {
            let (top, at) = before.stack.last();
            let popped = SearchModel { stack: before.stack.drop_last(), ..before };
            lemma_everything_is_taken_in(begun, query, max_depth, max_visits, tree, (n - 1) as nat);
            if tree.contains_key(top) {
                lemma_inspected_all(popped, top, at, tree[top]);
                assert(search == popped.inspected_all(top, at, tree[top]));
            }
            assert forall|dir: Seq<char>, depth: usize|
                is_known(before, had, dir, depth) implies #[trigger] is_known(
                search,
                read,
                dir,
                depth,
            ) by {
                if !had.contains((dir, depth)) {
                    let k = choose|k: int|
                        0 <= k < before.stack.len() && before.stack[k] == (dir, depth);
                    if k < before.stack.len() - 1 {
                        assert(search.stack.take(popped.stack.len() as int)[k] == popped.stack[k]);
                        assert(search.stack[k] == (dir, depth));
                    } else {
                        assert(read.contains((dir, depth)));
                    }
                }
            }
            assert forall|m: MatchModel| before.matches.contains(m) implies #[trigger]
                search.matches.contains(m) by {
                let k = choose|k: int| 0 <= k < before.matches.len() && before.matches[k] == m;
                assert(search.matches.take(before.matches.len() as int)[k] == m);
                assert(search.matches[k] == m);
            }
            assert(is_known(before, had, Seq::empty(), 0));
            assert(is_known(search, read, Seq::empty(), 0));
            assert forall|dir: Seq<char>, depth: usize, i: int|
                read.contains((dir, depth)) && tree.contains_key(dir) && 0 <= i
                    < tree[dir].len() implies #[trigger] is_taken_in(
                search,
                read,
                tree,
                dir,
                depth,
                i,
            ) by {
                let entry = tree[dir][i];
                let path = path_in(dir, entry.name);
                if had.contains((dir, depth)) {
                    assert(is_taken_in(before, had, tree, dir, depth, i));
                    if entry.is_dir && depth < max_depth {
                        assert(is_known(before, had, path, (depth + 1) as usize));
                        assert(is_known(search, read, path, (depth + 1) as usize));
                    }
                } else {
                    assert((dir, depth) == (top, at));
                    assert(is_in(search, top, at, tree[top][i]));
                }
            }
        }
    }
}

proof fn lemma_all_was_read(
    query: Seq<char>,
    max_depth: usize,
    max_visits: usize,
    tree: Map<Seq<char>, Seq<EntryModel>>,
    n: nat,
    dir: Seq<char>,
    depth: nat,
)
    requires
        SearchModel::begun(query, max_depth, max_visits).walked(tree, n).is_complete(),
        depth <= max_depth,
        lies_at(tree, dir, depth),
    ensures
        dirs_read(SearchModel::begun(query, max_depth, max_visits), tree, n).contains(
            (dir, depth as usize),
        ),
    decreases depth,
{
    let begun = SearchModel::begun(query, max_depth, max_visits);
    let search = begun.walked(tree, n);
    let read = dirs_read(begun, tree, n);
    lemma_everything_is_taken_in(begun, query, max_depth, max_visits, tree, n);
    lemma_walk_holds(query, max_depth, max_visits, tree, n);
    if depth == 0 {
        assert(dir =~= Seq::<char>::empty());
    } else {
        let m = MatchModel { path: dir, is_dir: true };
        let (up, i) = choose|up: Seq<char>, i: int|
            #![trigger is_entry(tree, up, i, m)]
            lies_at(tree, up, (depth - 1) as nat) && is_entry(tree, up, i, m);
        lemma_all_was_read(query, max_depth, max_visits, tree, n, up, (depth - 1) as nat);
        assert(is_taken_in(search, read, tree, up, (depth - 1) as usize, i));
        assert(is_known(search, read, dir, depth as usize));
    }
}

/// Where nothing was cut off, a finished search has found every entry whose name
/// holds the query, in every directory that can be read down to the depth limit.
pub proof fn law_every_match_is_found(
    query: Seq<char>,
    max_depth: usize,
    max_visits: usize,
    tree: Map<Seq<char>, Seq<EntryModel>>,
    n: nat,
    m: MatchModel,
)
    requires
        SearchModel::begun(query, max_depth, max_visits).walked(tree, n).is_complete(),
        is_match(tree, query, max_depth as nat, m),
    ensures
        SearchModel::begun(query, max_depth, max_visits).walked(tree, n).matches.contains(m),
{
    let begun = SearchModel::begun(query, max_depth, max_visits);
    let (dir, depth, i) = choose|dir: Seq<char>, depth: nat, i: int|
        #![trigger lies_at(tree, dir, depth), is_entry(tree, dir, i, m)]
        depth <= max_depth && lies_at(tree, dir, depth) && is_entry(tree, dir, i, m) && occurs(
            lowercased(tree[dir][i].name),
            query,
        );
    lemma_everything_is_taken_in(begun, query, max_depth, max_visits, tree, n);
    lemma_walk_holds(query, max_depth, max_visits, tree, n);
    lemma_all_was_read(query, max_depth, max_visits, tree, n, dir, depth);
    assert(is_taken_in(
        begun.walked(tree, n),
        dirs_read(begun, tree, n),
        tree,
        dir,
        depth as usize,
        i,
    ));
}

/// Whether a name is `.git` in any case.
pub open spec fn spells_git(name: Seq<char>) -> bool {
    &&& name.len() == 4
    &&& name[0] == '.'
    &&& name[1] == 'g' || name[1] == 'G'
    &&& name[2] == 'i' || name[2] == 'I'
    &&& name[3] == 't' || name[3] == 'T'
}

proof fn lemma_spells_git(name: Seq<char>)
    ensures
        names_git_dir(name) <==> spells_git(name),
{
    reveal_strlit(".git");
    let small = ascii_lowered(name);
    assert(small.len() == name.len());
    if name.len() == 4 {
        assert(small[0] == ascii_small(name[0]) && small[1] == ascii_small(name[1]) && small[2]
            == ascii_small(name[2]) && small[3] == ascii_small(name[3]));
        lemma_small(name[0], '.', '.');
        lemma_small(name[1], 'g', 'G');
        lemma_small(name[2], 'i', 'I');
        lemma_small(name[3], 't', 'T');
        if spells_git(name) {
            assert(small =~= ".git"@);
        } else if small == ".git"@ {
            assert(".git"@[0] == '.' && ".git"@[1] == 'g' && ".git"@[2] == 'i' && ".git"@[3]
                == 't');
        }
    }
}

/// Every entry that was found under a name of text and with a known type, whose
/// name is not `.git` in any case and that is not ignored, or the ignore rules
/// are not respected, is in the listing, under its name and with its type.
pub proof fn law_what_was_found_is_listed(
    found: Seq<FoundEntry>,
    respect_gitignore: bool,
    i: int,
)
    requires
        0 <= i < found.len(),
        found[i].name is Some,
        found[i].is_dir is Some,
        !spells_git(found[i].name->0@),
        !(respect_gitignore && found[i].ignored),
    ensures
        shown_entries(found, respect_gitignore).contains(
            EntryModel { name: found[i].name->0@, is_dir: found[i].is_dir->0 },
        ),
    decreases found.len(),
{
    let entry = EntryModel { name: found[i].name->0@, is_dir: found[i].is_dir->0 };
    let before = shown_entries(found.drop_last(), respect_gitignore);
    lemma_spells_git(found[i].name->0@);
    if i < found.len() - 1 {
        law_what_was_found_is_listed(found.drop_last(), respect_gitignore, i);
        let k = choose|k: int| 0 <= k < before.len() && before[k] == entry;
        assert(shown_entries(found, respect_gitignore)[k] == entry);
    } else {
        assert(shown_entries(found, respect_gitignore).last() == entry);
    }
}

/// Nothing else is in the listing: every listed entry was found, under that
/// name and with that type, is not `.git` in any case, and is not ignored where
/// the ignore rules are respected.
pub proof fn law_what_is_listed_was_found(
    found: Seq<FoundEntry>,
    respect_gitignore: bool,
    k: int,
)
    requires
        0 <= k < shown_entries(found, respect_gitignore).len(),
    ensures
        exists|i: int|
            0 <= i < found.len() && #[trigger] found[i].name is Some && found[i].is_dir is Some && {
                &&& shown_entries(found, respect_gitignore)[k].name == found[i].name->0@
                &&& shown_entries(found, respect_gitignore)[k].is_dir == found[i].is_dir->0
                &&& !spells_git(found[i].name->0@)
                &&& !(respect_gitignore && found[i].ignored)
            },
    decreases found.len(),
{
    if found.len() > 0 {
        let rest = found.drop_last();
        let before = shown_entries(rest, respect_gitignore);
        let n = found.len() - 1;
        if k < before.len() {
            law_what_is_listed_was_found(rest, respect_gitignore, k);
            let i = choose|i: int|
                0 <= i < rest.len() && #[trigger] rest[i].name is Some && rest[i].is_dir is Some
                    && {
                    &&& before[k].name == rest[i].name->0@
                    &&& before[k].is_dir == rest[i].is_dir->0
                    &&& !spells_git(rest[i].name->0@)
                    &&& !(respect_gitignore && rest[i].ignored)
                };
            assert(found[i] == rest[i]);
            assert(shown_entries(found, respect_gitignore)[k] == before[k]);
        } else {
            lemma_spells_git(found[n].name->0@);
            assert(found[n].name is Some);
        }
    }
}

/// Each entry is listed as often as it was found: a listing of two readings is
/// the two listings, and what was found once is listed at most once.
pub proof fn law_listings_add_up(
    first: Seq<FoundEntry>,
    second: Seq<FoundEntry>,
    entry: FoundEntry,
    respect_gitignore: bool,
)
    ensures
        shown_entries(first + second, respect_gitignore) == shown_entries(first, respect_gitignore)
            + shown_entries(second, respect_gitignore),
        shown_entries(seq![entry], respect_gitignore).len() == if entry.name is Some
            && entry.is_dir is Some && !spells_git(entry.name->0@) && !(respect_gitignore
            && entry.ignored) {
            1int
        } else {
            0int
        },
    decreases second.len(),
{
    if entry.name is Some {
        lemma_spells_git(entry.name->0@);
    }
    assert(seq![entry].drop_last() =~= Seq::<FoundEntry>::empty());
    assert(shown_entries(seq![entry].drop_last(), respect_gitignore) =~= Seq::<
        EntryModel,
    >::empty());
    if second.len() == 0 {
        assert(first + second =~= first);
    } else {
        law_listings_add_up(first, second.drop_last(), entry, respect_gitignore);
        assert((first + second).drop_last() =~= first + second.drop_last());
        assert((first + second).last() == second.last());
    }
}

/// In a listing in order no file stands before a directory, and those of a kind
/// stand by their names.
pub proof fn law_directories_come_first(entries: Seq<TreeEntry>, i: int, j: int)
    requires
        in_order(entries),
        0 <= i < j < entries.len(),
    ensures
        entries[j].is_dir ==> entries[i].is_dir,
        entries[i].is_dir == entries[j].is_dir ==> !text_before(
            entries[j].name@,
            entries[i].name@,
        ),
{
    assert(entries[i].ranks(entries[j]));
}

/// In a list of hits in order the paths stand in their text order.
pub proof fn law_hits_stand_by_path(hits: Seq<TreeMatch>, i: int, j: int)
    requires
        in_order(hits),
        0 <= i < j < hits.len(),
    ensures
        !text_before(hits[j].path@, hits[i].path@),
{
    assert(hits[i].ranks(hits[j]));
}

/// A directory that was read is listed; one that was not says why, with the
/// reason it was given at the end.
pub proof fn law_unread_directories_say_why(rel_dir: Seq<char>, read: DirRead)
    ensures
        dir_failure(rel_dir, read) is None <==> read is Listed,
        read matches DirRead::Rejected(reason) ==> dir_failure(rel_dir, read) == Some(reason@),
        read matches DirRead::NoStat(reason) ==> dir_failure(rel_dir, read) == Some(
            "failed to stat "@ + rel_dir + ": "@ + reason@,
        ),
        read matches DirRead::NoListing(reason) ==> dir_failure(rel_dir, read) == Some(
            "failed to read directory "@ + rel_dir + ": "@ + reason@,
        ),
        read is NotADirectory ==> dir_failure(rel_dir, read) == Some(
            "not a directory: "@ + rel_dir,
        ),
        read matches DirRead::NoWorkdir { workdir, reason } ==> dir_failure(rel_dir, read) == Some(
            "failed to resolve workdir "@ + workdir@ + ": "@ + reason@,
        ),
{
}

/// The path of an entry is its directory's path, a slash and its name; at the
/// root it is its name.
pub proof fn law_paths_join_with_a_slash(dir: Seq<char>, name: Seq<char>)
    ensures
        path_in(Seq::empty(), name) == name,
        dir.len() > 0 ==> path_in(dir, name) == dir.push('/') + name,
{
    reveal_strlit("/");
    assert(dir + "/"@ =~= dir.push('/'));
}

proof fn lemma_inspected_budget(
    s: SearchModel,
    dir: Seq<char>,
    depth: usize,
    entries: Seq<EntryModel>,
)
    requires
        s.budget_hit ==> s.visited >= s.max_visits,
    ensures
        ({
            let now = s.inspected_all(dir, depth, entries);
            &&& now.budget_hit ==> now.visited >= now.max_visits
            &&& now.max_visits == s.max_visits
        }),
    decreases entries.len(),
{
    if entries.len() > 0 {
        lemma_inspected_budget(s, dir, depth, entries.drop_last());
    }
}

/// A search is cut short only once it has inspected as many entries as it may,
/// and it stops before that only where there is nothing left to read.
pub proof fn law_searches_use_their_budget(
    query: Seq<char>,
    max_depth: usize,
    max_visits: usize,
    tree: Map<Seq<char>, Seq<EntryModel>>,
    n: nat,
)
    ensures
        ({
            let s = SearchModel::begun(query, max_depth, max_visits).walked(tree, n);
            &&& s.max_visits == max_visits
            &&& s.budget_hit ==> s.visited >= max_visits
            &&& !s.wants_more() ==> s.stack.len() == 0 || s.visited >= max_visits
        }),
    decreases n,
{
    if n > 0 {
        law_searches_use_their_budget(query, max_depth, max_visits, tree, (n - 1) as nat);
        let before = SearchModel::begun(query, max_depth, max_visits).walked(
            tree,
            (n - 1) as nat,
        );
        if before.wants_more() {
            let (dir, depth) = before.stack.last();
            let popped = SearchModel { stack: before.stack.drop_last(), ..before };
            if let Some(entries) = listing_of(tree, dir) {
                lemma_inspected_budget(popped, dir, depth, entries);
            }
        }
    }
}

/// Inspecting an entry within the budget counts it once, and takes it as a hit
/// exactly where its name, in lower case, holds the query; a directory within
/// the depth limit is read later.
pub proof fn law_inspecting_counts_once(
    s: SearchModel,
    dir: Seq<char>,
    depth: usize,
    entry: EntryModel,
)
    requires
        !s.budget_hit,
        s.visited < s.max_visits,
    ensures
        ({
            let now = s.inspected(dir, depth, entry);
            let hit = exists|i: int|
                #![trigger lowercased(entry.name).subrange(i, i + s.query.len())]
                0 <= i && i + s.query.len() <= lowercased(entry.name).len() && lowercased(
                    entry.name,
                ).subrange(i, i + s.query.len()) == s.query;
            let path = if dir.len() == 0 {
                entry.name
            } else {
                dir.push('/') + entry.name
            };
            &&& now.visited == s.visited + 1
            &&& !now.budget_hit
            &&& now.matches == if hit {
                s.matches.push(MatchModel { path, is_dir: entry.is_dir })
            } else {
                s.matches
            }
            &&& now.stack == if entry.is_dir && depth < s.max_depth {
                s.stack.push((path, (depth + 1) as usize))
            } else {
                s.stack
            }
            &&& now.query == s.query
        }),
{
    law_paths_join_with_a_slash(dir, entry.name);
    assert(dir.len() == 0 ==> dir =~= Seq::<char>::empty());
    let name = lowercased(entry.name);
    if occurs(name, s.query) {
        let i = choose|i: int| #[trigger] crate::text::occurs_at(name, s.query, i);
        assert(name.subrange(i, i + s.query.len()) == s.query);
    }
    assert forall|i: int|
        #![trigger name.subrange(i, i + s.query.len())]
        0 <= i && i + s.query.len() <= name.len() && name.subrange(i, i + s.query.len())
            == s.query implies occurs(name, s.query) by {
        assert(crate::text::occurs_at(name, s.query, i));
    }
}

} // verus!

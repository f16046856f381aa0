//! File-tree navigator state. The visible row list is derived from a cache and
//! the expansion set, so the two can never drift. All directory I/O lives
//! elsewhere; this module is pure given a populated cache.

use crate::git::tree::{child_path, entry_models, path_in, EntryModel, TreeEntry};
use crate::text::{
    chars_of, contains_sub, last_index, lemma_last_index, occurs, pieces, rfind_char, split_char,
    texts,
};
use crate::textmap::{first_at, has_text, TextMap, TextSet};
use crate::ui::search::SearchQuery;
use vstd::prelude::*;

verus! {

/// One flattened, currently visible tree row.
#[derive(Debug, Clone, PartialEq, Eq)]
pub struct VisibleRow {
    pub path: String,
    pub name: String,
    pub is_dir: bool,
    pub depth: usize,
    pub expanded: bool,
}

#[verifier::ext_equal]
pub struct RowModel {
    pub path: Seq<char>,
    pub name: Seq<char>,
    pub is_dir: bool,
    pub depth: nat,
    pub expanded: bool,
}

impl VisibleRow {
    pub open spec fn model(&self) -> RowModel {
        RowModel {
            path: self.path@,
            name: self.name@,
            is_dir: self.is_dir,
            depth: self.depth as nat,
            expanded: self.expanded,
        }
    }
}

/// The rows as plain values.
pub open spec fn row_models(rows: Seq<VisibleRow>) -> Seq<RowModel> {
    rows.map_values(|r: VisibleRow| r.model())
}

/// One entry in the flat filename-search index. Built when search opens,
/// discarded when it closes.
#[derive(Debug, Clone)]
pub struct TreeIndexEntry {
    pub path: String,
    pub name_lower: String,
}

pub struct TreeView {
    pub selected: usize,
    /// Horizontal scroll offset (chars).
    pub scroll_x: usize,
    /// Repo-relative expanded directory paths. The root (`""`) is implicitly
    /// expanded and never stored here.
    pub expanded: TextSet,
    /// Lazily-populated children, keyed by repo-relative directory path.
    /// Absent = unread; empty vec = read and genuinely empty.
    pub cache: TextMap<Vec<TreeEntry>>,
    /// Memoized longest visible-row char width, keyed by row count.
    pub row_width_cache: Option<(usize, usize)>,
    pub search_active: bool,
    pub search_query: SearchQuery,
    /// Flat index of every entry under the root.
    pub index: Vec<TreeIndexEntry>,
    /// Repo-relative paths to display while filtering: matches plus ancestors.
    pub show_set: TextSet,
    /// Count of entries matching the current query.
    pub match_count: usize,
}

/// The part of `path` before its last slash, or `None` for a top-level entry.
pub open spec fn parent_of(path: Seq<char>) -> Option<Seq<char>> {
    match last_index(path, '/') {
        Some(i) => Some(path.take(i)),
        None => None,
    }
}

/// Parent directory of a repo-relative path, or `None` for a top-level entry
/// (whose parent is the root, which has no selectable row).
pub fn parent_path(path: &str) -> (r: Option<&str>)
    ensures
        match r {
            Some(parent) => parent_of(path@) == Some(parent@),
            None => parent_of(path@) is None,
        },
{
    let chars = chars_of(path);
    match rfind_char(&chars, '/') {
        Some(i) => {
            let parent = path.substring_char(0, i);
            proof {
                assert(path@.subrange(0, i as int) =~= path@.take(i as int));
            }
            Some(parent)
        },
        None => None,
    }
}

/// Whether every component of `rel` stays inside: it is not empty, it does not
/// start at the root, and none of its components goes up.
pub open spec fn stays_inside(rel: Seq<char>) -> bool {
    &&& rel.len() > 0
    &&& rel[0] != '/'
    &&& !pieces(rel, '/').contains(".."@)
}

/// Whether `rel` is a safe, repo-internal relative path. Paths from normal
/// navigation always are, but a restored session is read from disk: a
/// hand-edited entry containing `..` or a leading `/` would otherwise let the
/// tree read outside the working tree.
pub fn is_safe_rel_path(rel: &str) -> (r: bool)
    ensures
        r == stays_inside(rel@),
{
    let chars = chars_of(rel);
    if chars.len() == 0 || chars[0] == '/' {
        return false;
    }
    let parts = split_char(&chars, '/');
    let up = crate::textmap::contains_text(parts.as_slice(), "..");
    proof {
        let all = pieces(rel@, '/');
        assert(texts(parts@) == all);
        if has_text(parts@, ".."@) {
            let i = choose|i: int| 0 <= i < parts@.len() && (#[trigger] parts@[i])@ == ".."@;
            assert(all[i] == ".."@);
            assert(all.contains(".."@));
        }
        if all.contains(".."@) {
            let i = choose|i: int| 0 <= i < all.len() && all[i] == ".."@;
            assert(parts@[i]@ == ".."@);
        }
    }
    !up
}

/// Whether `p` is `path` or a directory above it.
pub open spec fn on_path(p: Seq<char>, path: Seq<char>) -> bool {
    p == path || (p.len() < path.len() && path.take(p.len() as int) == p && path[p.len() as int]
        == '/')
}

/// Whether every path of `paths` has its parent there too.
pub open spec fn closed_upward(paths: Set<Seq<char>>) -> bool {
    forall|p: Seq<char>|
        #![trigger parent_of(p)]
        paths.contains(p) && parent_of(p) is Some ==> paths.contains(parent_of(p)->0)
}

proof fn lemma_on_path_step(p: Seq<char>, path: Seq<char>)
    ensures
        on_path(p, path) <==> p == path || (parent_of(path) matches Some(parent) && on_path(
            p,
            parent,
        )),
        parent_of(path) matches Some(parent) ==> parent.len() < path.len() && on_path(parent, path),
{
    lemma_last_index(path, '/');
    if let Some(at) = last_index(path, '/') {
        let parent = path.take(at);
        if on_path(p, path) && p != path {
            let n = p.len() as int;
            assert(n <= at);
            if n < at {
                assert(parent.take(n) =~= path.take(n));
                assert(parent[n] == '/');
            } else {
                assert(p =~= parent);
            }
        }
        if on_path(p, parent) {
            if p == parent {
                assert(path.take(p.len() as int) =~= p);
            } else {
                let n = p.len() as int;
                assert(parent.take(n) =~= path.take(n));
                assert(path[n] == parent[n]);
            }
        }
    } else if on_path(p, path) && p != path {
        assert(path.contains('/'));
    }
}

proof fn lemma_closed_has_ancestors(paths: Set<Seq<char>>, path: Seq<char>, p: Seq<char>)
    requires
        closed_upward(paths),
        paths.contains(path),
        on_path(p, path),
    ensures
        paths.contains(p),
    decreases path.len(),
{
    lemma_on_path_step(p, path);
    if p != path {
        lemma_closed_has_ancestors(paths, parent_of(path)->0, p);
    }
}

/// Put `path` and every directory above it into `paths`.
fn add_with_ancestors(paths: &mut TextSet, path: &str)
    requires
        old(paths).wf(),
        closed_upward(old(paths)@),
    ensures
        final(paths).wf(),
        closed_upward(final(paths)@),
        forall|p: Seq<char>|
            #[trigger] final(paths)@.contains(p) <==> old(paths)@.contains(p) || on_path(p, path@),
{
    let ghost start = paths@;
    if !paths.insert(path.to_owned()) {
        proof {
            assert(paths@ =~= start);
            assert forall|p: Seq<char>| paths@.contains(p) <==> start.contains(p) || on_path(
                p,
                path@,
            ) by {
                if on_path(p, path@) {
                    lemma_closed_has_ancestors(start, path@, p);
                }
            }
        }
        return;
    }
    let mut below = path.to_owned();
    proof {
        assert forall|p: Seq<char>| on_path(p, path@) implies paths@.contains(p) || (parent_of(
            path@,
        ) matches Some(parent) && on_path(p, parent)) by {
            lemma_on_path_step(p, path@);
        }
    }
    // Stop at the first ancestor already present: its own ancestors were added
    // with it.
    loop
        invariant
            paths.wf(),
            closed_upward(start),
            forall|p: Seq<char>| start.contains(p) ==> paths@.contains(p),
            forall|p: Seq<char>|
                paths@.contains(p) ==> start.contains(p) || (on_path(p, path@) && p.len()
                    >= below@.len()),
            on_path(below@, path@),
            paths@.contains(below@),
            forall|p: Seq<char>|
                on_path(p, path@) ==> paths@.contains(p) || (parent_of(below@) matches Some(parent)
                    && on_path(p, parent)),
        ensures
            paths.wf(),
            forall|p: Seq<char>| paths@.contains(p) <==> start.contains(p) || on_path(p, path@),
        decreases below@.len(),
    {
        let parent = match parent_path(below.as_str()) {
            None => {
                break;
            },
            Some(parent) => parent.to_owned(),
        };
        let ghost lower = below@;
        let ghost earlier = paths@;
        proof {
            lemma_on_path_step(parent@, lower);
            assert(on_path(parent@, path@)) by {
                lemma_on_path_transitive(parent@, lower, path@);
            }
        }
        if !paths.insert(parent.clone()) {
            proof {
                assert(paths@ =~= earlier);
                assert(start.contains(parent@));
                assert forall|p: Seq<char>| paths@.contains(p) <==> start.contains(p) || on_path(
                    p,
                    path@,
                ) by {
                    if on_path(p, path@) && !paths@.contains(p) {
                        lemma_closed_has_ancestors(start, parent@, p);
                    }
                }
            }
            break;
        }
        below = parent;
        proof {
            assert forall|p: Seq<char>| on_path(p, path@) implies paths@.contains(p) || (parent_of(
                below@,
            ) matches Some(parent) && on_path(p, parent)) by {
                if !earlier.contains(p) {
                    lemma_on_path_step(p, below@);
                }
            }
        }
    }
    proof {
        assert forall|p: Seq<char>|
            #![trigger parent_of(p)]
            paths@.contains(p) && parent_of(p) is Some implies paths@.contains(parent_of(p)->0) by {
            let up = parent_of(p)->0;
            if start.contains(p) {
                assert(start.contains(up));
            } else {
                lemma_on_path_step(up, p);
                lemma_on_path_transitive(up, p, path@);
            }
        }
    }
}

proof fn lemma_on_path_transitive(a: Seq<char>, b: Seq<char>, c: Seq<char>)
    requires
        on_path(a, b),
        on_path(b, c),
    ensures
        on_path(a, c),
{
    if a != b && b != c {
        let n = a.len() as int;
        assert(c.take(n) =~= b.take(n)) by {
            assert(c.take(b.len() as int) == b);
        }
        assert(c[n] == b[n]) by {
            assert(c.take(b.len() as int)[n] == c[n]);
        }
    }
}

/// Which rows are shown and which are open.
pub enum Shown {
    /// Every cached entry; the directories of the set are open.
    Expanded(Set<Seq<char>>),
    /// The entries of the set; every directory is open.
    Filtered(Set<Seq<char>>),
}

/// The children of each directory that was read.
pub type Listings = Map<Seq<char>, Seq<EntryModel>>;

/// The row of one entry with what is shown below it.
pub open spec fn rows_of_entry(
    cache: Listings,
    shown: Shown,
    dir: Seq<char>,
    entry: EntryModel,
    depth: nat,
    longest: nat,
) -> Seq<RowModel>
    decreases longest + 1 - dir.len(), 0nat, 0nat,
    when dir.len() <= longest
{
    let path = path_in(dir, entry.name);
    let visible = match shown {
        Shown::Expanded(_) => true,
        Shown::Filtered(paths) => paths.contains(path),
    };
    let open = entry.is_dir && match shown {
        Shown::Expanded(paths) => paths.contains(path),
        Shown::Filtered(_) => true,
    };
    let row = RowModel { path, name: entry.name, is_dir: entry.is_dir, depth, expanded: open };
    if !visible {
        Seq::empty()
    } else if open && path.len() > dir.len() && path.len() <= longest {
        seq![row] + rows_of_dir(cache, shown, path, depth + 1, longest)
    } else {
        seq![row]
    }
}

/// The rows of the entries of `dir`, each with what is shown below it.
pub open spec fn rows_of_entries(
    cache: Listings,
    shown: Shown,
    dir: Seq<char>,
    entries: Seq<EntryModel>,
    depth: nat,
    longest: nat,
) -> Seq<RowModel>
    decreases longest + 1 - dir.len(), 1nat, entries.len(),
    when dir.len() <= longest
{
    if entries.len() == 0 {
        Seq::empty()
    } else {
        rows_of_entries(cache, shown, dir, entries.drop_last(), depth, longest) + rows_of_entry(
            cache,
            shown,
            dir,
            entries.last(),
            depth,
            longest,
        )
    }
}

/// The rows below `dir`. `longest` is the length of the longest directory path
/// that was read; nothing stands below a longer one.
pub open spec fn rows_of_dir(
    cache: Listings,
    shown: Shown,
    dir: Seq<char>,
    depth: nat,
    longest: nat,
) -> Seq<RowModel>
    decreases longest + 1 - dir.len(), 2nat, 0nat,
    when dir.len() <= longest
{
    if cache.contains_key(dir) {
        rows_of_entries(cache, shown, dir, cache[dir], depth, longest)
    } else {
        Seq::empty()
    }
}

/// The length of the longest of `keys`.
pub open spec fn longest_of(keys: Seq<String>) -> nat
    decreases keys.len(),
{
    if keys.len() == 0 {
        0
    } else {
        let before = longest_of(keys.drop_last());
        if keys.last()@.len() > before {
            keys.last()@.len()
        } else {
            before
        }
    }
}

proof fn lemma_longest(keys: Seq<String>, i: int)
    requires
        0 <= i < keys.len(),
    ensures
        keys[i]@.len() <= longest_of(keys),
    decreases keys.len(),
{
    if i < keys.len() - 1 {
        lemma_longest(keys.drop_last(), i);
    }
}

impl TreeView {
    /// The sets and the cache hold everything once, and no directory in the
    /// root has an empty name.
    pub open spec fn wf(&self) -> bool {
        &&& self.expanded.wf()
        &&& self.cache.wf()
        &&& self.show_set.wf()
        &&& self.search_query.wf()
        &&& forall|i: int|
            0 <= i < self.listing(Seq::empty()).len() && (#[trigger] self.listing(
                Seq::empty(),
            )[i]).is_dir ==> self.listing(Seq::empty())[i].name.len() > 0
    }

    /// The children of `dir`, as far as it was read.
    pub open spec fn listing(&self, dir: Seq<char>) -> Seq<EntryModel> {
        if self.cache@.contains_key(dir) {
            entry_models(self.cache@[dir]@)
        } else {
            Seq::empty()
        }
    }

    pub open spec fn listings(&self) -> Listings {
        self.cache@.map_values(|v: Vec<TreeEntry>| entry_models(v@))
    }

    pub open spec fn filtering(&self) -> bool {
        self.search_active && self.search_query.text@.len() > 0
    }

    pub open spec fn shown(&self) -> Shown {
        if self.filtering() {
            Shown::Filtered(self.show_set@)
        } else {
            Shown::Expanded(self.expanded@)
        }
    }

    /// The rows that are visible now.
    pub open spec fn rows(&self) -> Seq<RowModel> {
        rows_of_dir(
            self.listings(),
            self.shown(),
            Seq::empty(),
            0,
            longest_of(self.cache.keys@),
        )
    }

    /// Whether the search overlay is open with a non-empty query. An open
    /// overlay with an empty query still shows the expansion view so the tree
    /// does not explode before the user types.
    pub fn search_filtering(&self) -> (r: bool)
        ensures
            r == self.filtering(),
    {
        self.search_active && !self.search_query.is_empty()
    }

    pub fn cancel_search(&mut self)
        requires
            old(self).wf(),
        ensures
            final(self).wf(),
            !final(self).filtering(),
            !final(self).search_active,
            final(self).search_query.text@.len() == 0,
            final(self).index@.len() == 0,
            final(self).show_set@ == Set::<Seq<char>>::empty(),
            final(self).match_count == 0,
            final(self).row_width_cache is None,
            final(self).selected == old(self).selected,
            final(self).scroll_x == old(self).scroll_x,
            final(self).expanded == old(self).expanded,
            final(self).cache == old(self).cache,
    {
        self.search_active = false;
        self.search_query.clear();
        self.index = Vec::new();
        self.show_set = TextSet::new();
        self.match_count = 0;
        self.row_width_cache = None;
        proof {
            assert(self.listing(Seq::empty()) == old(self).listing(Seq::empty()));
        }
    }

    /// Whether the entry at `i` of the index matches the query.
    pub open spec fn hit(&self, i: int) -> bool {
        self.search_query.small@.len() > 0 && occurs(
            self.index@[i].name_lower@,
            self.search_query.small@,
        )
    }

    /// How many of the first `n` entries of the index match the query.
    pub open spec fn hits(&self, n: int) -> nat
        decreases n,
    {
        if n <= 0 {
            0
        } else {
            self.hits(n - 1) + if self.hit(n - 1) {
                1nat
            } else {
                0nat
            }
        }
    }

    /// The matches among the first `n` entries of the index, with everything
    /// above them.
    pub open spec fn hit_paths(&self, n: int) -> Set<Seq<char>> {
        Set::new(
            |p: Seq<char>|
                exists|i: int|
                    0 <= i < n && #[trigger] self.hit(i) && on_path(p, self.index@[i].path@),
        )
    }

    /// Recompute the shown paths and the match count from the index and the
    /// current query. Each match contributes itself and every ancestor so the
    /// filtered view renders an unbroken path from the root to each hit.
    pub fn recompute_filter(&mut self)
        requires
            old(self).wf(),
        ensures
            final(self).wf(),
            final(self).match_count == old(self).hits(old(self).index@.len() as int),
            final(self).show_set@ == old(self).hit_paths(old(self).index@.len() as int),
            final(self).show_set@ == final(self).hit_paths(final(self).index@.len() as int),
            *final(self) == (TreeView {
                show_set: final(self).show_set,
                match_count: final(self).match_count,
                ..*old(self)
            }),
    {
        let mut show = TextSet::new();
        let mut count: usize = 0;
        let query = chars_of(self.search_query.lower());
        let mut i: usize = 0;
        proof {
            assert(show@ =~= self.hit_paths(0));
        }
        while i < self.index.len()
            invariant
                *self == *old(self),
                self.wf(),
                i <= self.index@.len(),
                query@ == self.search_query.small@,
                show.wf(),
                show@ == self.hit_paths(i as int),
                closed_upward(show@),
                count == self.hits(i as int),
                count <= i,
            decreases self.index.len() - i,
        {
            let ghost before = show@;
            let matched = query.len() > 0 && contains_sub(
                &chars_of(self.index[i].name_lower.as_str()),
                &query,
            );
            if matched {
                count += 1;
                add_with_ancestors(&mut show, self.index[i].path.as_str());
            }
            proof {
                let path = self.index@[i as int].path@;
                let hit = self.hit(i as int);
                assert forall|p: Seq<char>| show@.contains(p) implies self.hit_paths(
                    i + 1,
                ).contains(p) by {
                    if before.contains(p) {
                        let k = choose|k: int|
                            0 <= k < i && #[trigger] self.hit(k) && on_path(
                                p,
                                self.index@[k].path@,
                            );
                        assert(self.hit(k));
                    } else {
                        assert(hit && on_path(p, path));
                    }
                }
                assert forall|p: Seq<char>| self.hit_paths(i + 1).contains(p) implies show@.contains(
                    p,
                ) by {
                    let k = choose|k: int|
                        0 <= k < i + 1 && #[trigger] self.hit(k) && on_path(
                            p,
                            self.index@[k].path@,
                        );
                    if k < i {
                        assert(before.contains(p));
                    } else {
                        assert(hit);
                    }
                }
                assert(show@ =~= self.hit_paths(i + 1));
            }
            i += 1;
        }
        self.match_count = count;
        self.show_set = show;
        proof {
            lemma_same_hits(*old(self), *self, self.index@.len() as int);
            assert(self.listing(Seq::empty()) == old(self).listing(Seq::empty()));
        }
    }

    /// Put the rows below `dir` at the end of `rows`.
    fn push_children(&self, dir: &str, depth: usize, rows: &mut Vec<VisibleRow>)
        requires
            self.wf(),
            dir@.len() <= longest_of(self.cache.keys@),
            depth <= dir@.len(),
        ensures
            row_models(final(rows)@) == row_models(old(rows)@) + rows_of_dir(
                self.listings(),
                self.shown(),
                dir@,
                depth as nat,
                longest_of(self.cache.keys@),
            ),
        decreases longest_of(self.cache.keys@) + 1 - dir@.len(),
    {
        let ghost longest = longest_of(self.cache.keys@);
        let ghost cache = self.listings();
        let ghost shown = self.shown();
        let ghost start = row_models(rows@);
        let filtering = self.search_filtering();
        let children = match self.cache.get(dir) {
            None => {
                proof {
                    assert(start + Seq::<RowModel>::empty() =~= start);
                }
                return;
            },
            Some(children) => children,
        };
        let ghost models = entry_models(children@);
        proof {
            assert(cache[dir@] == models);
            assert(models.take(0) =~= Seq::<EntryModel>::empty());
            assert(start + Seq::<RowModel>::empty() =~= start);
        }
        let mut i: usize = 0;
        while i < children.len()
            invariant
                self.wf(),
                i <= children@.len(),
                longest == longest_of(self.cache.keys@),
                dir@.len() <= longest,
                depth <= dir@.len(),
                cache == self.listings(),
                shown == self.shown(),
                filtering == self.filtering(),
                models == entry_models(children@),
                self.cache@.contains_key(dir@),
                self.cache@[dir@] == *children,
                row_models(rows@) == start + rows_of_entries(
                    cache,
                    shown,
                    dir@,
                    models.take(i as int),
                    depth as nat,
                    longest,
                ),
            decreases children.len() - i,
        {
            let entry = &children[i];
            let ghost model = entry.model();
            let ghost before = row_models(rows@);
            proof {
                assert(models.take(i + 1).drop_last() =~= models.take(i as int));
                assert(models.take(i + 1).last() == model);
                assert(models[i as int] == model);
            }
            i += 1;
            let path = child_path(dir, entry.name.as_str());
            let ghost row = RowModel {
                path: path@,
                name: model.name,
                is_dir: model.is_dir,
                depth: depth as nat,
                expanded: model.is_dir && match shown {
                    Shown::Expanded(paths) => paths.contains(path@),
                    Shown::Filtered(_) => true,
                },
            };
            proof {
                assert(model.is_dir ==> path@.len() > dir@.len()) by {
                    reveal_strlit("/");
                    if dir@.len() == 0 {
                        assert(dir@ =~= Seq::<char>::empty());
                        assert(self.listing(Seq::empty())[i - 1] == model);
                    }
                }
            }
            let visible = !filtering || self.show_set.contains(path.as_str());
            if visible {
                let open = entry.is_dir && (filtering || self.expanded.contains(path.as_str()));
                rows.push(
                    VisibleRow {
                        path: path.clone(),
                        name: entry.name.clone(),
                        is_dir: entry.is_dir,
                        depth,
                        expanded: open,
                    },
                );
                proof {
                    assert(row_models(rows@) =~= before.push(row));
                }
                if open {
                    if self.cache.contains_key(path.as_str()) {
                        let size: usize = chars_of(path.as_str()).len();
                        proof {
                            let at = first_at(self.cache.keys@, path@);
                            let k = choose|k: int|
                                0 <= k < self.cache.keys@.len() && (
                                #[trigger] self.cache.keys@[k])@ == path@;
                            lemma_longest(self.cache.keys@, k);
                            assert(depth + 1 <= size);
                        }
                        self.push_children(path.as_str(), depth + 1, rows);
                        proof {
                            assert(row_models(rows@) =~= before + (seq![row] + rows_of_dir(
                                cache,
                                shown,
                                path@,
                                (depth + 1) as nat,
                                longest,
                            )));
                        }
                    } else {
                        proof {
                            assert(before.push(row) =~= before + (seq![row] + Seq::<
                                RowModel,
                            >::empty()));
                            assert(before.push(row) =~= before + seq![row]);
                        }
                    }
                } else {
                    proof {
                        assert(before.push(row) =~= before + seq![row]);
                    }
                }
            } else {
                proof {
                    assert(before =~= before + Seq::<RowModel>::empty());
                }
            }
            proof {
                let entry_rows = rows_of_entry(cache, shown, dir@, model, depth as nat, longest);
                assert(row_models(rows@) == before + entry_rows);
                assert(before + entry_rows =~= start + (rows_of_entries(
                    cache,
                    shown,
                    dir@,
                    models.take(i - 1),
                    depth as nat,
                    longest,
                ) + entry_rows));
            }
        }
        proof {
            assert(models.take(i as int) =~= models);
        }
    }

    /// Derive the flattened visible rows from the cache and expansion set.
    /// Only expanded, cached directories contribute children, so this never
    /// triggers I/O. While filtering, the row list is restricted to matches
    /// and their ancestors, and every kept directory is rendered expanded.
    pub fn visible_rows(&self) -> (r: Vec<VisibleRow>)
        requires
            self.wf(),
        ensures
            row_models(r@) == self.rows(),
    {
        let mut rows: Vec<VisibleRow> = Vec::new();
        proof {
            reveal_strlit("");
            assert(""@ =~= Seq::<char>::empty());
            assert(row_models(rows@) =~= Seq::<RowModel>::empty());
            assert(Seq::<RowModel>::empty() + self.rows() =~= self.rows());
        }
        self.push_children("", 0, &mut rows);
        rows
    }

    /// Repo-relative path of the currently selected row, if any.
    pub fn selected_path(&self) -> (r: Option<String>)
        requires
            self.wf(),
        ensures
            match r {
                Some(path) => self.selected < self.rows().len() && path@
                    == self.rows()[self.selected as int].path,
                None => self.selected >= self.rows().len(),
            },
    {
        let rows = self.visible_rows();
        proof {
            assert(row_models(rows@).len() == rows@.len());
        }
        if self.selected < rows.len() {
            proof {
                assert(row_models(rows@)[self.selected as int] == rows@[self.selected as int].model());
            }
            Some(rows[self.selected].path.clone())
        } else {
            None
        }
    }

    /// Clamp `selected` to the row count so a collapse or refresh can never
    /// leave the cursor past the end.
    pub fn clamp_selection(&mut self, row_count: usize)
        ensures
            final(self).selected == if row_count == 0 {
                0
            } else if old(self).selected <= row_count - 1 {
                old(self).selected as int
            } else {
                row_count - 1
            },
            *final(self) == (TreeView { selected: final(self).selected, ..*old(self) }),
    {
        if row_count == 0 {
            self.selected = 0;
        } else if self.selected > row_count - 1 {
            self.selected = row_count - 1;
        }
    }
}

/// A tree of which nothing was read yet.
impl Default for TreeView {
    fn default() -> (r: TreeView)
        ensures
            r.wf(),
            r.selected == 0,
            r.scroll_x == 0,
            r.expanded@ == Set::<Seq<char>>::empty(),
            r.listings() == Map::<Seq<char>, Seq<EntryModel>>::empty(),
            r.row_width_cache is None,
            !r.search_active,
            r.search_query.text@.len() == 0,
            r.index@.len() == 0,
            r.show_set@ == Set::<Seq<char>>::empty(),
            r.match_count == 0,
    {
        let r = TreeView {
            selected: 0,
            scroll_x: 0,
            expanded: TextSet::new(),
            cache: TextMap::new(),
            row_width_cache: None,
            search_active: false,
            search_query: SearchQuery::new(),
            index: Vec::new(),
            show_set: TextSet::new(),
            match_count: 0,
        };
        proof {
            assert(r.listings() =~= Map::<Seq<char>, Seq<EntryModel>>::empty());
        }
        r
    }
}

proof fn lemma_same_hits(a: TreeView, b: TreeView, n: int)
    requires
        a.index == b.index,
        a.search_query == b.search_query,
    ensures
        a.hit_paths(n) == b.hit_paths(n),
{
    assert forall|p: Seq<char>| a.hit_paths(n).contains(p) implies b.hit_paths(n).contains(p) by {
        let i = choose|i: int|
            0 <= i < n && #[trigger] a.hit(i) && on_path(p, a.index@[i].path@);
        assert(b.hit(i));
    }
    assert forall|p: Seq<char>| b.hit_paths(n).contains(p) implies a.hit_paths(n).contains(p) by {
        let i = choose|i: int|
            0 <= i < n && #[trigger] b.hit(i) && on_path(p, b.index@[i].path@);
        assert(a.hit(i));
    }
    assert(a.hit_paths(n) =~= b.hit_paths(n));
}

/// While filtering, the path from the root to each hit is unbroken: every
/// directory above a shown path is shown.
pub proof fn law_filtered_paths_are_unbroken(view: TreeView, n: int, path: Seq<char>, p: Seq<char>)
    requires
        view.hit_paths(n).contains(path),
        on_path(p, path),
    ensures
        view.hit_paths(n).contains(p),
{
    let i = choose|i: int|
        0 <= i < n && #[trigger] view.hit(i) && on_path(path, view.index@[i].path@);
    lemma_on_path_transitive(p, path, view.index@[i].path@);
    assert(view.hit(i));
}

/// Whether `p` is the path of the entry `i` of `dir`.
pub open spec fn lists(cache: Listings, dir: Seq<char>, i: int, p: Seq<char>) -> bool {
    cache.contains_key(dir) && 0 <= i < cache[dir].len() && path_in(dir, cache[dir][i].name) == p
}

/// Whether one comes from the root down to `dir` through directories that were
/// read.
pub open spec fn reached(cache: Listings, dir: Seq<char>) -> bool
    decreases dir.len(),
{
    dir.len() == 0 || exists|up: Seq<char>, i: int|
        #![trigger lists(cache, up, i, dir)]
        lists(cache, up, i, dir) && cache[up][i].is_dir && up.len() < dir.len() && reached(
            cache,
            up,
        )
}

/// Whether `row` stands for an entry that was read, is shown, and is open where
/// it is a directory.
pub open spec fn is_hit_row(cache: Listings, paths: Set<Seq<char>>, row: RowModel) -> bool {
    &&& paths.contains(row.path)
    &&& row.expanded == row.is_dir
    &&& exists|dir: Seq<char>, i: int|
        #![trigger lists(cache, dir, i, row.path)]
        lists(cache, dir, i, row.path) && reached(cache, dir) && cache[dir][i].name == row.name
            && cache[dir][i].is_dir == row.is_dir
}

proof fn lemma_rows_are_hits(
    cache: Listings,
    paths: Set<Seq<char>>,
    dir: Seq<char>,
    depth: nat,
    longest: nat,
)
    requires
        dir.len() <= longest,
        reached(cache, dir),
    ensures
        forall|k: int|
            0 <= k < rows_of_dir(cache, Shown::Filtered(paths), dir, depth, longest).len()
                ==> is_hit_row(
                cache,
                paths,
                #[trigger] rows_of_dir(cache, Shown::Filtered(paths), dir, depth, longest)[k],
            ),
    decreases longest + 1 - dir.len(), 2nat, 0nat,
{
    if cache.contains_key(dir) {
        let n = cache[dir].len();
        lemma_entry_rows_are_hits(cache, paths, dir, n, depth, longest);
        assert(cache[dir].take(n as int) =~= cache[dir]);
        let rows = rows_of_dir(cache, Shown::Filtered(paths), dir, depth, longest);
        assert(rows == rows_of_entries(
            cache,
            Shown::Filtered(paths),
            dir,
            cache[dir].take(n as int),
            depth,
            longest,
        ));
    }
}

proof fn lemma_entry_rows_are_hits(
    cache: Listings,
    paths: Set<Seq<char>>,
    dir: Seq<char>,
    n: nat,
    depth: nat,
    longest: nat,
)
    requires
        dir.len() <= longest,
        reached(cache, dir),
        cache.contains_key(dir),
        n <= cache[dir].len(),
    ensures
        forall|k: int|
            0 <= k < rows_of_entries(
                cache,
                Shown::Filtered(paths),
                dir,
                cache[dir].take(n as int),
                depth,
                longest,
            ).len() ==> is_hit_row(
                cache,
                paths,
                #[trigger] rows_of_entries(
                    cache,
                    Shown::Filtered(paths),
                    dir,
                    cache[dir].take(n as int),
                    depth,
                    longest,
                )[k],
            ),
    decreases longest + 1 - dir.len(), 1nat, n,
{
    if n > 0 {
        let shown = Shown::Filtered(paths);
        let before = (n - 1) as nat;
        let entries = cache[dir].take(n as int);
        lemma_entry_rows_are_hits(cache, paths, dir, before, depth, longest);
        assert(entries.drop_last() =~= cache[dir].take(before as int));
        let entry = entries.last();
        let path = path_in(dir, entry.name);
        assert(entry == cache[dir][before as int]);
        assert(lists(cache, dir, before as int, path));
        let row = RowModel {
            path,
            name: entry.name,
            is_dir: entry.is_dir,
            depth,
            expanded: entry.is_dir,
        };
        if paths.contains(path) {
            assert(lists(cache, dir, before as int, row.path) && reached(cache, dir)
                && cache[dir][before as int].name == row.name && cache[dir][before as int].is_dir
                == row.is_dir);
            assert(is_hit_row(cache, paths, row));
            if entry.is_dir && path.len() > dir.len() && path.len() <= longest {
                assert(reached(cache, path));
                lemma_rows_are_hits(cache, paths, path, depth + 1, longest);
            }
        }
        let first = rows_of_entries(cache, shown, dir, entries.drop_last(), depth, longest);
        let last = rows_of_entry(cache, shown, dir, entry, depth, longest);
        let all = rows_of_entries(cache, shown, dir, entries, depth, longest);
        assert(all == first + last);
        assert forall|k: int| 0 <= k < all.len() implies is_hit_row(
            cache,
            paths,
            #[trigger] all[k],
        ) by {
            if k < first.len() {
                assert(all[k] == first[k]);
            } else {
                let j = k - first.len();
                assert(all[k] == last[j]);
                if j > 0 {
                    let below = rows_of_dir(cache, shown, path, depth + 1, longest);
                    assert(last == seq![row] + below);
                    assert(last[j] == below[j - 1]);
                }
            }
        }
    }
}

proof fn lemma_entry_rows_are_there(
    cache: Listings,
    shown: Shown,
    dir: Seq<char>,
    entries: Seq<EntryModel>,
    i: int,
    depth: nat,
    longest: nat,
    row: RowModel,
)
    requires
        dir.len() <= longest,
        0 <= i < entries.len(),
        rows_of_entry(cache, shown, dir, entries[i], depth, longest).contains(row),
    ensures
        rows_of_entries(cache, shown, dir, entries, depth, longest).contains(row),
    decreases entries.len(),
{
    let first = rows_of_entries(cache, shown, dir, entries.drop_last(), depth, longest);
    let last = rows_of_entry(cache, shown, dir, entries.last(), depth, longest);
    if i < entries.len() - 1 {
        lemma_entry_rows_are_there(
            cache,
            shown,
            dir,
            entries.drop_last(),
            i,
            depth,
            longest,
            row,
        );
        let k = choose|k: int| 0 <= k < first.len() && first[k] == row;
        assert((first + last)[k] == row);
    } else {
        let k = choose|k: int| 0 <= k < last.len() && last[k] == row;
        assert((first + last)[first.len() + k] == row);
    }
}

proof fn lemma_directory_is_above(dir: Seq<char>, name: Seq<char>)
    requires
        dir.len() > 0,
    ensures
        on_path(dir, path_in(dir, name)),
{
    reveal_strlit("/");
    assert(path_in(dir, name).take(dir.len() as int) =~= dir);
}

/// The rows of a directory that is shown are among all rows, at some depth.
proof fn lemma_rows_of_shown_directory(
    cache: Listings,
    paths: Set<Seq<char>>,
    dir: Seq<char>,
    longest: nat,
) -> (depth: nat)
    requires
        reached(cache, dir),
        cache.contains_key(dir),
        forall|key: Seq<char>| #[trigger] cache.contains_key(key) ==> key.len() <= longest,
        dir.len() > 0 ==> paths.contains(dir),
        forall|p: Seq<char>, q: Seq<char>|
            #![trigger on_path(p, q)]
            paths.contains(q) && on_path(p, q) ==> paths.contains(p),
    ensures
        forall|row: RowModel|
            rows_of_dir(cache, Shown::Filtered(paths), dir, depth, longest).contains(row)
                ==> #[trigger] rows_of_dir(
                cache,
                Shown::Filtered(paths),
                Seq::empty(),
                0,
                longest,
            ).contains(row),
    decreases dir.len(),
{
    let shown = Shown::Filtered(paths);
    if dir.len() == 0 {
        assert(dir =~= Seq::<char>::empty());
        0
    } else {
        let (up, i) = choose|up: Seq<char>, i: int|
            #![trigger lists(cache, up, i, dir)]
            lists(cache, up, i, dir) && cache[up][i].is_dir && up.len() < dir.len() && reached(
                cache,
                up,
            );
        if up.len() > 0 {
            lemma_directory_is_above(up, cache[up][i].name);
        }
        let above = lemma_rows_of_shown_directory(cache, paths, up, longest);
        let entry = cache[up][i];
        let own = rows_of_entry(cache, shown, up, entry, above, longest);
        let below = rows_of_dir(cache, shown, dir, above + 1, longest);
        let row = RowModel { path: dir, name: entry.name, is_dir: true, depth: above, expanded: true };
        assert(own == seq![row] + below);
        assert forall|row: RowModel| below.contains(row) implies #[trigger] rows_of_dir(
            cache,
            shown,
            Seq::empty(),
            0,
            longest,
        ).contains(row) by {
            let k = choose|k: int| 0 <= k < below.len() && below[k] == row;
            assert(own[k + 1] == row);
            lemma_entry_rows_are_there(cache, shown, up, cache[up], i, above, longest, row);
            assert(rows_of_dir(cache, shown, up, above, longest).contains(row));
        }
        above + 1
    }
}

/// While filtering, an entry that was read is listed exactly when its name, or
/// the name of something below it, holds the query. A listed directory is open,
/// whatever was expanded.
pub proof fn law_filtered_rows_are_the_hits(view: TreeView, dir: Seq<char>, i: int)
    requires
        view.wf(),
        view.filtering(),
        view.show_set@ == view.hit_paths(view.index@.len() as int),
        reached(view.listings(), dir),
        view.listings().contains_key(dir),
        0 <= i < view.listings()[dir].len(),
    ensures
        ({
            let entry = view.listings()[dir][i];
            let path = path_in(dir, entry.name);
            let hit = exists|k: int|
                0 <= k < view.index@.len() && occurs(
                    (#[trigger] view.index@[k]).name_lower@,
                    view.search_query.small@,
                ) && on_path(path, view.index@[k].path@);
            &&& hit ==> exists|k: int|
                0 <= k < view.rows().len() && {
                    let row = #[trigger] view.rows()[k];
                    row.path == path && row.name == entry.name && row.is_dir == entry.is_dir
                        && row.expanded == entry.is_dir
                }
            &&& (exists|k: int| 0 <= k < view.rows().len() && (#[trigger] view.rows()[k]).path == path)
                ==> hit
        }),
{
    let cache = view.listings();
    let paths = view.show_set@;
    let shown = Shown::Filtered(paths);
    let longest = longest_of(view.cache.keys@);
    let n = view.index@.len() as int;
    let entry = cache[dir][i];
    let path = path_in(dir, entry.name);
    let hit = exists|k: int|
        0 <= k < view.index@.len() && occurs(
            (#[trigger] view.index@[k]).name_lower@,
            view.search_query.small@,
        ) && on_path(path, view.index@[k].path@);
    assert(hit <==> paths.contains(path)) by {
        if hit {
            let k = choose|k: int|
                0 <= k < view.index@.len() && occurs(
                    (#[trigger] view.index@[k]).name_lower@,
                    view.search_query.small@,
                ) && on_path(path, view.index@[k].path@);
            assert(view.hit(k));
        }
        if paths.contains(path) {
            let k = choose|k: int|
                0 <= k < n && #[trigger] view.hit(k) && on_path(path, view.index@[k].path@);
            assert(view.index@[k] == view.index@[k]);
        }
    }
    lemma_cached_paths_are_bounded(view);
    if hit {
        assert forall|p: Seq<char>, q: Seq<char>|
            #![trigger on_path(p, q)]
            paths.contains(q) && on_path(p, q) implies paths.contains(p) by {
            law_filtered_paths_are_unbroken(view, n, q, p);
        }
        if dir.len() > 0 {
            lemma_directory_is_above(dir, entry.name);
        }
        let depth = lemma_rows_of_shown_directory(cache, paths, dir, longest);
        let row = RowModel { path, name: entry.name, is_dir: entry.is_dir, depth, expanded: entry.is_dir };
        let own = rows_of_entry(cache, shown, dir, entry, depth, longest);
        assert(own[0] == row);
        lemma_entry_rows_are_there(cache, shown, dir, cache[dir], i, depth, longest, row);
        assert(rows_of_dir(cache, shown, dir, depth, longest).contains(row));
        assert(view.rows().contains(row));
        let k = choose|k: int| 0 <= k < view.rows().len() && view.rows()[k] == row;
        assert(view.rows()[k].path == path);
    }
    lemma_rows_are_hits(cache, paths, Seq::empty(), 0, longest);
    if exists|k: int| 0 <= k < view.rows().len() && (#[trigger] view.rows()[k]).path == path {
        let k = choose|k: int| 0 <= k < view.rows().len() && (#[trigger] view.rows()[k]).path == path;
        assert(is_hit_row(cache, paths, view.rows()[k]));
    }
}

/// While filtering, nothing else is listed: every row stands for an entry that
/// was read, on the way to a match, and open where it is a directory.
pub proof fn law_filtered_rows_lead_to_matches(view: TreeView, k: int)
    requires
        view.filtering(),
        view.show_set@ == view.hit_paths(view.index@.len() as int),
        0 <= k < view.rows().len(),
    ensures
        is_hit_row(
            view.listings(),
            view.hit_paths(view.index@.len() as int),
            view.rows()[k],
        ),
        view.rows()[k].is_dir ==> view.rows()[k].expanded,
{
    lemma_rows_are_hits(
        view.listings(),
        view.show_set@,
        Seq::empty(),
        0,
        longest_of(view.cache.keys@),
    );
}

proof fn lemma_cached_paths_are_bounded(view: TreeView)
    requires
        view.wf(),
    ensures
        forall|key: Seq<char>| #[trigger]
            view.listings().contains_key(key) ==> key.len() <= longest_of(view.cache.keys@),
{
    assert forall|key: Seq<char>| #[trigger] view.listings().contains_key(key) implies key.len()
        <= longest_of(view.cache.keys@) by {
        let k = choose|k: int|
            0 <= k < view.cache.keys@.len() && (#[trigger] view.cache.keys@[k])@ == key;
        lemma_longest(view.cache.keys@, k);
    }
}

/// A longer bound on the directory paths shows the same rows: what is visible
/// does not depend on it.
pub proof fn law_rows_do_not_depend_on_the_bound(
    cache: Listings,
    shown: Shown,
    dir: Seq<char>,
    depth: nat,
    longest: nat,
    longer: nat,
)
    requires
        dir.len() <= longest <= longer,
        forall|key: Seq<char>| #[trigger] cache.contains_key(key) ==> key.len() <= longest,
    ensures
        rows_of_dir(cache, shown, dir, depth, longest) == rows_of_dir(
            cache,
            shown,
            dir,
            depth,
            longer,
        ),
    decreases longest + 1 - dir.len(), 2nat, 0nat,
{
    if cache.contains_key(dir) {
        lemma_entries_bound(cache, shown, dir, cache[dir], depth, longest, longer);
    }
}

proof fn lemma_entries_bound(
    cache: Listings,
    shown: Shown,
    dir: Seq<char>,
    entries: Seq<EntryModel>,
    depth: nat,
    longest: nat,
    longer: nat,
)
    requires
        dir.len() <= longest <= longer,
        forall|key: Seq<char>| #[trigger] cache.contains_key(key) ==> key.len() <= longest,
    ensures
        rows_of_entries(cache, shown, dir, entries, depth, longest) == rows_of_entries(
            cache,
            shown,
            dir,
            entries,
            depth,
            longer,
        ),
    decreases longest + 1 - dir.len(), 1nat, entries.len(),
{
    if entries.len() > 0 {
        lemma_entries_bound(cache, shown, dir, entries.drop_last(), depth, longest, longer);
        let path = path_in(dir, entries.last().name);
        if path.len() > dir.len() && path.len() <= longest {
            law_rows_do_not_depend_on_the_bound(cache, shown, path, depth + 1, longest, longer);
        } else if path.len() > longest && path.len() <= longer {
            assert(!cache.contains_key(path));
            assert(rows_of_dir(cache, shown, path, depth + 1, longer) =~= Seq::<RowModel>::empty());
        }
        let row = rows_of_entry(cache, shown, dir, entries.last(), depth, longest);
        let wide = rows_of_entry(cache, shown, dir, entries.last(), depth, longer);
        assert(row =~= wide);
    }
}

/// Whether one comes from the root to `dir`, `depth` levels down, through
/// directories that were read and are expanded.
pub open spec fn opened_at(
    cache: Listings,
    expanded: Set<Seq<char>>,
    dir: Seq<char>,
    depth: nat,
) -> bool
    decreases depth,
{
    if depth == 0 {
        dir.len() == 0
    } else {
        exists|up: Seq<char>, i: int|
            #![trigger lists(cache, up, i, dir)]
            lists(cache, up, i, dir) && cache[up][i].is_dir && expanded.contains(dir) && up.len()
                < dir.len() && opened_at(cache, expanded, up, (depth - 1) as nat)
    }
}

/// Whether `row` stands for an entry that was read and whose directory is open,
/// and is itself open exactly where it is an expanded directory.
pub open spec fn is_open_row(
    cache: Listings,
    expanded: Set<Seq<char>>,
    row: RowModel,
) -> bool {
    &&& row.expanded == (row.is_dir && expanded.contains(row.path))
    &&& exists|dir: Seq<char>, i: int|
        #![trigger lists(cache, dir, i, row.path)]
        lists(cache, dir, i, row.path) && opened_at(cache, expanded, dir, row.depth)
            && cache[dir][i].name == row.name && cache[dir][i].is_dir == row.is_dir
}

proof fn lemma_rows_are_open(
    cache: Listings,
    expanded: Set<Seq<char>>,
    dir: Seq<char>,
    depth: nat,
    longest: nat,
)
    requires
        dir.len() <= longest,
        opened_at(cache, expanded, dir, depth),
    ensures
        forall|k: int|
            0 <= k < rows_of_dir(cache, Shown::Expanded(expanded), dir, depth, longest).len()
                ==> is_open_row(
                cache,
                expanded,
                #[trigger] rows_of_dir(cache, Shown::Expanded(expanded), dir, depth, longest)[k],
            ),
    decreases longest + 1 - dir.len(), 2nat, 0nat,
{
    if cache.contains_key(dir) {
        let n = cache[dir].len();
        lemma_entry_rows_are_open(cache, expanded, dir, n, depth, longest);
        assert(cache[dir].take(n as int) =~= cache[dir]);
        let rows = rows_of_dir(cache, Shown::Expanded(expanded), dir, depth, longest);
        assert(rows == rows_of_entries(
            cache,
            Shown::Expanded(expanded),
            dir,
            cache[dir].take(n as int),
            depth,
            longest,
        ));
    }
}

proof fn lemma_entry_rows_are_open(
    cache: Listings,
    expanded: Set<Seq<char>>,
    dir: Seq<char>,
    n: nat,
    depth: nat,
    longest: nat,
)
    requires
        dir.len() <= longest,
        opened_at(cache, expanded, dir, depth),
        cache.contains_key(dir),
        n <= cache[dir].len(),
    ensures
        forall|k: int|
            0 <= k < rows_of_entries(
                cache,
                Shown::Expanded(expanded),
                dir,
                cache[dir].take(n as int),
                depth,
                longest,
            ).len() ==> is_open_row(
                cache,
                expanded,
                #[trigger] rows_of_entries(
                    cache,
                    Shown::Expanded(expanded),
                    dir,
                    cache[dir].take(n as int),
                    depth,
                    longest,
                )[k],
            ),
    decreases longest + 1 - dir.len(), 1nat, n,
{
    if n > 0 {
        let shown = Shown::Expanded(expanded);
        let before = (n - 1) as nat;
        let entries = cache[dir].take(n as int);
        lemma_entry_rows_are_open(cache, expanded, dir, before, depth, longest);
        assert(entries.drop_last() =~= cache[dir].take(before as int));
        let entry = entries.last();
        let path = path_in(dir, entry.name);
        assert(entry == cache[dir][before as int]);
        assert(lists(cache, dir, before as int, path));
        let open = entry.is_dir && expanded.contains(path);
        let row = RowModel { path, name: entry.name, is_dir: entry.is_dir, depth, expanded: open };
        assert(lists(cache, dir, before as int, row.path) && opened_at(
            cache,
            expanded,
            dir,
            row.depth,
        ) && cache[dir][before as int].name == row.name && cache[dir][before as int].is_dir
            == row.is_dir);
        assert(is_open_row(cache, expanded, row));
        if open && path.len() > dir.len() && path.len() <= longest {
            assert(opened_at(cache, expanded, path, depth + 1));
            lemma_rows_are_open(cache, expanded, path, depth + 1, longest);
        }
        let first = rows_of_entries(cache, shown, dir, entries.drop_last(), depth, longest);
        let last = rows_of_entry(cache, shown, dir, entry, depth, longest);
        let all = rows_of_entries(cache, shown, dir, entries, depth, longest);
        assert(all == first + last);
        assert forall|k: int| 0 <= k < all.len() implies is_open_row(
            cache,
            expanded,
            #[trigger] all[k],
        ) by {
            if k < first.len() {
                assert(all[k] == first[k]);
            } else {
                let j = k - first.len();
                assert(all[k] == last[j]);
                if j > 0 {
                    let below = rows_of_dir(cache, shown, path, depth + 1, longest);
                    assert(last == seq![row] + below);
                    assert(last[j] == below[j - 1]);
                }
            }
        }
    }
}

/// The rows of a directory that is open are among all rows, at its depth.
proof fn lemma_rows_of_open_directory(
    cache: Listings,
    expanded: Set<Seq<char>>,
    dir: Seq<char>,
    depth: nat,
    longest: nat,
)
    requires
        opened_at(cache, expanded, dir, depth),
        cache.contains_key(dir),
        forall|key: Seq<char>| #[trigger] cache.contains_key(key) ==> key.len() <= longest,
    ensures
        forall|row: RowModel|
            rows_of_dir(cache, Shown::Expanded(expanded), dir, depth, longest).contains(row)
                ==> #[trigger] rows_of_dir(
                cache,
                Shown::Expanded(expanded),
                Seq::empty(),
                0,
                longest,
            ).contains(row),
    decreases depth,
{
    let shown = Shown::Expanded(expanded);
    if depth == 0 {
        assert(dir =~= Seq::<char>::empty());
    } else {
        let above = (depth - 1) as nat;
        let (up, i) = choose|up: Seq<char>, i: int|
            #![trigger lists(cache, up, i, dir)]
            lists(cache, up, i, dir) && cache[up][i].is_dir && expanded.contains(dir) && up.len()
                < dir.len() && opened_at(cache, expanded, up, above);
        lemma_rows_of_open_directory(cache, expanded, up, above, longest);
        let entry = cache[up][i];
        let own = rows_of_entry(cache, shown, up, entry, above, longest);
        let below = rows_of_dir(cache, shown, dir, depth, longest);
        let row = RowModel {
            path: dir,
            name: entry.name,
            is_dir: true,
            depth: above,
            expanded: true,
        };
        assert(own == seq![row] + below);
        assert forall|row: RowModel| below.contains(row) implies #[trigger] rows_of_dir(
            cache,
            shown,
            Seq::empty(),
            0,
            longest,
        ).contains(row) by {
            let k = choose|k: int| 0 <= k < below.len() && below[k] == row;
            assert(own[k + 1] == row);
            lemma_entry_rows_are_there(cache, shown, up, cache[up], i, above, longest, row);
            assert(rows_of_dir(cache, shown, up, above, longest).contains(row));
        }
    }
}

/// While not filtering, every entry of a directory that is open, with all that
/// lie above it, is listed, however deep it lies: under its path and name, at
/// its depth, and open exactly where it is a directory that is expanded.
pub proof fn law_entries_of_open_directories_are_listed(
    view: TreeView,
    dir: Seq<char>,
    i: int,
    depth: nat,
)
    requires
        view.wf(),
        !view.search_active || view.search_query.text@.len() == 0,
        opened_at(view.listings(), view.expanded@, dir, depth),
        view.listings().contains_key(dir),
        0 <= i < view.listings()[dir].len(),
    ensures
        ({
            let entry = view.listings()[dir][i];
            let path = if dir.len() == 0 {
                entry.name
            } else {
                dir.push('/') + entry.name
            };
            view.rows().contains(
                RowModel {
                    path,
                    name: entry.name,
                    is_dir: entry.is_dir,
                    depth,
                    expanded: entry.is_dir && view.expanded@.contains(path),
                },
            )
        }),
{
    let cache = view.listings();
    let shown = Shown::Expanded(view.expanded@);
    let longest = longest_of(view.cache.keys@);
    let entry = cache[dir][i];
    let path = path_in(dir, entry.name);
    reveal_strlit("/");
    assert(dir + "/"@ =~= dir.push('/'));
    lemma_cached_paths_are_bounded(view);
    lemma_rows_of_open_directory(cache, view.expanded@, dir, depth, longest);
    let row = RowModel {
        path,
        name: entry.name,
        is_dir: entry.is_dir,
        depth,
        expanded: entry.is_dir && view.expanded@.contains(path),
    };
    let own = rows_of_entry(cache, shown, dir, entry, depth, longest);
    assert(own[0] == row);
    lemma_entry_rows_are_there(cache, shown, dir, cache[dir], i, depth, longest, row);
    assert(rows_of_dir(cache, shown, dir, depth, longest).contains(row));
}

/// While not filtering, nothing else is listed: every row stands for an entry
/// that was read, at its depth, with every directory above it expanded; and it
/// is open exactly where it is an expanded directory.
pub proof fn law_rows_are_entries_of_open_directories(view: TreeView, k: int)
    requires
        !view.search_active || view.search_query.text@.len() == 0,
        0 <= k < view.rows().len(),
    ensures
        is_open_row(view.listings(), view.expanded@, view.rows()[k]),
{
    lemma_rows_are_open(
        view.listings(),
        view.expanded@,
        Seq::empty(),
        0,
        longest_of(view.cache.keys@),
    );
}

/// Rows stand in the order of the listings: those of earlier entries before
/// those of later ones, and below an open directory what was read of it, one
/// level deeper, before the entry after it.
pub proof fn law_rows_follow_the_listings(
    cache: Listings,
    shown: Shown,
    dir: Seq<char>,
    first: Seq<EntryModel>,
    second: Seq<EntryModel>,
    entry: EntryModel,
    depth: nat,
    longest: nat,
)
    requires
        dir.len() <= longest,
        dir.len() == 0 ==> entry.name.len() > 0,
        forall|key: Seq<char>| #[trigger] cache.contains_key(key) ==> key.len() <= longest,
    ensures
        rows_of_entries(cache, shown, dir, first + second, depth, longest) == rows_of_entries(
            cache,
            shown,
            dir,
            first,
            depth,
            longest,
        ) + rows_of_entries(cache, shown, dir, second, depth, longest),
        ({
            let path = if dir.len() == 0 {
                entry.name
            } else {
                dir.push('/') + entry.name
            };
            let rows = rows_of_entries(cache, shown, dir, seq![entry], depth, longest);
            let open = entry.is_dir && (shown matches Shown::Expanded(paths) ==> paths.contains(
                path,
            ));
            let own = RowModel {
                path,
                name: entry.name,
                is_dir: entry.is_dir,
                depth,
                expanded: open,
            };
            if shown matches Shown::Filtered(paths) && !paths.contains(path) {
                rows.len() == 0
            } else if open && cache.contains_key(path) {
                rows == seq![own] + rows_of_entries(
                    cache,
                    shown,
                    path,
                    cache[path],
                    depth + 1,
                    longest,
                )
            } else {
                rows == seq![own]
            }
        }),
    decreases second.len(),
{
    reveal_strlit("/");
    assert(dir + "/"@ =~= dir.push('/'));
    assert(seq![entry].drop_last() =~= Seq::<EntryModel>::empty());
    assert(rows_of_entries(cache, shown, dir, seq![entry].drop_last(), depth, longest) =~= Seq::<
        RowModel,
    >::empty());
    assert(rows_of_entries(cache, shown, dir, seq![entry], depth, longest) =~= rows_of_entry(
        cache,
        shown,
        dir,
        entry,
        depth,
        longest,
    ));
    if second.len() == 0 {
        assert(first + second =~= first);
        assert(rows_of_entries(cache, shown, dir, second, depth, longest) =~= Seq::<
            RowModel,
        >::empty());
    } else {
        law_rows_follow_the_listings(
            cache,
            shown,
            dir,
            first,
            second.drop_last(),
            entry,
            depth,
            longest,
        );
        assert((first + second).drop_last() =~= first + second.drop_last());
        assert((first + second).last() == second.last());
    }
}

/// The parent of an entry is the directory it lies in; an entry of the root has
/// none.
pub proof fn law_parents_hold_their_entries(dir: Seq<char>, name: Seq<char>)
    requires
        !name.contains('/'),
    ensures
        parent_of(dir.push('/') + name) == Some(dir),
        parent_of(name) is None,
{
    let path = dir.push('/') + name;
    lemma_last_index(path, '/');
    lemma_last_index(name, '/');
    let n = dir.len() as int;
    assert(path[n] == '/');
    assert(path.contains('/'));
    assert(last_index(path, '/') == Some(n)) by {
        let i = last_index(path, '/')->0;
        if i > n {
            assert(path[i] == name[i - n - 1]);
            assert(name.contains('/'));
        }
    }
    assert(path.take(n) =~= dir);
}

/// A path stays inside the tree exactly where it is not empty, does not begin
/// at the root, and nowhere goes up: no component of it is two dots.
pub proof fn law_safe_paths_do_not_go_up(rel: Seq<char>)
    ensures
        stays_inside(rel) <==> rel.len() > 0 && rel[0] != '/' && !exists|i: int|
            0 <= i && i + 2 <= rel.len() && #[trigger] rel[i] == '.' && rel[i + 1] == '.' && (i == 0
                || rel[i - 1] == '/') && (i + 2 == rel.len() || rel[i + 2] == '/'),
{
    reveal_strlit("..");
    let up = ".."@;
    assert(up =~= seq!['.', '.']);
    crate::text::law_pieces_lie_between_separators(rel, '/', up);
    assert(!up.contains('/'));
    if pieces(rel, '/').contains(up) {
        let i = choose|i: int| #[trigger]
            crate::text::occurs_at(rel, up, i) && (i == 0 || rel[i - 1] == '/') && (i + up.len()
                == rel.len() || rel[i + up.len()] == '/');
        let part = rel.subrange(i, i + 2);
        assert(part[0] == rel[i] && part[1] == rel[i + 1]);
        assert(rel[i] == '.' && rel[i + 1] == '.');
    }
    if exists|i: int|
        0 <= i && i + 2 <= rel.len() && #[trigger] rel[i] == '.' && rel[i + 1] == '.' && (i == 0
            || rel[i - 1] == '/') && (i + 2 == rel.len() || rel[i + 2] == '/') {
        let i = choose|i: int|
            0 <= i && i + 2 <= rel.len() && #[trigger] rel[i] == '.' && rel[i + 1] == '.' && (i == 0
                || rel[i - 1] == '/') && (i + 2 == rel.len() || rel[i + 2] == '/');
        assert(rel.subrange(i, i + 2) =~= up);
        assert(crate::text::occurs_at(rel, up, i));
    }
}

/// One path lies on the way to another exactly where it is that path, or where
/// the other goes on from it behind a slash.
pub proof fn law_paths_on_the_way(p: Seq<char>, rest: Seq<char>, path: Seq<char>)
    ensures
        on_path(p, p),
        on_path(p, p.push('/') + rest),
        on_path(p, path) && p != path ==> exists|more: Seq<char>| path == #[trigger] (p.push('/')
            + more),
{
    let longer = p.push('/') + rest;
    assert(longer.take(p.len() as int) =~= p);
    assert(longer[p.len() as int] == '/');
    if on_path(p, path) && p != path {
        let more = path.skip(p.len() as int + 1);
        assert(path =~= p.push('/') + more);
    }
}

/// The matches are counted: each entry of the index whose name, in lower case,
/// holds the query counts once, and nothing does while nothing is searched for.
pub proof fn law_matches_are_counted(view: TreeView, n: int)
    requires
        0 <= n <= view.index@.len(),
    ensures
        view.search_query.small@.len() == 0 ==> view.hits(n) == 0,
        view.search_query.small@.len() > 0 ==> view.hits(n) == view.index@.take(n).filter(
            |e: TreeIndexEntry| occurs(e.name_lower@, view.search_query.small@),
        ).len(),
    decreases n,
{
    let p = |e: TreeIndexEntry| occurs(e.name_lower@, view.search_query.small@);
    reveal(Seq::filter);
    if n > 0 {
        law_matches_are_counted(view, n - 1);
        let all = view.index@.take(n);
        assert(all.drop_last() =~= view.index@.take(n - 1));
        assert(all.last() == view.index@[n - 1]);
        assert(view.hit(n - 1) <==> view.search_query.small@.len() > 0 && p(view.index@[n - 1]));
    }
}

} // verus!

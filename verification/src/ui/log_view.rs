//! The commit list, the files of one commit, and the searches in both.

use crate::git::diff::types::{ChangedFile, CommitEntry};
use crate::text::{chars_of, contains_sub, lowercased, occurs};
use crate::ui::search::SearchQuery;
use vstd::prelude::*;

verus! {

/// State of the log view.
pub struct LogView {
    pub commits: Vec<CommitEntry>,
    pub selected: usize,
    pub diff_title: String,
    pub drill_down: bool,
    pub commit_files: Vec<ChangedFile>,
    pub file_selected: usize,
    pub commit_scroll_x: usize,
    pub file_scroll_x: usize,
    /// Longest summary in characters, kept with the number of commits it was
    /// found for.
    pub commit_width_cache: Option<(usize, usize)>,
    /// The same for the paths of the files.
    pub commit_files_width_cache: Option<(usize, usize)>,
    /// How many commits are loaded, to compare with what a page was asked to
    /// skip.
    pub loaded_count: usize,
    /// Guards against asking for a page twice.
    pub pending_fetch: bool,
    /// The last page had fewer commits than were asked for.
    pub fully_loaded: bool,
    pub commit_search_query: SearchQuery,
    pub commit_search_active: bool,
    /// Indices of the commits that match the query.
    pub commits_filter_cache: Vec<usize>,
    pub file_search_query: SearchQuery,
    pub file_search_active: bool,
    /// Indices of the files that match the query.
    pub commit_files_filter_cache: Vec<usize>,
}

/// Whether a row with the lower-case text `lower` is shown for a query.
pub open spec fn shown(query: Seq<char>, lower: Seq<char>) -> bool {
    query.len() == 0 || occurs(lower, lowercased(query))
}

/// The indices of the commits among the first `n` that are shown, in order.
pub open spec fn shown_commits(commits: Seq<CommitEntry>, query: Seq<char>, n: int) -> Seq<usize>
    decreases n,
{
    if n <= 0 {
        Seq::empty()
    } else {
        let before = shown_commits(commits, query, n - 1);
        if shown(query, commits[n - 1].summary_lower@) {
            before.push((n - 1) as usize)
        } else {
            before
        }
    }
}

/// The indices of the files among the first `n` that are shown, in order.
pub open spec fn shown_files(files: Seq<ChangedFile>, query: Seq<char>, n: int) -> Seq<usize>
    decreases n,
{
    if n <= 0 {
        Seq::empty()
    } else {
        let before = shown_files(files, query, n - 1);
        if shown(query, files[n - 1].search_lower@) {
            before.push((n - 1) as usize)
        } else {
            before
        }
    }
}

/// The log view without what follows from the rest: the filters and the count
/// of loaded commits.
#[verifier::ext_equal]
pub struct LogModel {
    pub commits: Seq<CommitEntry>,
    pub selected: usize,
    pub diff_title: Seq<char>,
    pub drill_down: bool,
    pub commit_files: Seq<ChangedFile>,
    pub file_selected: usize,
    pub commit_scroll_x: usize,
    pub file_scroll_x: usize,
    pub commit_width_cache: Option<(usize, usize)>,
    pub commit_files_width_cache: Option<(usize, usize)>,
    pub pending_fetch: bool,
    pub fully_loaded: bool,
    pub commit_query: Seq<char>,
    pub commit_search_active: bool,
    pub file_query: Seq<char>,
    pub file_search_active: bool,
}

/// `query` with its last character taken back.
pub open spec fn taken_back(query: Seq<char>) -> Seq<char> {
    if query.len() == 0 {
        query
    } else {
        query.drop_last()
    }
}

impl LogModel {
    /// With other commits, and no page on its way.
    pub open spec fn with_commits(self, commits: Seq<CommitEntry>) -> LogModel {
        LogModel {
            commits,
            commit_width_cache: None,
            pending_fetch: false,
            fully_loaded: false,
            ..self
        }
    }

    /// With a page behind the commits; one that is shorter than asked for is
    /// the last.
    pub open spec fn with_page(self, page: Seq<CommitEntry>, page_size: usize) -> LogModel {
        LogModel {
            commits: self.commits + page,
            commit_width_cache: if page.len() > 0 {
                None
            } else {
                self.commit_width_cache
            },
            pending_fetch: false,
            fully_loaded: self.fully_loaded || page.len() < page_size,
            ..self
        }
    }

    /// Back at the commit list, with nothing left of the files or their search.
    pub open spec fn out_of_commit(self) -> LogModel {
        LogModel {
            drill_down: false,
            commit_files: Seq::empty(),
            commit_files_width_cache: None,
            file_selected: 0,
            file_scroll_x: 0,
            file_search_active: false,
            file_query: Seq::empty(),
            ..self
        }
    }

    /// With the commit search given up.
    pub open spec fn without_commit_search(self) -> LogModel {
        LogModel { commit_search_active: false, commit_query: Seq::empty(), ..self }
    }

    /// With the file search given up.
    pub open spec fn without_file_search(self) -> LogModel {
        LogModel { file_search_active: false, file_query: Seq::empty(), ..self }
    }
}

impl LogView {
    pub open spec fn model(&self) -> LogModel {
        LogModel {
            commits: self.commits@,
            selected: self.selected,
            diff_title: self.diff_title@,
            drill_down: self.drill_down,
            commit_files: self.commit_files@,
            file_selected: self.file_selected,
            commit_scroll_x: self.commit_scroll_x,
            file_scroll_x: self.file_scroll_x,
            commit_width_cache: self.commit_width_cache,
            commit_files_width_cache: self.commit_files_width_cache,
            pending_fetch: self.pending_fetch,
            fully_loaded: self.fully_loaded,
            commit_query: self.commit_search_query.text@,
            commit_search_active: self.commit_search_active,
            file_query: self.file_search_query.text@,
            file_search_active: self.file_search_active,
        }
    }

    /// The count and the commit filter follow from the commits and the query.
    pub open spec fn commits_current(&self) -> bool {
        &&& self.loaded_count == self.commits@.len()
        &&& self.commits_filter_cache@ == shown_commits(
            self.commits@,
            self.commit_search_query.text@,
            self.commits@.len() as int,
        )
    }

    /// The file filter follows from the files and the query.
    pub open spec fn files_current(&self) -> bool {
        self.commit_files_filter_cache@ == shown_files(
            self.commit_files@,
            self.file_search_query.text@,
            self.commit_files@.len() as int,
        )
    }

    pub open spec fn wf(&self) -> bool {
        &&& self.commit_search_query.wf()
        &&& self.file_search_query.wf()
        &&& self.commits_current()
        &&& self.files_current()
    }

    /// Replace the commits. What was known about pages is forgotten, because
    /// the commits are no longer what the last pages made.
    pub fn set_commits(&mut self, commits: Vec<CommitEntry>)
        requires
            old(self).wf(),
        ensures
            final(self).wf(),
            final(self).model() == old(self).model().with_commits(commits@),
    {
        self.loaded_count = commits.len();
        self.commits = commits;
        self.commit_width_cache = None;
        self.pending_fetch = false;
        self.fully_loaded = false;
        self.recompute_commit_filter();
    }

    /// Install a first page.
    pub fn set_commits_from_first_page(&mut self, page: Vec<CommitEntry>, page_size: usize)
        requires
            old(self).wf(),
        ensures
            final(self).wf(),
            final(self).model() == (LogModel {
                fully_loaded: page@.len() < page_size,
                ..old(self).model().with_commits(page@)
            }),
    {
        let fully_loaded = page.len() < page_size;
        self.set_commits(page);
        self.fully_loaded = fully_loaded;
    }

    /// Put a page behind the commits.
    pub fn append_page(&mut self, page: Vec<CommitEntry>, page_size: usize)
        requires
            old(self).wf(),
        ensures
            final(self).wf(),
            final(self).model() == old(self).model().with_page(page@, page_size),
    {
        let ghost before = self.model();
        let ghost added = page@;
        let received: usize = page.len();
        let mut page = page;
        if received > 0 {
            self.commits.append(&mut page);
            self.loaded_count = self.commits.len();
            self.commit_width_cache = None;
            self.recompute_commit_filter();
        }
        self.pending_fetch = false;
        if received < page_size {
            self.fully_loaded = true;
        }
        proof {
            assert(self.commits@ =~= before.commits + added);
        }
    }

    /// Mark a page as on its way. `false` where one was already.
    pub fn mark_pending(&mut self) -> (r: bool)
        requires
            old(self).wf(),
        ensures
            final(self).wf(),
            r == !old(self).pending_fetch,
            final(self).model() == (LogModel { pending_fetch: true, ..old(self).model() }),
    {
        if self.pending_fetch {
            return false;
        }
        self.pending_fetch = true;
        true
    }

    /// No page is on its way any more, and none came.
    pub fn clear_pending(&mut self)
        requires
            old(self).wf(),
        ensures
            final(self).wf(),
            final(self).model() == (LogModel { pending_fetch: false, ..old(self).model() }),
    {
        self.pending_fetch = false;
    }

    /// Replace the files of the commit.
    pub fn set_commit_files(&mut self, files: Vec<ChangedFile>)
        requires
            old(self).wf(),
        ensures
            final(self).wf(),
            final(self).model() == (LogModel {
                commit_files: files@,
                commit_files_width_cache: None,
                ..old(self).model()
            }),
    {
        self.commit_files = files;
        self.commit_files_width_cache = None;
        self.recompute_file_filter();
    }

    /// Go back to the commit list. The file search goes too, so that a later
    /// commit does not start with this one's query.
    pub fn reset_drill_down(&mut self)
        requires
            old(self).wf(),
        ensures
            final(self).wf(),
            final(self).model() == old(self).model().out_of_commit(),
    {
        self.drill_down = false;
        self.commit_files = Vec::new();
        self.commit_files_width_cache = None;
        self.file_selected = 0;
        self.file_scroll_x = 0;
        self.file_search_active = false;
        self.file_search_query.clear();
        self.commit_files_filter_cache = Vec::new();
    }

    /// Bring the commit filter up to date.
    pub fn recompute_commit_filter(&mut self)
        requires
            old(self).commit_search_query.wf(),
            old(self).file_search_query.wf(),
            old(self).loaded_count == old(self).commits@.len(),
            old(self).files_current(),
        ensures
            final(self).wf(),
            final(self).model() == old(self).model(),
    {
        let mut found: Vec<usize> = Vec::new();
        let all = self.commit_search_query.is_empty();
        let needle = chars_of(self.commit_search_query.lower());
        let mut i: usize = 0;
        while i < self.commits.len()
            invariant
                i <= self.commits@.len(),
                self.commit_search_query.wf(),
                *self == *old(self),
                all == (self.commit_search_query.text@.len() == 0),
                needle@ == self.commit_search_query.small@,
                found@ == shown_commits(
                    self.commits@,
                    self.commit_search_query.text@,
                    i as int,
                ),
            decreases self.commits.len() - i,
        {
            if all || contains_sub(&chars_of(self.commits[i].summary_lower.as_str()), &needle) {
                found.push(i);
            }
            i += 1;
        }
        self.commits_filter_cache = found;
    }

    /// Bring the file filter up to date.
    pub fn recompute_file_filter(&mut self)
        requires
            old(self).commit_search_query.wf(),
            old(self).file_search_query.wf(),
            old(self).commits_current(),
        ensures
            final(self).wf(),
            final(self).model() == old(self).model(),
    {
        let mut found: Vec<usize> = Vec::new();
        let all = self.file_search_query.is_empty();
        let needle = chars_of(self.file_search_query.lower());
        let mut i: usize = 0;
        while i < self.commit_files.len()
            invariant
                i <= self.commit_files@.len(),
                self.file_search_query.wf(),
                *self == *old(self),
                all == (self.file_search_query.text@.len() == 0),
                needle@ == self.file_search_query.small@,
                found@ == shown_files(
                    self.commit_files@,
                    self.file_search_query.text@,
                    i as int,
                ),
            decreases self.commit_files.len() - i,
        {
            if all || contains_sub(&chars_of(self.commit_files[i].search_lower.as_str()), &needle) {
                found.push(i);
            }
            i += 1;
        }
        self.commit_files_filter_cache = found;
    }

    pub fn start_commit_search(&mut self)
        requires
            old(self).wf(),
        ensures
            final(self).wf(),
            final(self).model() == (LogModel { commit_search_active: true, ..old(self).model() }),
    {
        self.commit_search_active = true;
    }

    /// Leave the commit search and clear its query.
    pub fn cancel_commit_search(&mut self)
        requires
            old(self).wf(),
        ensures
            final(self).wf(),
            final(self).model() == old(self).model().without_commit_search(),
    {
        self.commit_search_active = false;
        self.commit_search_query.clear();
        self.recompute_commit_filter();
        proof {
            assert(self.model() =~= old(self).model().without_commit_search());
        }
    }

    /// Hide the commit search bar and keep the filter. `true` where the query
    /// was empty and this came to leaving the search.
    pub fn confirm_commit_search(&mut self) -> (r: bool)
        requires
            old(self).wf(),
        ensures
            final(self).wf(),
            r == (old(self).model().commit_query.len() == 0),
            final(self).model() == if r {
                old(self).model().without_commit_search()
            } else {
                LogModel { commit_search_active: false, ..old(self).model() }
            },
    {
        if self.commit_search_query.is_empty() {
            self.cancel_commit_search();
            true
        } else {
            self.commit_search_active = false;
            false
        }
    }

    pub fn commit_search_push(&mut self, ch: char)
        requires
            old(self).wf(),
        ensures
            final(self).wf(),
            final(self).model() == (LogModel {
                commit_query: old(self).model().commit_query.push(ch),
                ..old(self).model()
            }),
    {
        self.commit_search_query.push(ch);
        self.recompute_commit_filter();
    }

    pub fn commit_search_pop(&mut self)
        requires
            old(self).wf(),
        ensures
            final(self).wf(),
            final(self).model() == (LogModel {
                commit_query: taken_back(old(self).model().commit_query),
                ..old(self).model()
            }),
    {
        self.commit_search_query.pop();
        self.recompute_commit_filter();
    }

    pub fn start_file_search(&mut self)
        requires
            old(self).wf(),
        ensures
            final(self).wf(),
            final(self).model() == (LogModel { file_search_active: true, ..old(self).model() }),
    {
        self.file_search_active = true;
    }

    /// Leave the file search and clear its query.
    pub fn cancel_file_search(&mut self)
        requires
            old(self).wf(),
        ensures
            final(self).wf(),
            final(self).model() == old(self).model().without_file_search(),
    {
        self.file_search_active = false;
        self.file_search_query.clear();
        self.recompute_file_filter();
        proof {
            assert(self.model() =~= old(self).model().without_file_search());
        }
    }

    /// Hide the file search bar and keep the filter. `true` where the query was
    /// empty and this came to leaving the search.
    pub fn confirm_file_search(&mut self) -> (r: bool)
        requires
            old(self).wf(),
        ensures
            final(self).wf(),
            r == (old(self).model().file_query.len() == 0),
            final(self).model() == if r {
                old(self).model().without_file_search()
            } else {
                LogModel { file_search_active: false, ..old(self).model() }
            },
    {
        if self.file_search_query.is_empty() {
            self.cancel_file_search();
            true
        } else {
            self.file_search_active = false;
            false
        }
    }

    pub fn file_search_push(&mut self, ch: char)
        requires
            old(self).wf(),
        ensures
            final(self).wf(),
            final(self).model() == (LogModel {
                file_query: old(self).model().file_query.push(ch),
                ..old(self).model()
            }),
    {
        self.file_search_query.push(ch);
        self.recompute_file_filter();
    }

    pub fn file_search_pop(&mut self)
        requires
            old(self).wf(),
        ensures
            final(self).wf(),
            final(self).model() == (LogModel {
                file_query: taken_back(old(self).model().file_query),
                ..old(self).model()
            }),
    {
        self.file_search_query.pop();
        self.recompute_file_filter();
    }
}

/// An empty log.
impl Default for LogView {
    fn default() -> (r: LogView)
        ensures
            r.wf(),
            r.model() == (LogModel {
                commits: Seq::empty(),
                selected: 0,
                diff_title: Seq::empty(),
                drill_down: false,
                commit_files: Seq::empty(),
                file_selected: 0,
                commit_scroll_x: 0,
                file_scroll_x: 0,
                commit_width_cache: None,
                commit_files_width_cache: None,
                pending_fetch: false,
                fully_loaded: false,
                commit_query: Seq::empty(),
                commit_search_active: false,
                file_query: Seq::empty(),
                file_search_active: false,
            }),
    {
        LogView {
            commits: Vec::new(),
            selected: 0,
            diff_title: String::new(),
            drill_down: false,
            commit_files: Vec::new(),
            file_selected: 0,
            commit_scroll_x: 0,
            file_scroll_x: 0,
            commit_width_cache: None,
            commit_files_width_cache: None,
            loaded_count: 0,
            pending_fetch: false,
            fully_loaded: false,
            commit_search_query: SearchQuery::new(),
            commit_search_active: false,
            commits_filter_cache: Vec::new(),
            file_search_query: SearchQuery::new(),
            file_search_active: false,
            commit_files_filter_cache: Vec::new(),
        }
    }
}

/// Whether `found` lists exactly the indices below `n` for which `p` holds, in
/// ascending order.
pub open spec fn lists_exactly(found: Seq<usize>, n: int, p: spec_fn(int) -> bool) -> bool {
    &&& forall|k: int, l: int| 0 <= k < l < found.len() ==> #[trigger] found[k] < #[trigger] found[l]
    &&& forall|k: int| 0 <= k < found.len() ==> (#[trigger] found[k]) < n && p(found[k] as int)
    &&& forall|i: int|
        0 <= i < n && #[trigger] p(i) ==> exists|k: int|
            0 <= k < found.len() && (#[trigger] found[k]) == i
}

/// The commit list shows exactly the commits that match the query, in their
/// order.
pub proof fn law_search_shows_matching_commits(
    commits: Seq<CommitEntry>,
    query: Seq<char>,
    n: int,
)
    requires
        0 <= n <= commits.len() <= usize::MAX,
    ensures
        lists_exactly(
            shown_commits(commits, query, n),
            n,
            |i: int| shown(query, commits[i].summary_lower@),
        ),
    decreases n,
{
    let p = |i: int| shown(query, commits[i].summary_lower@);
    if n > 0 {
        law_search_shows_matching_commits(commits, query, n - 1);
        let before = shown_commits(commits, query, n - 1);
        let after = shown_commits(commits, query, n);
        assert(lists_exactly(before, n - 1, p));
        assert forall|i: int| 0 <= i < n && #[trigger] p(i) implies exists|k: int|
            0 <= k < after.len() && (#[trigger] after[k]) == i by {
            if i < n - 1 {
                let k = choose|k: int| 0 <= k < before.len() && (#[trigger] before[k]) == i;
                assert(after[k] == i);
            } else {
                assert(after[before.len() as int] == i);
            }
        }
    }
}

/// The file list shows exactly the files that match the query, in their order.
pub proof fn law_search_shows_matching_files(files: Seq<ChangedFile>, query: Seq<char>, n: int)
    requires
        0 <= n <= files.len() <= usize::MAX,
    ensures
        lists_exactly(
            shown_files(files, query, n),
            n,
            |i: int| shown(query, files[i].search_lower@),
        ),
    decreases n,
{
    let p = |i: int| shown(query, files[i].search_lower@);
    if n > 0 {
        law_search_shows_matching_files(files, query, n - 1);
        let before = shown_files(files, query, n - 1);
        let after = shown_files(files, query, n);
        assert(lists_exactly(before, n - 1, p));
        assert forall|i: int| 0 <= i < n && #[trigger] p(i) implies exists|k: int|
            0 <= k < after.len() && (#[trigger] after[k]) == i by {
            if i < n - 1 {
                let k = choose|k: int| 0 <= k < before.len() && (#[trigger] before[k]) == i;
                assert(after[k] == i);
            } else {
                assert(after[before.len() as int] == i);
            }
        }
    }
}

/// Loading a history page by page makes the same list as loading it at once.
pub proof fn law_pages_add_up(
    log: LogModel,
    first: Seq<CommitEntry>,
    second: Seq<CommitEntry>,
    page_size: usize,
)
    ensures
        log.with_page(first, page_size).with_page(second, page_size).commits
            == log.commits + (first + second),
{
    assert(log.with_page(first, page_size).with_page(second, page_size).commits
        =~= log.commits + (first + second));
}

/// Going back to the commit list leaves no trace of the file search, so the
/// next commit's files are all shown.
pub proof fn law_next_commit_starts_unfiltered(
    log: LogModel,
    files: Seq<ChangedFile>,
    i: int,
)
    requires
        0 <= i < files.len(),
    ensures
        shown(log.out_of_commit().file_query, files[i].search_lower@),
{
}

/// A new list of commits replaces the old one and may have more behind it; what
/// is searched, selected and opened stays.
pub proof fn law_new_commits_replace_the_old(m: LogModel, commits: Seq<CommitEntry>)
    ensures
        ({
            let now = m.with_commits(commits);
            &&& now.commits == commits
            &&& now.commit_width_cache is None
            &&& !now.pending_fetch
            &&& !now.fully_loaded
            &&& now.selected == m.selected && now.drill_down == m.drill_down && now.commit_files
                == m.commit_files && now.file_selected == m.file_selected
            &&& now.commit_query == m.commit_query && now.commit_search_active
                == m.commit_search_active
            &&& now.file_query == m.file_query && now.file_search_active == m.file_search_active
            &&& now.diff_title == m.diff_title && now.commit_scroll_x == m.commit_scroll_x
                && now.file_scroll_x == m.file_scroll_x
        }),
{
}

/// A page goes behind the commits that are there; one that is shorter than a
/// page can be is the last. The search and the selection stay.
pub proof fn law_short_pages_are_the_last(m: LogModel, page: Seq<CommitEntry>, page_size: usize)
    ensures
        ({
            let now = m.with_page(page, page_size);
            &&& now.commits == m.commits + page
            &&& now.fully_loaded <==> m.fully_loaded || page.len() < page_size
            &&& !now.pending_fetch
            &&& page.len() > 0 ==> now.commit_width_cache is None
            &&& page.len() == 0 ==> now.commit_width_cache == m.commit_width_cache
            &&& now.selected == m.selected && now.commit_query == m.commit_query
                && now.commit_search_active == m.commit_search_active && now.drill_down
                == m.drill_down && now.commit_files == m.commit_files && now.file_query
                == m.file_query
        }),
{
}

/// Leaving a commit forgets its files and everything about them, and nothing of
/// the list of commits.
pub proof fn law_leaving_a_commit_forgets_its_files(m: LogModel)
    ensures
        ({
            let now = m.out_of_commit();
            &&& !now.drill_down
            &&& now.commit_files.len() == 0
            &&& now.file_selected == 0
            &&& now.file_scroll_x == 0
            &&& !now.file_search_active
            &&& now.file_query.len() == 0
            &&& now.commit_files_width_cache is None
            &&& now.commits == m.commits && now.selected == m.selected && now.commit_query
                == m.commit_query && now.commit_search_active == m.commit_search_active
                && now.commit_scroll_x == m.commit_scroll_x && now.commit_width_cache
                == m.commit_width_cache && now.pending_fetch == m.pending_fetch
                && now.fully_loaded == m.fully_loaded && now.diff_title == m.diff_title
        }),
{
}

/// Giving a search up clears its own query and closes it, and leaves the other
/// search alone.
pub proof fn law_searches_are_given_up_alone(m: LogModel, query: Seq<char>, c: char)
    ensures
        m.without_commit_search() == (LogModel {
            commit_search_active: false,
            commit_query: Seq::empty(),
            ..m
        }),
        m.without_file_search() == (LogModel {
            file_search_active: false,
            file_query: Seq::empty(),
            ..m
        }),
        taken_back(query.push(c)) == query,
        taken_back(Seq::<char>::empty()) == Seq::<char>::empty(),
{
    assert(query.push(c).drop_last() =~= query);
}

/// A text is shown exactly where nothing is searched for, or where it holds the
/// query in lower case.
pub proof fn law_texts_that_hold_the_query_are_shown(query: Seq<char>, lower: Seq<char>)
    ensures
        shown(query, lower) <==> query.len() == 0 || exists|i: int|
            #![trigger lower.subrange(i, i + lowercased(query).len())]
            0 <= i && i + lowercased(query).len() <= lower.len() && lower.subrange(
                i,
                i + lowercased(query).len(),
            ) == lowercased(query),
{
    let small = lowercased(query);
    if occurs(lower, small) {
        let i = choose|i: int| #[trigger] crate::text::occurs_at(lower, small, i);
        assert(lower.subrange(i, i + small.len()) == small);
    }
    assert forall|i: int|
        #![trigger lower.subrange(i, i + small.len())]
        0 <= i && i + small.len() <= lower.len() && lower.subrange(i, i + small.len())
            == small implies occurs(lower, small) by {
        assert(crate::text::occurs_at(lower, small, i));
    }
}

} // verus!

//! Changed files, commits and diffs as the views show them.

use crate::text::{lowercased, to_lowercase};
use vstd::prelude::*;

verus! {

/// A commit's object id.
#[derive(Debug, Clone, Copy)]
pub struct Oid {
    pub bytes: [u8; 20],
}

/// State of a single git status column. `index` (X) compares HEAD with the
/// staged tree, `worktree` (Y) compares the staged tree with the working
/// directory. Either column can be `Unmodified`. Mirrors `git status --short`.
#[derive(Debug, Clone, Copy, PartialEq, Eq, Structural)]
pub enum StatusKind {
    Unmodified,
    Added,
    Modified,
    Deleted,
    Renamed,
    TypeChanged,
    Untracked,
    Unmerged,
}

/// The Git short status character of a column. `Unmodified` is a space so a
/// single-sided change renders as ` M` / `M `.
pub open spec fn status_char(kind: StatusKind) -> char {
    match kind {
        StatusKind::Unmodified => ' ',
        StatusKind::Added => 'A',
        StatusKind::Modified => 'M',
        StatusKind::Deleted => 'D',
        StatusKind::Renamed => 'R',
        StatusKind::TypeChanged => 'T',
        StatusKind::Untracked => '?',
        StatusKind::Unmerged => 'U',
    }
}

/// Severity rank used to pick a single color for the two-character code.
/// Higher wins.
pub open spec fn severity_of(kind: StatusKind) -> u8 {
    match kind {
        StatusKind::Unmerged => 7,
        StatusKind::Deleted => 6,
        StatusKind::Renamed => 5,
        StatusKind::Added => 4,
        StatusKind::Modified => 3,
        StatusKind::TypeChanged => 2,
        StatusKind::Untracked => 1,
        StatusKind::Unmodified => 0,
    }
}

impl StatusKind {
    fn code_char(self) -> (r: char)
        ensures
            r == status_char(self),
    {
        match self {
            StatusKind::Unmodified => ' ',
            StatusKind::Added => 'A',
            StatusKind::Modified => 'M',
            StatusKind::Deleted => 'D',
            StatusKind::Renamed => 'R',
            StatusKind::TypeChanged => 'T',
            StatusKind::Untracked => '?',
            StatusKind::Unmerged => 'U',
        }
    }

    fn severity(self) -> (r: u8)
        ensures
            r == severity_of(self),
    {
        match self {
            StatusKind::Unmerged => 7,
            StatusKind::Deleted => 6,
            StatusKind::Renamed => 5,
            StatusKind::Added => 4,
            StatusKind::Modified => 3,
            StatusKind::TypeChanged => 2,
            StatusKind::Untracked => 1,
            StatusKind::Unmodified => 0,
        }
    }
}

#[derive(Debug, Clone)]
pub struct ChangedFile {
    /// New/effective path. Used for diff loading, file preview, hot-file
    /// tracking, and selection restoration.
    pub path: String,
    /// Old path for renames (display/search metadata only).
    pub old_path: Option<String>,
    /// Index column (X): HEAD vs staged.
    pub index: StatusKind,
    /// Working-tree column (Y): staged vs working directory.
    pub worktree: StatusKind,
    /// Lowercase search text. For renames contains both old and new paths so
    /// either side matches a filter.
    pub search_lower: String,
}

/// What a changed file is found by, before it is put in lower case.
pub open spec fn search_text(path: Seq<char>, old_path: Option<Seq<char>>) -> Seq<char> {
    match old_path {
        Some(old) => old + " "@ + path,
        None => path,
    }
}

/// The two-character code of two columns. Untracked is `??` and a conflict is
/// `UU`, as git has it.
pub open spec fn code_of(index: StatusKind, worktree: StatusKind) -> Seq<char> {
    if index == StatusKind::Untracked || worktree == StatusKind::Untracked {
        "??"@
    } else if index == StatusKind::Unmerged || worktree == StatusKind::Unmerged {
        "UU"@
    } else {
        seq![status_char(index), status_char(worktree)]
    }
}

impl ChangedFile {
    pub open spec fn old_text(&self) -> Option<Seq<char>> {
        match self.old_path {
            Some(old) => Some(old@),
            None => None,
        }
    }

    /// The search text belongs to the paths.
    pub open spec fn wf(&self) -> bool {
        self.search_lower@ == lowercased(search_text(self.path@, self.old_text()))
    }

    /// Build from explicit status columns (status snapshot path).
    pub fn from_status_columns(
        path: String,
        old_path: Option<String>,
        index: StatusKind,
        worktree: StatusKind,
    ) -> (r: ChangedFile)
        ensures
            r.wf(),
            r.path == path,
            r.old_path == old_path,
            r.index == index,
            r.worktree == worktree,
    {
        let search_lower = match &old_path {
            Some(old) => to_lowercase(old.clone().concat(" ").concat(path.as_str()).as_str()),
            None => to_lowercase(path.as_str()),
        };
        ChangedFile { path, old_path, index, worktree, search_lower }
    }

    /// Build from a commit delta: the single delta status lives in the index
    /// column and the worktree column is `Unmodified`, so commit drill-down
    /// rows render `M `, `A `, `D `, `R `.
    pub fn from_commit_delta(path: String, old_path: Option<String>, kind: StatusKind) -> (r:
        ChangedFile)
        ensures
            r.wf(),
            r.path == path,
            r.old_path == old_path,
            r.index == kind,
            r.worktree == StatusKind::Unmodified,
    {
        ChangedFile::from_status_columns(path, old_path, kind, StatusKind::Unmodified)
    }

    /// Two-character Git short status code (`XY`).
    pub fn short_code(&self) -> (r: String)
        ensures
            r@ == code_of(self.index, self.worktree),
    {
        if self.index == StatusKind::Untracked || self.worktree == StatusKind::Untracked {
            return "??".to_owned();
        }
        if self.index == StatusKind::Unmerged || self.worktree == StatusKind::Unmerged {
            return "UU".to_owned();
        }
        let mut code = String::new();
        code.push(self.index.code_char());
        code.push(self.worktree.code_char());
        proof {
            assert(code@ =~= code_of(self.index, self.worktree));
        }
        code
    }

    /// The more severe of the two columns, used to pick the row color.
    pub fn most_severe(&self) -> (r: StatusKind)
        ensures
            r == if severity_of(self.index) >= severity_of(self.worktree) {
                self.index
            } else {
                self.worktree
            },
    {
        if self.index.severity() >= self.worktree.severity() {
            self.index
        } else {
            self.worktree
        }
    }

    /// Rendered display path: `old -> new` for a rename, the path otherwise.
    pub fn display_path(&self) -> (r: String)
        ensures
            r@ == (match self.old_text() {
                Some(old) => old + " -> "@ + self.path@,
                None => self.path@,
            }),
    {
        match &self.old_path {
            Some(old) => old.clone().concat(" -> ").concat(self.path.as_str()),
            None => self.path.clone(),
        }
    }
}

/// A short code is always two characters, and never blank for a file that
/// changed in either column.
pub proof fn law_codes_are_two_characters(index: StatusKind, worktree: StatusKind)
    ensures
        code_of(index, worktree).len() == 2,
        code_of(index, worktree) == "  "@ <==> index == StatusKind::Unmodified && worktree
            == StatusKind::Unmodified,
{
    reveal_strlit("??");
    reveal_strlit("UU");
    reveal_strlit("  ");
    let code = code_of(index, worktree);
    if index == StatusKind::Unmodified && worktree == StatusKind::Unmodified {
        assert(code =~= "  "@);
    } else if code == "  "@ {
        assert(code[0] == ' ' && code[1] == ' ');
    }
}

/// The color of a row follows whichever column is worse, and no two kinds are
/// equally bad.
pub proof fn law_severity_is_a_ranking(a: StatusKind, b: StatusKind)
    ensures
        severity_of(a) == severity_of(b) <==> a == b,
{
}

#[derive(Debug, Clone, Copy, PartialEq, Eq, Structural)]
pub enum LineKind {
    Added,
    Removed,
    Context,
}

#[derive(Debug, Clone)]
pub struct DiffLine {
    pub kind: LineKind,
    pub content: String,
    /// Line number on the pre-image side. `None` for added lines (which exist
    /// only on the new side) and synthetic binary hunks.
    pub old_lineno: Option<u32>,
    /// Line number on the post-image side. `None` for removed lines and the
    /// same cases as `old_lineno`.
    pub new_lineno: Option<u32>,
}

#[derive(Debug, Clone)]
pub struct DiffHunk {
    pub header: String,
    pub lines: Vec<DiffLine>,
    /// File this hunk belongs to.
    pub file_path: Option<String>,
}

#[derive(Debug, Clone, Copy, PartialEq, Eq, Structural)]
pub struct TrackingStatus {
    pub ahead: usize,
    pub behind: usize,
}

#[derive(Debug, Clone)]
pub struct RepoSnapshot {
    pub files: Vec<ChangedFile>,
    pub tracking: Option<TrackingStatus>,
    /// HEAD commit oid at snapshot time. `None` for empty or detached repos.
    pub head_oid: Option<Oid>,
    /// Current branch shorthand (e.g. `main`). `None` for detached HEAD,
    /// unborn branch, or bare repo.
    pub branch_name: Option<String>,
    /// Digest over every ref name and target.
    pub refs_fingerprint: u64,
}

#[derive(Debug, Clone)]
pub struct CommitEntry {
    pub oid: Oid,
    pub short_id: String,
    pub summary: String,
    /// Lowercase form of `summary` for case-insensitive search.
    pub summary_lower: String,
    pub author: String,
    /// Author email, shown only in the wide layout. Empty when the commit
    /// carries none.
    pub author_email: String,
    pub time: i64,
    /// Number of parents. `> 1` marks a merge commit; 0 marks a root commit.
    pub parent_count: usize,
}

impl CommitEntry {
    /// The search text belongs to the summary.
    pub open spec fn wf(&self) -> bool {
        self.summary_lower@ == lowercased(self.summary@)
    }

    pub fn new(oid: Oid, short_id: String, summary: String, author: String, time: i64) -> (r:
        CommitEntry)
        ensures
            r.wf(),
            r.oid == oid,
            r.short_id == short_id,
            r.summary == summary,
            r.author == author,
            r.author_email@ == Seq::<char>::empty(),
            r.time == time,
            r.parent_count == 1,
    {
        let summary_lower = to_lowercase(summary.as_str());
        CommitEntry {
            oid,
            short_id,
            summary,
            summary_lower,
            author,
            author_email: String::new(),
            time,
            parent_count: 1,
        }
    }

    /// Attach the fields that come off the same commit object as the rest of
    /// the entry.
    pub fn with_commit_meta(self, author_email: String, parent_count: usize) -> (r: CommitEntry)
        ensures
            r == (CommitEntry { author_email, parent_count, ..self }),
    {
        CommitEntry {
            oid: self.oid,
            short_id: self.short_id,
            summary: self.summary,
            summary_lower: self.summary_lower,
            author: self.author,
            author_email,
            time: self.time,
            parent_count,
        }
    }

    pub fn is_merge(&self) -> (r: bool)
        ensures
            r == (self.parent_count > 1),
    {
        self.parent_count > 1
    }

    /// The short id and the summary, on one line.
    pub fn line(&self) -> (r: String)
        ensures
            r@ == self.short_id@ + " "@ + self.summary@,
    {
        self.short_id.clone().concat(" ").concat(self.summary.as_str())
    }
}

/// Each status has its own letter.
pub proof fn law_status_letters(kind: StatusKind)
    ensures
        status_char(kind) == 'A' <==> kind is Added,
        status_char(kind) == 'M' <==> kind is Modified,
        status_char(kind) == 'D' <==> kind is Deleted,
        status_char(kind) == 'R' <==> kind is Renamed,
        status_char(kind) == 'T' <==> kind is TypeChanged,
        status_char(kind) == '?' <==> kind is Untracked,
        status_char(kind) == 'U' <==> kind is Unmerged,
        status_char(kind) == ' ' <==> kind is Unmodified,
{
}

/// A conflict outweighs a deletion, that a rename, that an addition, that a
/// modification, that a change of type, that an untracked file, and that
/// nothing.
pub proof fn law_severities_in_order()
    ensures
        severity_of(StatusKind::Unmerged) > severity_of(StatusKind::Deleted),
        severity_of(StatusKind::Deleted) > severity_of(StatusKind::Renamed),
        severity_of(StatusKind::Renamed) > severity_of(StatusKind::Added),
        severity_of(StatusKind::Added) > severity_of(StatusKind::Modified),
        severity_of(StatusKind::Modified) > severity_of(StatusKind::TypeChanged),
        severity_of(StatusKind::TypeChanged) > severity_of(StatusKind::Untracked),
        severity_of(StatusKind::Untracked) > severity_of(StatusKind::Unmodified),
{
}

/// A code is the letter of the index and that of the worktree, but for files
/// that are not tracked, and for conflicts, which are both doubled.
pub proof fn law_codes_show_both_columns(index: StatusKind, worktree: StatusKind)
    ensures
        ({
            let untracked = index is Untracked || worktree is Untracked;
            let conflict = index is Unmerged || worktree is Unmerged;
            &&& untracked ==> code_of(index, worktree) == seq!['?', '?']
            &&& !untracked && conflict ==> code_of(index, worktree) == seq!['U', 'U']
            &&& !untracked && !conflict ==> code_of(index, worktree) == seq![
                status_char(index),
                status_char(worktree),
            ]
        }),
{
    reveal_strlit("??");
    reveal_strlit("UU");
    assert("??"@ =~= seq!['?', '?']);
    assert("UU"@ =~= seq!['U', 'U']);
}

/// A file is found by its path, and one that was renamed by its old path too.
pub proof fn law_renamed_files_are_found_by_both_paths(path: Seq<char>, old: Seq<char>)
    ensures
        search_text(path, None) == path,
        search_text(path, Some(old)) == old.push(' ') + path,
{
    reveal_strlit(" ");
    assert(old + " "@ =~= old.push(' '));
}

} // verus!

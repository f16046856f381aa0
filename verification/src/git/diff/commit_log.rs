//! The commit log, a page at a time, from what walking the history found.

use crate::git::diff::types::{CommitEntry, Oid};
use crate::text::{chars_of, contains_sub, occurs, part_of, string_of};
use vstd::prelude::*;

verus! {

/// The character of one hexadecimal digit.
pub open spec fn hex_char(d: u8) -> char {
    if d < 10 {
        (48 + d) as char
    } else {
        (87 + d) as char
    }
}

/// Bytes in hexadecimal, two digits each.
pub open spec fn hex_text(bytes: Seq<u8>) -> Seq<char> {
    Seq::new(
        2 * bytes.len(),
        |i: int|
            if i % 2 == 0 {
                hex_char((bytes[i / 2] / 16) as u8)
            } else {
                hex_char((bytes[i / 2] % 16) as u8)
            },
    )
}

fn hex_digit(d: u8) -> (r: char)
    requires
        d < 16,
    ensures
        r == hex_char(d),
{
    if d < 10 {
        (48 + d) as char
    } else {
        (87 + d) as char
    }
}

/// An id in lower-case hexadecimal.
fn oid_text(oid: &Oid) -> (r: String)
    ensures
        r@ == hex_text(oid.bytes@),
{
    let ghost all = hex_text(oid.bytes@);
    let mut out = String::new();
    let mut i: usize = 0;
    proof {
        assert(out@ =~= all.take(0));
    }
    while i < 20
        invariant
            i <= 20,
            oid.bytes@.len() == 20,
            all == hex_text(oid.bytes@),
            out@ == all.take(2 * i),
        decreases 20 - i,
    {
        let byte: u8 = oid.bytes[i];
        let ghost before = out@;
        out.push(hex_digit(byte / 16));
        out.push(hex_digit(byte % 16));
        proof {
            assert((2 * i) / 2 == i && (2 * i + 1) / 2 == i && (2 * i) % 2 == 0);
            assert(all[2 * i] == hex_char((oid.bytes@[i as int] / 16) as u8));
            assert(all[2 * i + 1] == hex_char((oid.bytes@[i as int] % 16) as u8));
            assert(out@ =~= all.take(2 * (i + 1)));
        }
        i += 1;
    }
    proof {
        assert(all.take(40) =~= all);
    }
    out
}

/// The conventional abbreviated form of an id: its first seven digits.
pub open spec fn short_text(oid: Oid) -> Seq<char> {
    hex_text(oid.bytes@).take(7)
}

/// Render a commit oid as the conventional 7-character abbreviated form. A
/// fixed prefix rather than the shortest unique one, which would cost lookups
/// in the object database for every commit.
pub fn short_oid(oid: Oid) -> (r: String)
    ensures
        r@ == short_text(oid),
        r@.len() == 7,
{
    let hex = oid_text(&oid);
    let digits = chars_of(hex.as_str());
    proof {
        assert(oid.bytes@.len() == 20);
        assert(digits@.len() == 40);
    }
    let head = part_of(&digits, 0, 7);
    proof {
        assert(head@ =~= short_text(oid));
    }
    string_of(&head)
}

/// What went wrong with HEAD, in the repository library's terms.
#[derive(Debug, Clone, Copy, PartialEq, Eq, Structural)]
pub enum HeadErrorCode {
    UnbornBranch,
    NotFound,
    Other,
}

/// Why HEAD could not be read.
#[derive(Debug)]
pub struct HeadError {
    pub code: HeadErrorCode,
    /// Whether the error is about a reference.
    pub about_reference: bool,
    pub message: String,
}

impl HeadError {
    /// Whether the error says that there is no commit yet. An empty repository
    /// is also reported as a missing reference with a generic code.
    pub open spec fn says_empty(&self) -> bool {
        ||| self.code == HeadErrorCode::UnbornBranch
        ||| self.code == HeadErrorCode::NotFound
        ||| self.about_reference && occurs(self.message@, "not found"@)
    }
}

/// Whether a failure to walk from HEAD says that there is no commit yet.
pub fn is_empty_head(error: &HeadError) -> (r: bool)
    ensures
        r == error.says_empty(),
{
    let missing = error.about_reference && contains_sub(
        &chars_of(error.message.as_str()),
        &chars_of("not found"),
    );
    match error.code {
        HeadErrorCode::UnbornBranch => true,
        HeadErrorCode::NotFound => true,
        HeadErrorCode::Other => missing,
    }
}

/// Why the log could not be read.
#[derive(Debug)]
pub enum LogError {
    /// No walk could be begun.
    NoWalk(String),
    /// The anchor names no commit.
    Anchor(Oid, String),
    /// The repository's state could not be inspected.
    Inspect(String),
    /// HEAD could not be walked from.
    PushHead(String),
    /// HEAD could not be read.
    ReadHead(String),
    /// The walk failed on the way.
    Walk(String),
    /// A commit that the walk named could not be found.
    Find(String),
}

/// What `error` says to a person.
pub open spec fn log_error_text(error: LogError) -> Seq<char> {
    match error {
        LogError::NoWalk(reason) => "failed to create revwalk: "@ + reason@,
        LogError::Anchor(oid, reason) => "failed to push commit "@ + hex_text(oid.bytes@) + ": "@
            + reason@,
        LogError::Inspect(reason) => "failed to inspect repository state: "@ + reason@,
        LogError::PushHead(reason) => "failed to push HEAD: "@ + reason@,
        LogError::ReadHead(reason) => "failed to read HEAD: "@ + reason@,
        LogError::Walk(reason) => "revwalk error: "@ + reason@,
        LogError::Find(reason) => "failed to find commit: "@ + reason@,
    }
}

impl LogError {
    pub fn message(&self) -> (r: String)
        ensures
            r@ == log_error_text(*self),
    {
        match self {
            LogError::NoWalk(reason) => "failed to create revwalk: ".to_owned().concat(
                reason.as_str(),
            ),
            LogError::Anchor(oid, reason) => "failed to push commit ".to_owned().concat(
                oid_text(oid).as_str(),
            ).concat(": ").concat(reason.as_str()),
            LogError::Inspect(reason) => "failed to inspect repository state: ".to_owned().concat(
                reason.as_str(),
            ),
            LogError::PushHead(reason) => "failed to push HEAD: ".to_owned().concat(
                reason.as_str(),
            ),
            LogError::ReadHead(reason) => "failed to read HEAD: ".to_owned().concat(
                reason.as_str(),
            ),
            LogError::Walk(reason) => "revwalk error: ".to_owned().concat(reason.as_str()),
            LogError::Find(reason) => "failed to find commit: ".to_owned().concat(
                reason.as_str(),
            ),
        }
    }
}

/// What setting out on the walk met.
#[derive(Debug)]
pub enum WalkStart {
    /// No walk could be begun.
    NoWalk(String),
    /// From a given commit. An anchor names a commit the caller believes
    /// exists, so an unknown one is that caller's error to hear about.
    Anchor(Oid, Result<(), String>),
    /// From HEAD: whether the repository is empty, and how setting out went.
    Head { empty: Result<bool, String>, pushed: Result<(), HeadError> },
}

/// What went wrong at one place of the walk.
#[derive(Debug)]
pub enum WalkError {
    /// The walk itself.
    Step(String),
    /// Finding the commit that it named.
    Find(String),
}

/// The same as a reason why the log could not be read.
pub open spec fn walk_error(error: WalkError) -> LogError {
    match error {
        WalkError::Step(reason) => LogError::Walk(reason),
        WalkError::Find(reason) => LogError::Find(reason),
    }
}

/// Whether there is a history to walk, or why that cannot be told.
pub open spec fn walkable(start: WalkStart) -> Result<bool, LogError> {
    match start {
        WalkStart::NoWalk(reason) => Err(LogError::NoWalk(reason)),
        WalkStart::Anchor(_, Ok(())) => Ok(true),
        WalkStart::Anchor(oid, Err(reason)) => Err(LogError::Anchor(oid, reason)),
        WalkStart::Head { empty, pushed } => match empty {
            Err(reason) => Err(LogError::Inspect(reason)),
            Ok(true) => Ok(false),
            Ok(false) => match pushed {
                Ok(()) => Ok(true),
                Err(error) => if error.says_empty() {
                    Ok(false)
                } else {
                    Err(LogError::PushHead(error.message))
                },
            },
        },
    }
}

fn can_walk(start: WalkStart) -> (r: Result<bool, LogError>)
    ensures
        r == walkable(start),
{
    match start {
        WalkStart::NoWalk(reason) => Err(LogError::NoWalk(reason)),
        WalkStart::Anchor(_, Ok(())) => Ok(true),
        WalkStart::Anchor(oid, Err(reason)) => Err(LogError::Anchor(oid, reason)),
        WalkStart::Head { empty, pushed } => match empty {
            Err(reason) => Err(LogError::Inspect(reason)),
            Ok(true) => Ok(false),
            Ok(false) => match pushed {
                Ok(()) => Ok(true),
                Err(error) => {
                    if is_empty_head(&error) {
                        Ok(false)
                    } else {
                        Err(LogError::PushHead(error.message))
                    }
                },
            },
        },
    }
}

/// One commit that the walk found.
#[derive(Debug)]
pub struct FoundCommit {
    pub oid: Oid,
    /// `None` where the commit has none that is text.
    pub summary: Option<String>,
    pub author: Option<String>,
    pub email: Option<String>,
    pub time: i64,
    pub parent_count: usize,
}

/// The text of an optional string, or `other`.
pub open spec fn text_or(s: Option<String>, other: Seq<char>) -> Seq<char> {
    match s {
        Some(s) => s@,
        None => other,
    }
}

/// Whether `entry` is the row of the commit that was found.
pub open spec fn row_of(entry: CommitEntry, found: FoundCommit) -> bool {
    &&& entry.wf()
    &&& entry.oid == found.oid
    &&& entry.short_id@ == short_text(found.oid)
    &&& entry.summary@ == text_or(found.summary, ""@)
    &&& entry.author@ == text_or(found.author, "Unknown"@)
    &&& entry.author_email@ == text_or(found.email, ""@)
    &&& entry.time == found.time
    &&& entry.parent_count == found.parent_count
}

/// Whether `entry` is the row of what the walk met at one place.
pub open spec fn row_at(entry: CommitEntry, met: Result<FoundCommit, WalkError>) -> bool {
    match met {
        Ok(found) => row_of(entry, found),
        Err(_) => false,
    }
}

fn or_text(s: &Option<String>, other: &str) -> (r: String)
    ensures
        r@ == text_or(*s, other@),
{
    match s {
        Some(s) => s.clone(),
        None => other.to_owned(),
    }
}

fn entry_of(found: &FoundCommit) -> (r: CommitEntry)
    ensures
        row_of(r, *found),
{
    CommitEntry::new(
        found.oid,
        short_oid(found.oid),
        or_text(&found.summary, ""),
        or_text(&found.author, "Unknown"),
        found.time,
    ).with_commit_meta(or_text(&found.email, ""), found.parent_count)
}

/// How far a page of `limit` commits behind `skip` reaches into the walk.
pub open spec fn page_end(walked: nat, skip: usize, limit: usize) -> int {
    if skip + limit <= walked {
        skip + limit
    } else {
        walked as int
    }
}

/// The first place of the page where the walk failed.
pub open spec fn first_failure(walked: Seq<Result<FoundCommit, WalkError>>, from: int, to: int) -> Option<
    int,
>
    decreases to - from,
{
    if from >= to {
        None
    } else if walked[from] is Err {
        Some(from)
    } else {
        first_failure(walked, from + 1, to)
    }
}

/// The newest commits: the first page of the log.
pub fn load_commit_log(
    start: WalkStart,
    walked: &Vec<Result<FoundCommit, WalkError>>,
    max_count: usize,
) -> (r: Result<Vec<CommitEntry>, LogError>)
    ensures
        page_result(r, start, walked@, 0, max_count),
{
    load_commit_log_page(start, walked, 0, max_count)
}

/// A slice of the commit log: `skip` discards the most recent commits before
/// collecting `limit` entries.
pub fn load_commit_log_page(
    start: WalkStart,
    walked: &Vec<Result<FoundCommit, WalkError>>,
    skip: usize,
    limit: usize,
) -> (r: Result<Vec<CommitEntry>, LogError>)
    ensures
        page_result(r, start, walked@, skip, limit),
{
    load_commit_log_from(start, walked, skip, limit)
}

/// Whether `r` is the page of `limit` commits behind `skip`.
pub open spec fn page_result(
    r: Result<Vec<CommitEntry>, LogError>,
    start: WalkStart,
    walked: Seq<Result<FoundCommit, WalkError>>,
    skip: usize,
    limit: usize,
) -> bool {
    let end = page_end(walked.len(), skip, limit);
    if limit == 0 {
        r matches Ok(entries) && entries@.len() == 0
    } else {
        match walkable(start) {
            Err(error) => r == Err::<Vec<CommitEntry>, LogError>(error),
            Ok(false) => r matches Ok(entries) && entries@.len() == 0,
            Ok(true) => match first_failure(walked, skip as int, end) {
                Some(i) => walked[i] matches Err(error) && r == Err::<
                    Vec<CommitEntry>,
                    LogError,
                >(walk_error(error)),
                None => r matches Ok(entries) && is_page(entries@, walked, skip as int, end),
            },
        }
    }
}

/// Whether `entries` are the rows of the commits from `from` up to `to`.
pub open spec fn is_page(
    entries: Seq<CommitEntry>,
    walked: Seq<Result<FoundCommit, WalkError>>,
    from: int,
    to: int,
) -> bool {
    &&& entries.len() == if from <= to {
        to - from
    } else {
        0
    }
    &&& forall|k: int|
        #![trigger entries[k]]
        0 <= k < entries.len() ==> row_at(entries[k], walked[from + k])
}

/// Load a slice of the commit log walking back from where `start` set out.
/// Pinning the start makes a sequence of pages describe one history rather than
/// a moving one.
pub fn load_commit_log_from(
    start: WalkStart,
    walked: &Vec<Result<FoundCommit, WalkError>>,
    skip: usize,
    limit: usize,
) -> (r: Result<Vec<CommitEntry>, LogError>)
    ensures
        page_result(r, start, walked@, skip, limit),
{
    if limit == 0 {
        return Ok(Vec::new());
    }
    match can_walk(start) {
        Err(error) => {
            return Err(error);
        },
        Ok(false) => {
            return Ok(Vec::new());
        },
        Ok(true) => {},
    }
    let ghost end = page_end(walked@.len(), skip, limit);
    let mut entries: Vec<CommitEntry> = Vec::new();
    let mut i: usize = skip;
    while i < walked.len() && i - skip < limit
        invariant
            skip <= i,
            limit > 0,
            end == page_end(walked@.len(), skip, limit),
            i <= end || i == skip,
            entries@.len() == i - skip,
            walkable(start) == Ok::<bool, LogError>(true),
            first_failure(walked@, skip as int, end) == first_failure(walked@, i as int, end),
            forall|k: int|
                #![trigger entries@[k]]
                0 <= k < entries@.len() ==> row_at(entries@[k], walked@[skip + k]),
        decreases walked.len() - i,
    {
        match &walked[i] {
            Err(error) => {
                proof {
                    assert(first_failure(walked@, i as int, end) == Some(i as int));
                }
                return match error {
                    WalkError::Step(reason) => Err(LogError::Walk(reason.clone())),
                    WalkError::Find(reason) => Err(LogError::Find(reason.clone())),
                };
            },
            Ok(found) => {
                entries.push(entry_of(found));
            },
        }
        i += 1;
    }
    Ok(entries)
}

/// The commit HEAD points at, or `None` when the branch has no commits yet.
///
/// An unborn HEAD is a state, not a failure. Every other failure to read the
/// ref is returned, so a broken HEAD is reported rather than being flattened
/// into an empty history. Narrower than `is_empty_head`: reading the ref names
/// the unborn state exactly.
pub fn head_commit_oid(head: Result<Option<Oid>, HeadError>) -> (r: Result<Option<Oid>, LogError>)
    ensures
        match head {
            Ok(target) => r == Ok::<Option<Oid>, LogError>(target),
            Err(error) => if error.code == HeadErrorCode::UnbornBranch {
                r == Ok::<Option<Oid>, LogError>(None)
            } else {
                r == Err::<Option<Oid>, LogError>(LogError::ReadHead(error.message))
            },
        },
{
    match head {
        Ok(target) => Ok(target),
        Err(error) => {
            if error.code == HeadErrorCode::UnbornBranch {
                Ok(None)
            } else {
                Err(LogError::ReadHead(error.message))
            }
        },
    }
}

/// Pages describe one history: a page and the one behind it are, together, the
/// page of both lengths.
pub proof fn law_pages_tile_the_history(
    walked: Seq<Result<FoundCommit, WalkError>>,
    first: Seq<CommitEntry>,
    second: Seq<CommitEntry>,
    skip: usize,
    a: usize,
    b: usize,
)
    requires
        skip + a + b <= usize::MAX,
        is_page(first, walked, skip as int, page_end(walked.len(), skip, a)),
        is_page(
            second,
            walked,
            skip + a,
            page_end(walked.len(), (skip + a) as usize, b),
        ),
    ensures
        is_page(first + second, walked, skip as int, page_end(walked.len(), skip, (a + b) as usize)),
{
    let both = first + second;
    assert forall|k: int|
        #![trigger both[k]]
        0 <= k < both.len() implies row_at(both[k], walked[skip + k]) by {
        if k < first.len() {
            assert(both[k] == first[k]);
        } else {
            assert(both[k] == second[k - first.len()]);
            assert(first.len() == a);
        }
    }
}

/// A commit's short name is the first seven hexadecimal digits of its number,
/// two to a byte, the larger half first, with small letters.
pub proof fn law_short_names_are_hexadecimal(oid: Oid, i: int)
    requires
        0 <= i < 20,
    ensures
        short_text(oid).len() == 7,
        hex_text(oid.bytes@).len() == 40,
        forall|k: int| 0 <= k < 7 ==> #[trigger] short_text(oid)[k] == hex_text(oid.bytes@)[k],
        ({
            let high = hex_text(oid.bytes@)[2 * i] as int;
            let low = hex_text(oid.bytes@)[2 * i + 1] as int;
            let of = |c: int|
                if c < 58 {
                    c - 48
                } else {
                    c - 87
                };
            &&& 48 <= high <= 57 || 97 <= high <= 102
            &&& 48 <= low <= 57 || 97 <= low <= 102
            &&& of(high) * 16 + of(low) == oid.bytes@[i]
        }),
{
    let b = oid.bytes@[i];
    assert(2 * i / 2 == i && (2 * i + 1) / 2 == i);
    assert(2 * i % 2 == 0 && (2 * i + 1) % 2 == 1);
    assert(hex_text(oid.bytes@)[2 * i] == hex_char((b / 16) as u8));
    assert(hex_text(oid.bytes@)[2 * i + 1] == hex_char((b % 16) as u8));
}

/// A repository without a commit has an empty log, and so has one whose head
/// leads nowhere; a walk goes on from where it was begun, and every other
/// failure is told as it came.
pub proof fn law_where_a_log_begins(start: WalkStart)
    ensures
        ({
            let r = walkable(start);
            &&& start matches WalkStart::NoWalk(reason) ==> r == Err::<bool, LogError>(
                LogError::NoWalk(reason),
            )
            &&& start matches WalkStart::Anchor(oid, pushed) ==> (pushed is Ok ==> r == Ok::<
                bool,
                LogError,
            >(true)) && (pushed is Err ==> r == Err::<bool, LogError>(
                LogError::Anchor(oid, pushed->Err_0),
            ))
            &&& start matches WalkStart::Head { empty, pushed } ==> {
                &&& empty is Err ==> r == Err::<bool, LogError>(LogError::Inspect(empty->Err_0))
                &&& empty == Ok::<bool, String>(true) ==> r == Ok::<bool, LogError>(false)
                &&& empty == Ok::<bool, String>(false) && pushed is Ok ==> r == Ok::<
                    bool,
                    LogError,
                >(true)
                &&& empty == Ok::<bool, String>(false) && (pushed matches Err(error) && (
                error.code is UnbornBranch || error.code is NotFound)) ==> r == Ok::<
                    bool,
                    LogError,
                >(false)
                &&& empty == Ok::<bool, String>(false) && (pushed matches Err(error)
                    && error.code is Other && !error.about_reference) ==> r == Err::<
                    bool,
                    LogError,
                >(LogError::PushHead(pushed->Err_0.message))
            }
        }),
{
}

/// The failure that is told of a page is the first within it.
pub proof fn law_the_first_failure_is_told(
    walked: Seq<Result<FoundCommit, WalkError>>,
    from: int,
    to: int,
)
    requires
        0 <= from,
        to <= walked.len(),
    ensures
        first_failure(walked, from, to) is None <==> forall|i: int|
            from <= i < to ==> !(#[trigger] walked[i] is Err),
        first_failure(walked, from, to) matches Some(at) ==> from <= at < to && walked[at] is Err
            && forall|i: int| from <= i < at ==> !(#[trigger] walked[i] is Err),
    decreases to - from,
{
    if from < to && !(walked[from] is Err) {
        law_the_first_failure_is_told(walked, from + 1, to);
    }
}

/// A page holds the commits from where it begins, as many as it may hold or as
/// are left, in the order they were met, each with what was found of it: a
/// summary or an email that is missing is empty, and a missing author unknown.
pub proof fn law_pages_hold_what_was_met(
    r: Result<Vec<CommitEntry>, LogError>,
    start: WalkStart,
    walked: Seq<Result<FoundCommit, WalkError>>,
    skip: usize,
    limit: usize,
    k: int,
)
    requires
        page_result(r, start, walked, skip, limit),
        limit > 0,
        walkable(start) == Ok::<bool, LogError>(true),
        forall|i: int| 0 <= i < walked.len() ==> #[trigger] walked[i] is Ok,
    ensures
        r is Ok,
        r->Ok_0@.len() == if skip >= walked.len() {
            0int
        } else if walked.len() - skip <= limit {
            walked.len() - skip
        } else {
            limit as int
        },
        0 <= k < r->Ok_0@.len() ==> {
            let entry = r->Ok_0@[k];
            let found = walked[skip + k]->Ok_0;
            &&& entry.oid == found.oid
            &&& entry.short_id@ == hex_text(found.oid.bytes@).take(7)
            &&& entry.time == found.time
            &&& entry.parent_count == found.parent_count
            &&& found.summary matches Some(s) ==> entry.summary@ == s@
            &&& found.summary is None ==> entry.summary@.len() == 0
            &&& found.author matches Some(s) ==> entry.author@ == s@
            &&& found.author is None ==> entry.author@ == "Unknown"@
            &&& found.email matches Some(s) ==> entry.author_email@ == s@
            &&& found.email is None ==> entry.author_email@.len() == 0
            &&& entry.summary_lower@ == crate::text::lowercased(entry.summary@)
        },
{
    reveal_strlit("");
    let end = page_end(walked.len(), skip, limit);
    law_the_first_failure_is_told(walked, skip as int, end);
    assert forall|i: int| skip <= i < end implies !(#[trigger] walked[i] is Err) by {
        assert(walked[i] is Ok);
    }
    if 0 <= k < r->Ok_0@.len() {
        assert(row_at(r->Ok_0@[k], walked[skip + k]));
    }
}

/// A page of nothing is empty, whatever the repository holds.
pub proof fn law_pages_of_nothing_are_empty(
    r: Result<Vec<CommitEntry>, LogError>,
    start: WalkStart,
    walked: Seq<Result<FoundCommit, WalkError>>,
    skip: usize,
    limit: usize,
)
    requires
        page_result(r, start, walked, skip, limit),
        limit == 0 || walkable(start) == Ok::<bool, LogError>(false),
    ensures
        r is Ok && r->Ok_0@.len() == 0,
{
}

/// A head leads nowhere where its branch has no commit, where it is not found,
/// and where a reference is said not to be found; any other trouble with it is
/// trouble.
pub proof fn law_when_a_head_leads_nowhere(error: HeadError)
    ensures
        error.says_empty() <==> error.code is UnbornBranch || error.code is NotFound || (
        error.about_reference && occurs(
            error.message@,
            seq!['n', 'o', 't', ' ', 'f', 'o', 'u', 'n', 'd'],
        )),
{
    reveal_strlit("not found");
    assert("not found"@ =~= seq!['n', 'o', 't', ' ', 'f', 'o', 'u', 'n', 'd']);
}

/// Every failure of a log is told with its reason at the end.
pub proof fn law_log_errors_in_words(error: LogError)
    ensures
        error matches LogError::NoWalk(reason) ==> log_error_text(error)
            == "failed to create revwalk: "@ + reason@,
        error matches LogError::Anchor(oid, reason) ==> log_error_text(error)
            == "failed to push commit "@ + hex_text(oid.bytes@) + ": "@ + reason@,
        error matches LogError::Inspect(reason) ==> log_error_text(error)
            == "failed to inspect repository state: "@ + reason@,
        error matches LogError::PushHead(reason) ==> log_error_text(error)
            == "failed to push HEAD: "@ + reason@,
        error matches LogError::ReadHead(reason) ==> log_error_text(error)
            == "failed to read HEAD: "@ + reason@,
        error matches LogError::Walk(reason) ==> log_error_text(error) == "revwalk error: "@
            + reason@,
        error matches LogError::Find(reason) ==> log_error_text(error)
            == "failed to find commit: "@ + reason@,
        forall|reason: String| #[trigger]
            walk_error(WalkError::Step(reason)) == LogError::Walk(reason),
        forall|reason: String| #[trigger]
            walk_error(WalkError::Find(reason)) == LogError::Find(reason),
{
}

} // verus!

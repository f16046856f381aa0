//! Where logs go, when their files turn over, and which of them have had
//! their day.

use crate::paths::{
    file_name, join, joined, name_of, parse, part_models, parts_of, Part,
    PartModel,
};
use crate::text::{
    chars_of, decimal, decimal_text, has_prefix, is_space, is_whitespace, part_of,
    pieces, same_text, split_char, starts_with, texts,
};
use tracing_subscriber::EnvFilter;
use vstd::prelude::*;

verus! {

/// What the name of every log file begins with.
pub const LOG_FILE_PREFIX: &'static str = "nightcrow.log";

/// What the `.gitignore` of a log directory says: ignore everything here, this
/// file among it.
pub const LOG_GITIGNORE: &'static str = "*\n";

/// When log files turn over.
#[derive(Debug, Clone, Copy, PartialEq, Eq, Structural)]
pub enum LogRotation {
    Daily,
    Hourly,
    Size,
}

/// The `[log]` settings.
#[derive(Debug)]
pub struct LogConfig {
    pub enabled: bool,
    pub dir: String,
    pub level: String,
    pub max_days: u32,
    pub rotation: LogRotation,
    pub max_size_mb: u64,
    pub prompt_log: bool,
}

/// What writes the log.
#[derive(Debug, Clone, Copy, PartialEq, Eq, Structural)]
pub enum Appender {
    Daily,
    Hourly,
    /// A new numbered file when the current one exceeds `max_bytes`; 0 means
    /// never.
    Size { max_bytes: u64 },
}

/// What logging is set up with.
#[derive(Debug)]
pub struct LogPlan {
    pub dir: String,
    pub filter: String,
    pub appender: Appender,
}

/// `mb` mebibytes, as far as they can be counted.
pub open spec fn mebibytes(mb: u64) -> u64 {
    if mb * 0x10_0000 <= u64::MAX {
        (mb * 0x10_0000) as u64
    } else {
        u64::MAX
    }
}

fn to_bytes(mb: u64) -> (r: u64)
    ensures
        r == mebibytes(mb),
{
    if mb <= 0xfff_ffff_ffff {
        mb * 0x10_0000
    } else {
        u64::MAX
    }
}

/// The appender that `config` asks for.
pub open spec fn appender_of(config: LogConfig) -> Appender {
    match config.rotation {
        LogRotation::Hourly => Appender::Hourly,
        LogRotation::Daily => Appender::Daily,
        LogRotation::Size => Appender::Size { max_bytes: mebibytes(config.max_size_mb) },
    }
}

/// The directory the logs go to: `dir` itself where it is absolute, else
/// within the repository.
pub open spec fn log_dir_in(dir: Seq<char>, repo_path: Seq<char>) -> Seq<char> {
    joined(repo_path, dir)
}

/// The directory the logs go to.
pub fn resolve_log_dir(dir: &str, repo_path: &str) -> (r: String)
    ensures
        r@ == log_dir_in(dir@, repo_path@),
{
    join(repo_path, dir)
}

/// What is let through to the log. Prompt capture is pinned at info whatever
/// the level is, so that switching it on always produces output.
pub open spec fn filter_text(level: Seq<char>, prompt_log: bool) -> Seq<char> {
    if prompt_log {
        level + ",prompt=info"@
    } else {
        level
    }
}

/// Whether a character ends a part of a directive.
pub open spec fn ends_part(c: char) -> bool {
    c == '=' || c == '[' || c == ']' || c == '{' || c == '}'
}

/// How many bytes a character takes.
pub open spec fn char_width(c: char) -> nat {
    if c as u32 <= 0x7f {
        1
    } else if c as u32 <= 0x7ff {
        2
    } else if c as u32 <= 0xffff {
        3
    } else {
        4
    }
}

/// How many bytes the first `n` characters take.
pub open spec fn byte_at(s: Seq<char>, n: int) -> nat
    decreases n,
{
    if n <= 0 {
        0
    } else {
        byte_at(s, n - 1) + char_width(s[n - 1])
    }
}

/// Whether a character starts at a byte, or the text ends there.
pub open spec fn is_boundary(s: Seq<char>, byte: int) -> bool {
    exists|k: int| 0 <= k <= s.len() && #[trigger] byte_at(s, k) == byte
}

/// How many white space characters stand first.
pub open spec fn indent(s: Seq<char>) -> nat
    decreases s.len(),
{
    if s.len() > 0 && is_space(s[0]) {
        1 + indent(s.skip(1))
    } else {
        0
    }
}

/// Whether one directive can be read. Its parts are cut out of it at and right
/// behind the places where they end once white space before it is dropped, and
/// each of these has to be between two characters.
pub open spec fn readable_part(part: Seq<char>) -> bool {
    forall|j: int|
        indent(part) <= j < part.len() && ends_part(#[trigger] part[j]) ==> {
            let place = byte_at(part, j) - byte_at(part, indent(part) as int);
            is_boundary(part, place) && is_boundary(part, place + 1)
        }
}

/// Whether directives can be read: each of them, between commas.
pub open spec fn readable(directives: Seq<char>) -> bool {
    forall|i: int|
        0 <= i < pieces(directives, ',').len() ==> readable_part(
            #[trigger] pieces(directives, ',')[i],
        )
}

fn width_of(c: char) -> (r: u128)
    ensures
        r == char_width(c),
        1 <= r <= 4,
{
    if c as u32 <= 0x7f {
        1
    } else if c as u32 <= 0x7ff {
        2
    } else if c as u32 <= 0xffff {
        3
    } else {
        4
    }
}

proof fn lemma_byte_bound(s: Seq<char>, n: int)
    requires
        0 <= n,
    ensures
        n <= byte_at(s, n) <= 4 * n,
    decreases n,
{
    if n > 0 {
        lemma_byte_bound(s, n - 1);
    }
}

proof fn lemma_bytes_grow(s: Seq<char>, a: int, b: int)
    requires
        0 <= a <= b,
    ensures
        byte_at(s, a) <= byte_at(s, b),
    decreases b,
{
    if a < b {
        lemma_bytes_grow(s, a, b - 1);
    }
}

/// Where each character starts, and the end.
fn starts_of(chars: &[char]) -> (r: Vec<u128>)
    ensures
        r@.len() == chars@.len() + 1,
        forall|k: int| 0 <= k <= chars@.len() ==> (#[trigger] r@[k]) == byte_at(chars@, k),
{
    let mut starts: Vec<u128> = Vec::new();
    let mut at: u128 = 0;
    let mut i: usize = 0;
    starts.push(0);
    while i < chars.len()
        invariant
            i <= chars@.len(),
            at == byte_at(chars@, i as int),
            starts@.len() == i + 1,
            forall|k: int| 0 <= k <= i ==> (#[trigger] starts@[k]) == byte_at(chars@, k),
        decreases chars.len() - i,
    {
        proof {
            lemma_byte_bound(chars@, i as int);
        }
        at = at + width_of(chars[i]);
        starts.push(at);
        i += 1;
    }
    starts
}

fn holds(starts: &[u128], place: u128) -> (r: bool)
    ensures
        r == starts@.contains(place),
{
    let mut i: usize = 0;
    while i < starts.len()
        invariant
            i <= starts@.len(),
            forall|k: int| 0 <= k < i ==> starts@[k] != place,
        decreases starts.len() - i,
    {
        if starts[i] == place {
            return true;
        }
        i += 1;
    }
    false
}

fn indent_of(chars: &[char]) -> (r: usize)
    ensures
        r == indent(chars@),
        r <= chars@.len(),
{
    let mut i: usize = 0;
    proof {
        assert(chars@.skip(0) =~= chars@);
    }
    while i < chars.len() && is_whitespace(chars[i])
        invariant
            i <= chars@.len(),
            indent(chars@) == i + indent(chars@.skip(i as int)),
        decreases chars.len() - i,
    {
        proof {
            assert(chars@.skip(i as int)[0] == chars@[i as int]);
            assert(chars@.skip(i as int).skip(1) =~= chars@.skip(i + 1));
        }
        i += 1;
    }
    proof {
        if i < chars@.len() {
            assert(chars@.skip(i as int)[0] == chars@[i as int]);
        }
    }
    i
}

fn part_is_readable(part: &str) -> (r: bool)
    ensures
        r == readable_part(part@),
{
    let chars = chars_of(part);
    let first: usize = indent_of(&chars);
    let starts = starts_of(&chars);
    let mut j: usize = first;
    while j < chars.len()
        invariant
            first <= j,
            first <= chars@.len(),
            chars@ == part@,
            first == indent(part@),
            starts@.len() == chars@.len() + 1,
            forall|k: int| 0 <= k <= chars@.len() ==> (#[trigger] starts@[k]) == byte_at(chars@, k),
            forall|i: int|
                first <= i < j && ends_part(#[trigger] part@[i]) ==> {
                    let place = byte_at(part@, i) - byte_at(part@, first as int);
                    is_boundary(part@, place) && is_boundary(part@, place + 1)
                },
        decreases chars.len() - j,
    {
        let c: char = chars[j];
        if c == '=' || c == '[' || c == ']' || c == '{' || c == '}' {
            proof {
                lemma_bytes_grow(part@, first as int, j as int);
                lemma_byte_bound(part@, j as int);
                assert(starts@[j as int] == byte_at(part@, j as int));
                assert(starts@[first as int] == byte_at(part@, first as int));
            }
            let place: u128 = starts[j] - starts[first];
            proof {
                lemma_holds(part@, starts@, place);
                lemma_holds(part@, starts@, (place + 1) as u128);
            }
            if !holds(&starts, place) || !holds(&starts, place + 1) {
                proof {
                    assert(ends_part(part@[j as int]));
                }
                return false;
            }
        }
        j += 1;
    }
    true
}

proof fn lemma_holds(s: Seq<char>, starts: Seq<u128>, place: u128)
    requires
        starts.len() == s.len() + 1,
        forall|k: int| 0 <= k <= s.len() ==> (#[trigger] starts[k]) == byte_at(s, k),
    ensures
        starts.contains(place) <==> is_boundary(s, place as int),
{
    if starts.contains(place) {
        let k = choose|k: int| 0 <= k < starts.len() && starts[k] == place;
        assert(byte_at(s, k) == place);
    }
    if is_boundary(s, place as int) {
        let k = choose|k: int| 0 <= k <= s.len() && #[trigger] byte_at(s, k) == place as int;
        assert(starts[k] == place);
    }
}

/// Whether directives can be read.
pub fn is_readable(directives: &str) -> (r: bool)
    ensures
        r == readable(directives@),
{
    let parts = split_char(&chars_of(directives), ',');
    let ghost all = texts(parts@);
    let mut i: usize = 0;
    while i < parts.len()
        invariant
            i <= parts@.len(),
            all == texts(parts@),
            all == pieces(directives@, ','),
            forall|k: int| 0 <= k < i ==> readable_part(#[trigger] all[k]),
        decreases parts.len() - i,
    {
        proof {
            assert(all[i as int] == parts@[i as int]@);
        }
        if !part_is_readable(parts[i].as_str()) {
            return false;
        }
        i += 1;
    }
    true
}

/// What a configuration lets through to the log, before it is known whether it
/// is accepted.
pub fn filter_of(config: &LogConfig) -> (r: String)
    ensures
        r@ == filter_text(config.level@, config.prompt_log),
{
    if config.prompt_log {
        config.level.clone().concat(",prompt=info")
    } else {
        config.level.clone()
    }
}

/// Whether `tracing_subscriber::EnvFilter::try_new` takes directives.
pub uninterp spec fn filter_accepted(directives: Seq<char>) -> bool;

/// Whether `tracing_subscriber::EnvFilter::try_new` takes directives. It reads
/// them by themselves, and nothing from the environment. It takes the parts of a
/// directive by where they are once white space before it is dropped, and panics
/// where that is inside a character; `requires` leaves such directives out, also
/// where the place would turn out not to be used.
#[verifier::external_body]
fn accepts_filter(directives: &str) -> (r: bool)
    requires
        readable(directives@),
    ensures
        r == filter_accepted(directives@),
{
    EnvFilter::try_new(directives).is_ok()
}

/// What is let through: `directives`, or warnings where they are not accepted.
pub fn filter_or_warnings(directives: String, accepted: bool) -> (r: String)
    ensures
        r@ == if accepted {
            directives@
        } else {
            "warn"@
        },
{
    if accepted {
        directives
    } else {
        "warn".to_owned()
    }
}

/// What logging is set up with, or `None` where it is off.
pub fn init_logging(config: &LogConfig, repo_path: &str) -> (r: Option<LogPlan>)
    requires
        config.enabled ==> readable(filter_text(config.level@, config.prompt_log)),
    ensures
        config.enabled <==> r is Some,
        r matches Some(plan) ==> {
            &&& plan.dir@ == log_dir_in(config.dir@, repo_path@)
            &&& plan.filter@ == if filter_accepted(filter_text(config.level@, config.prompt_log)) {
                filter_text(config.level@, config.prompt_log)
            } else {
                "warn"@
            }
            &&& plan.appender == appender_of(*config)
        },
{
    if !config.enabled {
        return None;
    }
    let dir = resolve_log_dir(config.dir.as_str(), repo_path);
    let filter = filter_of(config);
    let accepted = accepts_filter(filter.as_str());
    let filter = filter_or_warnings(filter, accepted);
    let appender = match config.rotation {
        LogRotation::Hourly => Appender::Hourly,
        LogRotation::Daily => Appender::Daily,
        LogRotation::Size => Appender::Size { max_bytes: to_bytes(config.max_size_mb) },
    };
    Some(LogPlan { dir, filter, appender })
}

/// The appender to use once opening was tried: a size-based one whose file
/// cannot be opened gives way to daily files.
pub fn appender_to_use(wanted: Appender, opened: bool) -> (r: Appender)
    ensures
        r == if wanted is Size && !opened {
            Appender::Daily
        } else {
            wanted
        },
{
    match wanted {
        Appender::Size { max_bytes } => if opened {
            wanted
        } else {
            Appender::Daily
        },
        _ => wanted,
    }
}

/// Whether a log directory is one of nightcrow's own.
pub open spec fn own_dir(log_dir: Seq<char>) -> bool {
    parts_of(log_dir).contains(PartModel::Name(".nightcrow"@))
}

/// Whether to put a self-ignoring `.gitignore` into the log directory, so logs
/// never pollute the user's `git status`.
///
/// Only into a directory nightcrow owns: the pattern ignores everything
/// untracked, which is harmless in its own folder and not in one the user
/// pointed at. Only when missing: a user-edited file should not be clobbered.
pub fn write_log_gitignore(log_dir: &str, exists: bool) -> (r: bool)
    ensures
        r == (own_dir(log_dir@) && !exists),
{
    let parts = parse(log_dir);
    let ghost models = part_models(parts@);
    let mut i: usize = 0;
    while i < parts.len()
        invariant
            i <= parts@.len(),
            models == part_models(parts@),
            models == parts_of(log_dir@),
            forall|k: int| 0 <= k < i ==> models[k] != PartModel::Name(".nightcrow"@),
        decreases parts.len() - i,
    {
        if let Part::Name(name) = &parts[i] {
            if same_text(name.as_str(), ".nightcrow") {
                proof {
                    assert(models[i as int] == PartModel::Name(".nightcrow"@));
                    assert(models.contains(PartModel::Name(".nightcrow"@)));
                }
                return !exists;
            }
        }
        i += 1;
    }
    false
}

/// The moment before which logs have had their day, or `None` where they are
/// kept forever. Times are nanoseconds since the epoch.
pub open spec fn cutoff_of(now: i128, max_days: u32) -> Option<i128> {
    if max_days == 0 {
        None
    } else {
        let cutoff = now - max_days * 86_400_000_000_000;
        if cutoff >= i128::MIN {
            Some(cutoff as i128)
        } else {
            Some(0i128)
        }
    }
}

/// The moment before which logs have had their day.
pub fn log_cutoff(now: i128, max_days: u32) -> (r: Option<i128>)
    ensures
        r == cutoff_of(now, max_days),
{
    if max_days == 0 {
        return None;
    }
    let age: i128 = max_days as i128 * 86_400_000_000_000;
    match now.checked_sub(age) {
        Some(cutoff) => Some(cutoff),
        None => Some(0),
    }
}

/// A log file and when it was last written.
#[derive(Debug)]
pub struct LogFile {
    pub path: String,
    pub modified: i128,
}

/// The first of the files that were written last.
pub open spec fn newest(files: Seq<LogFile>) -> int
    decreases files.len(),
{
    if files.len() <= 1 {
        0
    } else {
        let before = newest(files.drop_last());
        if files.last().modified > files[before].modified {
            files.len() - 1
        } else {
            before
        }
    }
}

/// Whether the file at `i` is to be deleted: it is past the cutoff and not the
/// newest. The newest is kept even if it is past it, because the log goes on in
/// it; of several equally new ones the first.
pub open spec fn expired(files: Seq<LogFile>, cutoff: i128, i: int) -> bool {
    i != newest(files) && files[i].modified < cutoff
}

/// The paths to delete among the first `n` files.
pub open spec fn expired_paths(files: Seq<LogFile>, cutoff: i128, n: int) -> Seq<Seq<char>>
    decreases n,
{
    if n <= 0 {
        Seq::empty()
    } else {
        let before = expired_paths(files, cutoff, n - 1);
        if expired(files, cutoff, n - 1) {
            before.push(files[n - 1].path@)
        } else {
            before
        }
    }
}

fn newest_of(files: &Vec<LogFile>) -> (r: usize)
    ensures
        r == newest(files@),
        files@.len() > 0 ==> r < files@.len(),
{
    let mut best: usize = 0;
    let mut i: usize = 1;
    if files.len() == 0 {
        return 0;
    }
    while i < files.len()
        invariant
            1 <= i <= files@.len(),
            best < i,
            best == newest(files@.take(i as int)),
        decreases files.len() - i,
    {
        proof {
            assert(files@.take(i + 1).drop_last() =~= files@.take(i as int));
            assert(files@.take(i + 1).last() == files@[i as int]);
            assert(files@.take(i + 1)[best as int] == files@[best as int]);
        }
        if files[i].modified > files[best].modified {
            best = i;
        }
        i += 1;
    }
    proof {
        assert(files@.take(i as int) =~= files@);
    }
    best
}

/// The paths to delete from a list of log files.
pub fn expired_log_paths(files: &Vec<LogFile>, cutoff: i128) -> (r: Vec<String>)
    ensures
        crate::text::texts(r@) == expired_paths(files@, cutoff, files@.len() as int),
{
    let keep: usize = newest_of(files);
    let mut out: Vec<String> = Vec::new();
    let mut i: usize = 0;
    proof {
        assert(crate::text::texts(out@) =~= Seq::<Seq<char>>::empty());
    }
    while i < files.len()
        invariant
            i <= files@.len(),
            keep == newest(files@),
            crate::text::texts(out@) == expired_paths(files@, cutoff, i as int),
        decreases files.len() - i,
    {
        let ghost before = crate::text::texts(out@);
        if i != keep && files[i].modified < cutoff {
            out.push(files[i].path.clone());
            proof {
                assert(crate::text::texts(out@) =~= before.push(files@[i as int].path@));
            }
        }
        i += 1;
    }
    out
}

/// Cleaning up never takes the newest log: it is at least as new as every
/// other, and it stays.
pub proof fn law_newest_log_is_kept(files: Seq<LogFile>, cutoff: i128, i: int)
    requires
        0 <= i < files.len(),
    ensures
        0 <= newest(files) < files.len(),
        files[newest(files)].modified >= files[i].modified,
        files[newest(files)].modified == files[i].modified ==> newest(files) <= i,
        !expired(files, cutoff, newest(files)),
    decreases files.len(),
{
    if files.len() > 1 {
        let front = files.drop_last();
        law_newest_log_is_kept(front, cutoff, 0);
        if i < files.len() - 1 {
            law_newest_log_is_kept(front, cutoff, i);
        }
    }
}

/// Whether `name` is one a log file is given: the bare name, or the name with a
/// size index, a date or an hour behind it. Restricting that to digits and `-`
/// keeps siblings a user placed there from being swept up.
pub open spec fn log_name(name: Seq<char>) -> bool {
    name == "nightcrow.log"@ || {
        &&& has_prefix(name, "nightcrow.log."@)
        &&& name.len() > 14
        &&& forall|i: int|
            14 <= i < name.len() ==> '0' <= (#[trigger] name[i]) <= '9' || name[i] == '-'
    }
}

/// Whether a path leads to a log file.
pub open spec fn is_log_path(path: Seq<char>) -> bool {
    name_of(parts_of(path)) matches Some(name) && log_name(name)
}

/// Whether a path leads to a log file.
pub fn is_nightcrow_log_file(path: &str) -> (r: bool)
    ensures
        r == is_log_path(path@),
{
    let parts = parse(path);
    let name = match file_name(parts.as_slice()) {
        Some(name) => name,
        None => {
            return false;
        },
    };
    is_log_name(name.as_str())
}

fn is_log_name(name: &str) -> (r: bool)
    ensures
        r == log_name(name@),
{
    if same_text(name, "nightcrow.log") {
        return true;
    }
    let chars = chars_of(name);
    proof {
        reveal_strlit("nightcrow.log.");
    }
    if !starts_with(&chars, &chars_of("nightcrow.log.")) || chars.len() <= 14 {
        return false;
    }
    let mut i: usize = 14;
    while i < chars.len()
        invariant
            14 <= i <= chars@.len(),
            chars@ == name@,
            forall|k: int|
                14 <= k < i ==> '0' <= (#[trigger] chars@[k]) <= '9' || chars@[k] == '-',
            name@ != "nightcrow.log"@,
            has_prefix(name@, "nightcrow.log."@),
        decreases chars.len() - i,
    {
        if !('0' <= chars[i] && chars[i] <= '9') && chars[i] != '-' {
            return false;
        }
        i += 1;
    }
    true
}

/// The files among `found` that are log files.
pub open spec fn log_files(found: Seq<LogFile>) -> Seq<LogFile>
    decreases found.len(),
{
    if found.len() == 0 {
        found
    } else {
        let before = log_files(found.drop_last());
        if is_log_path(found.last().path@) {
            before.push(found.last())
        } else {
            before
        }
    }
}

/// The paths to delete among the files in the log directory. Nothing but log
/// files, and with no limit on their age nothing at all.
pub open spec fn old_logs(found: Seq<LogFile>, now: i128, max_days: u32) -> Seq<Seq<char>> {
    match cutoff_of(now, max_days) {
        Some(cutoff) => expired_paths(log_files(found), cutoff, log_files(found).len() as int),
        None => Seq::empty(),
    }
}

/// The paths to delete among the files found in the log directory.
pub fn cleanup_old_logs(found: &Vec<LogFile>, now: i128, max_days: u32) -> (r: Vec<String>)
    ensures
        crate::text::texts(r@) == old_logs(found@, now, max_days),
{
    let cutoff: i128 = match log_cutoff(now, max_days) {
        Some(cutoff) => cutoff,
        None => {
            let none: Vec<String> = Vec::new();
            proof {
                assert(crate::text::texts(none@) =~= Seq::<Seq<char>>::empty());
            }
            return none;
        },
    };
    let mut logs: Vec<LogFile> = Vec::new();
    let mut i: usize = 0;
    proof {
        assert(found@.take(0) =~= Seq::<LogFile>::empty());
    }
    while i < found.len()
        invariant
            i <= found@.len(),
            logs@ == log_files(found@.take(i as int)),
        decreases found.len() - i,
    {
        proof {
            assert(found@.take(i + 1).drop_last() =~= found@.take(i as int));
            assert(found@.take(i + 1).last() == found@[i as int]);
        }
        if is_nightcrow_log_file(found[i].path.as_str()) {
            logs.push(LogFile { path: found[i].path.clone(), modified: found[i].modified });
        }
        i += 1;
    }
    proof {
        assert(found@.take(i as int) =~= found@);
    }
    expired_log_paths(&logs, cutoff)
}

/// The number that decimal digits stand for.
pub open spec fn digits_value(s: Seq<char>) -> nat
    decreases s.len(),
{
    if s.len() == 0 {
        0
    } else {
        digits_value(s.drop_last()) * 10 + (s.last() as u32 - 48) as nat
    }
}

/// Whether `s` is one decimal digit or more.
pub open spec fn all_digits(s: Seq<char>) -> bool {
    s.len() > 0 && forall|i: int| 0 <= i < s.len() ==> '0' <= (#[trigger] s[i]) <= '9'
}

/// The number `s` stands for, if it is one that fits: digits, with at most a
/// plus sign before them.
pub open spec fn u32_of(s: Seq<char>) -> Option<u32> {
    let digits = if s.len() > 0 && s[0] == '+' {
        s.skip(1)
    } else {
        s
    };
    if all_digits(digits) && digits_value(digits) <= u32::MAX {
        Some(digits_value(digits) as u32)
    } else {
        None
    }
}

proof fn lemma_value_grows(s: Seq<char>, n: int)
    requires
        0 <= n <= s.len(),
        all_digits(s),
    ensures
        digits_value(s.take(n)) <= digits_value(s),
    decreases s.len() - n,
{
    if n < s.len() {
        lemma_value_grows(s, n + 1);
        assert(s.take(n + 1).drop_last() =~= s.take(n));
        assert('0' <= s[n] <= '9');
        assert(s.take(n + 1).last() == s[n]);
    } else {
        assert(s.take(n) =~= s);
    }
}

/// The number a text stands for.
pub fn parse_u32(chars: &[char]) -> (r: Option<u32>)
    ensures
        r == u32_of(chars@),
{
    let start: usize = if chars.len() > 0 && chars[0] == '+' {
        1
    } else {
        0
    };
    let digits = part_of(chars, start, chars.len());
    proof {
        assert(digits@ =~= if start == 1 {
            chars@.skip(1)
        } else {
            chars@
        });
        assert(digits@.take(0) =~= Seq::<char>::empty());
    }
    if digits.len() == 0 {
        return None;
    }
    let mut i: usize = 0;
    while i < digits.len()
        invariant
            i <= digits@.len(),
            digits@.len() > 0,
            forall|k: int| 0 <= k < i ==> '0' <= (#[trigger] digits@[k]) <= '9',
            digits@ == if chars@.len() > 0 && chars@[0] == '+' {
                chars@.skip(1)
            } else {
                chars@
            },
        decreases digits.len() - i,
    {
        if !('0' <= digits[i] && digits[i] <= '9') {
            return None;
        }
        i += 1;
    }
    let mut value: u64 = 0;
    let mut j: usize = 0;
    while j < digits.len()
        invariant
            j <= digits@.len(),
            all_digits(digits@),
            value == digits_value(digits@.take(j as int)),
            value <= u32::MAX,
            digits@ == if chars@.len() > 0 && chars@[0] == '+' {
                chars@.skip(1)
            } else {
                chars@
            },
        decreases digits.len() - j,
    {
        let d: char = digits[j];
        proof {
            assert('0' <= digits@[j as int] <= '9');
            assert(digits@.take(j + 1).drop_last() =~= digits@.take(j as int));
            assert(digits@.take(j + 1).last() == d);
        }
        value = value * 10 + (d as u64 - 48);
        j += 1;
        if value > 0xffff_ffff {
            proof {
                lemma_value_grows(digits@, j as int);
            }
            return None;
        }
    }
    proof {
        assert(digits@.take(j as int) =~= digits@);
    }
    Some(value as u32)
}

/// The size index in a file name, if it has one.
pub open spec fn index_in(name: Seq<char>, prefix: Seq<char>) -> Option<u32> {
    if has_prefix(name, prefix + "."@) {
        u32_of(name.skip(prefix.len() as int + 1))
    } else {
        None
    }
}

/// The highest size index among file names, or 0.
pub open spec fn highest_index(names: Seq<String>, prefix: Seq<char>) -> u32
    decreases names.len(),
{
    if names.len() == 0 {
        0
    } else {
        let before = highest_index(names.drop_last(), prefix);
        match index_in(names.last()@, prefix) {
            Some(i) if i > before => i,
            _ => before,
        }
    }
}

fn index_of_name(name: &str, prefix: &str) -> (r: Option<u32>)
    ensures
        r == index_in(name@, prefix@),
{
    let dotted = prefix.to_owned().concat(".");
    let front = chars_of(dotted.as_str());
    let chars = chars_of(name);
    proof {
        reveal_strlit(".");
    }
    if !starts_with(&chars, &front) {
        return None;
    }
    let rest = part_of(&chars, front.len(), chars.len());
    proof {
        assert(rest@ =~= name@.skip(prefix@.len() as int + 1));
    }
    parse_u32(&rest)
}

/// The highest size index among the names in the log directory, where writing
/// goes on, or 0.
pub fn latest_size_log_index(names: &Vec<String>, prefix: &str) -> (r: u32)
    ensures
        r == highest_index(names@, prefix@),
{
    let mut best: u32 = 0;
    let mut i: usize = 0;
    proof {
        assert(names@.take(0) =~= Seq::<String>::empty());
    }
    while i < names.len()
        invariant
            i <= names@.len(),
            best == highest_index(names@.take(i as int), prefix@),
        decreases names.len() - i,
    {
        proof {
            assert(names@.take(i + 1).drop_last() =~= names@.take(i as int));
            assert(names@.take(i + 1).last() == names@[i as int]);
        }
        if let Some(index) = index_of_name(names[i].as_str(), prefix) {
            if index > best {
                best = index;
            }
        }
        i += 1;
    }
    proof {
        assert(names@.take(i as int) =~= names@);
    }
    best
}

/// A log that turns over to a new numbered file when the current one would
/// exceed `max_bytes`.
#[derive(Debug)]
pub struct SizeRolling {
    pub dir: String,
    pub prefix: String,
    pub max_bytes: u64,
    pub current_size: u64,
    pub index: u32,
}

/// Whether `remaining` bytes go into a new file.
pub open spec fn turns_over(max_bytes: u64, current_size: u64, remaining: nat) -> bool {
    max_bytes > 0 && current_size + remaining > max_bytes
}

impl SizeRolling {
    /// The file that is written now.
    pub open spec fn file_text(&self) -> Seq<char> {
        joined(self.dir@, self.prefix@ + "."@ + decimal_text(self.index as nat))
    }

    /// Go on in the file `index`, which holds `current_size` bytes.
    pub fn resume(dir: &str, prefix: &str, max_bytes: u64, index: u32, current_size: u64) -> (r:
        SizeRolling)
        ensures
            r.dir@ == dir@,
            r.prefix@ == prefix@,
            r.max_bytes == max_bytes,
            r.index == index,
            r.current_size == current_size,
    {
        SizeRolling {
            dir: dir.to_owned(),
            prefix: prefix.to_owned(),
            max_bytes,
            current_size,
            index,
        }
    }

    /// The file that is written now.
    pub fn path(&self) -> (r: String)
        ensures
            r@ == self.file_text(),
    {
        let name = self.prefix.clone().concat(".").concat(decimal(self.index as u64).as_str());
        join(self.dir.as_str(), name.as_str())
    }

    /// Whether `remaining` bytes go into a new file.
    pub fn is_full_for(&self, remaining: usize) -> (r: bool)
        ensures
            r == turns_over(self.max_bytes, self.current_size, remaining as nat),
    {
        self.max_bytes > 0 && (self.current_size > self.max_bytes || remaining as u64
            > self.max_bytes - self.current_size)
    }

    /// Before writing: whether to turn over first. If so the index has moved
    /// on, and the file at `path` is to be opened.
    pub fn before_write(&mut self, remaining: usize) -> (r: bool)
        requires
            turns_over(old(self).max_bytes, old(self).current_size, remaining as nat) ==> old(
                self,
            ).index < u32::MAX,
        ensures
            r == turns_over(old(self).max_bytes, old(self).current_size, remaining as nat),
            *final(self) == (SizeRolling {
                index: if r {
                    (old(self).index + 1) as u32
                } else {
                    old(self).index
                },
                ..*old(self)
            }),
    {
        let full = self.is_full_for(remaining);
        if full {
            self.index = self.index + 1;
        }
        full
    }

    /// The new file was opened.
    pub fn opened(&mut self)
        ensures
            *final(self) == (SizeRolling { current_size: 0, ..*old(self) }),
    {
        self.current_size = 0;
    }

    /// `n` of `remaining` bytes were written: how many are still to be written,
    /// or `None` where the file takes no more, which is an error.
    pub fn wrote(&mut self, n: usize, remaining: usize) -> (r: Option<usize>)
        requires
            n <= remaining,
            old(self).current_size + n <= u64::MAX,
        ensures
            r == if n == 0 {
                None::<usize>
            } else {
                Some((remaining - n) as usize)
            },
            *final(self) == (SizeRolling {
                current_size: (old(self).current_size + n) as u64,
                ..*old(self)
            }),
    {
        if n == 0 {
            return None;
        }
        self.current_size = self.current_size + n as u64;
        Some(remaining - n)
    }
}

/// The size of the current file once `n` of `remaining` bytes were written.
pub open spec fn size_after(max_bytes: u64, current_size: u64, remaining: nat, n: nat) -> int {
    if turns_over(max_bytes, current_size, remaining) {
        n as int
    } else {
        current_size + n
    }
}

/// A log file stays within its limit, unless a single write is longer than the
/// limit, and then it holds that write alone.
pub proof fn law_files_stay_within_the_limit(
    max_bytes: u64,
    current_size: u64,
    remaining: nat,
    n: nat,
)
    requires
        max_bytes > 0,
        n <= remaining,
    ensures
        size_after(max_bytes, current_size, remaining, n) <= max_bytes || (size_after(
            max_bytes,
            current_size,
            remaining,
            n,
        ) == n && remaining > max_bytes),
{
}

/// How far setting up the log has come: what is to be done now.
#[derive(Debug, Clone, Copy, PartialEq, Eq, Structural)]
pub enum SetupPhase {
    /// Make the log directory.
    CreateDir,
    /// See whether it has a `.gitignore`.
    LookForGitignore,
    /// Put one there.
    WriteGitignore,
    /// See which logs are there.
    LookForLogs,
    /// Open what writes the log.
    OpenAppender,
    /// Make it the one that everything logs to.
    Install,
    Running,
    /// Nothing is logged.
    Off,
}

/// What came of it.
#[derive(Debug)]
pub enum SetupEvent {
    Done,
    /// Whether there is a `.gitignore`.
    Seen(bool),
    /// The files in the log directory, and the time.
    Found(Vec<LogFile>, i128),
    Failed(String),
}

/// The log that is being set up, as plain values.
#[verifier::ext_equal]
pub struct SetupModel {
    pub dir: Seq<char>,
    pub filter: Seq<char>,
    pub appender: Appender,
    pub max_days: u32,
    pub phase: SetupPhase,
}

/// What follows once the question of the `.gitignore` is settled. With no limit
/// on their age no logs are looked for.
pub open spec fn after_gitignore(max_days: u32) -> SetupPhase {
    if max_days == 0 {
        SetupPhase::OpenAppender
    } else {
        SetupPhase::LookForLogs
    }
}

impl SetupModel {
    /// Whether an event can come of the phase. Opening an appender that turns
    /// over by the clock reports no failure.
    pub open spec fn fits(self, event: SetupEvent) -> bool {
        match event {
            SetupEvent::Seen(_) => self.phase is LookForGitignore,
            SetupEvent::Found(_, _) => self.phase is LookForLogs,
            SetupEvent::Done => self.phase is CreateDir || self.phase is WriteGitignore
                || self.phase is OpenAppender || self.phase is Install,
            SetupEvent::Failed(_) => self.phase is CreateDir || self.phase is WriteGitignore
                || self.phase is Install || self.phase is OpenAppender && self.appender is Size,
        }
    }

    /// Only in one of nightcrow's own directories is a `.gitignore` in question.
    pub open spec fn valid(self) -> bool {
        self.phase is LookForGitignore || self.phase is WriteGitignore ==> own_dir(self.dir)
    }

    pub open spec fn in_phase(self, phase: SetupPhase) -> SetupModel {
        SetupModel { phase, ..self }
    }

    pub open spec fn stepped(self, event: SetupEvent) -> SetupModel {
        match self.phase {
            SetupPhase::CreateDir => if event is Failed {
                self.in_phase(SetupPhase::Off)
            } else if own_dir(self.dir) {
                self.in_phase(SetupPhase::LookForGitignore)
            } else {
                self.in_phase(after_gitignore(self.max_days))
            },
            SetupPhase::LookForGitignore => if event == SetupEvent::Seen(false) {
                self.in_phase(SetupPhase::WriteGitignore)
            } else {
                self.in_phase(after_gitignore(self.max_days))
            },
            SetupPhase::WriteGitignore => self.in_phase(after_gitignore(self.max_days)),
            SetupPhase::LookForLogs => self.in_phase(SetupPhase::OpenAppender),
            SetupPhase::OpenAppender => if event is Failed {
                SetupModel { appender: Appender::Daily, ..self }
            } else {
                self.in_phase(SetupPhase::Install)
            },
            SetupPhase::Install => if event is Failed {
                self.in_phase(SetupPhase::Off)
            } else {
                self.in_phase(SetupPhase::Running)
            },
            SetupPhase::Running => self,
            SetupPhase::Off => self,
        }
    }

    /// What is printed on an event. There is no log yet to put it in.
    pub open spec fn said(self, event: SetupEvent) -> Seq<Seq<char>> {
        match event {
            SetupEvent::Failed(reason) => match self.phase {
                SetupPhase::CreateDir => seq![
                    "nightcrow: failed to create log directory "@ + self.dir + ": "@ + reason@,
                ],
                SetupPhase::WriteGitignore => seq![
                    "nightcrow: failed to write log gitignore: "@ + reason@,
                ],
                SetupPhase::OpenAppender => seq![
                    "nightcrow: failed to open size-based log appender in "@ + self.dir
                        + "; falling back to daily rotation"@,
                ],
                SetupPhase::Install => seq![
                    "nightcrow: failed to install global tracing subscriber: "@ + reason@,
                ],
                _ => Seq::empty(),
            },
            _ => Seq::empty(),
        }
    }

    /// What is deleted on an event.
    pub open spec fn deleted(self, event: SetupEvent) -> Seq<Seq<char>> {
        match event {
            SetupEvent::Found(files, now) => old_logs(files@, now, self.max_days),
            _ => Seq::empty(),
        }
    }
}

/// What a step of the set-up asks for.
#[derive(Debug)]
pub struct SetupReply {
    /// What to print.
    pub lines: Vec<String>,
    /// The files to delete. A failure to do so is benign.
    pub delete: Vec<String>,
}

/// The log that is being set up.
#[derive(Debug)]
pub struct LogSetup {
    plan: LogPlan,
    max_days: u32,
    phase: SetupPhase,
}

impl LogSetup {
    pub closed spec fn model(&self) -> SetupModel {
        SetupModel {
            dir: self.plan.dir@,
            filter: self.plan.filter@,
            appender: self.plan.appender,
            max_days: self.max_days,
            phase: self.phase,
        }
    }

    /// Begin to set up what was planned.
    pub fn begin(plan: LogPlan, max_days: u32) -> (r: LogSetup)
        ensures
            r.model() == (SetupModel {
                dir: plan.dir@,
                filter: plan.filter@,
                appender: plan.appender,
                max_days,
                phase: SetupPhase::CreateDir,
            }),
    {
        LogSetup { plan, max_days, phase: SetupPhase::CreateDir }
    }

    /// What is to be done now.
    pub fn phase(&self) -> (r: SetupPhase)
        ensures
            r == self.model().phase,
    {
        self.phase
    }

    /// Where, what and how to log.
    pub fn plan(&self) -> (r: &LogPlan)
        ensures
            r.dir@ == self.model().dir,
            r.filter@ == self.model().filter,
            r.appender == self.model().appender,
    {
        &self.plan
    }

    fn lines_for(&self, event: &SetupEvent) -> (r: Vec<String>)
        ensures
            crate::text::texts(r@) == self.model().said(*event),
    {
        let ghost expected = self.model().said(*event);
        let mut out: Vec<String> = Vec::new();
        if let SetupEvent::Failed(reason) = event {
            match self.phase {
                SetupPhase::CreateDir => {
                    out.push(
                        "nightcrow: failed to create log directory ".to_owned().concat(
                            self.plan.dir.as_str(),
                        ).concat(": ").concat(reason.as_str()),
                    );
                },
                SetupPhase::WriteGitignore => {
                    out.push(
                        "nightcrow: failed to write log gitignore: ".to_owned().concat(
                            reason.as_str(),
                        ),
                    );
                },
                SetupPhase::OpenAppender => {
                    out.push(
                        "nightcrow: failed to open size-based log appender in ".to_owned().concat(
                            self.plan.dir.as_str(),
                        ).concat("; falling back to daily rotation"),
                    );
                },
                SetupPhase::Install => {
                    out.push(
                        "nightcrow: failed to install global tracing subscriber: ".to_owned().concat(
                            reason.as_str(),
                        ),
                    );
                },
                _ => {},
            }
        }
        proof {
            assert(crate::text::texts(out@) =~= expected);
        }
        out
    }

    fn settled(&self) -> (r: SetupPhase)
        ensures
            r == after_gitignore(self.model().max_days),
    {
        if self.max_days == 0 {
            SetupPhase::OpenAppender
        } else {
            SetupPhase::LookForLogs
        }
    }

    /// Take in what came of the phase.
    pub fn step(&mut self, event: SetupEvent) -> (r: SetupReply)
        requires
            old(self).model().fits(event),
        ensures
            final(self).model() == old(self).model().stepped(event),
            crate::text::texts(r.lines@) == old(self).model().said(event),
            crate::text::texts(r.delete@) == old(self).model().deleted(event),
    {
        let ghost before = self.model();
        let lines = self.lines_for(&event);
        let delete: Vec<String> = match &event {
            SetupEvent::Found(files, now) => cleanup_old_logs(files, *now, self.max_days),
            _ => {
                let none: Vec<String> = Vec::new();
                proof {
                    assert(crate::text::texts(none@) =~= Seq::<Seq<char>>::empty());
                }
                none
            },
        };
        let failed = matches!(&event, SetupEvent::Failed(_));
        match self.phase {
            SetupPhase::CreateDir => {
                self.phase = if failed {
                    SetupPhase::Off
                } else if write_log_gitignore(self.plan.dir.as_str(), false) {
                    SetupPhase::LookForGitignore
                } else {
                    self.settled()
                };
            },
            SetupPhase::LookForGitignore => {
                let missing = matches!(&event, SetupEvent::Seen(false));
                self.phase = if missing {
                    SetupPhase::WriteGitignore
                } else {
                    self.settled()
                };
            },
            SetupPhase::WriteGitignore => {
                self.phase = self.settled();
            },
            SetupPhase::LookForLogs => {
                self.phase = SetupPhase::OpenAppender;
            },
            SetupPhase::OpenAppender => {
                self.plan.appender = appender_to_use(self.plan.appender, !failed);
                if !failed {
                    self.phase = SetupPhase::Install;
                }
            },
            SetupPhase::Install => {
                self.phase = if failed {
                    SetupPhase::Off
                } else {
                    SetupPhase::Running
                };
            },
            SetupPhase::Running => {},
            SetupPhase::Off => {},
        }
        proof {
            assert(self.model() =~= before.stepped(event));
        }
        SetupReply { lines, delete }
    }
}

/// A directory that the user pointed at is never given a `.gitignore`, and one
/// that is there is never written over.
pub proof fn law_only_a_missing_gitignore_is_written(setup: SetupModel, event: SetupEvent)
    requires
        setup.valid(),
        setup.fits(event),
    ensures
        setup.stepped(event).valid(),
        setup.stepped(event).phase is WriteGitignore ==> own_dir(setup.dir) && event
            == SetupEvent::Seen(false),
{
}

/// Whatever keeps the log from running is said.
pub proof fn law_a_log_that_stays_off_says_why(setup: SetupModel, event: SetupEvent)
    requires
        setup.fits(event),
        setup.stepped(event).phase is Off,
    ensures
        setup.said(event).len() == 1,
{
}

proof fn lemma_newest(files: Seq<LogFile>)
    requires
        files.len() > 0,
    ensures
        0 <= newest(files) < files.len(),
        forall|i: int|
            0 <= i < files.len() ==> (#[trigger] files[i]).modified <= files[newest(
                files,
            )].modified,
        forall|i: int|
            0 <= i < newest(files) ==> (#[trigger] files[i]).modified < files[newest(
                files,
            )].modified,
    decreases files.len(),
{
    if files.len() > 1 {
        let rest = files.drop_last();
        lemma_newest(rest);
        assert(forall|i: int| 0 <= i < rest.len() ==> #[trigger] files[i] == rest[i]);
    }
}

proof fn lemma_expired_paths(files: Seq<LogFile>, cutoff: i128, n: int, path: Seq<char>)
    requires
        0 <= n <= files.len(),
    ensures
        expired_paths(files, cutoff, n).contains(path) <==> exists|i: int|
            0 <= i < n && (#[trigger] files[i]).path@ == path && i != newest(files)
                && files[i].modified < cutoff,
    decreases n,
{
    if n > 0 {
        lemma_expired_paths(files, cutoff, n - 1, path);
        let before = expired_paths(files, cutoff, n - 1);
        let all = expired_paths(files, cutoff, n);
        if before.contains(path) {
            let k = choose|k: int| 0 <= k < before.len() && before[k] == path;
            assert(all[k] == path);
        }
        if expired(files, cutoff, n - 1) && files[n - 1].path@ == path {
            assert(all[all.len() - 1] == path);
        }
        if all.contains(path) {
            let k = choose|k: int| 0 <= k < all.len() && all[k] == path;
            if k < before.len() {
                assert(before[k] == path);
            }
        }
    }
}

proof fn lemma_log_files(found: Seq<LogFile>)
    ensures
        log_files(found) == found.filter(|f: LogFile| is_log_path(f.path@)),
    decreases found.len(),
{
    reveal(Seq::filter);
    if found.len() > 0 {
        lemma_log_files(found.drop_last());
    }
}

/// Of the log files in a directory, in the order they were found, exactly those
/// are removed that were last written more than so many days of twenty-four
/// hours ago, but for the one written last: of several, the first. With no days
/// given none is, and nothing that is not a log file is.
pub proof fn law_old_logs_are_removed(
    found: Seq<LogFile>,
    now: i128,
    max_days: u32,
    path: Seq<char>,
)
    requires
        now >= 0,
    ensures
        max_days == 0 ==> old_logs(found, now, max_days).len() == 0,
        ({
            let logs = found.filter(|f: LogFile| is_log_path(f.path@));
            max_days > 0 ==> (old_logs(found, now, max_days).contains(path) <==> exists|i: int|
                0 <= i < logs.len() && (#[trigger] logs[i]).path@ == path && is_outdated(
                    logs,
                    now - max_days * 86_400_000_000_000,
                    i,
                ))
        }),
{
    let logs = found.filter(|f: LogFile| is_log_path(f.path@));
    lemma_log_files(found);
    if max_days > 0 {
        let cutoff = (now - max_days * 86_400_000_000_000) as i128;
        assert(cutoff_of(now, max_days) == Some(cutoff));
        lemma_expired_paths(logs, cutoff, logs.len() as int, path);
        if logs.len() > 0 {
            lemma_newest(logs);
        }
        assert forall|i: int| 0 <= i < logs.len() implies (#[trigger] is_outdated(
            logs,
            cutoff as int,
            i,
        ) <==> i != newest(logs) && logs[i].modified < cutoff) by {
            let n = newest(logs);
            if i != n {
                if i < n {
                    assert(logs[i].modified < logs[n].modified);
                } else {
                    assert(logs[i].modified <= logs[n].modified);
                }
                assert(n != i && supersedes(logs, n, i));
            } else {
                assert forall|j: int| 0 <= j < logs.len() && j != i implies !(#[trigger] supersedes(
                    logs,
                    j,
                    i,
                )) by {
                    assert(logs[j].modified <= logs[i].modified);
                }
            }
        }
    }
}

/// Whether the log at `j` was written after the one at `i`, or at the same time
/// and stands before it.
pub open spec fn supersedes(logs: Seq<LogFile>, j: int, i: int) -> bool {
    logs[j].modified > logs[i].modified || (logs[j].modified == logs[i].modified && j < i)
}

/// Whether the log at `i` was last written before `cutoff`, and another was
/// written later.
pub open spec fn is_outdated(logs: Seq<LogFile>, cutoff: int, i: int) -> bool {
    &&& logs[i].modified < cutoff
    &&& exists|j: int| 0 <= j < logs.len() && #[trigger] supersedes(logs, j, i)
}

/// A log file is named `nightcrow.log`, or that with a dot and then digits and
/// dashes, at least one, behind it.
pub proof fn law_log_names(name: Seq<char>, rest: Seq<char>)
    ensures
        log_name(
            seq!['n', 'i', 'g', 'h', 't', 'c', 'r', 'o', 'w', '.', 'l', 'o', 'g'],
        ),
        log_name(
            seq!['n', 'i', 'g', 'h', 't', 'c', 'r', 'o', 'w', '.', 'l', 'o', 'g', '.'] + rest,
        ) <==> rest.len() > 0 && forall|i: int|
            0 <= i < rest.len() ==> ('0' <= #[trigger] rest[i] <= '9' || rest[i] == '-'),
        log_name(name) ==> name.len() >= 13 && name.take(13) == seq![
            'n',
            'i',
            'g',
            'h',
            't',
            'c',
            'r',
            'o',
            'w',
            '.',
            'l',
            'o',
            'g',
        ] && (name.len() > 13 ==> name[13] == '.'),
{
    reveal_strlit("nightcrow.log");
    reveal_strlit("nightcrow.log.");
    let base = seq!['n', 'i', 'g', 'h', 't', 'c', 'r', 'o', 'w', '.', 'l', 'o', 'g'];
    let dotted = seq!['n', 'i', 'g', 'h', 't', 'c', 'r', 'o', 'w', '.', 'l', 'o', 'g', '.'];
    assert("nightcrow.log"@ =~= base);
    assert("nightcrow.log."@ =~= dotted);
    let full = dotted + rest;
    assert(full.subrange(0, 14) =~= dotted);
    assert(full.len() == 14 + rest.len());
    assert(forall|i: int| 14 <= i < full.len() ==> #[trigger] full[i] == rest[i - 14]);
    assert(forall|i: int| 0 <= i < rest.len() ==> #[trigger] rest[i] == full[i + 14]);
    if log_name(name) && name != base {
        assert(name.subrange(0, 14) == dotted);
        assert(name.take(13) =~= base) by {
            assert forall|i: int| 0 <= i < 13 implies #[trigger] name.take(13)[i] == base[i] by {
                assert(name.subrange(0, 14)[i] == dotted[i]);
            }
        }
        assert(name[13] == name.subrange(0, 14)[13]);
    } else if log_name(name) {
        assert(name.take(13) =~= base);
    }
}

proof fn lemma_digits_value(n: nat)
    ensures
        digits_value(decimal_text(n)) == n,
    decreases n,
{
    let s = decimal_text(n);
    if n < 10 {
        assert(s.drop_last() =~= Seq::<char>::empty());
        assert(digits_value(s.drop_last()) == 0);
    } else {
        lemma_digits_value(n / 10);
        assert(s.drop_last() =~= decimal_text(n / 10));
        assert(s.last() as u32 == 48 + n % 10);
    }
}

/// A number is read back from its decimal text, with or without a sign in
/// front.
pub proof fn law_numbers_are_read_back(n: u32)
    ensures
        u32_of(decimal_text(n as nat)) == Some(n),
        u32_of(seq!['+'] + decimal_text(n as nat)) == Some(n),
{
    let s = decimal_text(n as nat);
    lemma_digits_value(n as nat);
    crate::text::law_decimal_text_stands_for_its_number(n as nat);
    assert(all_digits(s));
    assert((seq!['+'] + s).skip(1) =~= s);
    assert('0' <= s[0] <= '9');
}

/// The log that is written to by size is found again by its name: its index is
/// what stands behind the prefix and a dot.
pub proof fn law_indices_are_read_back(prefix: Seq<char>, n: u32)
    ensures
        index_in(prefix.push('.') + decimal_text(n as nat), prefix) == Some(n),
{
    law_numbers_are_read_back(n);
    reveal_strlit(".");
    let name = prefix.push('.') + decimal_text(n as nat);
    assert(prefix + "."@ =~= prefix.push('.'));
    assert(name.subrange(0, prefix.len() as int + 1) =~= prefix.push('.'));
    assert(name.skip(prefix.len() as int + 1) =~= decimal_text(n as nat));
}

/// Logging by size goes on with the highest index there is, and begins at zero.
pub proof fn law_highest_index_goes_on(names: Seq<String>, prefix: Seq<char>)
    ensures
        forall|i: int|
            0 <= i < names.len() ==> (index_in((#[trigger] names[i])@, prefix) matches Some(n)
                ==> n <= highest_index(names, prefix)),
        highest_index(names, prefix) > 0 ==> exists|i: int|
            0 <= i < names.len() && index_in((#[trigger] names[i])@, prefix) == Some(
                highest_index(names, prefix),
            ),
    decreases names.len(),
{
    if names.len() > 0 {
        let rest = names.drop_last();
        law_highest_index_goes_on(rest, prefix);
        let n = names.len() - 1;
        assert(names[n] == names.last());
        assert(forall|i: int| 0 <= i < rest.len() ==> #[trigger] names[i] == rest[i]);
        let before = highest_index(rest, prefix);
        if highest_index(names, prefix) == before && before > 0 {
            let i = choose|i: int|
                0 <= i < rest.len() && index_in((#[trigger] rest[i])@, prefix) == Some(before);
            assert(names[i] == rest[i]);
        }
        assert forall|i: int| 0 <= i < names.len() implies (index_in(
            (#[trigger] names[i])@,
            prefix,
        ) matches Some(k) ==> k <= highest_index(names, prefix)) by {
            if i < n {
                assert(names[i] == rest[i]);
            }
        }
    }
}

/// A log of a given size is that many mebibytes, as far as a number goes; logs
/// by the day and by the hour have no size.
pub proof fn law_sizes_are_in_mebibytes(config: LogConfig)
    ensures
        config.rotation is Daily ==> appender_of(config) is Daily,
        config.rotation is Hourly ==> appender_of(config) is Hourly,
        config.rotation is Size ==> (appender_of(config) matches Appender::Size { max_bytes } && (
        config.max_size_mb * 1024 * 1024 <= u64::MAX ==> max_bytes == config.max_size_mb * 1024
            * 1024) && (config.max_size_mb * 1024 * 1024 > u64::MAX ==> max_bytes == u64::MAX)),
{
}

/// Prompts are logged beside what the level lets through, where that is asked
/// for, and otherwise the level alone decides.
pub proof fn law_prompts_are_logged_on_request(level: Seq<char>)
    ensures
        filter_text(level, false) == level,
        filter_text(level, true) == level + seq![
            ',',
            'p',
            'r',
            'o',
            'm',
            'p',
            't',
            '=',
            'i',
            'n',
            'f',
            'o',
        ],
{
    reveal_strlit(",prompt=info");
    assert(",prompt=info"@ =~= seq![',', 'p', 'r', 'o', 'm', 'p', 't', '=', 'i', 'n', 'f', 'o']);
}

/// A file is turned over exactly where a limit is set and what is still to be
/// written would pass it.
pub proof fn law_full_files_are_turned_over(max_bytes: u64, current_size: u64, remaining: nat)
    ensures
        max_bytes == 0 ==> !turns_over(max_bytes, current_size, remaining),
        max_bytes > 0 ==> (turns_over(max_bytes, current_size, remaining) <==> current_size
            + remaining > max_bytes),
{
}

proof fn lemma_ascii_bytes(s: Seq<char>, n: int)
    requires
        0 <= n <= s.len(),
        forall|i: int| 0 <= i < s.len() ==> #[trigger] s[i] as u32 <= 0x7f,
    ensures
        byte_at(s, n) == n,
    decreases n,
{
    if n > 0 {
        lemma_ascii_bytes(s, n - 1);
        assert(s[n - 1] as u32 <= 0x7f);
    }
}

proof fn lemma_indent_within(s: Seq<char>)
    ensures
        indent(s) <= s.len(),
    decreases s.len(),
{
    if s.len() > 0 && is_space(s[0]) {
        lemma_indent_within(s.skip(1));
    }
}

/// Directives in ASCII can always be read.
pub proof fn law_ascii_directives_are_readable(part: Seq<char>)
    requires
        forall|i: int| 0 <= i < part.len() ==> #[trigger] part[i] as u32 <= 0x7f,
    ensures
        readable_part(part),
{
    lemma_indent_within(part);
    assert forall|j: int|
        indent(part) <= j < part.len() && ends_part(#[trigger] part[j]) implies ({
        let place = byte_at(part, j) - byte_at(part, indent(part) as int);
        is_boundary(part, place) && is_boundary(part, place + 1)
    }) by {
        let k = j - indent(part);
        lemma_ascii_bytes(part, j);
        lemma_ascii_bytes(part, indent(part) as int);
        lemma_ascii_bytes(part, k);
        lemma_ascii_bytes(part, k + 1);
        assert(byte_at(part, k) == k);
        assert(byte_at(part, k + 1) == k + 1);
    }
}

/// Logging is set up in one order: the directory, a `.gitignore` where the
/// directory is this program's own and has none, the old logs where an age is
/// set, the file, and then it runs.
pub proof fn law_setup_goes_in_order(m: SetupModel, event: SetupEvent)
    requires
        m.fits(event),
    ensures
        ({
            let now = m.stepped(event);
            let next = if m.max_days == 0 {
                SetupPhase::OpenAppender
            } else {
                SetupPhase::LookForLogs
            };
            &&& now.dir == m.dir && now.filter == m.filter && now.max_days == m.max_days
            &&& m.phase is CreateDir && event is Failed ==> now.phase is Off
            &&& m.phase is CreateDir && event is Done ==> now.phase == if own_dir(m.dir) {
                SetupPhase::LookForGitignore
            } else {
                next
            }
            &&& m.phase is LookForGitignore && event == SetupEvent::Seen(false)
                ==> now.phase is WriteGitignore
            &&& m.phase is LookForGitignore && event == SetupEvent::Seen(true) ==> now.phase == next
            &&& m.phase is WriteGitignore ==> now.phase == next
            &&& m.phase is LookForLogs ==> now.phase is OpenAppender
            &&& m.phase is OpenAppender && event is Done ==> now.phase is Install
            &&& m.phase is OpenAppender && event is Failed ==> now.phase is OpenAppender
                && now.appender is Daily
            &&& !(m.phase is OpenAppender && event is Failed) ==> now.appender == m.appender
            &&& m.phase is Install && event is Done ==> now.phase is Running
            &&& m.phase is Install && event is Failed ==> now.phase is Off
        }),
{
}

} // verus!

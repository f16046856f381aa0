//! Cloning a remote repository by delegating to the `git` binary: which
//! addresses are accepted, what is run, and what its failure says.

use crate::native::{copy_bytes, raw, NativePath};
use crate::text::{
    ascii_lower, ascii_lowered, ascii_small, chars_of, ends_with, find_char, find_sub, first_index,
    first_sub, from_utf8_lossy, has_prefix, has_suffix, is_control, is_ctrl, last_index,
    lemma_first_index, lossy_text, occurs, part_of, rfind_char, starts_with, string_of, trim,
    trim_text,
};
use vstd::prelude::*;
use vstd::utf8::encode_utf8;

verus! {

/// Longest URL accepted, to keep a hostile client from parking megabytes in a
/// request body that is only ever a remote address.
pub const MAX_CLONE_URL_BYTES: usize = 2048;

#[derive(Debug, Clone, Copy, PartialEq, Eq, Structural)]
pub enum CloneUrlError {
    Empty,
    TooLong,
    /// Control characters, including NUL and newlines.
    Control,
    /// A scheme that is not accepted, most importantly `ext::`.
    Scheme,
    /// Accepted shape, but no repository name could be derived from it.
    NoName,
}

impl CloneUrlError {
    /// Client-facing text. Says what is wrong without echoing the input back
    /// into the response.
    pub fn message(&self) -> (r: &'static str)
        ensures
            r@ == (match self {
                CloneUrlError::Empty => "a repository URL is required"@,
                CloneUrlError::TooLong => "that URL is too long"@,
                CloneUrlError::Control => "that URL contains invalid characters"@,
                CloneUrlError::Scheme =>
                    "only https, http, and ssh URLs (or user@host:path) can be cloned"@,
                CloneUrlError::NoName => "could not read a repository name from that URL"@,
            }),
    {
        match self {
            CloneUrlError::Empty => "a repository URL is required",
            CloneUrlError::TooLong => "that URL is too long",
            CloneUrlError::Control => "that URL contains invalid characters",
            CloneUrlError::Scheme => {
                "only https, http, and ssh URLs (or user@host:path) can be cloned"
            },
            CloneUrlError::NoName => "could not read a repository name from that URL",
        }
    }
}

/// Whether `url`, in lower case, is `scheme` with something behind it.
pub open spec fn under_scheme(url: Seq<char>, scheme: Seq<char>) -> bool {
    url.len() > scheme.len() && has_prefix(ascii_lowered(url), scheme)
}

/// Whether `url` has a shape that can be cloned. A `://` anywhere means the URL
/// is claiming a scheme, so it must be one of the accepted ones, matched as a
/// prefix. Without `://` the only remaining accepted shape is scp-like.
///
/// This is a security boundary: git resolves `ext::<command>` by executing that
/// command. `file://` and bare local paths are excluded because local
/// directories are reached otherwise, and `git://` because it carries no
/// authentication and gives no stall control.
pub open spec fn allowed_shape(url: Seq<char>) -> bool {
    if occurs(ascii_lowered(url), "://"@) {
        ||| under_scheme(url, "https://"@)
        ||| under_scheme(url, "http://"@)
        ||| under_scheme(url, "ssh://"@)
        ||| under_scheme(url, "git+ssh://"@)
    } else {
        scp_like(url)
    }
}

/// Whether `url` is `user@host:path` or `host:path`: a colon that comes before
/// any slash, with a non-empty host and path around it, and not the doubled
/// colon git uses for transport helpers.
pub open spec fn scp_like(url: Seq<char>) -> bool {
    match first_index(url, ':') {
        None => false,
        Some(colon) => {
            let host = url.take(colon);
            let path = url.skip(colon + 1);
            &&& host.len() > 0
            &&& path.len() > 0
            &&& !host.contains('/')
            &&& path[0] != ':'
            &&& !host.contains('\\')
        },
    }
}

fn has_scheme(url: &[char], lower: &[char], scheme: &str) -> (r: bool)
    requires
        lower@ == ascii_lowered(url@),
    ensures
        r == under_scheme(url@, scheme@),
{
    let prefix = chars_of(scheme);
    url.len() > prefix.len() && starts_with(lower, &prefix)
}

fn has_allowed_scheme(url: &[char]) -> (r: bool)
    ensures
        r == allowed_shape(url@),
{
    let lower = ascii_lower(url);
    let claims = crate::text::contains_sub(&lower, &chars_of("://"));
    if claims {
        return has_scheme(url, &lower, "https://") || has_scheme(url, &lower, "http://")
            || has_scheme(url, &lower, "ssh://") || has_scheme(url, &lower, "git+ssh://");
    }
    is_scp_like(url)
}

fn is_scp_like(url: &[char]) -> (r: bool)
    ensures
        r == scp_like(url@),
{
    let colon: usize = match find_char(url, ':') {
        Some(i) => i,
        None => {
            return false;
        },
    };
    let host = part_of(url, 0, colon);
    proof {
        assert(colon < url.len());
        assert(host@ =~= url@.take(colon as int));
        assert(url@.skip(colon + 1).len() == url@.len() - colon - 1);
    }
    if colon == 0 || colon + 1 >= url.len() {
        return false;
    }
    let slash = find_char(&host, '/');
    let backslash = find_char(&host, '\\');
    proof {
        lemma_first_index(host@, '/');
        lemma_first_index(host@, '\\');
        assert(url@.skip(colon + 1)[0] == url@[colon + 1]);
        if slash is Some {
            assert(host@[slash->0 as int] == '/');
            assert(host@.contains('/'));
        }
        if backslash is Some {
            assert(host@[backslash->0 as int] == '\\');
            assert(host@.contains('\\'));
        }
    }
    slash.is_none() && url[colon + 1] != ':' && backslash.is_none()
}

/// The part of `url` before any `?` or `#`.
pub open spec fn before_query(url: Seq<char>) -> Seq<char>
    decreases url.len(),
{
    if url.len() == 0 {
        url
    } else {
        let front = before_query(url.drop_last());
        if front.len() < url.len() - 1 || url.last() == '?' || url.last() == '#' {
            front
        } else {
            url
        }
    }
}

fn cut_query(url: &[char]) -> (r: Vec<char>)
    ensures
        r@ == before_query(url@),
{
    let mut n: usize = 0;
    proof {
        assert(url@.take(0) =~= Seq::<char>::empty());
    }
    while n < url.len() && url[n] != '?' && url[n] != '#'
        invariant
            n <= url@.len(),
            before_query(url@.take(n as int)) == url@.take(n as int),
        decreases url.len() - n,
    {
        proof {
            assert(url@.take(n + 1).drop_last() =~= url@.take(n as int));
            assert(url@.take(n + 1).last() == url@[n as int]);
        }
        n += 1;
    }
    let out = part_of(url, 0, n);
    proof {
        assert(out@ =~= url@.take(n as int));
        if n < url@.len() {
            lemma_query_rest(url@, n as int, url@.len() as int);
            assert(url@.take(url@.len() as int) =~= url@);
        } else {
            assert(url@.take(n as int) =~= url@);
        }
    }
    out
}

proof fn lemma_query_rest(url: Seq<char>, n: int, m: int)
    requires
        0 <= n < m <= url.len(),
        before_query(url.take(n)) == url.take(n),
        url[n] == '?' || url[n] == '#',
    ensures
        before_query(url.take(m)) == url.take(n),
    decreases m,
{
    assert(url.take(m).drop_last() =~= url.take(m - 1));
    if m == n + 1 {
        assert(url.take(m).last() == url[n]);
    } else {
        lemma_query_rest(url, n, m - 1);
    }
}

/// The path of a remote address: behind the authority where a scheme is named,
/// else behind the colon. `None` where there is none, so a URL that names only
/// a host cannot pass the host off as a repository.
pub open spec fn remote_path(url: Seq<char>) -> Option<Seq<char>> {
    let plain = before_query(url);
    match first_sub(plain, "://"@) {
        Some(i) => {
            let after = plain.skip(i + 3);
            match first_index(after, '/') {
                Some(slash) => Some(after.skip(slash + 1)),
                None => None,
            }
        },
        None => match first_index(plain, ':') {
            Some(colon) => Some(plain.skip(colon + 1)),
            None => None,
        },
    }
}

fn path_of(url: &[char]) -> (r: Option<Vec<char>>)
    ensures
        match r {
            Some(path) => remote_path(url@) == Some(path@),
            None => remote_path(url@) is None,
        },
{
    let plain = cut_query(url);
    proof {
        reveal_strlit("://");
    }
    match find_sub(&plain, &chars_of("://")) {
        Some(i) => {
            proof {
                assert(i + 3 <= plain.len());
            }
            let after = part_of(&plain, i + 3, plain.len());
            proof {
                assert(after@ =~= plain@.skip(i + 3));
            }
            match find_char(&after, '/') {
                Some(slash) => {
                    proof {
                        assert(slash < after.len());
                    }
                    let path = part_of(&after, slash + 1, after.len());
                    proof {
                        assert(path@ =~= after@.skip(slash + 1));
                    }
                    Some(path)
                },
                None => None,
            }
        },
        None => match find_char(&plain, ':') {
            Some(colon) => {
                proof {
                    assert(colon < plain.len());
                }
                let path = part_of(&plain, colon + 1, plain.len());
                proof {
                    assert(path@ =~= plain@.skip(colon + 1));
                }
                Some(path)
            },
            None => None,
        },
    }
}

/// `s` without the slashes at its end.
pub open spec fn without_end_slashes(s: Seq<char>) -> Seq<char>
    decreases s.len(),
{
    if s.len() > 0 && s.last() == '/' {
        without_end_slashes(s.drop_last())
    } else {
        s
    }
}

/// The last non-empty segment of a path.
pub open spec fn last_segment(path: Seq<char>) -> Option<Seq<char>> {
    let trimmed = without_end_slashes(path);
    if trimmed.len() == 0 {
        None
    } else {
        match last_index(trimmed, '/') {
            Some(i) => Some(trimmed.skip(i + 1)),
            None => Some(trimmed),
        }
    }
}

fn segment_of(path: &[char]) -> (r: Option<Vec<char>>)
    ensures
        match r {
            Some(segment) => last_segment(path@) == Some(segment@),
            None => last_segment(path@) is None,
        },
{
    let mut n: usize = path.len();
    proof {
        assert(path@.take(n as int) =~= path@);
    }
    while n > 0 && path[n - 1] == '/'
        invariant
            n <= path@.len(),
            without_end_slashes(path@) == without_end_slashes(path@.take(n as int)),
        decreases n,
    {
        proof {
            assert(path@.take(n as int).drop_last() =~= path@.take(n - 1));
        }
        n -= 1;
    }
    if n == 0 {
        return None;
    }
    let trimmed = part_of(path, 0, n);
    proof {
        assert(trimmed@ =~= path@.take(n as int));
    }
    match rfind_char(&trimmed, '/') {
        Some(i) => {
            proof {
                assert(i < trimmed.len());
            }
            let segment = part_of(&trimmed, i + 1, trimmed.len());
            proof {
                assert(segment@ =~= trimmed@.skip(i + 1));
            }
            Some(segment)
        },
        None => Some(trimmed),
    }
}

/// A segment without a `.git` at its end.
pub open spec fn without_git(segment: Seq<char>) -> Seq<char> {
    if has_suffix(segment, ".git"@) {
        segment.take(segment.len() - 4)
    } else {
        segment
    }
}

/// The directory a clone of `url` would create: the last non-empty path
/// segment with a trailing `.git` removed, unless nothing usable is left.
pub open spec fn repo_name(url: Seq<char>) -> Option<Seq<char>> {
    match remote_path(url) {
        None => None,
        Some(path) => match last_segment(path) {
            None => None,
            Some(segment) => {
                let name = without_git(segment);
                if name.len() == 0 || name[0] == '.' || name.contains('/') {
                    None
                } else {
                    Some(name)
                }
            },
        },
    }
}

fn repo_name_from_url(url: &[char]) -> (r: Option<String>)
    ensures
        match r {
            Some(name) => repo_name(url@) == Some(name@),
            None => repo_name(url@) is None,
        },
{
    let path = match path_of(url) {
        Some(path) => path,
        None => {
            return None;
        },
    };
    let segment = match segment_of(&path) {
        Some(segment) => segment,
        None => {
            return None;
        },
    };
    proof {
        reveal_strlit(".git");
    }
    let name = if ends_with(&segment, &chars_of(".git")) {
        let kept = part_of(&segment, 0, segment.len() - 4);
        proof {
            assert(kept@ =~= segment@.take(segment@.len() - 4));
        }
        kept
    } else {
        segment
    };
    proof {
        lemma_first_index(name@, '/');
    }
    if name.len() == 0 || name[0] == '.' {
        return None;
    }
    if let Some(i) = find_char(&name, '/') {
        proof {
            assert(name@[i as int] == '/');
            assert(name@.contains('/'));
        }
        return None;
    }
    Some(string_of(&name))
}

/// What the clone form makes of `url`: the directory a clone would create, or
/// why there is none.
pub open spec fn clone_verdict(url: Seq<char>) -> Result<Seq<char>, CloneUrlError> {
    let url = trim_text(url);
    if url.len() == 0 {
        Err(CloneUrlError::Empty)
    } else if encode_utf8(url).len() > MAX_CLONE_URL_BYTES {
        Err(CloneUrlError::TooLong)
    } else if exists|i: int| 0 <= i < url.len() && is_ctrl(#[trigger] url[i]) {
        Err(CloneUrlError::Control)
    } else if !allowed_shape(url) {
        Err(CloneUrlError::Scheme)
    } else {
        match repo_name(url) {
            Some(name) => Ok(name),
            None => Err(CloneUrlError::NoName),
        }
    }
}

/// Accept `url` as a remote address and return the directory name a clone of it
/// would create: the same name `git clone <url>` picks.
///
/// Accepted shapes are `https`, `http`, `ssh` and `git+ssh` URLs and scp-like
/// `user@host:path`. Everything else is rejected, so `ext::`, `file://`, and
/// bare paths never reach `git`.
pub fn validate_clone_url(url: &str) -> (r: Result<String, CloneUrlError>)
    ensures
        match r {
            Ok(name) => clone_verdict(url@) == Ok::<Seq<char>, CloneUrlError>(name@),
            Err(error) => clone_verdict(url@) == Err::<Seq<char>, CloneUrlError>(error),
        },
{
    let remote = trim(&chars_of(url));
    if remote.len() == 0 {
        return Err(CloneUrlError::Empty);
    }
    if string_of(&remote).as_str().as_bytes().len() > MAX_CLONE_URL_BYTES {
        return Err(CloneUrlError::TooLong);
    }
    // Before the shape: a newline could otherwise split the URL into something
    // a later reader treats as two lines, and NUL truncates.
    if has_control(&remote) {
        return Err(CloneUrlError::Control);
    }
    if !has_allowed_scheme(&remote) {
        return Err(CloneUrlError::Scheme);
    }
    match repo_name_from_url(&remote) {
        Some(name) => Ok(name),
        None => Err(CloneUrlError::NoName),
    }
}

fn has_control(chars: &[char]) -> (r: bool)
    ensures
        r == exists|i: int| 0 <= i < chars@.len() && is_ctrl(#[trigger] chars@[i]),
{
    let mut i: usize = 0;
    while i < chars.len()
        invariant
            i <= chars@.len(),
            forall|k: int| 0 <= k < i ==> !is_ctrl(#[trigger] chars@[k]),
        decreases chars.len() - i,
    {
        if is_control(chars[i]) {
            return true;
        }
        i += 1;
    }
    false
}

/// A transport helper is never handed to git: an address whose first colon is
/// doubled is refused, whatever else it holds.
pub proof fn law_transport_helpers_are_refused(url: Seq<char>)
    requires
        first_index(trim_text(url), ':') matches Some(i) && i + 1 < trim_text(url).len()
            && trim_text(url)[i + 1] == ':',
    ensures
        clone_verdict(url) is Err,
{
    let remote = trim_text(url);
    let colon = first_index(remote, ':')->0;
    lemma_first_index(remote, ':');
    assert(remote.skip(colon + 1)[0] == remote[colon + 1]);
    lemma_scheme_colon(remote, "https://"@, 5);
    lemma_scheme_colon(remote, "http://"@, 4);
    lemma_scheme_colon(remote, "ssh://"@, 3);
    lemma_scheme_colon(remote, "git+ssh://"@, 7);
}

proof fn lemma_scheme_colon(url: Seq<char>, scheme: Seq<char>, n: int)
    requires
        scheme == "https://"@ && n == 5 || scheme == "http://"@ && n == 4 || scheme == "ssh://"@
            && n == 3 || scheme == "git+ssh://"@ && n == 7,
    ensures
        under_scheme(url, scheme) ==> first_index(url, ':') == Some(n) && url[n + 1] == '/',
{
    reveal_strlit("https://");
    reveal_strlit("http://");
    reveal_strlit("ssh://");
    reveal_strlit("git+ssh://");
    if under_scheme(url, scheme) {
        let lower = ascii_lowered(url);
        assert forall|k: int| 0 <= k < scheme.len() implies ascii_small(#[trigger] url[k])
            == scheme[k] by {
            assert(lower.subrange(0, scheme.len() as int)[k] == lower[k]);
        }
        assert(scheme[n] == ':' && scheme[n + 1] == '/');
        assert(ascii_small(url[n]) == ':');
        assert(ascii_small(url[n + 1]) == '/');
        lemma_small_of(url[n], ':');
        lemma_small_of(url[n + 1], '/');
        lemma_first_index(url, ':');
        assert(url.contains(':'));
        let i = first_index(url, ':')->0;
        if i < n {
            assert(ascii_small(url[i]) == scheme[i]);
            assert(scheme[i] != ':');
        }
    }
}

proof fn lemma_small_of(c: char, mark: char)
    requires
        ascii_small(c) == mark,
        mark == ':' || mark == '/',
    ensures
        c == mark,
{
}

/// A path on this machine is never handed to git: what starts at the root, or
/// here, or one directory up, is refused.
pub proof fn law_local_paths_are_refused(url: Seq<char>)
    requires
        ({
            let remote = trim_text(url);
            ||| remote.len() > 0 && remote[0] == '/'
            ||| remote.len() > 1 && remote[0] == '.' && remote[1] == '/'
            ||| remote.len() > 2 && remote[0] == '.' && remote[1] == '.' && remote[2] == '/'
        }),
    ensures
        clone_verdict(url) is Err,
{
    let remote = trim_text(url);
    reveal_strlit("https://");
    reveal_strlit("http://");
    reveal_strlit("ssh://");
    reveal_strlit("git+ssh://");
    let lower = ascii_lowered(remote);
    assert(lower[0] == ascii_small(remote[0]));
    assert(forall|scheme: Seq<char>|
        under_scheme(remote, scheme) && scheme.len() > 0 ==> lower.subrange(
            0,
            scheme.len() as int,
        )[0] == lower[0]);
    if scp_like(remote) {
        lemma_first_index(remote, ':');
        let colon = first_index(remote, ':')->0;
        let host = remote.take(colon);
        let at = if remote[0] == '/' {
            0int
        } else if remote[1] == '/' {
            1
        } else {
            2
        };
        assert(colon != 0 && remote[0] != ':');
        if colon <= at {
            assert(remote[colon] == ':');
        }
        assert(host[at] == '/');
        assert(host.contains('/'));
    }
}

/// A name that is given out is one plain directory: not empty, not hidden, and
/// with no separator in it.
pub proof fn law_clone_names_are_plain(url: Seq<char>)
    ensures
        clone_verdict(url) matches Ok(name) ==> name.len() > 0 && name[0] != '.' && !name.contains(
            '/',
        ),
{
}

/// Most stderr kept from a failing clone. A remote controls this stream, so it
/// cannot be collected unbounded. Only the tail is wanted anyway: git's last
/// line is the reason.
pub const MAX_STDERR_BYTES: usize = 64 * 1024;

/// The last `MAX_STDERR_BYTES` of `bytes`.
pub open spec fn tail(bytes: Seq<u8>) -> Seq<u8> {
    if bytes.len() <= MAX_STDERR_BYTES {
        bytes
    } else {
        bytes.skip(bytes.len() - MAX_STDERR_BYTES)
    }
}

/// What is kept of a stream that is read to its end. Draining to the end
/// matters as much as the cap: stopping early would fill the pipe and block the
/// child forever.
pub struct StderrTail {
    pub kept: Vec<u8>,
}

impl StderrTail {
    pub open spec fn wf(&self) -> bool {
        self.kept@.len() <= MAX_STDERR_BYTES
    }

    pub fn new() -> (r: StderrTail)
        ensures
            r.wf(),
            r.kept@ == Seq::<u8>::empty(),
    {
        StderrTail { kept: Vec::new() }
    }

    /// A chunk was read.
    pub fn push(&mut self, chunk: &[u8])
        requires
            old(self).wf(),
        ensures
            final(self).wf(),
            final(self).kept@ == tail(old(self).kept@ + chunk@),
    {
        self.kept.extend_from_slice(chunk);
        let ghost all = self.kept@;
        proof {
            assert(all =~= old(self).kept@ + chunk@);
        }
        let n: usize = self.kept.len();
        if n > MAX_STDERR_BYTES {
            let rest = self.kept.split_off(n - MAX_STDERR_BYTES);
            self.kept = rest;
            proof {
                assert(self.kept@ =~= tail(all));
            }
        }
    }

    /// The kept bytes as text.
    pub fn text(&self) -> (r: String)
        ensures
            r@ == lossy_text(self.kept@),
    {
        from_utf8_lossy(self.kept.as_slice())
    }
}

/// What the chunks of a stream come to.
pub open spec fn chunks_joined(chunks: Seq<Seq<u8>>) -> Seq<u8>
    decreases chunks.len(),
{
    if chunks.len() == 0 {
        Seq::empty()
    } else {
        chunks_joined(chunks.drop_last()) + chunks.last()
    }
}

/// What is kept after the chunks were pushed one by one.
pub open spec fn kept_after(chunks: Seq<Seq<u8>>) -> Seq<u8>
    decreases chunks.len(),
{
    if chunks.len() == 0 {
        Seq::empty()
    } else {
        tail(kept_after(chunks.drop_last()) + chunks.last())
    }
}

/// However a stream is cut into chunks, its last bytes are what is kept.
pub proof fn law_tail_ignores_chunking(chunks: Seq<Seq<u8>>)
    ensures
        kept_after(chunks) == tail(chunks_joined(chunks)),
    decreases chunks.len(),
{
    if chunks.len() > 0 {
        law_tail_ignores_chunking(chunks.drop_last());
        let a = chunks_joined(chunks.drop_last());
        let b = chunks.last();
        assert(tail(tail(a) + b) =~= tail(a + b));
    }
}

/// What `git` is run with to clone `url` into `dest`: behind `--`, as items of
/// their own and never as shell words, with a rate floor under which a
/// transfer counts as stalled.
pub open spec fn clone_argv(url: Seq<char>, dest: Seq<u8>) -> Seq<Seq<u8>> {
    seq![
        encode_utf8("-c"@),
        encode_utf8("http.lowSpeedLimit=1024"@),
        encode_utf8("-c"@),
        encode_utf8("http.lowSpeedTime=60"@),
        encode_utf8("clone"@),
        encode_utf8("--"@),
        encode_utf8(url),
        dest,
    ]
}

/// What `git` is run with to clone `url` into `dest`.
pub fn clone_args(url: &str, dest: &NativePath) -> (r: Vec<Vec<u8>>)
    ensures
        raw(r@) == clone_argv(url@, dest@),
{
    let mut args: Vec<Vec<u8>> = Vec::new();
    args.push(copy_bytes("-c".as_bytes()));
    args.push(copy_bytes("http.lowSpeedLimit=1024".as_bytes()));
    args.push(copy_bytes("-c".as_bytes()));
    args.push(copy_bytes("http.lowSpeedTime=60".as_bytes()));
    args.push(copy_bytes("clone".as_bytes()));
    args.push(copy_bytes("--".as_bytes()));
    args.push(copy_bytes(url.as_bytes()));
    args.push(copy_bytes(dest.bytes.as_slice()));
    proof {
        assert(raw(args@) =~= clone_argv(url@, dest@));
    }
    args
}

/// What is set in the environment of a clone: no prompt on a terminal where
/// nobody sits, and liveness bounds for the ssh transport.
pub fn clone_env() -> (r: Vec<(String, String)>)
    ensures
        r@.len() == 2,
        r@[0].0@ == "GIT_TERMINAL_PROMPT"@,
        r@[0].1@ == "0"@,
        r@[1].0@ == "GIT_SSH_COMMAND"@,
        r@[1].1@
            == "ssh -o ConnectTimeout=30 -o ServerAliveInterval=30 -o ServerAliveCountMax=4"@,
{
    let mut env: Vec<(String, String)> = Vec::new();
    env.push(("GIT_TERMINAL_PROMPT".to_owned(), "0".to_owned()));
    env.push(
        (
            "GIT_SSH_COMMAND".to_owned(),
            "ssh -o ConnectTimeout=30 -o ServerAliveInterval=30 -o ServerAliveCountMax=4".to_owned(),
        ),
    );
    env
}

/// The last line of a text with something in it.
pub open spec fn last_line(text: Seq<char>) -> Seq<char> {
    match last_index(text, '\n') {
        Some(i) => text.skip(i + 1),
        None => text,
    }
}

/// What a failed clone says: git's own last line is the actionable part.
pub open spec fn clone_failure_text(stderr: Seq<char>) -> Seq<char> {
    let detail = trim_text(stderr);
    if detail.len() == 0 {
        "git clone failed"@
    } else {
        last_line(detail)
    }
}

/// How running `git` went.
#[derive(Debug)]
pub enum CloneRun {
    /// It is not there.
    NotInstalled,
    NotStarted(String),
    /// It was started and could not be waited for.
    NotAwaited(String),
    /// It ended, with what is kept of its stderr.
    Ended { success: bool, stderr: String },
}

/// How a clone went: `None` where the repository is there, else what is said.
pub open spec fn clone_outcome(run: CloneRun) -> Option<Seq<char>> {
    match run {
        CloneRun::NotInstalled => Some("git is not installed or not on PATH"@),
        CloneRun::NotStarted(reason) => Some("could not run git: "@ + reason@),
        CloneRun::NotAwaited(reason) => Some("could not wait for git: "@ + reason@),
        CloneRun::Ended { success, stderr } => if success {
            None
        } else {
            Some(clone_failure_text(stderr@))
        },
    }
}

/// How a clone went. On failure the error carries git's own last line, which is
/// what says that a repository was not found or permission denied.
pub fn run_clone(run: &CloneRun) -> (r: Result<(), String>)
    ensures
        match clone_outcome(*run) {
            None => r is Ok,
            Some(text) => r matches Err(message) && message@ == text,
        },
{
    let stderr = match run {
        CloneRun::NotInstalled => {
            return Err("git is not installed or not on PATH".to_owned());
        },
        CloneRun::NotStarted(reason) => {
            return Err("could not run git: ".to_owned().concat(reason.as_str()));
        },
        CloneRun::NotAwaited(reason) => {
            return Err("could not wait for git: ".to_owned().concat(reason.as_str()));
        },
        CloneRun::Ended { success, stderr } => {
            if *success {
                return Ok(());
            }
            stderr
        },
    };
    let detail = trim(&chars_of(stderr.as_str()));
    if detail.len() == 0 {
        return Err("git clone failed".to_owned());
    }
    match rfind_char(&detail, '\n') {
        Some(i) => {
            proof {
                assert(i < detail.len());
            }
            let line = part_of(&detail, i + 1, detail.len());
            proof {
                assert(line@ =~= detail@.skip(i + 1));
            }
            Err(string_of(&line))
        },
        None => Err(string_of(&detail)),
    }
}

/// Whether a usable `git` is there, from how asking for its version went.
pub fn git_available(ran: Option<bool>) -> (r: bool)
    ensures
        r == (ran == Some(true)),
{
    match ran {
        Some(success) => success,
        None => false,
    }
}

/// Whether `text` is `small`, whose letters are small, in any case.
pub open spec fn spells(text: Seq<char>, small: Seq<char>) -> bool {
    &&& text.len() == small.len()
    &&& forall|i: int|
        0 <= i < small.len() ==> {
            ||| #[trigger] text[i] == small[i]
            ||| 'a' <= small[i] <= 'z' && text[i] as u32 + 32 == small[i] as u32
        }
}

/// Whether `text` is a scheme that can be cloned from, in any case.
pub open spec fn spells_scheme(text: Seq<char>) -> bool {
    ||| spells(text, "https://"@)
    ||| spells(text, "http://"@)
    ||| spells(text, "ssh://"@)
    ||| spells(text, "git+ssh://"@)
}

/// Whether neither `?` nor `#` stands in `text`.
pub open spec fn no_query(text: Seq<char>) -> bool {
    !text.contains('?') && !text.contains('#')
}

/// What may stand behind the path of an address: nothing, or what a `?` or a
/// `#` begins.
pub open spec fn is_query(text: Seq<char>) -> bool {
    text.len() == 0 || text[0] == '?' || text[0] == '#'
}

/// Whether `url` can be an address as far as its length and its characters go.
pub open spec fn is_clean(url: Seq<char>) -> bool {
    &&& url.len() > 0
    &&& encode_utf8(url).len() <= 2048
    &&& !crate::text::is_space(url[0])
    &&& !crate::text::is_space(url.last())
    &&& forall|i: int|
        0 <= i < url.len() ==> (#[trigger] url[i] as u32) > 0x1f && !(0x7f <= url[i] as u32
            <= 0x9f)
}

/// Whether `s` can name a repository.
pub open spec fn is_plain_name(s: Seq<char>) -> bool {
    &&& s.len() > 0
    &&& s[0] != '.'
    &&& !s.contains('/')
    &&& no_query(s)
}

/// Whether `s` ends in `.git`.
pub open spec fn ends_in_git(s: Seq<char>) -> bool {
    s.len() >= 4 && s.skip(s.len() - 4) == seq!['.', 'g', 'i', 't']
}

proof fn lemma_before_no_query(body: Seq<char>)
    requires
        no_query(body),
    ensures
        before_query(body) == body,
    decreases body.len(),
{
    if body.len() > 0 {
        let front = body.drop_last();
        assert(no_query(front)) by {
            assert(forall|i: int| 0 <= i < front.len() ==> #[trigger] front[i] == body[i]);
            if front.contains('?') {
                let i = choose|i: int| 0 <= i < front.len() && front[i] == '?';
                assert(body[i] == '?');
            }
            if front.contains('#') {
                let i = choose|i: int| 0 <= i < front.len() && front[i] == '#';
                assert(body[i] == '#');
            }
        }
        lemma_before_no_query(front);
        assert(body.contains(body.last()));
    }
}

proof fn lemma_before_a_query(body: Seq<char>, query: Seq<char>)
    requires
        no_query(body),
        is_query(query),
    ensures
        before_query(body + query) == body,
{
    lemma_before_no_query(body);
    let url = body + query;
    if query.len() == 0 {
        assert(url =~= body);
    } else {
        let n = body.len() as int;
        assert(url.take(n) =~= body);
        assert(url[n] == query[0]);
        lemma_query_rest(url, n, url.len() as int);
        assert(url.take(url.len() as int) =~= url);
    }
}

proof fn lemma_without_slashes(body: Seq<char>, slashes: Seq<char>)
    requires
        body.len() > 0,
        body.last() != '/',
        forall|i: int| 0 <= i < slashes.len() ==> #[trigger] slashes[i] == '/',
    ensures
        without_end_slashes(body + slashes) == body,
    decreases slashes.len(),
{
    let all = body + slashes;
    if slashes.len() == 0 {
        assert(all =~= body);
    } else {
        assert(all.last() == slashes.last());
        assert(slashes[slashes.len() - 1] == '/');
        assert(all.drop_last() =~= body + slashes.drop_last());
        lemma_without_slashes(body, slashes.drop_last());
    }
}

proof fn lemma_segment(dirs: Seq<char>, segment: Seq<char>, slashes: Seq<char>)
    requires
        dirs.len() == 0 || dirs.last() == '/',
        segment.len() > 0,
        !segment.contains('/'),
        forall|i: int| 0 <= i < slashes.len() ==> #[trigger] slashes[i] == '/',
    ensures
        last_segment(dirs + segment + slashes) == Some(segment),
{
    let path = dirs + segment;
    assert(path.last() == segment.last());
    assert(segment.contains(segment.last()));
    lemma_without_slashes(path, slashes);
    crate::text::lemma_last_index(path, '/');
    let n = dirs.len() as int;
    assert(forall|i: int| n <= i < path.len() ==> #[trigger] path[i] == segment[i - n]);
    assert forall|i: int| n <= i < path.len() implies #[trigger] path[i] != '/' by {
        assert(segment.contains(segment[i - n]));
    }
    if n == 0 {
        assert(path =~= segment);
        if path.contains('/') {
            let i = choose|i: int| 0 <= i < path.len() && path[i] == '/';
            assert(path[i] != '/');
        }
    } else {
        assert(path[n - 1] == '/');
        assert(path.contains('/'));
        assert(last_index(path, '/') == Some(n - 1));
        assert(path.skip(n) =~= segment);
    }
}

proof fn lemma_git_suffix(s: Seq<char>)
    ensures
        without_git(s + seq!['.', 'g', 'i', 't']) == s,
        !ends_in_git(s) ==> without_git(s) == s,
{
    reveal_strlit(".git");
    assert(".git"@ =~= seq!['.', 'g', 'i', 't']);
    let long = s + seq!['.', 'g', 'i', 't'];
    assert(long.subrange(long.len() - 4, long.len() as int) =~= seq!['.', 'g', 'i', 't']);
    assert(long.take(long.len() - 4) =~= s);
    if s.len() >= 4 {
        assert(s.subrange(s.len() - 4, s.len() as int) =~= s.skip(s.len() - 4));
    }
}

/// What the last segment of a path comes to: its name, whether `.git` is
/// appended, slashes follow or a query does.
proof fn lemma_named_path(
    dirs: Seq<char>,
    s: Seq<char>,
    git: Seq<char>,
    slashes: Seq<char>,
)
    requires
        dirs.len() == 0 || dirs.last() == '/',
        is_plain_name(s),
        git == seq!['.', 'g', 'i', 't'] || (git.len() == 0 && !ends_in_git(s)),
        forall|i: int| 0 <= i < slashes.len() ==> #[trigger] slashes[i] == '/',
    ensures
        ({
            let segment = last_segment(dirs + (s + git) + slashes);
            segment == Some(s + git) && without_git(s + git) == s
        }),
{
    let segment = s + git;
    assert(!segment.contains('/')) by {
        if segment.contains('/') {
            let i = choose|i: int| 0 <= i < segment.len() && segment[i] == '/';
            if i < s.len() {
                assert(s.contains(s[i]));
            } else {
                assert(git[i - s.len()] == '/');
            }
        }
    }
    lemma_segment(dirs, segment, slashes);
    lemma_git_suffix(s);
    if git.len() == 0 {
        assert(segment =~= s);
    }
}

proof fn lemma_clean_verdict(url: Seq<char>, s: Seq<char>)
    requires
        is_clean(url),
        allowed_shape(url),
        repo_name(url) == Some(s),
    ensures
        clone_verdict(url) == Ok::<Seq<char>, CloneUrlError>(s),
{
    crate::text::law_trimmed_texts_stay(url);
    assert forall|i: int| 0 <= i < url.len() implies !is_ctrl(#[trigger] url[i]) by {}
}

proof fn lemma_spelled(text: Seq<char>, small: Seq<char>, rest: Seq<char>)
    requires
        spells(text, small),
        rest.len() > 0,
        forall|i: int| 0 <= i < small.len() ==> !('A' <= #[trigger] small[i] <= 'Z'),
    ensures
        under_scheme(text + rest, small),
{
    let url = text + rest;
    let lower = ascii_lowered(url);
    assert(lower.subrange(0, small.len() as int) =~= small) by {
        assert forall|i: int| 0 <= i < small.len() implies lower[i] == #[trigger] small[i] by {
            assert(url[i] == text[i]);
            assert(lower[i] == ascii_small(text[i]));
        }
    }
}

proof fn lemma_scheme_literals()
    ensures
        "https://"@ == seq!['h', 't', 't', 'p', 's', ':', '/', '/'],
        "http://"@ == seq!['h', 't', 't', 'p', ':', '/', '/'],
        "ssh://"@ == seq!['s', 's', 'h', ':', '/', '/'],
        "git+ssh://"@ == seq!['g', 'i', 't', '+', 's', 's', 'h', ':', '/', '/'],
        "://"@ == seq![':', '/', '/'],
{
    reveal_strlit("https://");
    reveal_strlit("http://");
    reveal_strlit("ssh://");
    reveal_strlit("git+ssh://");
    reveal_strlit("://");
    assert("https://"@ =~= seq!['h', 't', 't', 'p', 's', ':', '/', '/']);
    assert("http://"@ =~= seq!['h', 't', 't', 'p', ':', '/', '/']);
    assert("ssh://"@ =~= seq!['s', 's', 'h', ':', '/', '/']);
    assert("git+ssh://"@ =~= seq!['g', 'i', 't', '+', 's', 's', 'h', ':', '/', '/']);
    assert("://"@ =~= seq![':', '/', '/']);
}

/// A spelled scheme ends in `://`, and has no other colon.
proof fn lemma_scheme_shape(scheme: Seq<char>)
    requires
        spells_scheme(scheme),
    ensures
        scheme.len() >= 6,
        scheme[scheme.len() - 3] == ':',
        scheme[scheme.len() - 2] == '/',
        scheme[scheme.len() - 1] == '/',
        forall|i: int| 0 <= i < scheme.len() - 3 ==> #[trigger] scheme[i] != ':',
        no_query(scheme),
        !crate::text::is_space(scheme[0]),
{
    lemma_scheme_literals();
    let small = if spells(scheme, "https://"@) {
        "https://"@
    } else if spells(scheme, "http://"@) {
        "http://"@
    } else if spells(scheme, "ssh://"@) {
        "ssh://"@
    } else {
        "git+ssh://"@
    };
    assert(spells(scheme, small));
    let n = small.len() as int;
    assert(scheme[n - 3] == small[n - 3] && scheme[n - 2] == small[n - 2] && scheme[n - 1]
        == small[n - 1]);
    assert forall|i: int| 0 <= i < n - 3 implies #[trigger] scheme[i] != ':' by {
        assert(scheme[i] == small[i] || scheme[i] as u32 + 32 == small[i] as u32);
    }
    assert(no_query(scheme)) by {
        if scheme.contains('?') {
            let i = choose|i: int| 0 <= i < scheme.len() && scheme[i] == '?';
            assert(scheme[i] == small[i] || scheme[i] as u32 + 32 == small[i] as u32);
        }
        if scheme.contains('#') {
            let i = choose|i: int| 0 <= i < scheme.len() && scheme[i] == '#';
            assert(scheme[i] == small[i] || scheme[i] as u32 + 32 == small[i] as u32);
        }
    }
    assert(scheme[0] == small[0] || scheme[0] as u32 + 32 == small[0] as u32);
}

proof fn lemma_no_query_joined(a: Seq<char>, b: Seq<char>)
    requires
        no_query(a),
        no_query(b),
    ensures
        no_query(a + b),
{
    let all = a + b;
    if all.contains('?') {
        let i = choose|i: int| 0 <= i < all.len() && all[i] == '?';
        if i < a.len() {
            assert(a[i] == '?');
        } else {
            assert(b[i - a.len()] == '?');
        }
    }
    if all.contains('#') {
        let i = choose|i: int| 0 <= i < all.len() && all[i] == '#';
        if i < a.len() {
            assert(a[i] == '#');
        } else {
            assert(b[i - a.len()] == '#');
        }
    }
}

proof fn lemma_named_tail(s: Seq<char>, git: Seq<char>, slashes: Seq<char>)
    requires
        is_plain_name(s),
        git == seq!['.', 'g', 'i', 't'] || (git.len() == 0 && !ends_in_git(s)),
        forall|i: int| 0 <= i < slashes.len() ==> #[trigger] slashes[i] == '/',
    ensures
        no_query(s + git + slashes),
{
    assert(no_query(git)) by {
        if git.contains('?') {
            let i = choose|i: int| 0 <= i < git.len() && git[i] == '?';
            assert(git[i] == '?');
        }
        if git.contains('#') {
            let i = choose|i: int| 0 <= i < git.len() && git[i] == '#';
            assert(git[i] == '#');
        }
    }
    assert(no_query(slashes)) by {
        if slashes.contains('?') {
            let i = choose|i: int| 0 <= i < slashes.len() && slashes[i] == '?';
            assert(slashes[i] == '/');
        }
        if slashes.contains('#') {
            let i = choose|i: int| 0 <= i < slashes.len() && slashes[i] == '#';
            assert(slashes[i] == '/');
        }
    }
    lemma_no_query_joined(s, git);
    lemma_no_query_joined(s + git, slashes);
}

/// Behind a spelled scheme and a host the path begins.
proof fn lemma_path_of_url(scheme: Seq<char>, host: Seq<char>, path: Seq<char>, query: Seq<char>)
    requires
        spells_scheme(scheme),
        !host.contains('/'),
        no_query(scheme + host + seq!['/'] + path),
        is_query(query),
    ensures
        remote_path(scheme + host + seq!['/'] + path + query) == Some(path),
{
    let body = scheme + host + seq!['/'] + path;
    lemma_scheme_shape(scheme);
    lemma_scheme_literals();
    lemma_before_a_query(body, query);
    let n = scheme.len() - 3;
    crate::text::lemma_first_sub(body, "://"@);
    assert(body.subrange(n, n + 3) =~= "://"@) by {
        assert(body[n] == scheme[n] && body[n + 1] == scheme[n + 1] && body[n + 2] == scheme[n
            + 2]);
    }
    assert(crate::text::occurs_at(body, "://"@, n));
    assert(first_sub(body, "://"@) == Some(n)) by {
        let i = first_sub(body, "://"@)->0;
        assert(crate::text::occurs_at(body, "://"@, i));
        if i < n {
            assert(body.subrange(i, i + 3)[0] == body[i]);
            assert(body[i] == scheme[i]);
        }
    }
    let after = body.skip(n + 3);
    assert(after =~= host + seq!['/'] + path);
    lemma_first_index(after, '/');
    let h = host.len() as int;
    assert(after[h] == '/');
    assert(after.contains('/'));
    assert(first_index(after, '/') == Some(h)) by {
        let i = first_index(after, '/')->0;
        if i < h {
            assert(after[i] == host[i]);
            assert(host.contains('/'));
        }
    }
    assert(after.skip(h + 1) =~= path);
}

/// An address under a spelled scheme has a shape that can be cloned.
proof fn lemma_url_is_allowed(scheme: Seq<char>, rest: Seq<char>)
    requires
        spells_scheme(scheme),
        rest.len() > 0,
    ensures
        allowed_shape(scheme + rest),
{
    let url = scheme + rest;
    let n = scheme.len() - 3;
    lemma_scheme_shape(scheme);
    lemma_scheme_literals();
    assert(under_scheme(url, "https://"@) || under_scheme(url, "http://"@) || under_scheme(
        url,
        "ssh://"@,
    ) || under_scheme(url, "git+ssh://"@)) by {
        if spells(scheme, "https://"@) {
            lemma_spelled(scheme, "https://"@, rest);
        } else if spells(scheme, "http://"@) {
            lemma_spelled(scheme, "http://"@, rest);
        } else if spells(scheme, "ssh://"@) {
            lemma_spelled(scheme, "ssh://"@, rest);
        } else {
            lemma_spelled(scheme, "git+ssh://"@, rest);
        }
    }
    let lower = ascii_lowered(url);
    assert(lower.subrange(n, n + 3) =~= "://"@) by {
        assert(url[n] == scheme[n] && url[n + 1] == scheme[n + 1] && url[n + 2] == scheme[n + 2]);
        assert(lower[n] == ascii_small(url[n]) && lower[n + 1] == ascii_small(url[n + 1])
            && lower[n + 2] == ascii_small(url[n + 2]));
    }
    assert(crate::text::occurs_at(lower, "://"@, n));
}

/// An address under one of the four schemes, in any case, is accepted, and
/// named by the last segment of its path: whether it stands below directories,
/// whether `.git` is appended, slashes follow, or a query does.
pub proof fn law_urls_are_named_by_their_last_segment(
    scheme: Seq<char>,
    host: Seq<char>,
    dirs: Seq<char>,
    s: Seq<char>,
    git: Seq<char>,
    slashes: Seq<char>,
    query: Seq<char>,
)
    requires
        spells_scheme(scheme),
        !host.contains('/'),
        no_query(host),
        no_query(dirs),
        dirs.len() == 0 || dirs.last() == '/',
        is_plain_name(s),
        git == seq!['.', 'g', 'i', 't'] || (git.len() == 0 && !ends_in_git(s)),
        forall|i: int| 0 <= i < slashes.len() ==> #[trigger] slashes[i] == '/',
        is_query(query),
        is_clean(scheme + host + seq!['/'] + dirs + s + git + slashes + query),
    ensures
        clone_verdict(scheme + host + seq!['/'] + dirs + s + git + slashes + query) == Ok::<
            Seq<char>,
            CloneUrlError,
        >(s),
{
    let url = scheme + host + seq!['/'] + dirs + s + git + slashes + query;
    let path = dirs + (s + git) + slashes;
    let body = scheme + host + seq!['/'] + path;
    lemma_scheme_shape(scheme);
    assert(body + query =~= url);
    assert(no_query(body)) by {
        lemma_named_tail(s, git, slashes);
        lemma_no_query_joined(dirs, s + git + slashes);
        assert(dirs + (s + git + slashes) =~= path);
        assert(no_query(seq!['/'])) by {
            if seq!['/'].contains('?') || seq!['/'].contains('#') {
                assert(seq!['/'][0] == '/');
            }
        }
        lemma_no_query_joined(scheme, host);
        lemma_no_query_joined(scheme + host, seq!['/']);
        lemma_no_query_joined(scheme + host + seq!['/'], path);
    }
    lemma_path_of_url(scheme, host, path, query);
    lemma_named_path(dirs, s, git, slashes);
    assert(repo_name(url) == Some(s));
    let rest = host + seq!['/'] + path + query;
    assert(url =~= scheme + rest);
    lemma_url_is_allowed(scheme, rest);
    lemma_clean_verdict(url, s);
}

/// An address of the form `host:path` is accepted, and named by the last
/// segment of its path in the same way. The host has no slash in it, the path
/// does not begin with a colon, and nowhere does `://` claim a scheme.
pub proof fn law_scp_addresses_are_named_by_their_last_segment(
    host: Seq<char>,
    dirs: Seq<char>,
    s: Seq<char>,
    git: Seq<char>,
    slashes: Seq<char>,
    query: Seq<char>,
)
    requires
        host.len() > 0,
        !host.contains(':'),
        !host.contains('/'),
        !host.contains('\\'),
        no_query(host),
        no_query(dirs),
        dirs.len() == 0 || dirs.last() == '/',
        (dirs + s)[0] != ':',
        is_plain_name(s),
        git == seq!['.', 'g', 'i', 't'] || (git.len() == 0 && !ends_in_git(s)),
        forall|i: int| 0 <= i < slashes.len() ==> #[trigger] slashes[i] == '/',
        is_query(query),
        is_clean(host + seq![':'] + dirs + s + git + slashes + query),
        ({
            let url = host + seq![':'] + dirs + s + git + slashes + query;
            forall|i: int|
                0 <= i && i + 2 < url.len() && #[trigger] url[i] == ':' ==> !(url[i + 1] == '/'
                    && url[i + 2] == '/')
        }),
    ensures
        clone_verdict(host + seq![':'] + dirs + s + git + slashes + query) == Ok::<
            Seq<char>,
            CloneUrlError,
        >(s),
{
    let url = host + seq![':'] + dirs + s + git + slashes + query;
    let path = dirs + (s + git) + slashes;
    let body = host + seq![':'] + path;
    lemma_scheme_literals();
    assert(body + query =~= url);
    assert(no_query(body)) by {
        lemma_named_tail(s, git, slashes);
        lemma_no_query_joined(dirs, s + git + slashes);
        assert(dirs + (s + git + slashes) =~= path);
        assert(no_query(seq![':'])) by {
            if seq![':'].contains('?') || seq![':'].contains('#') {
                assert(seq![':'][0] == ':');
            }
        }
        lemma_no_query_joined(host, seq![':']);
        lemma_no_query_joined(host + seq![':'], path);
    }
    lemma_before_a_query(body, query);
    crate::text::lemma_first_sub(body, "://"@);
    assert(first_sub(body, "://"@) is None) by {
        if first_sub(body, "://"@) is Some {
            let i = first_sub(body, "://"@)->0;
            assert(crate::text::occurs_at(body, "://"@, i));
            let part = body.subrange(i, i + 3);
            assert(part[0] == ':' && part[1] == '/' && part[2] == '/');
            assert(url[i] == body[i] && url[i + 1] == body[i + 1] && url[i + 2] == body[i + 2]);
        }
    }
    let h = host.len() as int;
    lemma_first_index(body, ':');
    lemma_first_index(url, ':');
    assert(body[h] == ':' && url[h] == ':');
    assert(body.contains(':') && url.contains(':'));
    assert(first_index(body, ':') == Some(h)) by {
        let i = first_index(body, ':')->0;
        if i < h {
            assert(body[i] == host[i]);
            assert(host.contains(':'));
        }
    }
    assert(first_index(url, ':') == Some(h)) by {
        let i = first_index(url, ':')->0;
        if i < h {
            assert(url[i] == host[i]);
            assert(host.contains(':'));
        }
    }
    assert(body.skip(h + 1) =~= path);
    assert(remote_path(url) == Some(path));
    lemma_named_path(dirs, s, git, slashes);
    assert(repo_name(url) == Some(s));
    let lower = ascii_lowered(url);
    assert(!occurs(lower, "://"@)) by {
        if occurs(lower, "://"@) {
            let i = choose|i: int| #[trigger] crate::text::occurs_at(lower, "://"@, i);
            let part = lower.subrange(i, i + 3);
            assert(part[0] == ':' && part[1] == '/' && part[2] == '/');
            assert(lower[i] == ascii_small(url[i]) && lower[i + 1] == ascii_small(url[i + 1])
                && lower[i + 2] == ascii_small(url[i + 2]));
            assert(url[i] == ':');
        }
    }
    assert(url.take(h) =~= host);
    assert(url.skip(h + 1)[0] == (dirs + s)[0]) by {
        assert(url[h + 1] == (dirs + s)[0]);
    }
    assert(scp_like(url));
    lemma_clean_verdict(url, s);
}

/// White space around an address means nothing. Of what is left, nothing at
/// all, more than two thousand and forty-eight bytes, and a control character
/// are each refused as such, in this order.
pub proof fn law_unusable_addresses_are_refused_as_such(url: Seq<char>)
    ensures
        ({
            let plain = trim_text(url);
            let controlled = exists|i: int|
                0 <= i < plain.len() && ((#[trigger] plain[i] as u32) < 0x20 || 0x7f
                    <= plain[i] as u32 <= 0x9f);
            &&& clone_verdict(url) == Err::<Seq<char>, CloneUrlError>(CloneUrlError::Empty)
                <==> plain.len() == 0
            &&& clone_verdict(url) == Err::<Seq<char>, CloneUrlError>(CloneUrlError::TooLong)
                <==> plain.len() > 0 && encode_utf8(plain).len() > 2048
            &&& clone_verdict(url) == Err::<Seq<char>, CloneUrlError>(CloneUrlError::Control)
                <==> plain.len() > 0 && encode_utf8(plain).len() <= 2048 && controlled
        }),
        clone_verdict(trim_text(url)) == clone_verdict(url),
{
    let plain = trim_text(url);
    if plain.len() > 0 {
        crate::text::lemma_trimmed_ends(url);
        crate::text::law_trimmed_texts_stay(plain);
    }
    let controlled = exists|i: int|
        0 <= i < plain.len() && ((#[trigger] plain[i] as u32) < 0x20 || 0x7f <= plain[i] as u32
            <= 0x9f);
    if controlled {
        let i = choose|i: int|
            0 <= i < plain.len() && ((#[trigger] plain[i] as u32) < 0x20 || 0x7f
                <= plain[i] as u32 <= 0x9f);
        assert(is_ctrl(plain[i]));
    }
    if exists|i: int| 0 <= i < plain.len() && is_ctrl(#[trigger] plain[i]) {
        let i = choose|i: int| 0 <= i < plain.len() && is_ctrl(#[trigger] plain[i]);
        assert((plain[i] as u32) < 0x20 || 0x7f <= plain[i] as u32 <= 0x9f);
    }
}

/// The last sixty-four kilobytes of a stream are kept, and all of a shorter one.
pub proof fn law_the_end_of_a_stream_is_kept(bytes: Seq<u8>)
    ensures
        bytes.len() <= 65536 ==> tail(bytes) == bytes,
        bytes.len() > 65536 ==> tail(bytes).len() == 65536,
        forall|i: int|
            0 <= i < tail(bytes).len() ==> #[trigger] tail(bytes)[i] == bytes[bytes.len()
                - tail(bytes).len() + i],
{
}

/// The address and the place that is cloned into are the last two arguments, as
/// they are, behind the mark that ends the options.
pub proof fn law_addresses_are_never_options(url: Seq<char>, dest: Seq<u8>)
    ensures
        ({
            let args = clone_argv(url, dest);
            let n = args.len() as int;
            &&& n == 8
            &&& args[n - 1] == dest
            &&& args[n - 2] == encode_utf8(url)
            &&& args[n - 3] == encode_utf8("--"@)
            &&& args[n - 4] == encode_utf8("clone"@)
            &&& args[0] == encode_utf8("-c"@) && args[1] == encode_utf8("http.lowSpeedLimit=1024"@)
            &&& args[2] == encode_utf8("-c"@) && args[3] == encode_utf8("http.lowSpeedTime=60"@)
        }),
{
}

/// A failed clone says the last line that git wrote and that has something in
/// it, or that it failed where git wrote nothing; a successful one says nothing.
pub proof fn law_failed_clones_say_the_last_line(
    run: CloneRun,
    before: Seq<char>,
    line: Seq<char>,
)
    requires
        line.len() > 0,
        !crate::text::is_space(line[0]),
        !crate::text::is_space(line.last()),
        !line.contains('\n'),
        before.len() == 0 || before.last() == '\n',
        before.len() > 0 ==> !crate::text::is_space(before[0]),
    ensures
        run matches CloneRun::Ended { success, stderr } ==> {
            &&& success ==> clone_outcome(run) is None
            &&& !success && trim_text(stderr@) == before + line ==> clone_outcome(run) == Some(line)
            &&& !success && trim_text(stderr@).len() == 0 ==> clone_outcome(run) == Some(
                "git clone failed"@,
            )
        },
        run matches CloneRun::NotStarted(reason) ==> clone_outcome(run) == Some(
            "could not run git: "@ + reason@,
        ),
        run matches CloneRun::NotAwaited(reason) ==> clone_outcome(run) == Some(
            "could not wait for git: "@ + reason@,
        ),
        run is NotInstalled ==> clone_outcome(run) == Some(
            "git is not installed or not on PATH"@,
        ),
{
    let text = before + line;
    crate::text::lemma_last_index(text, '\n');
    let n = before.len() as int;
    assert(forall|i: int| n <= i < text.len() ==> #[trigger] text[i] == line[i - n]);
    assert forall|i: int| n <= i < text.len() implies #[trigger] text[i] != '\n' by {
        assert(line.contains(line[i - n]));
    }
    if n == 0 {
        assert(text =~= line);
        if text.contains('\n') {
            let i = choose|i: int| 0 <= i < text.len() && text[i] == '\n';
            assert(text[i] != '\n');
        }
    } else {
        assert(text[n - 1] == '\n');
        assert(text.contains('\n'));
        assert(last_index(text, '\n') == Some(n - 1));
        assert(text.skip(n) =~= line);
    }
}

/// Nothing is accepted but an address under one of the four schemes, in any
/// case, and one of the form `host:path` that claims no scheme: with a host in
/// which no slash stands, and a path that does not begin with a colon.
pub proof fn law_nothing_else_is_accepted(url: Seq<char>) -> (n: int)
    requires
        clone_verdict(url) is Ok,
    ensures
        ({
            let plain = trim_text(url);
            let claims = exists|i: int|
                0 <= i && i + 2 < plain.len() && #[trigger] plain[i] == ':' && plain[i + 1] == '/'
                    && plain[i + 2] == '/';
            &&& claims ==> 0 < n < plain.len() && spells_scheme(plain.take(n))
            &&& !claims ==> {
                &&& 0 < n < plain.len() - 1
                &&& plain[n] == ':'
                &&& plain[n + 1] != ':'
                &&& forall|i: int|
                    0 <= i < n ==> #[trigger] plain[i] != ':' && plain[i] != '/' && plain[i] != '\\'
            }
        }),
{
    let plain = trim_text(url);
    let lower = ascii_lowered(plain);
    lemma_scheme_literals();
    assert(lower.len() == plain.len());
    assert(forall|i: int| 0 <= i < plain.len() ==> #[trigger] lower[i] == ascii_small(plain[i]));
    let claims = exists|i: int|
        0 <= i && i + 2 < plain.len() && #[trigger] plain[i] == ':' && plain[i + 1] == '/'
            && plain[i + 2] == '/';
    if claims {
        let i = choose|i: int|
            0 <= i && i + 2 < plain.len() && #[trigger] plain[i] == ':' && plain[i + 1] == '/'
                && plain[i + 2] == '/';
        assert(lower[i] == ':' && lower[i + 1] == '/' && lower[i + 2] == '/');
        assert(lower.subrange(i, i + 3) =~= "://"@);
        assert(crate::text::occurs_at(lower, "://"@, i));
        if under_scheme(plain, "https://"@) {
            lemma_scheme_spelled(plain, "https://"@);
            8
        } else if under_scheme(plain, "http://"@) {
            lemma_scheme_spelled(plain, "http://"@);
            7
        } else if under_scheme(plain, "ssh://"@) {
            lemma_scheme_spelled(plain, "ssh://"@);
            6
        } else {
            assert(under_scheme(plain, "git+ssh://"@));
            lemma_scheme_spelled(plain, "git+ssh://"@);
            10
        }
    } else {
        if occurs(lower, "://"@) {
            let i = choose|i: int| #[trigger] crate::text::occurs_at(lower, "://"@, i);
            let part = lower.subrange(i, i + 3);
            assert(part[0] == ':' && part[1] == '/' && part[2] == '/');
            assert(lower[i] == ':' && lower[i + 1] == '/' && lower[i + 2] == '/');
            assert(plain[i] == ':');
        }
        assert(scp_like(plain));
        let n = first_index(plain, ':')->0;
        lemma_first_index(plain, ':');
        let host = plain.take(n);
        assert(plain.skip(n + 1)[0] == plain[n + 1]);
        assert forall|i: int| 0 <= i < n implies #[trigger] plain[i] != ':' && plain[i] != '/'
            && plain[i] != '\\' by {
            assert(host[i] == plain[i]);
            assert(host.contains(host[i]));
        }
        n
    }
}

proof fn lemma_scheme_spelled(url: Seq<char>, small: Seq<char>)
    requires
        under_scheme(url, small),
        forall|i: int| 0 <= i < small.len() ==> !('A' <= #[trigger] small[i] <= 'Z'),
    ensures
        spells(url.take(small.len() as int), small),
{
    let lower = ascii_lowered(url);
    let head = url.take(small.len() as int);
    assert forall|i: int| 0 <= i < small.len() implies (#[trigger] head[i] == small[i] || ('a'
        <= small[i] <= 'z' && head[i] as u32 + 32 == small[i] as u32)) by {
        assert(lower.subrange(0, small.len() as int)[i] == small[i]);
        assert(lower[i] == ascii_small(url[i]));
    }
}

/// An address whose last segment begins with a dot names no repository.
pub proof fn law_hidden_names_are_refused(
    scheme: Seq<char>,
    host: Seq<char>,
    dirs: Seq<char>,
    s: Seq<char>,
    slashes: Seq<char>,
    query: Seq<char>,
)
    requires
        spells_scheme(scheme),
        !host.contains('/'),
        no_query(host),
        no_query(dirs),
        dirs.len() == 0 || dirs.last() == '/',
        s.len() > 0,
        s[0] == '.',
        !s.contains('/'),
        no_query(s),
        forall|i: int| 0 <= i < slashes.len() ==> #[trigger] slashes[i] == '/',
        is_query(query),
        is_clean(scheme + host + seq!['/'] + (dirs + s + slashes) + query),
    ensures
        clone_verdict(scheme + host + seq!['/'] + (dirs + s + slashes) + query) == Err::<
            Seq<char>,
            CloneUrlError,
        >(CloneUrlError::NoName),
{
    let path = dirs + s + slashes;
    let url = scheme + host + seq!['/'] + path + query;
    lemma_scheme_shape(scheme);
    assert(no_query(slashes)) by {
        if slashes.contains('?') {
            let i = choose|i: int| 0 <= i < slashes.len() && slashes[i] == '?';
            assert(slashes[i] == '/');
        }
        if slashes.contains('#') {
            let i = choose|i: int| 0 <= i < slashes.len() && slashes[i] == '#';
            assert(slashes[i] == '/');
        }
    }
    assert(no_query(seq!['/'])) by {
        if seq!['/'].contains('?') || seq!['/'].contains('#') {
            assert(seq!['/'][0] == '/');
        }
    }
    lemma_no_query_joined(dirs, s);
    lemma_no_query_joined(dirs + s, slashes);
    lemma_no_query_joined(scheme, host);
    lemma_no_query_joined(scheme + host, seq!['/']);
    lemma_no_query_joined(scheme + host + seq!['/'], path);
    lemma_path_of_url(scheme, host, path, query);
    lemma_segment(dirs, s, slashes);
    reveal_strlit(".git");
    if has_suffix(s, ".git"@) && s.len() > 4 {
        assert(without_git(s)[0] == s[0]);
    }
    assert(repo_name(url) is None);
    let rest = host + seq!['/'] + path + query;
    assert(url =~= scheme + rest);
    lemma_url_is_allowed(scheme, rest);
    crate::text::law_trimmed_texts_stay(url);
    assert forall|i: int| 0 <= i < url.len() implies !is_ctrl(#[trigger] url[i]) by {}
}

} // verus!

//! Paths as the system has them: bytes, which need not be text.
//!
//! The separator and the dot are single bytes that stand for nothing else, so
//! such a path is taken apart as a text is that has one character for each byte.

use crate::paths::{
    is_filler, joined, lemma_trimmed_name, name_of, parent, parent_text, parse, part_models,
    parts_of, reextended, renamed, rest_from, rest_text, stem_of, trimmed, with_extension, Part,
    PartModel,
};
use crate::text::{
    chars_of, from_utf8_lossy, last_index, lemma_last_index, lossy_text, string_of,
};
use vstd::prelude::*;
use vstd::utf8::{decode_utf8, encode_utf8, valid_utf8};

verus! {

/// A path as the system has it.
#[derive(Debug, Clone, PartialEq, Eq)]
pub struct NativePath {
    pub bytes: Vec<u8>,
}

/// Whether bytes spell `text`.
pub fn same_bytes(bytes: &[u8], text: &str) -> (r: bool)
    ensures
        r == (bytes@ == encode_utf8(text@)),
{
    let other = text.as_bytes();
    if bytes.len() != other.len() {
        return false;
    }
    let mut i: usize = 0;
    while i < bytes.len()
        invariant
            i <= bytes@.len(),
            bytes@.len() == other@.len(),
            other@ == encode_utf8(text@),
            forall|k: int| 0 <= k < i ==> bytes@[k] == other@[k],
        decreases bytes.len() - i,
    {
        if bytes[i] != other[i] {
            return false;
        }
        i += 1;
    }
    proof {
        assert(bytes@ =~= other@);
    }
    true
}

/// A copy of bytes.
pub fn copy_bytes(bytes: &[u8]) -> (r: Vec<u8>)
    ensures
        r@ == bytes@,
{
    let mut out: Vec<u8> = Vec::new();
    out.extend_from_slice(bytes);
    proof {
        assert(out@ =~= bytes@);
    }
    out
}

impl View for NativePath {
    type V = Seq<u8>;

    open spec fn view(&self) -> Seq<u8> {
        self.bytes@
    }
}

/// A character for each byte.
pub open spec fn spelled(bytes: Seq<u8>) -> Seq<char> {
    bytes.map_values(|b: u8| b as char)
}

/// A byte for each character.
pub open spec fn bytes_of(chars: Seq<char>) -> Seq<u8> {
    chars.map_values(|c: char| c as u8)
}

fn spell(bytes: &[u8]) -> (r: String)
    ensures
        r@ == spelled(bytes@),
{
    let mut chars: Vec<char> = Vec::new();
    let mut i: usize = 0;
    while i < bytes.len()
        invariant
            i <= bytes@.len(),
            chars@ == spelled(bytes@).take(i as int),
        decreases bytes.len() - i,
    {
        chars.push(bytes[i] as char);
        proof {
            assert(chars@ =~= spelled(bytes@).take(i + 1));
        }
        i += 1;
    }
    proof {
        assert(chars@ =~= spelled(bytes@));
    }
    string_of(&chars)
}

fn unspell(text: &str) -> (r: Vec<u8>)
    ensures
        r@ == bytes_of(text@),
{
    let chars = chars_of(text);
    let mut bytes: Vec<u8> = Vec::new();
    let mut i: usize = 0;
    while i < chars.len()
        invariant
            i <= chars@.len(),
            bytes@ == bytes_of(chars@).take(i as int),
        decreases chars.len() - i,
    {
        bytes.push(#[verifier::truncate] (chars[i] as u8));
        proof {
            assert(bytes@ =~= bytes_of(chars@).take(i + 1));
        }
        i += 1;
    }
    proof {
        assert(bytes@ =~= bytes_of(chars@));
    }
    bytes
}

/// The path `rel` seen from `base`: `rel` itself where it is absolute, and else
/// behind `base`, with a separator between them where `base` has none.
pub open spec fn native_joined(base: Seq<u8>, rel: Seq<u8>) -> Seq<u8> {
    if rel.len() > 0 && rel[0] == 47 {
        rel
    } else if base.len() == 0 || base.last() == 47 {
        base + rel
    } else {
        base.push(47) + rel
    }
}

/// The directory that holds a path.
pub open spec fn native_parent(path: Seq<u8>) -> Option<Seq<u8>> {
    match parent_text(spelled(path)) {
        Some(up) => Some(bytes_of(up)),
        None => None,
    }
}

/// The components of a path.
pub open spec fn native_parts(path: Seq<u8>) -> Seq<PartModel> {
    parts_of(spelled(path))
}

/// A path from its component `k` on.
pub open spec fn native_rest(path: Seq<u8>, k: nat) -> Seq<u8> {
    bytes_of(rest_text(spelled(path), k))
}

/// What a program is run with, as plain values: bytes, which need not be text.
pub open spec fn raw(args: Seq<Vec<u8>>) -> Seq<Seq<u8>> {
    args.map_values(|a: Vec<u8>| a@)
}

/// Paths as plain values.
pub open spec fn raw_paths(paths: Seq<NativePath>) -> Seq<Seq<u8>> {
    paths.map_values(|p: NativePath| p@)
}

/// A path with the extension of its file name replaced.
pub open spec fn native_reextended(path: Seq<u8>, ext: Seq<u8>) -> Seq<u8> {
    bytes_of(reextended(spelled(path), spelled(ext)))
}

impl NativePath {
    /// The path that `text` spells.
    pub fn of_text(text: &str) -> (r: NativePath)
        ensures
            r@ == encode_utf8(text@),
    {
        NativePath { bytes: copy_bytes(text.as_bytes()) }
    }

    pub fn duplicate(&self) -> (r: NativePath)
        ensures
            r@ == self@,
    {
        NativePath { bytes: copy_bytes(self.bytes.as_slice()) }
    }

    /// The path `rel` seen from here.
    pub fn join(&self, rel: &str) -> (r: NativePath)
        ensures
            r@ == native_joined(self@, encode_utf8(rel@)),
    {
        let back = rel.as_bytes();
        let n: usize = self.bytes.len();
        if back.len() > 0 && back[0] == 47 {
            return NativePath { bytes: copy_bytes(back) };
        }
        let mut bytes = copy_bytes(self.bytes.as_slice());
        if n > 0 && self.bytes[n - 1] != 47 {
            bytes.push(47);
        }
        bytes.extend_from_slice(back);
        proof {
            assert(bytes@ =~= native_joined(self@, back@));
        }
        NativePath { bytes }
    }

    /// The directory that holds it.
    pub fn parent(&self) -> (r: Option<NativePath>)
        ensures
            match r {
                Some(up) => native_parent(self@) == Some(up@),
                None => native_parent(self@) is None,
            },
    {
        match parent(spell(self.bytes.as_slice()).as_str()) {
            Some(up) => Some(NativePath { bytes: unspell(up.as_str()) }),
            None => None,
        }
    }

    /// Its components.
    pub fn parts(&self) -> (r: Vec<Part>)
        ensures
            part_models(r@) == native_parts(self@),
    {
        parse(spell(self.bytes.as_slice()).as_str())
    }

    /// The path from its component `k` on.
    pub fn rest_from(&self, k: usize) -> (r: NativePath)
        ensures
            r@ == native_rest(self@, k as nat),
    {
        let rest = rest_from(spell(self.bytes.as_slice()).as_str(), k);
        NativePath { bytes: unspell(rest.as_str()) }
    }

    /// The path with the extension of its file name replaced.
    pub fn with_extension(&self, ext: &str) -> (r: NativePath)
        ensures
            r@ == native_reextended(self@, encode_utf8(ext@)),
    {
        let ext = spell(ext.as_bytes());
        let text = with_extension(spell(self.bytes.as_slice()).as_str(), ext.as_str());
        NativePath { bytes: unspell(text.as_str()) }
    }

    /// The path as it is shown: what is not text in it is replaced.
    pub fn shown(&self) -> (r: String)
        ensures
            r@ == lossy_text(self@),
            valid_utf8(self@) ==> r@ == decode_utf8(self@),
    {
        from_utf8_lossy(self.bytes.as_slice())
    }
}

/// Whether every character stands for one byte.
pub open spec fn is_spelling(s: Seq<char>) -> bool {
    forall|i: int| 0 <= i < s.len() ==> '\0' <= #[trigger] s[i] <= '\u{ff}'
}

proof fn lemma_spelling(bytes: Seq<u8>)
    ensures
        is_spelling(spelled(bytes)),
{
}

proof fn lemma_spelling_is_kept(s: Seq<char>)
    requires
        is_spelling(s),
    ensures
        spelled(bytes_of(s)) == s,
{
    assert forall|i: int| 0 <= i < s.len() implies spelled(bytes_of(s))[i] == s[i] by {
        let c = s[i];
        assert(c as u8 as char == c);
    }
    assert(spelled(bytes_of(s)) =~= s);
}

proof fn lemma_trimmed_is_spelling(s: Seq<char>)
    requires
        is_spelling(s),
    ensures
        is_spelling(trimmed(s)),
    decreases s.len(),
{
    lemma_last_index(s, '/');
    match last_index(s, '/') {
        Some(i) if is_filler(s.skip(i + 1)) => {
            if i > 0 {
                lemma_trimmed_is_spelling(s.take(i));
            }
        },
        _ => {},
    }
}

/// A path is put together as its spelling is.
pub proof fn law_paths_are_put_together_as_spelled(base: Seq<u8>, rel: Seq<u8>)
    ensures
        spelled(native_joined(base, rel)) == joined(spelled(base), spelled(rel)),
{
    reveal_strlit("/");
    assert(spelled(native_joined(base, rel)) =~= joined(spelled(base), spelled(rel)));
}

/// A path is taken apart as its spelling is: its directory and its other
/// extension, spelled, are those of its spelling.
pub proof fn law_paths_are_taken_apart_as_spelled(path: Seq<u8>, ext: Seq<u8>)
    ensures
        match native_parent(path) {
            Some(up) => parent_text(spelled(path)) == Some(spelled(up)),
            None => parent_text(spelled(path)) is None,
        },
        spelled(native_reextended(path, ext)) == reextended(spelled(path), spelled(ext)),
{
    let s = spelled(path);
    let t = trimmed(s);
    lemma_spelling(path);
    lemma_spelling(ext);
    lemma_trimmed_is_spelling(s);
    lemma_last_index(t, '/');
    reveal_strlit("/");
    reveal_strlit(".");
    if let Some(up) = parent_text(s) {
        match last_index(t, '/') {
            Some(i) if i > 0 => {
                lemma_trimmed_is_spelling(t.take(i));
            },
            _ => {},
        }
        assert(is_spelling(up));
        lemma_spelling_is_kept(up);
    }
    let other = reextended(s, spelled(ext));
    if let Some(name) = name_of(parts_of(s)) {
        lemma_trimmed_name(s);
        lemma_last_index(name, '.');
        let front = t.take(t.len() - name.len());
        assert(is_spelling(name)) by {
            assert forall|i: int| 0 <= i < name.len() implies '\0'
                <= #[trigger] name[i] <= '\u{ff}' by {
                assert(name[i] == t[t.len() - name.len() + i]);
            }
        }
        assert(is_spelling(stem_of(name)));
        assert(is_spelling(renamed(name, spelled(ext))));
        assert(is_spelling(front));
        assert(other == front + renamed(name, spelled(ext)));
    }
    assert(is_spelling(other));
    lemma_spelling_is_kept(other);
}

/// Spelling a path out loses nothing.
pub proof fn law_spelling_is_undone(bytes: Seq<u8>)
    ensures
        bytes_of(spelled(bytes)) == bytes,
{
    assert forall|i: int| 0 <= i < bytes.len() implies bytes_of(spelled(bytes))[i] == bytes[i] by {
        let b = bytes[i];
        assert(b as char as u8 == b);
    }
    assert(bytes_of(spelled(bytes)) =~= bytes);
}

/// A path joined to a base lies below it: behind the base and one slash, which
/// is not doubled. An absolute path stands for itself.
pub proof fn law_joined_paths_lie_below(base: Seq<u8>, rel: Seq<u8>)
    ensures
        rel.len() > 0 && rel[0] == 47 ==> native_joined(base, rel) == rel,
        !(rel.len() > 0 && rel[0] == 47) && base.len() > 0 && base.last() != 47 ==> native_joined(
            base,
            rel,
        ) == base + seq![47u8] + rel,
        !(rel.len() > 0 && rel[0] == 47) && (base.len() == 0 || base.last() == 47)
            ==> native_joined(base, rel) == base + rel,
{
    assert(base.push(47) =~= base + seq![47u8]);
}

} // verus!

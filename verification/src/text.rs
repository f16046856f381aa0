//! Text as sequences of characters: the few operations on strings that the
//! rest of the crate is specified with.

use vstd::prelude::*;
use vstd::utf8::{decode_utf8, valid_utf8};

verus! {

/// `String::push` appends one character at the end.
pub assume_specification[ String::push ](s: &mut String, c: char)
    ensures
        final(s)@ == old(s)@.push(c),
;

/// The contents of a list of strings.
pub open spec fn texts(v: Seq<String>) -> Seq<Seq<char>> {
    v.map_values(|s: String| s@)
}

/// The characters of `s`, in order.
pub fn chars_of(s: &str) -> (r: Vec<char>)
    ensures
        r@ == s@,
{
    let mut out: Vec<char> = Vec::new();
    for c in it: s.chars()
        invariant
            out@ == it.seq().take(it.index() as int),
            it.seq() == s@,
    {
        proof {
            assert(it.seq().take(it.index() as int).push(c) =~= it.seq().take(it.index() + 1));
        }
        out.push(c);
    }
    proof {
        assert(s@.take(s@.len() as int) =~= s@);
    }
    out
}

/// The string made of `chars`.
pub fn string_of(chars: &[char]) -> (r: String)
    ensures
        r@ == chars@,
{
    let mut out = String::new();
    let mut i: usize = 0;
    while i < chars.len()
        invariant
            i <= chars.len(),
            out@ == chars@.take(i as int),
        decreases chars.len() - i,
    {
        out.push(chars[i]);
        proof {
            assert(chars@.take(i as int).push(chars@[i as int]) =~= chars@.take(i + 1));
        }
        i += 1;
    }
    proof {
        assert(chars@.take(i as int) =~= chars@);
    }
    out
}

/// The characters of `chars` from `from` up to `to`.
pub fn part_of(chars: &[char], from: usize, to: usize) -> (r: Vec<char>)
    requires
        from <= to <= chars@.len(),
    ensures
        r@ == chars@.subrange(from as int, to as int),
{
    let mut out: Vec<char> = Vec::new();
    let mut i: usize = from;
    while i < to
        invariant
            from <= i <= to <= chars@.len(),
            out@ == chars@.subrange(from as int, i as int),
        decreases to - i,
    {
        out.push(chars[i]);
        proof {
            assert(chars@.subrange(from as int, i as int).push(chars@[i as int])
                =~= chars@.subrange(from as int, i + 1));
        }
        i += 1;
    }
    out
}

/// Whether two character lists are the same text.
pub fn same_chars(a: &[char], b: &[char]) -> (r: bool)
    ensures
        r == (a@ == b@),
{
    if a.len() != b.len() {
        return false;
    }
    let mut i: usize = 0;
    while i < a.len()
        invariant
            i <= a.len(),
            a.len() == b.len(),
            a@.take(i as int) == b@.take(i as int),
        decreases a.len() - i,
    {
        if a[i] != b[i] {
            return false;
        }
        proof {
            assert(a@.take(i + 1) =~= a@.take(i as int).push(a@[i as int]));
            assert(b@.take(i + 1) =~= b@.take(i as int).push(b@[i as int]));
        }
        i += 1;
    }
    proof {
        assert(a@.take(i as int) =~= a@);
        assert(b@.take(i as int) =~= b@);
    }
    true
}

/// Whether two strings are the same text.
pub fn same_text(a: &str, b: &str) -> (r: bool)
    ensures
        r == (a@ == b@),
{
    let x = chars_of(a);
    let y = chars_of(b);
    same_chars(&x, &y)
}

/// Whether `needle` stands in `hay` from `i` on.
pub open spec fn occurs_at(hay: Seq<char>, needle: Seq<char>, i: int) -> bool {
    0 <= i && i + needle.len() <= hay.len() && hay.subrange(i, i + needle.len()) == needle
}

/// Whether `needle` stands somewhere in `hay`.
pub open spec fn occurs(hay: Seq<char>, needle: Seq<char>) -> bool {
    exists|i: int| #[trigger] occurs_at(hay, needle, i)
}

/// Whether `needle` stands in `hay` from `at` on.
pub fn stands_at(hay: &[char], needle: &[char], at: usize) -> (r: bool)
    requires
        at <= hay@.len(),
    ensures
        r == occurs_at(hay@, needle@, at as int),
{
    if needle.len() > hay.len() - at {
        return false;
    }
    let mut k: usize = 0;
    while k < needle.len()
        invariant
            k <= needle@.len(),
            at + needle@.len() <= hay.len(),
            forall|j: int| 0 <= j < k ==> hay@[at + j] == needle@[j],
        decreases needle.len() - k,
    {
        if hay[at + k] != needle[k] {
            proof {
                assert(hay@.subrange(at as int, at + needle@.len())[k as int] != needle@[k as int]);
            }
            return false;
        }
        k += 1;
    }
    proof {
        assert(hay@.subrange(at as int, at + needle@.len()) =~= needle@);
    }
    true
}

/// Whether `needle` stands somewhere in `hay`.
pub fn contains_sub(hay: &[char], needle: &[char]) -> (r: bool)
    ensures
        r == occurs(hay@, needle@),
{
    let mut i: usize = 0;
    loop
        invariant
            i <= hay@.len(),
            forall|k: int| 0 <= k < i ==> !#[trigger] occurs_at(hay@, needle@, k),
        decreases hay.len() - i,
    {
        if stands_at(hay, needle, i) {
            return true;
        }
        if i == hay.len() {
            proof {
                assert forall|k: int| !#[trigger] occurs_at(hay@, needle@, k) by {
                    if k > i {
                        assert(k + needle@.len() > hay@.len());
                    }
                }
            }
            return false;
        }
        i += 1;
    }
}

/// Where `needle` first stands in `hay`.
pub open spec fn first_sub(hay: Seq<char>, needle: Seq<char>) -> Option<int>
    decreases hay.len(),
{
    if occurs_at(hay, needle, 0) {
        Some(0)
    } else if hay.len() == 0 {
        None
    } else {
        match first_sub(hay.skip(1), needle) {
            Some(i) => Some(i + 1),
            None => None,
        }
    }
}

proof fn lemma_occurs_skip(hay: Seq<char>, needle: Seq<char>, i: int)
    requires
        hay.len() > 0,
        i >= 0,
    ensures
        occurs_at(hay.skip(1), needle, i) <==> occurs_at(hay, needle, i + 1),
{
    if i + 1 + needle.len() <= hay.len() {
        assert(hay.skip(1).subrange(i, i + needle.len()) =~= hay.subrange(
            i + 1,
            i + 1 + needle.len(),
        ));
    }
}

pub proof fn lemma_first_sub(hay: Seq<char>, needle: Seq<char>)
    ensures
        match first_sub(hay, needle) {
            Some(i) => occurs_at(hay, needle, i) && forall|k: int|
                0 <= k < i ==> !#[trigger] occurs_at(hay, needle, k),
            None => !occurs(hay, needle),
        },
    decreases hay.len(),
{
    if !occurs_at(hay, needle, 0) && hay.len() > 0 {
        lemma_first_sub(hay.skip(1), needle);
        match first_sub(hay.skip(1), needle) {
            Some(i) => {
                lemma_occurs_skip(hay, needle, i);
                assert forall|k: int| 0 <= k < i + 1 implies !#[trigger] occurs_at(hay, needle, k) by {
                    if k > 0 {
                        lemma_occurs_skip(hay, needle, k - 1);
                    }
                }
            },
            None => {
                assert forall|k: int| !#[trigger] occurs_at(hay, needle, k) by {
                    if k > 0 {
                        lemma_occurs_skip(hay, needle, k - 1);
                    }
                }
            },
        }
    } else if !occurs_at(hay, needle, 0) {
        assert forall|k: int| !#[trigger] occurs_at(hay, needle, k) by {}
    }
}

/// Where `needle` first stands in `hay`.
pub fn find_sub(hay: &[char], needle: &[char]) -> (r: Option<usize>)
    ensures
        match r {
            Some(i) => first_sub(hay@, needle@) == Some(i as int) && i + needle@.len()
                <= hay@.len(),
            None => first_sub(hay@, needle@) is None,
        },
{
    let mut i: usize = 0;
    proof {
        lemma_first_sub(hay@, needle@);
    }
    loop
        invariant
            i <= hay@.len(),
            forall|k: int| 0 <= k < i ==> !#[trigger] occurs_at(hay@, needle@, k),
            match first_sub(hay@, needle@) {
                Some(i) => occurs_at(hay@, needle@, i) && forall|k: int|
                    0 <= k < i ==> !#[trigger] occurs_at(hay@, needle@, k),
                None => !occurs(hay@, needle@),
            },
        decreases hay.len() - i,
    {
        if stands_at(hay, needle, i) {
            return Some(i);
        }
        if i == hay.len() {
            return None;
        }
        i += 1;
    }
}

/// The pieces of `s` between the occurrences of `sep`, found from the left.
pub open spec fn pieces_by(s: Seq<char>, sep: Seq<char>) -> Seq<Seq<char>>
    decreases s.len(),
{
    match first_sub(s, sep) {
        Some(i) if 0 <= i && sep.len() > 0 && i + sep.len() <= s.len() => seq![s.take(i)]
            + pieces_by(s.skip(i + sep.len()), sep),
        _ => seq![s],
    }
}

/// The pieces of `chars` between the occurrences of `sep`.
pub fn split_sub(chars: &[char], sep: &[char]) -> (r: Vec<String>)
    requires
        sep@.len() > 0,
    ensures
        texts(r@) == pieces_by(chars@, sep@),
{
    let mut out: Vec<String> = Vec::new();
    let mut start: usize = 0;
    proof {
        assert(chars@.skip(0) =~= chars@);
        assert(texts(out@) + pieces_by(chars@, sep@) =~= pieces_by(chars@, sep@));
    }
    loop
        invariant
            sep@.len() > 0,
            start <= chars@.len(),
            texts(out@) + pieces_by(chars@.skip(start as int), sep@) == pieces_by(chars@, sep@),
        decreases chars.len() - start,
    {
        let rest = part_of(chars, start, chars.len());
        let ghost before = texts(out@);
        proof {
            assert(rest@ =~= chars@.skip(start as int));
            lemma_first_sub(rest@, sep@);
        }
        match find_sub(&rest, sep) {
            Some(i) => {
                let piece = part_of(&rest, 0, i);
                proof {
                    assert(piece@ =~= rest@.take(i as int));
                    assert(rest@.skip(i + sep@.len()) =~= chars@.skip(start + i + sep@.len()));
                }
                out.push(string_of(&piece));
                proof {
                    assert(texts(out@) =~= before.push(piece@));
                    assert(before.push(piece@) + pieces_by(rest@.skip(i + sep@.len()), sep@)
                        =~= before + (seq![rest@.take(i as int)] + pieces_by(
                        rest@.skip(i + sep@.len()),
                        sep@,
                    )));
                }
                start = start + i + sep.len();
            },
            None => {
                out.push(string_of(&rest));
                proof {
                    assert(texts(out@) =~= before.push(rest@));
                    assert(before.push(rest@) =~= before + seq![rest@]);
                }
                return out;
            },
        }
    }
}

/// `s` with every occurrence of `from`, found from the left, made `to`.
pub open spec fn replaced(s: Seq<char>, from: Seq<char>, to: Seq<char>) -> Seq<char>
    decreases s.len(),
{
    match first_sub(s, from) {
        Some(i) if 0 <= i && from.len() > 0 && i + from.len() <= s.len() => s.take(i) + to
            + replaced(s.skip(i + from.len()), from, to),
        _ => s,
    }
}

/// `chars` with every occurrence of `from` made `to`.
pub fn replace_sub(chars: &[char], from: &[char], to: &str) -> (r: String)
    requires
        from@.len() > 0,
    ensures
        r@ == replaced(chars@, from@, to@),
{
    let mut out = String::new();
    let mut start: usize = 0;
    proof {
        assert(chars@.skip(0) =~= chars@);
        assert(out@ + replaced(chars@, from@, to@) =~= replaced(chars@, from@, to@));
    }
    loop
        invariant
            from@.len() > 0,
            start <= chars@.len(),
            out@ + replaced(chars@.skip(start as int), from@, to@) == replaced(
                chars@,
                from@,
                to@,
            ),
        decreases chars.len() - start,
    {
        let rest = part_of(chars, start, chars.len());
        let ghost before = out@;
        proof {
            assert(rest@ =~= chars@.skip(start as int));
            lemma_first_sub(rest@, from@);
        }
        match find_sub(&rest, from) {
            Some(i) => {
                let piece = part_of(&rest, 0, i);
                proof {
                    assert(piece@ =~= rest@.take(i as int));
                    assert(rest@.skip(i + from@.len()) =~= chars@.skip(start + i + from@.len()));
                }
                out = out.concat(string_of(&piece).as_str()).concat(to);
                proof {
                    let after = replaced(rest@.skip(i + from@.len()), from@, to@);
                    assert(out@ + after =~= before + (rest@.take(i as int) + to@ + after));
                }
                start = start + i + from.len();
            },
            None => {
                return out.concat(string_of(&rest).as_str());
            },
        }
    }
}

/// `c` with an ASCII capital made small.
pub open spec fn ascii_small(c: char) -> char {
    if 'A' <= c <= 'Z' {
        (c as u32 + 32) as char
    } else {
        c
    }
}

/// `s` with its ASCII capitals made small.
pub open spec fn ascii_lowered(s: Seq<char>) -> Seq<char> {
    s.map_values(|c: char| ascii_small(c))
}

/// `c` with an ASCII capital made small.
pub fn small_char(c: char) -> (r: char)
    ensures
        r == ascii_small(c),
{
    if 'A' <= c && c <= 'Z' {
        (c as u8 + 32) as char
    } else {
        c
    }
}

/// `chars` with the ASCII capitals made small.
pub fn ascii_lower(chars: &[char]) -> (r: Vec<char>)
    ensures
        r@ == ascii_lowered(chars@),
{
    let mut out: Vec<char> = Vec::new();
    let mut i: usize = 0;
    while i < chars.len()
        invariant
            i <= chars@.len(),
            out@ == ascii_lowered(chars@.take(i as int)),
        decreases chars.len() - i,
    {
        out.push(small_char(chars[i]));
        proof {
            assert(ascii_lowered(chars@.take(i + 1)) =~= ascii_lowered(chars@.take(i as int)).push(
                ascii_small(chars@[i as int]),
            ));
        }
        i += 1;
    }
    proof {
        assert(chars@.take(i as int) =~= chars@);
    }
    out
}

/// What `String::from_utf8_lossy` makes of bytes: the text, with what is not
/// UTF-8 replaced.
pub uninterp spec fn lossy_text(bytes: Seq<u8>) -> Seq<char>;

/// `String::from_utf8_lossy`. What is UTF-8 stays the text that it is.
#[verifier::external_body]
pub(crate) fn from_utf8_lossy(bytes: &[u8]) -> (r: String)
    ensures
        r@ == lossy_text(bytes@),
        valid_utf8(bytes@) ==> r@ == decode_utf8(bytes@),
{
    String::from_utf8_lossy(bytes).into_owned()
}

/// Whether `s` begins with `prefix`.
pub open spec fn has_prefix(s: Seq<char>, prefix: Seq<char>) -> bool {
    occurs_at(s, prefix, 0)
}

/// Whether `s` ends with `suffix`.
pub open spec fn has_suffix(s: Seq<char>, suffix: Seq<char>) -> bool {
    occurs_at(s, suffix, s.len() - suffix.len())
}

pub fn starts_with(s: &[char], prefix: &[char]) -> (r: bool)
    ensures
        r == has_prefix(s@, prefix@),
{
    stands_at(s, prefix, 0)
}

pub fn ends_with(s: &[char], suffix: &[char]) -> (r: bool)
    ensures
        r == has_suffix(s@, suffix@),
{
    if suffix.len() > s.len() {
        return false;
    }
    stands_at(s, suffix, s.len() - suffix.len())
}

/// Where `c` first stands in `s`.
pub open spec fn first_index(s: Seq<char>, c: char) -> Option<int>
    decreases s.len(),
{
    if s.len() == 0 {
        None
    } else if s[0] == c {
        Some(0)
    } else {
        match first_index(s.skip(1), c) {
            Some(i) => Some(i + 1),
            None => None,
        }
    }
}

/// Where `c` last stands in `s`.
pub open spec fn last_index(s: Seq<char>, c: char) -> Option<int>
    decreases s.len(),
{
    if s.len() == 0 {
        None
    } else if s.last() == c {
        Some(s.len() - 1)
    } else {
        last_index(s.drop_last(), c)
    }
}

pub proof fn lemma_first_index(s: Seq<char>, c: char)
    ensures
        match first_index(s, c) {
            Some(i) => 0 <= i < s.len() && s[i] == c && forall|k: int| 0 <= k < i ==> s[k] != c,
            None => !s.contains(c),
        },
    decreases s.len(),
{
    if s.len() > 0 && s[0] != c {
        lemma_first_index(s.skip(1), c);
        if let Some(i) = first_index(s.skip(1), c) {
            assert forall|k: int| 0 <= k < i + 1 implies s[k] != c by {
                if k > 0 {
                    assert(s.skip(1)[k - 1] == s[k]);
                }
            }
        } else if s.contains(c) {
            let k = choose|k: int| 0 <= k < s.len() && s[k] == c;
            assert(s.skip(1)[k - 1] == c);
        }
    }
}

pub proof fn lemma_last_index(s: Seq<char>, c: char)
    ensures
        match last_index(s, c) {
            Some(i) => 0 <= i < s.len() && s[i] == c && forall|k: int|
                i < k < s.len() ==> s[k] != c,
            None => !s.contains(c),
        },
    decreases s.len(),
{
    if s.len() > 0 && s.last() != c {
        lemma_last_index(s.drop_last(), c);
        if let Some(i) = last_index(s.drop_last(), c) {
            assert forall|k: int| i < k < s.len() implies s[k] != c by {
                if k < s.len() - 1 {
                    assert(s.drop_last()[k] == s[k]);
                }
            }
        } else if s.contains(c) {
            let k = choose|k: int| 0 <= k < s.len() && s[k] == c;
            assert(s.drop_last()[k] == c);
        }
    }
}

/// Where `c` first stands in `chars`.
pub fn find_char(chars: &[char], c: char) -> (r: Option<usize>)
    ensures
        match r {
            Some(i) => first_index(chars@, c) == Some(i as int),
            None => first_index(chars@, c) is None,
        },
        r matches Some(i) ==> i < chars@.len(),
{
    let mut i: usize = 0;
    while i < chars.len()
        invariant
            i <= chars@.len(),
            forall|k: int| 0 <= k < i ==> chars@[k] != c,
        decreases chars.len() - i,
    {
        if chars[i] == c {
            proof {
                lemma_first_index(chars@, c);
                assert(chars@.contains(c));
            }
            return Some(i);
        }
        i += 1;
    }
    proof {
        lemma_first_index(chars@, c);
    }
    None
}

/// Where `c` last stands in `chars`.
pub fn rfind_char(chars: &[char], c: char) -> (r: Option<usize>)
    ensures
        match r {
            Some(i) => last_index(chars@, c) == Some(i as int),
            None => last_index(chars@, c) is None,
        },
        r matches Some(i) ==> i < chars@.len(),
{
    let mut n: usize = chars.len();
    while n > 0
        invariant
            n <= chars@.len(),
            forall|k: int| n <= k < chars@.len() ==> chars@[k] != c,
        decreases n,
    {
        if chars[n - 1] == c {
            proof {
                lemma_last_index(chars@, c);
                assert(chars@.contains(c));
            }
            return Some(n - 1);
        }
        n -= 1;
    }
    proof {
        lemma_last_index(chars@, c);
    }
    None
}

/// The pieces of `s` between the occurrences of `c`.
pub open spec fn pieces(s: Seq<char>, c: char) -> Seq<Seq<char>>
    decreases s.len(),
{
    match last_index(s, c) {
        Some(i) if 0 <= i < s.len() => pieces(s.take(i), c).push(s.skip(i + 1)),
        _ => seq![s],
    }
}

/// The pieces of `chars` between the occurrences of `c`.
pub fn split_char(chars: &[char], c: char) -> (r: Vec<String>)
    ensures
        texts(r@) == pieces(chars@, c),
    decreases chars@.len(),
{
    match rfind_char(chars, c) {
        Some(i) => {
            proof {
                lemma_last_index(chars@, c);
                assert(i < chars.len());
            }
            let head = part_of(chars, 0, i);
            let tail = part_of(chars, i + 1, chars.len());
            proof {
                assert(head@ =~= chars@.take(i as int));
                assert(tail@ =~= chars@.skip(i + 1));
            }
            let mut out = split_char(&head, c);
            let ghost before = out@;
            out.push(string_of(&tail));
            proof {
                assert(texts(out@) =~= texts(before).push(tail@));
            }
            out
        },
        None => {
            let mut out: Vec<String> = Vec::new();
            out.push(string_of(chars));
            proof {
                assert(texts(out@) =~= seq![chars@]);
            }
            out
        },
    }
}

/// What `str::to_lowercase` makes of a text: every character in lower case by
/// Unicode's rules.
pub uninterp spec fn lowercased(s: Seq<char>) -> Seq<char>;

/// `str::to_lowercase`. Every character gives one or more, so that only an empty
/// text becomes empty.
#[verifier::external_body]
pub(crate) fn to_lowercase(s: &str) -> (r: String)
    ensures
        r@ == lowercased(s@),
        r@.len() == 0 <==> s@.len() == 0,
{
    s.to_lowercase()
}

/// Whether `c` is white space in Unicode's sense.
pub open spec fn is_space(c: char) -> bool {
    let n = c as u32;
    ||| 0x9 <= n <= 0xd
    ||| n == 0x20
    ||| n == 0x85
    ||| n == 0xa0
    ||| n == 0x1680
    ||| 0x2000 <= n <= 0x200a
    ||| n == 0x2028
    ||| n == 0x2029
    ||| n == 0x202f
    ||| n == 0x205f
    ||| n == 0x3000
}

/// Whether `c` is white space in Unicode's sense.
pub fn is_whitespace(c: char) -> (r: bool)
    ensures
        r == is_space(c),
{
    let n: u32 = c as u32;
    (0x9 <= n && n <= 0xd) || n == 0x20 || n == 0x85 || n == 0xa0 || n == 0x1680 || (0x2000 <= n
        && n <= 0x200a) || n == 0x2028 || n == 0x2029 || n == 0x202f || n == 0x205f || n == 0x3000
}

/// Whether `c` is a control character (Unicode's category Cc).
pub open spec fn is_ctrl(c: char) -> bool {
    let n = c as u32;
    n <= 0x1f || 0x7f <= n <= 0x9f
}

/// Whether `c` is a control character (Unicode's category Cc).
pub fn is_control(c: char) -> (r: bool)
    ensures
        r == is_ctrl(c),
{
    let n: u32 = c as u32;
    n <= 0x1f || (0x7f <= n && n <= 0x9f)
}

/// `s` without the white space at its start.
pub open spec fn trim_start_text(s: Seq<char>) -> Seq<char>
    decreases s.len(),
{
    if s.len() > 0 && is_space(s[0]) {
        trim_start_text(s.skip(1))
    } else {
        s
    }
}

/// `s` without the white space at its end.
pub open spec fn trim_end_text(s: Seq<char>) -> Seq<char>
    decreases s.len(),
{
    if s.len() > 0 && is_space(s.last()) {
        trim_end_text(s.drop_last())
    } else {
        s
    }
}

/// `s` without the white space at either end.
pub open spec fn trim_text(s: Seq<char>) -> Seq<char> {
    trim_end_text(trim_start_text(s))
}

/// `chars` without the white space at its start.
pub fn trim_start(chars: &[char]) -> (r: Vec<char>)
    ensures
        r@ == trim_start_text(chars@),
{
    let mut i: usize = 0;
    proof {
        assert(chars@.skip(0) =~= chars@);
    }
    while i < chars.len() && is_whitespace(chars[i])
        invariant
            i <= chars@.len(),
            trim_start_text(chars@) == trim_start_text(chars@.skip(i as int)),
        decreases chars.len() - i,
    {
        proof {
            assert(chars@.skip(i as int).skip(1) =~= chars@.skip(i + 1));
        }
        i += 1;
    }
    let r = part_of(chars, i, chars.len());
    proof {
        assert(r@ =~= chars@.skip(i as int));
    }
    r
}

/// `chars` without the white space at its end.
pub fn trim_end(chars: &[char]) -> (r: Vec<char>)
    ensures
        r@ == trim_end_text(chars@),
{
    let mut n: usize = chars.len();
    proof {
        assert(chars@.take(n as int) =~= chars@);
    }
    while n > 0 && is_whitespace(chars[n - 1])
        invariant
            n <= chars@.len(),
            trim_end_text(chars@) == trim_end_text(chars@.take(n as int)),
        decreases n,
    {
        proof {
            assert(chars@.take(n as int).drop_last() =~= chars@.take(n - 1));
        }
        n -= 1;
    }
    let r = part_of(chars, 0, n);
    proof {
        assert(r@ =~= chars@.take(n as int));
    }
    r
}

/// `chars` without the white space at either end.
pub fn trim(chars: &[char]) -> (r: Vec<char>)
    ensures
        r@ == trim_text(chars@),
{
    let front = trim_start(chars);
    trim_end(&front)
}

/// A trimmed text neither starts nor ends with white space.
pub proof fn lemma_trimmed_ends(s: Seq<char>)
    ensures
        trim_text(s).len() > 0 ==> !is_space(trim_text(s)[0]) && !is_space(trim_text(s).last()),
{
    lemma_trim_start_head(s);
    lemma_trim_end_last(trim_start_text(s));
}

proof fn lemma_trim_start_head(s: Seq<char>)
    ensures
        trim_start_text(s).len() > 0 ==> !is_space(trim_start_text(s)[0]),
    decreases s.len(),
{
    if s.len() > 0 && is_space(s[0]) {
        lemma_trim_start_head(s.skip(1));
    }
}

proof fn lemma_trim_end_last(s: Seq<char>)
    ensures
        trim_end_text(s).len() > 0 ==> !is_space(trim_end_text(s).last()),
        trim_end_text(s).len() > 0 ==> trim_end_text(s)[0] == s[0],
        trim_end_text(s).len() <= s.len(),
    decreases s.len(),
{
    if s.len() > 0 && is_space(s.last()) {
        lemma_trim_end_last(s.drop_last());
    }
}

/// Whether `p` holds of every character of `s`.
pub open spec fn all_chars(s: Seq<char>, p: spec_fn(char) -> bool) -> bool {
    forall|i: int| 0 <= i < s.len() ==> p(#[trigger] s[i])
}

/// What holds of every character of a text holds of every character of the
/// trimmed text.
pub proof fn lemma_trim_keeps(s: Seq<char>, p: spec_fn(char) -> bool)
    requires
        all_chars(s, p),
    ensures
        all_chars(trim_text(s), p),
{
    lemma_trim_start_keeps(s, p);
    lemma_trim_end_keeps(trim_start_text(s), p);
}

proof fn lemma_trim_start_keeps(s: Seq<char>, p: spec_fn(char) -> bool)
    requires
        all_chars(s, p),
    ensures
        all_chars(trim_start_text(s), p),
    decreases s.len(),
{
    if s.len() > 0 && is_space(s[0]) {
        lemma_trim_start_keeps(s.skip(1), p);
    }
}

proof fn lemma_trim_end_keeps(s: Seq<char>, p: spec_fn(char) -> bool)
    requires
        all_chars(s, p),
    ensures
        all_chars(trim_end_text(s), p),
    decreases s.len(),
{
    if s.len() > 0 && is_space(s.last()) {
        lemma_trim_end_keeps(s.drop_last(), p);
    }
}

/// `s` without its control characters.
pub open spec fn without_ctrl(s: Seq<char>) -> Seq<char> {
    s.filter(|c: char| !is_ctrl(c))
}

/// `chars` without its control characters.
pub fn without_controls(chars: &[char]) -> (r: Vec<char>)
    ensures
        r@ == without_ctrl(chars@),
{
    let mut out: Vec<char> = Vec::new();
    let mut i: usize = 0;
    let ghost keep = |c: char| !is_ctrl(c);
    proof {
        assert(chars@.take(0).filter(keep) =~= Seq::<char>::empty()) by {
            assert(chars@.take(0) =~= Seq::<char>::empty());
            reveal(Seq::filter);
        }
    }
    while i < chars.len()
        invariant
            i <= chars@.len(),
            keep == (|c: char| !is_ctrl(c)),
            out@ == chars@.take(i as int).filter(keep),
        decreases chars.len() - i,
    {
        proof {
            assert(chars@.take(i + 1) =~= chars@.take(i as int).push(chars@[i as int]));
            chars@.take(i as int).lemma_filter_push(chars@[i as int], keep);
        }
        if !is_control(chars[i]) {
            out.push(chars[i]);
        }
        i += 1;
    }
    proof {
        assert(chars@.take(i as int) =~= chars@);
    }
    out
}

/// The decimal digits of `n`, most significant first, with no leading zero.
pub open spec fn decimal_text(n: nat) -> Seq<char>
    decreases n,
{
    if n < 10 {
        seq![digit_char(n)]
    } else {
        decimal_text(n / 10).push(digit_char(n % 10))
    }
}

/// The character of one decimal digit.
pub open spec fn digit_char(d: nat) -> char {
    (48 + d) as char
}

/// Decimal text is made of the digits `0` to `9`.
pub proof fn lemma_decimal_digits(n: nat)
    ensures
        all_chars(decimal_text(n), |c: char| 48 <= c as u32 <= 57),
        decimal_text(n).len() > 0,
    decreases n,
{
    if n >= 10 {
        lemma_decimal_digits(n / 10);
    }
}

fn digit_of(d: u64) -> (r: char)
    requires
        d < 10,
    ensures
        r == digit_char(d as nat),
{
    (48u8 + d as u8) as char
}

/// `n` written in decimal.
pub fn decimal(n: u64) -> (r: String)
    ensures
        r@ == decimal_text(n as nat),
    decreases n,
{
    if n < 10 {
        let mut out = String::new();
        out.push(digit_of(n));
        proof {
            assert(out@ =~= decimal_text(n as nat));
        }
        out
    } else {
        let mut out = decimal(n / 10);
        out.push(digit_of(n % 10));
        out
    }
}

/// `n` written in decimal.
pub fn decimal_usize(n: usize) -> (r: String)
    ensures
        r@ == decimal_text(n as nat),
{
    decimal(n as u64)
}

/// The white space at either end of a text, all of it and nothing else, is what
/// trimming takes off.
pub proof fn law_trimming_takes_the_white_space_at_the_ends(s: Seq<char>) -> (cut: (int, int))
    ensures
        0 <= cut.0 <= cut.1 <= s.len(),
        trim_text(s) == s.subrange(cut.0, cut.1),
        forall|i: int| 0 <= i < cut.0 ==> is_space(#[trigger] s[i]),
        forall|i: int| cut.1 <= i < s.len() ==> is_space(#[trigger] s[i]),
        cut.0 < cut.1 ==> !is_space(s[cut.0]) && !is_space(s[cut.1 - 1]),
{
    let a = lemma_trim_start_cut(s);
    let rest = s.skip(a);
    let b = lemma_trim_end_cut(rest);
    assert(rest.take(b) =~= s.subrange(a, a + b));
    assert forall|i: int| a + b <= i < s.len() implies is_space(#[trigger] s[i]) by {
        assert(rest[i - a] == s[i]);
    }
    if b > 0 {
        assert(rest[0] == s[a] && rest[b - 1] == s[a + b - 1]);
    }
    (a, a + b)
}

proof fn lemma_trim_start_cut(s: Seq<char>) -> (a: int)
    ensures
        0 <= a <= s.len(),
        trim_start_text(s) == s.skip(a),
        forall|i: int| 0 <= i < a ==> is_space(#[trigger] s[i]),
        a < s.len() ==> !is_space(s[a]),
    decreases s.len(),
{
    if s.len() > 0 && is_space(s[0]) {
        let a = lemma_trim_start_cut(s.skip(1));
        assert(s.skip(1).skip(a) =~= s.skip(a + 1));
        assert forall|i: int| 0 <= i < a + 1 implies is_space(#[trigger] s[i]) by {
            if i > 0 {
                assert(s.skip(1)[i - 1] == s[i]);
            }
        }
        if a + 1 < s.len() {
            assert(s.skip(1)[a] == s[a + 1]);
        }
        a + 1
    } else {
        assert(s.skip(0) =~= s);
        0
    }
}

proof fn lemma_trim_end_cut(s: Seq<char>) -> (b: int)
    ensures
        0 <= b <= s.len(),
        trim_end_text(s) == s.take(b),
        forall|i: int| b <= i < s.len() ==> is_space(#[trigger] s[i]),
        b > 0 ==> !is_space(s[b - 1]),
    decreases s.len(),
{
    if s.len() > 0 && is_space(s.last()) {
        let b = lemma_trim_end_cut(s.drop_last());
        assert(s.drop_last().take(b) =~= s.take(b));
        assert forall|i: int| b <= i < s.len() implies is_space(#[trigger] s[i]) by {
            if i < s.len() - 1 {
                assert(s.drop_last()[i] == s[i]);
            }
        }
        b
    } else {
        assert(s.take(s.len() as int) =~= s);
        s.len() as int
    }
}

/// A text that neither begins nor ends with white space is left as it is.
pub proof fn law_trimmed_texts_stay(s: Seq<char>)
    requires
        s.len() > 0,
        !is_space(s[0]),
        !is_space(s.last()),
    ensures
        trim_text(s) == s,
{
}

/// White space is what Unicode counts as such, control characters are those of
/// its category Cc.
pub proof fn law_character_classes(c: char)
    ensures
        is_space(c) <==> c == ' ' || c == '\t' || c == '\n' || c as u32 == 0xb || c as u32 == 0xc
            || c == '\r' || c as u32 == 0x85 || c as u32 == 0xa0 || c as u32 == 0x1680 || 0x2000
            <= c as u32 <= 0x200a || c as u32 == 0x2028 || c as u32 == 0x2029 || c as u32 == 0x202f
            || c as u32 == 0x205f || c as u32 == 0x3000,
        is_ctrl(c) <==> (c as u32) < 0x20 || c as u32 == 0x7f || 0x80 <= c as u32 <= 0x9f,
        'A' <= c <= 'Z' ==> ascii_small(c) as u32 == c as u32 + 32,
        !('A' <= c <= 'Z') ==> ascii_small(c) == c,
{
}

/// A text without the separator is one piece, and each separator begins another
/// piece.
pub proof fn law_each_separator_begins_a_piece(s: Seq<char>, c: char, last: Seq<char>)
    requires
        !last.contains(c),
    ensures
        pieces(last, c) == seq![last],
        pieces(s.push(c) + last, c) == pieces(s, c).push(last),
{
    lemma_last_index(last, c);
    let all = s.push(c) + last;
    lemma_last_index(all, c);
    let n = s.len() as int;
    assert(all[n] == c);
    assert(all.contains(c));
    let i = last_index(all, c)->0;
    assert(i == n) by {
        if i > n {
            assert(last[i - n - 1] == c);
        }
    }
    assert(all.take(n) =~= s);
    assert(all.skip(n + 1) =~= last);
}

/// The pieces of a text are the parts of it without a separator that a
/// separator, or an end of the text, bounds on either side.
pub proof fn law_pieces_lie_between_separators(s: Seq<char>, c: char, p: Seq<char>)
    ensures
        pieces(s, c).contains(p) <==> !p.contains(c) && exists|i: int| #[trigger]
            occurs_at(s, p, i) && (i == 0 || s[i - 1] == c) && (i + p.len() == s.len() || s[i
                + p.len()] == c),
    decreases s.len(),
{
    lemma_last_index(s, c);
    match last_index(s, c) {
        Some(n) => {
            let front = s.take(n);
            let last = s.skip(n + 1);
            law_pieces_lie_between_separators(front, c, p);
            assert(!last.contains(c)) by {
                if last.contains(c) {
                    let k = choose|k: int| 0 <= k < last.len() && last[k] == c;
                    assert(s[n + 1 + k] == c);
                }
            }
            let before = pieces(front, c);
            let all = before.push(last);
            assert(pieces(s, c) == all);
            assert(all.contains(p) <==> before.contains(p) || p == last) by {
                if before.contains(p) {
                    let k = choose|k: int| 0 <= k < before.len() && before[k] == p;
                    assert(all[k] == p);
                }
                if p == last {
                    assert(all[before.len() as int] == p);
                }
                if all.contains(p) {
                    let k = choose|k: int| 0 <= k < all.len() && all[k] == p;
                    if k < before.len() {
                        assert(before[k] == p);
                    }
                }
            }
            if before.contains(p) {
                let i = choose|i: int| #[trigger]
                    occurs_at(front, p, i) && (i == 0 || front[i - 1] == c) && (i + p.len()
                        == front.len() || front[i + p.len()] == c);
                assert(s.subrange(i, i + p.len()) =~= front.subrange(i, i + p.len()));
                assert(occurs_at(s, p, i));
            }
            if p == last {
                assert(s.subrange(n + 1, n + 1 + p.len()) =~= p);
                assert(occurs_at(s, p, n + 1));
            }
            if !p.contains(c) && exists|i: int| #[trigger]
                occurs_at(s, p, i) && (i == 0 || s[i - 1] == c) && (i + p.len() == s.len() || s[i
                    + p.len()] == c) {
                let i = choose|i: int| #[trigger]
                    occurs_at(s, p, i) && (i == 0 || s[i - 1] == c) && (i + p.len() == s.len()
                        || s[i + p.len()] == c);
                let end = i + p.len();
                if i > n {
                    if i > n + 1 {
                        assert(s[i - 1] != c);
                    }
                    assert(i == n + 1);
                    assert(end == s.len()) by {
                        if end < s.len() {
                            assert(s[end] != c);
                        }
                    }
                    assert(p =~= last);
                } else {
                    if end > n {
                        assert(p[n - i] == s[n]);
                        assert(p.contains(c));
                    }
                    assert(front.subrange(i, end) =~= s.subrange(i, end));
                    assert(occurs_at(front, p, i));
                    assert(end == front.len() || front[end] == c);
                }
            }
        },
        None => {
            let all = pieces(s, c);
            assert(all == seq![s]);
            if all.contains(p) {
                assert(p == s);
                assert(s.subrange(0, s.len() as int) =~= s);
                assert(occurs_at(s, p, 0));
            }
            if exists|i: int| #[trigger]
                occurs_at(s, p, i) && (i == 0 || s[i - 1] == c) && (i + p.len() == s.len() || s[i
                    + p.len()] == c) {
                let i = choose|i: int| #[trigger]
                    occurs_at(s, p, i) && (i == 0 || s[i - 1] == c) && (i + p.len() == s.len()
                        || s[i + p.len()] == c);
                if i > 0 {
                    assert(s.contains(s[i - 1]));
                }
                if i + p.len() < s.len() {
                    assert(s.contains(s[i + p.len()]));
                }
                assert(p =~= s);
                assert(all[0] == p);
            }
        },
    }
}

/// Up to where a separator first stands a text is one piece; the rest is split
/// in the same way. Where replacing, that piece stays and the separator gives
/// way to the other text.
pub proof fn law_splitting_goes_from_the_front(
    front: Seq<char>,
    sep: Seq<char>,
    rest: Seq<char>,
    to: Seq<char>,
)
    requires
        sep.len() > 0,
        forall|i: int| 0 <= i < front.len() ==> !(#[trigger] occurs_at(front + sep + rest, sep, i)),
    ensures
        pieces_by(front + sep + rest, sep) == seq![front] + pieces_by(rest, sep),
        replaced(front + sep + rest, sep, to) == front + to + replaced(rest, sep, to),
{
    let all = front + sep + rest;
    let n = front.len() as int;
    lemma_first_sub(all, sep);
    assert(all.subrange(n, n + sep.len()) =~= sep);
    assert(occurs_at(all, sep, n));
    assert(first_sub(all, sep) == Some(n)) by {
        let i = first_sub(all, sep)->0;
        if i < n {
            assert(occurs_at(all, sep, i));
        }
    }
    assert(all.take(n) =~= front);
    assert(all.skip(n + sep.len()) =~= rest);
}

/// A text in which a separator does not stand is one piece, and nothing in it
/// is replaced.
pub proof fn law_texts_without_the_separator_stay(s: Seq<char>, sep: Seq<char>, to: Seq<char>)
    requires
        !occurs(s, sep),
    ensures
        pieces_by(s, sep) == seq![s],
        replaced(s, sep, to) == s,
{
    lemma_first_sub(s, sep);
}

/// The number that decimal digits stand for.
pub open spec fn number_of(digits: Seq<char>) -> nat
    decreases digits.len(),
{
    if digits.len() == 0 {
        0
    } else {
        number_of(digits.drop_last()) * 10 + (digits.last() as u32 - 48) as nat
    }
}

/// The decimal text of a number stands for that number, in digits, without a
/// zero in front.
pub proof fn law_decimal_text_stands_for_its_number(n: nat)
    ensures
        number_of(decimal_text(n)) == n,
        forall|i: int| 0 <= i < decimal_text(n).len() ==> '0' <= #[trigger] decimal_text(n)[i] <= '9',
        decimal_text(n).len() > 0,
        decimal_text(n).len() > 1 ==> decimal_text(n)[0] != '0',
    decreases n,
{
    if n < 10 {
        let one = decimal_text(n);
        assert(one.drop_last() =~= Seq::<char>::empty());
        assert(number_of(one.drop_last()) == 0);
    } else {
        law_decimal_text_stands_for_its_number(n / 10);
        let s = decimal_text(n);
        let front = decimal_text(n / 10);
        assert(s.drop_last() =~= front);
        assert(s.last() as u32 == 48 + n % 10);
        assert(s[0] == front[0]);
        if front.len() == 1 {
            assert(front.drop_last() =~= Seq::<char>::empty());
            assert(number_of(front.drop_last()) == 0);
            assert(number_of(front) == (front[0] as u32 - 48) as nat);
        }
    }
}

/// One text stands in another at a place exactly where each of its characters
/// does, counted from there.
pub proof fn law_standing_character_by_character(hay: Seq<char>, needle: Seq<char>, at: int)
    ensures
        occurs_at(hay, needle, at) <==> 0 <= at && at + needle.len() <= hay.len() && forall|i: int|
            0 <= i < needle.len() ==> hay[at + i] == #[trigger] needle[i],
        has_prefix(hay, needle) <==> needle.len() <= hay.len() && forall|i: int|
            0 <= i < needle.len() ==> hay[i] == #[trigger] needle[i],
        has_suffix(hay, needle) <==> needle.len() <= hay.len() && forall|i: int|
            0 <= i < needle.len() ==> hay[hay.len() - needle.len() + i] == #[trigger] needle[i],
{
    lemma_stands(hay, needle, at);
    lemma_stands(hay, needle, 0);
    lemma_stands(hay, needle, hay.len() - needle.len());
}

proof fn lemma_stands(hay: Seq<char>, needle: Seq<char>, at: int)
    ensures
        occurs_at(hay, needle, at) <==> 0 <= at && at + needle.len() <= hay.len() && forall|i: int|
            0 <= i < needle.len() ==> hay[at + i] == #[trigger] needle[i],
{
    if 0 <= at && at + needle.len() <= hay.len() {
        let part = hay.subrange(at, at + needle.len());
        if part == needle {
            assert forall|i: int| 0 <= i < needle.len() implies hay[at + i] == #[trigger] needle[i] by {
                assert(part[i] == hay[at + i]);
            }
        }
        if forall|i: int| 0 <= i < needle.len() ==> hay[at + i] == #[trigger] needle[i] {
            assert(part =~= needle);
        }
    }
}

} // verus!

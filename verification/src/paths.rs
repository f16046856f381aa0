//! Paths as texts with `/` between their names, and the components that a path is
//! made of. A path that is put together or taken apart keeps the text it was
//! given.
//!
//! Repeated separators, a trailing one, and `.` anywhere but at the start
//! make no component.

use crate::text::{
    chars_of, find_char, first_index, last_index, lemma_first_index, lemma_last_index, part_of,
    pieces, rfind_char, same_text, split_char, string_of, texts,
};
use vstd::prelude::*;

verus! {

/// One component of a path.
#[derive(Debug)]
pub enum Part {
    /// The root directory, at the start of an absolute path.
    Root,
    /// A `.` at the start.
    Here,
    /// A `..`.
    Up,
    Name(String),
}

#[verifier::ext_equal]
pub enum PartModel {
    Root,
    Here,
    Up,
    Name(Seq<char>),
}

impl Part {
    pub open spec fn model(&self) -> PartModel {
        match self {
            Part::Root => PartModel::Root,
            Part::Here => PartModel::Here,
            Part::Up => PartModel::Up,
            Part::Name(name) => PartModel::Name(name@),
        }
    }

    pub fn same(&self, other: &Part) -> (r: bool)
        ensures
            r == (self.model() == other.model()),
    {
        match (self, other) {
            (Part::Root, Part::Root) => true,
            (Part::Here, Part::Here) => true,
            (Part::Up, Part::Up) => true,
            (Part::Name(a), Part::Name(b)) => same_text(a.as_str(), b.as_str()),
            _ => false,
        }
    }

    pub fn duplicate(&self) -> (r: Part)
        ensures
            r.model() == self.model(),
    {
        match self {
            Part::Root => Part::Root,
            Part::Here => Part::Here,
            Part::Up => Part::Up,
            Part::Name(name) => Part::Name(name.clone()),
        }
    }
}

/// The components of a list as plain values.
pub open spec fn part_models(parts: Seq<Part>) -> Seq<PartModel> {
    parts.map_values(|p: Part| p.model())
}

/// The component that a name between two separators makes, if any. `first`
/// says whether nothing stands before it.
pub open spec fn part_at(name: Seq<char>, first: bool) -> Option<PartModel> {
    if name.len() == 0 {
        None
    } else if name == "."@ {
        if first {
            Some(PartModel::Here)
        } else {
            None
        }
    } else if name == ".."@ {
        Some(PartModel::Up)
    } else {
        Some(PartModel::Name(name))
    }
}

/// The components that names make, in order.
pub open spec fn parts_from(names: Seq<Seq<char>>, absolute: bool) -> Seq<PartModel>
    decreases names.len(),
{
    if names.len() == 0 {
        if absolute {
            seq![PartModel::Root]
        } else {
            Seq::empty()
        }
    } else {
        let before = parts_from(names.drop_last(), absolute);
        match part_at(names.last(), before.len() == 0) {
            Some(part) => before.push(part),
            None => before,
        }
    }
}

/// The components of the path `s`.
pub open spec fn parts_of(s: Seq<char>) -> Seq<PartModel> {
    parts_from(pieces(s, '/'), s.len() > 0 && s[0] == '/')
}

/// The components of the path `s`.
pub fn parse(s: &str) -> (r: Vec<Part>)
    ensures
        part_models(r@) == parts_of(s@),
{
    let chars = chars_of(s);
    let names = split_char(&chars, '/');
    let absolute = chars.len() > 0 && chars[0] == '/';
    let ghost all = texts(names@);
    let mut out: Vec<Part> = Vec::new();
    if absolute {
        out.push(Part::Root);
    }
    proof {
        assert(all.take(0) =~= Seq::<Seq<char>>::empty());
        assert(part_models(out@) =~= parts_from(all.take(0), absolute));
    }
    let mut i: usize = 0;
    while i < names.len()
        invariant
            i <= names@.len(),
            all == texts(names@),
            part_models(out@) == parts_from(all.take(i as int), absolute),
        decreases names.len() - i,
    {
        let ghost before = part_models(out@);
        proof {
            assert(all.take(i + 1).drop_last() =~= all.take(i as int));
            assert(all.take(i + 1).last() == names@[i as int]@);
            assert(before.len() == out@.len());
        }
        let name = &names[i];
        if name.as_str().is_empty() {
        } else if same_text(name.as_str(), ".") {
            if out.len() == 0 {
                out.push(Part::Here);
                proof {
                    assert(part_models(out@) =~= before.push(PartModel::Here));
                }
            }
        } else if same_text(name.as_str(), "..") {
            out.push(Part::Up);
            proof {
                assert(part_models(out@) =~= before.push(PartModel::Up));
            }
        } else {
            out.push(Part::Name(name.clone()));
            proof {
                assert(part_models(out@) =~= before.push(PartModel::Name(name@)));
            }
        }
        i += 1;
    }
    proof {
        assert(all.take(i as int) =~= all);
    }
    out
}

/// Whether a name behind a separator makes no component.
pub open spec fn is_filler(name: Seq<char>) -> bool {
    name.len() == 0 || name == "."@
}

/// A path's text without what makes no component at its end.
pub open spec fn trimmed(s: Seq<char>) -> Seq<char>
    decreases s.len(),
{
    match last_index(s, '/') {
        Some(i) if 0 <= i < s.len() && is_filler(s.skip(i + 1)) => if i == 0 {
            s.take(1)
        } else {
            trimmed(s.take(i))
        },
        _ => s,
    }
}

fn trim_fillers(chars: &[char]) -> (r: Vec<char>)
    ensures
        r@ == trimmed(chars@),
    decreases chars@.len(),
{
    let n: usize = chars.len();
    proof {
        lemma_last_index(chars@, '/');
        reveal_strlit(".");
    }
    match rfind_char(chars, '/') {
        Some(i) => {
            proof {
                assert(i < n);
            }
            let filler = i + 1 == n || (i + 2 == n && chars[i + 1] == '.');
            proof {
                let name = chars@.skip(i + 1);
                if i + 2 == n && chars@[i + 1] == '.' {
                    assert(name =~= "."@);
                }
                if name == "."@ {
                    assert(name.len() == 1);
                    assert(name[0] == chars@[i + 1]);
                }
                assert(filler == is_filler(name));
            }
            if filler {
                if i == 0 {
                    let root = part_of(chars, 0, 1);
                    proof {
                        assert(root@ =~= chars@.take(1));
                    }
                    return root;
                }
                let shorter = part_of(chars, 0, i);
                proof {
                    assert(shorter@ =~= chars@.take(i as int));
                }
                return trim_fillers(&shorter);
            }
        },
        None => {},
    }
    let all = part_of(chars, 0, n);
    proof {
        assert(all@ =~= chars@);
    }
    all
}

/// The path `rel` seen from `base`: `rel` itself where it is absolute, and else
/// behind `base`, with a separator between them where `base` has none.
pub open spec fn joined(base: Seq<char>, rel: Seq<char>) -> Seq<char> {
    if rel.len() > 0 && rel[0] == '/' {
        rel
    } else if base.len() == 0 || base.last() == '/' {
        base + rel
    } else {
        base + "/"@ + rel
    }
}

/// The path `rel` seen from `base`.
pub fn join(base: &str, rel: &str) -> (r: String)
    ensures
        r@ == joined(base@, rel@),
{
    let front = chars_of(base);
    let back = chars_of(rel);
    if back.len() > 0 && back[0] == '/' {
        return rel.to_owned();
    }
    if front.len() == 0 || front[front.len() - 1] == '/' {
        return base.to_owned().concat(rel);
    }
    base.to_owned().concat("/").concat(rel)
}

/// The directory that holds a path: nothing holds the root or an empty path.
pub open spec fn parent_text(s: Seq<char>) -> Option<Seq<char>> {
    let t = trimmed(s);
    match last_index(t, '/') {
        None => if t.len() == 0 {
            None
        } else {
            Some(Seq::empty())
        },
        Some(i) => if i == 0 && t.len() == 1 {
            None
        } else if i == 0 {
            Some("/"@)
        } else {
            Some(trimmed(t.take(i)))
        },
    }
}

/// The directory that holds a path.
pub fn parent(path: &str) -> (r: Option<String>)
    ensures
        match r {
            Some(up) => parent_text(path@) == Some(up@),
            None => parent_text(path@) is None,
        },
{
    let t = trim_fillers(&chars_of(path));
    proof {
        lemma_last_index(t@, '/');
    }
    match rfind_char(&t, '/') {
        None => if t.len() == 0 {
            None
        } else {
            let none = String::new();
            proof {
                assert(none@ =~= Seq::<char>::empty());
            }
            Some(none)
        },
        Some(i) => if i == 0 && t.len() == 1 {
            None
        } else if i == 0 {
            Some("/".to_owned())
        } else {
            let up = part_of(&t, 0, i);
            proof {
                assert(up@ =~= t@.take(i as int));
            }
            Some(string_of(&trim_fillers(&up)))
        },
    }
}

/// Where the name that starts at `from` ends.
pub open spec fn name_end(s: Seq<char>, from: int) -> int {
    match first_index(s.skip(from), '/') {
        Some(i) => from + i,
        None => s.len() as int,
    }
}

/// Where the component `k` starts, where `count` components stand before `from`;
/// the end of the text where there are not so many.
pub open spec fn part_start(s: Seq<char>, from: int, count: nat, k: nat) -> int
    decreases s.len() - from,
{
    if from < 0 || from >= s.len() || name_end(s, from) < from {
        s.len() as int
    } else {
        let end = name_end(s, from);
        let there = part_at(s.subrange(from, end), count == 0) is Some;
        if there && count == k {
            from
        } else if end >= s.len() {
            s.len() as int
        } else {
            part_start(
                s,
                end + 1,
                if there {
                    count + 1
                } else {
                    count
                },
                k,
            )
        }
    }
}

/// A path's text from its component `k` on.
pub open spec fn rest_text(s: Seq<char>, k: nat) -> Seq<char> {
    let t = trimmed(s);
    if t.len() > 0 && t[0] == '/' {
        if k == 0 {
            t
        } else {
            t.skip(part_start(t, 1, 1, k))
        }
    } else {
        t.skip(part_start(t, 0, 0, k))
    }
}

proof fn lemma_part_start(s: Seq<char>, from: int, count: nat, k: nat)
    requires
        0 <= from,
    ensures
        0 <= part_start(s, from, count, k) <= s.len(),
    decreases s.len() - from,
{
    if from < s.len() && name_end(s, from) >= from {
        let end = name_end(s, from);
        let there = part_at(s.subrange(from, end), count == 0) is Some;
        if !(there && count == k) && end < s.len() {
            lemma_part_start(
                s,
                end + 1,
                if there {
                    count + 1
                } else {
                    count
                },
                k,
            );
        }
    }
}

fn find_part(chars: &[char], from: usize, count: usize, k: usize) -> (r: usize)
    requires
        from <= chars@.len(),
        count <= from,
    ensures
        r == part_start(chars@, from as int, count as nat, k as nat),
        r <= chars@.len(),
    decreases chars@.len() - from,
{
    let n: usize = chars.len();
    if from == n {
        return n;
    }
    let tail = part_of(chars, from, n);
    proof {
        assert(tail@ =~= chars@.skip(from as int));
        lemma_first_index(tail@, '/');
        lemma_part_start(chars@, from as int, count as nat, k as nat);
    }
    let end: usize = match find_char(&tail, '/') {
        Some(i) => {
            proof {
                assert(i < tail.len());
            }
            from + i
        },
        None => n,
    };
    let name = string_of(&part_of(chars, from, end));
    let there = !name.as_str().is_empty() && (count == 0 || !same_text(name.as_str(), "."));
    proof {
        reveal_strlit(".");
        reveal_strlit("..");
        assert(there == (part_at(name@, count == 0) is Some));
    }
    if there && count == k {
        return from;
    }
    if end == n {
        return n;
    }
    find_part(
        chars,
        end + 1,
        if there {
            count + 1
        } else {
            count
        },
        k,
    )
}

/// A path's text from its component `k` on.
pub fn rest_from(path: &str, k: usize) -> (r: String)
    ensures
        r@ == rest_text(path@, k as nat),
{
    let t = trim_fillers(&chars_of(path));
    let n: usize = t.len();
    let start: usize = if n > 0 && t[0] == '/' {
        if k == 0 {
            0
        } else {
            find_part(&t, 1, 1, k)
        }
    } else {
        find_part(&t, 0, 0, k)
    };
    let rest = part_of(&t, start, n);
    proof {
        assert(rest@ =~= t@.skip(start as int));
        assert(t@.skip(0) =~= t@);
    }
    string_of(&rest)
}

/// What is left of `path` below `prefix`, if it lies there.
pub open spec fn below(path: Seq<PartModel>, prefix: Seq<PartModel>) -> Option<Seq<PartModel>> {
    if prefix.len() <= path.len() && path.take(prefix.len() as int) == prefix {
        Some(path.skip(prefix.len() as int))
    } else {
        None
    }
}

/// What is left of `path` below `prefix`, if it lies there.
pub fn strip_prefix(path: &[Part], prefix: &[Part]) -> (r: Option<Vec<Part>>)
    ensures
        match r {
            Some(rest) => below(part_models(path@), part_models(prefix@)) == Some(
                part_models(rest@),
            ),
            None => below(part_models(path@), part_models(prefix@)) is None,
        },
{
    let ghost whole = part_models(path@);
    let ghost front = part_models(prefix@);
    if prefix.len() > path.len() {
        return None;
    }
    let mut i: usize = 0;
    while i < prefix.len()
        invariant
            i <= prefix@.len() <= path@.len(),
            whole == part_models(path@),
            front == part_models(prefix@),
            forall|k: int| 0 <= k < i ==> whole[k] == front[k],
        decreases prefix.len() - i,
    {
        if !path[i].same(&prefix[i]) {
            proof {
                assert(whole.take(front.len() as int)[i as int] != front[i as int]);
            }
            return None;
        }
        i += 1;
    }
    proof {
        assert(whole.take(front.len() as int) =~= front);
    }
    let rest = slice_parts(path, prefix.len(), path.len());
    proof {
        assert(part_models(rest@) =~= whole.skip(front.len() as int));
    }
    Some(rest)
}

/// The components from `from` up to `to`.
pub fn slice_parts(parts: &[Part], from: usize, to: usize) -> (r: Vec<Part>)
    requires
        from <= to <= parts@.len(),
    ensures
        part_models(r@) == part_models(parts@).subrange(from as int, to as int),
{
    let ghost all = part_models(parts@);
    let mut out: Vec<Part> = Vec::new();
    let mut i: usize = from;
    proof {
        assert(part_models(out@) =~= all.subrange(from as int, from as int));
    }
    while i < to
        invariant
            from <= i <= to <= parts@.len(),
            all == part_models(parts@),
            part_models(out@) == all.subrange(from as int, i as int),
        decreases to - i,
    {
        let ghost before = part_models(out@);
        out.push(parts[i].duplicate());
        proof {
            assert(part_models(out@) =~= before.push(all[i as int]));
            assert(all.subrange(from as int, i + 1) =~= all.subrange(from as int, i as int).push(
                all[i as int],
            ));
        }
        i += 1;
    }
    out
}

/// The name of what a path leads to.
pub open spec fn name_of(path: Seq<PartModel>) -> Option<Seq<char>> {
    if path.len() == 0 {
        None
    } else {
        match path.last() {
            PartModel::Name(name) => Some(name),
            _ => None,
        }
    }
}

/// The name of what a path leads to.
pub fn file_name(path: &[Part]) -> (r: Option<String>)
    ensures
        match r {
            Some(name) => name_of(part_models(path@)) == Some(name@),
            None => name_of(part_models(path@)) is None,
        },
{
    let n: usize = path.len();
    if n == 0 {
        return None;
    }
    proof {
        assert(part_models(path@).last() == path@[n - 1].model());
    }
    match &path[n - 1] {
        Part::Name(name) => Some(name.clone()),
        _ => None,
    }
}

/// Where the extension of a file name starts: behind its last dot, unless that
/// dot is its first character.
pub open spec fn dot_of(name: Seq<char>) -> Option<int> {
    match last_index(name, '.') {
        Some(i) if i > 0 => Some(i),
        _ => None,
    }
}

/// A file name without its extension.
pub open spec fn stem_of(name: Seq<char>) -> Seq<char> {
    match dot_of(name) {
        Some(i) => name.take(i),
        None => name,
    }
}

/// The extension of a file name.
pub open spec fn extension_of(name: Seq<char>) -> Option<Seq<char>> {
    match dot_of(name) {
        Some(i) => Some(name.skip(i + 1)),
        None => None,
    }
}

/// A file name without its extension.
pub fn file_stem(name: &str) -> (r: String)
    ensures
        r@ == stem_of(name@),
{
    let chars = chars_of(name);
    match rfind_char(&chars, '.') {
        Some(i) => {
            if i == 0 {
                return name.to_owned();
            }
            let stem = part_of(&chars, 0, i);
            proof {
                assert(stem@ =~= name@.take(i as int));
            }
            string_of(&stem)
        },
        None => name.to_owned(),
    }
}

/// The extension of a file name.
pub fn extension(name: &str) -> (r: Option<String>)
    ensures
        match r {
            Some(ext) => extension_of(name@) == Some(ext@),
            None => extension_of(name@) is None,
        },
{
    let chars = chars_of(name);
    match rfind_char(&chars, '.') {
        Some(i) => {
            if i == 0 {
                return None;
            }
            proof {
                assert(i < chars.len());
            }
            let ext = part_of(&chars, i + 1, chars.len());
            proof {
                assert(ext@ =~= name@.skip(i + 1));
            }
            Some(string_of(&ext))
        },
        None => None,
    }
}

pub proof fn lemma_trimmed_name(s: Seq<char>)
    ensures
        parts_of(trimmed(s)) == parts_of(s),
        name_of(parts_of(s)) matches Some(name) ==> name.len() <= trimmed(s).len()
            && trimmed(s).skip(trimmed(s).len() - name.len()) == name && trimmed(s).take(
            trimmed(s).len() - name.len(),
        ) == trimmed(s).take(front_len(trimmed(s))),
    decreases s.len(),
{
    lemma_last_index(s, '/');
    reveal_strlit(".");
    reveal_strlit("..");
    reveal_with_fuel(parts_from, 3);
    match last_index(s, '/') {
        None => {
            assert(s.skip(0) =~= s);
            assert(s.take(0) =~= Seq::<char>::empty());
        },
        Some(i) => {
            let t = s.take(i);
            let name = s.skip(i + 1);
            assert(pieces(s, '/') == pieces(t, '/').push(name));
            assert(pieces(t, '/').push(name).drop_last() =~= pieces(t, '/'));
            if is_filler(name) {
                if i == 0 {
                    assert(t =~= Seq::<char>::empty());
                    assert(pieces(t, '/') =~= seq![t]);
                    assert(seq![t].drop_last() =~= Seq::<Seq<char>>::empty());
                    let root = s.take(1);
                    assert(root =~= seq!['/']);
                    assert(root.drop_last() =~= t);
                    assert(root.skip(1) =~= Seq::<char>::empty());
                    assert(root.take(0) =~= t);
                    assert(last_index(root, '/') == Some(0int));
                    assert(pieces(root, '/') == pieces(t, '/').push(root.skip(1)));
                    assert(pieces(t, '/').push(root.skip(1)).drop_last() =~= pieces(t, '/'));
                    assert(parts_from(pieces(t, '/'), true) =~= seq![PartModel::Root]);
                } else {
                    lemma_parts_not_empty(t);
                    lemma_trimmed_name(t);
                    assert(t[0] == s[0]);
                }
            } else {
                assert(trimmed(s) == s);
                assert(s.len() - name.len() == i + 1);
            }
        },
    }
}

/// How much of a path's text stands before its last name.
pub open spec fn front_len(s: Seq<char>) -> int {
    match last_index(s, '/') {
        Some(i) => i + 1,
        None => 0,
    }
}

pub proof fn lemma_parts_not_empty(s: Seq<char>)
    requires
        s.len() > 0,
    ensures
        parts_of(s).len() > 0,
    decreases s.len(),
{
    lemma_last_index(s, '/');
    reveal_with_fuel(parts_from, 2);
    match last_index(s, '/') {
        None => {
            assert(pieces(s, '/') =~= seq![s]);
            assert(part_at(s, true) is Some);
            assert(s[0] != '/');
        },
        Some(i) => {
            let t = s.take(i);
            assert(pieces(t, '/').push(s.skip(i + 1)).drop_last() =~= pieces(t, '/'));
            if i == 0 {
                assert(t =~= Seq::<char>::empty());
                assert(pieces(t, '/') =~= seq![t]);
                assert(parts_from(pieces(t, '/'), true) =~= seq![PartModel::Root]);
                assert(seq![t].drop_last() =~= Seq::<Seq<char>>::empty());
            } else {
                assert(t[0] == s[0]);
                lemma_parts_not_empty(t);
            }
        },
    }
}

/// A path with the extension of its file name replaced; a path that leads to no
/// name stays as it is.
pub open spec fn reextended(s: Seq<char>, ext: Seq<char>) -> Seq<char> {
    match name_of(parts_of(s)) {
        Some(name) => trimmed(s).take(trimmed(s).len() - name.len()) + renamed(name, ext),
        None => s,
    }
}

/// A file name with its extension replaced.
pub open spec fn renamed(name: Seq<char>, ext: Seq<char>) -> Seq<char> {
    if ext.len() == 0 {
        stem_of(name)
    } else {
        stem_of(name) + "."@ + ext
    }
}

/// A path with the extension of its file name replaced.
pub fn with_extension(path: &str, ext: &str) -> (r: String)
    ensures
        r@ == reextended(path@, ext@),
{
    match file_name(parse(path).as_slice()) {
        Some(name) => {
            let t = trim_fillers(&chars_of(path));
            let size: usize = chars_of(name.as_str()).len();
            proof {
                lemma_trimmed_name(path@);
            }
            let front = part_of(&t, 0, t.len() - size);
            proof {
                assert(front@ =~= t@.take(t@.len() - size));
            }
            let stem = file_stem(name.as_str());
            let renamed = if ext.is_empty() {
                stem
            } else {
                stem.concat(".").concat(ext)
            };
            string_of(&front).concat(renamed.as_str())
        },
        None => path.to_owned(),
    }
}

/// A path with another last name leads to that name in the same directory.
pub proof fn lemma_other_name(s: Seq<char>, name: Seq<char>)
    requires
        name_of(parts_of(s)) is Some,
        name.len() > 0,
        !name.contains('/'),
        name != "."@,
        name != ".."@,
    ensures
        parts_of(trimmed(s).take(front_len(trimmed(s))) + name) == parts_of(s).drop_last().push(
            PartModel::Name(name),
        ),
{
    lemma_trimmed_name(s);
    let t = trimmed(s);
    let other = t.take(front_len(t)) + name;
    lemma_last_index(t, '/');
    lemma_last_index(other, '/');
    match last_index(t, '/') {
        None => {
            assert(other =~= name);
            assert(last_index(other, '/') is None);
            reveal_with_fuel(parts_from, 2);
            assert(pieces(t, '/') =~= seq![t]);
            assert(pieces(other, '/') =~= seq![other]);
            assert(seq![t].drop_last() =~= Seq::<Seq<char>>::empty());
            assert(seq![other].drop_last() =~= Seq::<Seq<char>>::empty());
            assert(parts_of(s).len() == 1);
            assert(parts_of(other) =~= parts_of(s).drop_last().push(PartModel::Name(name)));
        },
        Some(i) => {
            assert(other[i] == '/');
            assert(other.contains('/'));
            let j = last_index(other, '/')->0;
            assert(j == i) by {
                if j > i {
                    assert(other[j] == name[j - i - 1]);
                    assert(name.contains('/'));
                }
            }
            assert(other.take(i) =~= t.take(i));
            assert(other.skip(i + 1) =~= name);
            assert(other[0] == t[0]);
            let front = pieces(t.take(i), '/');
            assert(front.push(name).drop_last() =~= front);
            assert(front.push(t.skip(i + 1)).drop_last() =~= front);
            let absolute = t[0] == '/';
            let before = parts_from(front, absolute);
            assert(parts_of(other) == before.push(PartModel::Name(name)));
            let last = t.skip(i + 1);
            if part_at(last, before.len() == 0) is None {
                assert(parts_of(t) == before);
                let found = name_of(parts_of(s))->0;
                assert(t.len() - found.len() == i + 1) by {
                    if t.len() - found.len() != i + 1 {
                        assert(t.take(t.len() - found.len()).len() == t.take(i + 1).len());
                    }
                }
                assert(last == found);
                lemma_names_are_plain(pieces(t, '/'), absolute, parts_of(t).len() - 1);
            }
            assert(parts_of(t).drop_last() =~= before);
        },
    }
}

/// A component's name holds no separator.
pub proof fn lemma_name_holds_no_separator(s: Seq<char>)
    requires
        name_of(parts_of(s)) is Some,
    ensures
        !(name_of(parts_of(s))->0).contains('/'),
    decreases s.len(),
{
    reveal_with_fuel(parts_from, 2);
    lemma_last_index(s, '/');
    match last_index(s, '/') {
        None => {},
        Some(i) => {
            let t = s.take(i);
            let name = s.skip(i + 1);
            assert(pieces(t, '/').push(name).drop_last() =~= pieces(t, '/'));
            assert(!name.contains('/')) by {
                if name.contains('/') {
                    let k = choose|k: int| 0 <= k < name.len() && name[k] == '/';
                    assert(s[i + 1 + k] == '/');
                }
            }
            if i > 0 {
                assert(t[0] == s[0]);
                if part_at(name, parts_of(t).len() == 0) is None {
                    lemma_name_holds_no_separator(t);
                }
            } else {
                assert(t =~= Seq::<char>::empty());
                assert(pieces(t, '/') =~= seq![t]);
                assert(seq![t].drop_last() =~= Seq::<Seq<char>>::empty());
                assert(parts_from(pieces(t, '/'), true) =~= seq![PartModel::Root]);
            }
        },
    }
}

proof fn lemma_names_are_plain(names: Seq<Seq<char>>, absolute: bool, k: int)
    requires
        0 <= k < parts_from(names, absolute).len(),
    ensures
        parts_from(names, absolute)[k] matches PartModel::Name(name) ==> name.len() > 0 && name
            != "."@ && name != ".."@,
    decreases names.len(),
{
    if names.len() > 0 {
        let before = parts_from(names.drop_last(), absolute);
        if k < before.len() {
            lemma_names_are_plain(names.drop_last(), absolute, k);
        }
    }
}

proof fn lemma_pieces_cat(a: Seq<char>, b: Seq<char>)
    ensures
        pieces(a + "/"@ + b, '/') == pieces(a, '/') + pieces(b, '/'),
    decreases b.len(),
{
    reveal_strlit("/");
    let all = a + "/"@ + b;
    let n = a.len() as int;
    lemma_last_index(all, '/');
    lemma_last_index(b, '/');
    assert(all[n] == '/');
    assert(all.contains('/'));
    let j = last_index(all, '/')->0;
    match last_index(b, '/') {
        None => {
            assert(j == n) by {
                if j > n {
                    assert(all[j] == b[j - n - 1]);
                    assert(b.contains('/'));
                }
            }
            assert(all.take(n) =~= a);
            assert(all.skip(n + 1) =~= b);
            assert(pieces(all, '/') =~= pieces(a, '/') + pieces(b, '/'));
        },
        Some(i) => {
            assert(all[n + 1 + i] == b[i]);
            assert(j == n + 1 + i) by {
                if j > n + 1 + i {
                    assert(all[j] == b[j - n - 1]);
                }
            }
            assert(all.take(j) =~= a + "/"@ + b.take(i));
            assert(all.skip(j + 1) =~= b.skip(i + 1));
            lemma_pieces_cat(a, b.take(i));
            assert(pieces(all, '/') =~= pieces(a, '/') + pieces(b, '/'));
        },
    }
}

proof fn lemma_parts_cat(front: Seq<Seq<char>>, back: Seq<Seq<char>>, absolute: bool)
    requires
        parts_from(front, absolute).len() > 0,
        back.len() > 0 ==> back[0] != "."@,
        back.len() > 1 ==> back[0].len() > 0,
    ensures
        parts_from(front + back, absolute) == parts_from(front, absolute) + parts_from(back, false),
        back.len() > 0 && back[0].len() > 0 ==> parts_from(back, false).len() > 0,
    decreases back.len(),
{
    let a = parts_from(front, absolute);
    if back.len() == 0 {
        assert(front + back =~= front);
        assert(a + parts_from(back, false) =~= a);
    } else {
        let rest = back.drop_last();
        lemma_parts_cat(front, rest, absolute);
        assert((front + back).drop_last() =~= front + rest);
        assert((front + back).last() == back.last());
        if rest.len() > 0 {
            assert(rest[0] == back[0]);
        }
        assert(parts_from(front + back, absolute) =~= a + parts_from(back, false));
    }
}

/// What lies below a directory is found there again: stripping the directory
/// from a path joined to it leaves the components of that path.
pub proof fn law_strip_undoes_join(base: Seq<char>, rel: Seq<char>)
    requires
        rel.len() > 0 ==> rel[0] != '/',
        pieces(rel, '/')[0] != "."@,
    ensures
        parts_of(joined(base, rel)) == parts_of(base) + parts_of(rel),
        below(parts_of(joined(base, rel)), parts_of(base)) == Some(parts_of(rel)),
{
    let all = joined(base, rel);
    lemma_first_piece(rel);
    reveal_strlit("/");
    if base.len() == 0 {
        assert(all =~= rel);
        assert(base =~= Seq::<char>::empty());
        reveal_with_fuel(parts_from, 2);
        assert(pieces(base, '/') =~= seq![base]);
        assert(seq![base].drop_last() =~= Seq::<Seq<char>>::empty());
        assert(parts_of(base) =~= Seq::<PartModel>::empty());
        assert(parts_of(base) + parts_of(rel) =~= parts_of(rel));
    } else {
        lemma_parts_not_empty(base);
        let absolute = base[0] == '/';
        if base.last() == '/' {
            let short = base.drop_last();
            assert(base =~= short + "/"@ + Seq::<char>::empty());
            assert(all =~= short + "/"@ + rel);
            lemma_pieces_cat(short, Seq::<char>::empty());
            lemma_pieces_cat(short, rel);
            assert(pieces(Seq::<char>::empty(), '/') =~= seq![Seq::<char>::empty()]);
            assert(pieces(base, '/').drop_last() =~= pieces(short, '/'));
            assert(pieces(base, '/').last() == Seq::<char>::empty());
            assert(parts_of(base) == parts_from(pieces(short, '/'), absolute));
            lemma_parts_cat(pieces(short, '/'), pieces(rel, '/'), absolute);
            assert(all[0] == base[0]);
        } else {
            lemma_pieces_cat(base, rel);
            lemma_parts_cat(pieces(base, '/'), pieces(rel, '/'), absolute);
            assert(all[0] == base[0]);
        }
    }
    assert(parts_of(all).take(parts_of(base).len() as int) =~= parts_of(base));
    assert(parts_of(all).skip(parts_of(base).len() as int) =~= parts_of(rel));
}

proof fn lemma_first_piece(s: Seq<char>)
    requires
        s.len() > 0 ==> s[0] != '/',
    ensures
        pieces(s, '/').len() > 0,
        s.len() > 0 ==> pieces(s, '/')[0].len() > 0,
        pieces(s, '/').len() > 1 ==> s.len() > 0,
    decreases s.len(),
{
    lemma_last_index(s, '/');
    match last_index(s, '/') {
        None => {},
        Some(i) => {
            lemma_first_piece(s.take(i));
        },
    }
}

/// What stands before a name, as components: those of the text up to the
/// separator in front of it.
spec fn parts_before(s: Seq<char>, from: int) -> Seq<PartModel> {
    if from == 0 {
        Seq::empty()
    } else {
        parts_from(pieces(s.take(from - 1), '/'), s.len() > 0 && s[0] == '/')
    }
}

proof fn lemma_parts_at_name(s: Seq<char>, from: int)
    requires
        0 <= from < s.len(),
        from > 0 ==> s[from - 1] == '/' && parts_before(s, from).len() > 0,
        from == 0 ==> s[0] != '/',
    ensures
        ({
            let end = name_end(s, from);
            let name = s.subrange(from, end);
            let part = part_at(name, from == 0);
            let after = match part {
                Some(part) => parts_before(s, from).push(part),
                None => parts_before(s, from),
            };
            &&& from <= end <= s.len()
            &&& from == 0 ==> part is Some
            &&& end < s.len() ==> s[end] == '/' && parts_before(s, end + 1) == after
            &&& end == s.len() ==> parts_of(s) == after
            &&& part is Some && from > 0 ==> parts_of(s) == parts_before(s, from) + parts_of(
                s.skip(from),
            )
        }),
{
    let rest = s.skip(from);
    lemma_first_index(rest, '/');
    let end = name_end(s, from);
    let name = s.subrange(from, end);
    let absolute = s[0] == '/';
    reveal_strlit("/");
    assert(!name.contains('/')) by {
        if name.contains('/') {
            let k = choose|k: int| 0 <= k < name.len() && name[k] == '/';
            assert(rest[k] == '/');
            assert(rest.contains('/'));
        }
    }
    lemma_last_index(name, '/');
    assert(pieces(name, '/') =~= seq![name]);
    if end < s.len() {
        assert(s[end] == rest[end - from]);
    }
    let upto = s.take(end);
    let before = parts_before(s, from);
    let front = pieces(s.take(from - 1), '/');
    if from == 0 {
        assert(upto =~= name);
        reveal_with_fuel(parts_from, 2);
        assert(seq![name].drop_last() =~= Seq::<Seq<char>>::empty());
        assert(name.len() > 0) by {
            if end == 0 {
                assert(rest[0] == s[0]);
            }
        }
        assert(parts_from(pieces(upto, '/'), absolute) =~= seq![part_at(name, true)->0]);
        assert(before.push(part_at(name, true)->0) =~= seq![part_at(name, true)->0]);
    } else {
        assert(upto =~= s.take(from - 1) + "/"@ + name);
        lemma_pieces_cat(s.take(from - 1), name);
        assert(front + seq![name] =~= front.push(name));
        assert(front.push(name).drop_last() =~= front);
        if part_at(name, false) is Some {
            assert(s =~= s.take(from - 1) + "/"@ + rest);
            lemma_pieces_cat(s.take(from - 1), rest);
            assert(rest[0] == name[0]);
            assert(rest[0] != '/') by {
                if rest[0] == '/' {
                    assert(name.contains('/'));
                }
            }
            assert(rest.skip(0) =~= rest);
            assert(name =~= rest.take(name_end(rest, 0)));
            lemma_first_piece_is(rest, name);
            lemma_parts_cat(front, pieces(rest, '/'), absolute);
        }
    }
    if end < s.len() {
        assert(s.take(end + 1 - 1) =~= upto);
    } else {
        assert(upto =~= s);
    }
}

proof fn lemma_first_piece_is(s: Seq<char>, name: Seq<char>)
    requires
        name == s.take(name_end(s, 0)),
        0 <= name_end(s, 0) <= s.len(),
        !name.contains('/'),
        name_end(s, 0) < s.len() ==> s[name_end(s, 0)] == '/',
    ensures
        pieces(s, '/').len() > 0,
        pieces(s, '/')[0] == name,
{
    let end = name_end(s, 0);
    lemma_last_index(name, '/');
    assert(pieces(name, '/') =~= seq![name]);
    if end < s.len() {
        reveal_strlit("/");
        assert(s =~= name + "/"@ + s.skip(end + 1));
        lemma_pieces_cat(name, s.skip(end + 1));
    } else {
        assert(s =~= name);
    }
}

proof fn lemma_rest_parts(s: Seq<char>, from: int, count: nat, k: nat)
    requires
        0 <= from <= s.len(),
        from > 0 ==> s[from - 1] == '/' && count > 0,
        from == 0 && s.len() > 0 ==> s[0] != '/',
        parts_before(s, from).len() == count,
        count <= k <= parts_of(s).len(),
        from == s.len() && from > 0 ==> parts_of(s) == parts_before(s, from),
    ensures
        parts_of(s.skip(part_start(s, from, count, k))) == parts_of(s).skip(k as int),
    decreases s.len() - from,
{
    let all = parts_of(s);
    let start = part_start(s, from, count, k);
    lemma_part_start(s, from, count, k);
    lemma_no_parts();
    assert(s.skip(s.len() as int) =~= Seq::<char>::empty());
    assert(all.skip(all.len() as int) =~= Seq::<PartModel>::empty());
    if from < s.len() {
        lemma_parts_at_name(s, from);
        let end = name_end(s, from);
        let part = part_at(s.subrange(from, end), from == 0);
        if part is Some && count == k {
            if from == 0 {
                assert(s.skip(0) =~= s);
                assert(all.skip(0) =~= all);
            } else {
                assert(all.skip(k as int) =~= parts_of(s.skip(from)));
            }
        } else if end < s.len() {
            let next = if part is Some {
                count + 1
            } else {
                count
            };
            if end + 1 == s.len() {
                lemma_parts_of_trailing(s);
                assert(s.take(s.len() - 1) =~= s.take(end));
            }
            lemma_rest_parts(s, end + 1, next, k);
        }
    } else if from == 0 {
        assert(s =~= Seq::<char>::empty());
    }
}

proof fn lemma_no_parts()
    ensures
        parts_of(Seq::<char>::empty()) == Seq::<PartModel>::empty(),
{
    let none = Seq::<char>::empty();
    lemma_last_index(none, '/');
    reveal_with_fuel(parts_from, 2);
    assert(pieces(none, '/') =~= seq![none]);
    assert(seq![none].drop_last() =~= Seq::<Seq<char>>::empty());
    assert(parts_of(none) =~= Seq::<PartModel>::empty());
}

proof fn lemma_parts_of_trailing(s: Seq<char>)
    requires
        s.len() > 0,
        s.last() == '/',
    ensures
        parts_of(s) == parts_from(pieces(s.take(s.len() - 1), '/'), s[0] == '/'),
{
    let short = s.take(s.len() - 1);
    let none = Seq::<char>::empty();
    reveal_strlit("/");
    assert(s =~= short + "/"@ + none);
    lemma_pieces_cat(short, none);
    lemma_last_index(none, '/');
    assert(pieces(none, '/') =~= seq![none]);
    assert(pieces(s, '/').drop_last() =~= pieces(short, '/'));
    assert(pieces(s, '/').last() == none);
}

/// What is left of a path's text from a component on is the path of the
/// components from there on.
pub proof fn law_rest_names_the_other_components(s: Seq<char>, k: nat)
    requires
        k <= parts_of(s).len(),
    ensures
        parts_of(rest_text(s, k)) == parts_of(s).skip(k as int),
{
    lemma_trimmed_name(s);
    let t = trimmed(s);
    if t.len() > 0 && t[0] == '/' {
        if k == 0 {
            assert(parts_of(t).skip(0) =~= parts_of(t));
        } else {
            lemma_parts_before_first(t);
            if t.len() == 1 {
                lemma_parts_of_trailing(t);
            }
            lemma_rest_parts(t, 1, 1, k);
        }
    } else {
        lemma_rest_parts(t, 0, 0, k);
    }
}

proof fn lemma_trimmed_ends_in_a_name(s: Seq<char>)
    ensures
        last_index(trimmed(s), '/') matches Some(i) ==> trimmed(s).len() == 1 || !is_filler(
            trimmed(s).skip(i + 1),
        ),
    decreases s.len(),
{
    lemma_last_index(s, '/');
    match last_index(s, '/') {
        Some(i) if is_filler(s.skip(i + 1)) => {
            if i > 0 {
                lemma_trimmed_ends_in_a_name(s.take(i));
            }
        },
        _ => {},
    }
}

/// The directory that holds a path has all of its components but the last, and
/// only the root and an empty path have none.
pub proof fn law_parent_drops_the_last_component(s: Seq<char>)
    ensures
        match parent_text(s) {
            Some(up) => parts_of(s).len() > 0 && parts_of(up) == parts_of(s).drop_last(),
            None => parts_of(s).len() == 0 || parts_of(s) == seq![PartModel::Root],
        },
{
    let t = trimmed(s);
    let none = Seq::<char>::empty();
    lemma_trimmed_name(s);
    lemma_trimmed_ends_in_a_name(s);
    lemma_last_index(t, '/');
    lemma_no_parts();
    reveal_strlit(".");
    reveal_strlit("..");
    reveal_strlit("/");
    reveal_with_fuel(parts_from, 3);
    match last_index(t, '/') {
        None => {
            if t.len() == 0 {
                assert(t =~= none);
            } else {
                assert(pieces(t, '/') =~= seq![t]);
                assert(seq![t].drop_last() =~= Seq::<Seq<char>>::empty());
                assert(parts_of(t) =~= seq![part_at(t, true)->0]);
                assert(parts_of(t).drop_last() =~= Seq::<PartModel>::empty());
            }
        },
        Some(i) => {
            let up = t.take(i);
            let name = t.skip(i + 1);
            assert(pieces(up, '/').push(name).drop_last() =~= pieces(up, '/'));
            if i == 0 {
                assert(up =~= none);
                lemma_last_index(none, '/');
                assert(pieces(up, '/') =~= seq![up]);
                assert(seq![up].drop_last() =~= Seq::<Seq<char>>::empty());
                assert(parts_from(pieces(up, '/'), true) =~= seq![PartModel::Root]);
                let root = "/"@;
                lemma_parts_of_trailing(root);
                assert(root.take(0) =~= up);
                if t.len() == 1 {
                    assert(name =~= none);
                } else {
                    assert(parts_of(t).drop_last() =~= seq![PartModel::Root]);
                }
            } else {
                assert(up[0] == t[0]);
                lemma_trimmed_name(up);
                lemma_parts_not_empty(up);
                assert(parts_of(t).drop_last() =~= parts_of(up));
            }
        },
    }
}

/// Whether every name of a relative path makes a component of its own: none is
/// empty and none is `.`.
pub open spec fn is_plain(rel: Seq<char>) -> bool {
    forall|i: int| 0 <= i < pieces(rel, '/').len() ==> !is_filler(#[trigger] pieces(rel, '/')[i])
}

pub proof fn lemma_last_name(s: Seq<char>, i: int)
    requires
        0 <= i < s.len(),
        s[i] == '/',
        !s.skip(i + 1).contains('/'),
    ensures
        last_index(s, '/') == Some(i),
{
    lemma_last_index(s, '/');
    assert(s.contains('/'));
    let j = last_index(s, '/')->0;
    if j > i {
        assert(s.skip(i + 1)[j - i - 1] == '/');
    }
}

proof fn lemma_parts_only_grow(front: Seq<Seq<char>>, back: Seq<Seq<char>>, absolute: bool)
    ensures
        parts_from(front, absolute).len() <= parts_from(front + back, absolute).len(),
    decreases back.len(),
{
    if back.len() == 0 {
        assert(front + back =~= front);
    } else {
        lemma_parts_only_grow(front, back.drop_last(), absolute);
        assert((front + back).drop_last() =~= front + back.drop_last());
    }
}

proof fn lemma_part_start_reaches(s: Seq<char>, from: int, count: nat, k: nat, at: int)
    requires
        0 <= from <= at < s.len(),
        at > 0,
        s[at - 1] == '/',
        from > 0 ==> s[from - 1] == '/' && count > 0,
        from == 0 ==> s[0] != '/',
        parts_before(s, from).len() == count,
        parts_before(s, at).len() == k,
        k > 0,
        part_at(s.subrange(at, name_end(s, at)), false) is Some,
    ensures
        part_start(s, from, count, k) == at,
    decreases at - from,
{
    lemma_parts_at_name(s, from);
    if from < at {
        let end = name_end(s, from);
        lemma_first_index(s.skip(from), '/');
        assert(end < at) by {
            assert(s.skip(from)[at - 1 - from] == '/');
            assert(s.skip(from).contains('/'));
        }
        let part = part_at(s.subrange(from, end), from == 0);
        let next = if part is Some {
            count + 1
        } else {
            count
        };
        let absolute = s[0] == '/';
        assert(next <= k) by {
            if end + 1 < at {
                reveal_strlit("/");
                let between = s.subrange(end + 1, at - 1);
                assert(s.take(at - 1) =~= s.take(end) + "/"@ + between);
                lemma_pieces_cat(s.take(end), between);
                lemma_parts_only_grow(pieces(s.take(end), '/'), pieces(between, '/'), absolute);
            }
            assert(s.take(end + 1 - 1) =~= s.take(end));
        }
        lemma_part_start_reaches(s, end + 1, next, k, at);
    }
}

/// A path of plain names starts and ends with one.
pub proof fn lemma_plain_starts(rel: Seq<char>)
    requires
        rel.len() > 0,
        is_plain(rel),
    ensures
        rel[0] != '/',
        rel.last() != '/',
        pieces(rel, '/')[0] != "."@,
{
    let names = pieces(rel, '/');
    lemma_last_index(rel, '/');
    if rel[0] == '/' {
        lemma_first_index(rel.skip(0), '/');
        assert(rel.skip(0) =~= rel);
        assert(rel.take(0) =~= Seq::<char>::empty());
        lemma_first_piece_is(rel, Seq::empty());
        assert(is_filler(names[0]));
    }
    lemma_first_piece(rel);
    assert(!is_filler(names[0]));
    assert(!is_filler(names[names.len() - 1]));
    if rel.last() == '/' {
        let i = last_index(rel, '/')->0;
        assert(i == rel.len() - 1);
        assert(rel.skip(i + 1) =~= Seq::<char>::empty());
    }
}

proof fn lemma_joined_is_trimmed(base: Seq<char>, rel: Seq<char>)
    requires
        rel.len() > 0,
        is_plain(rel),
    ensures
        trimmed(joined(base, rel)) == joined(base, rel),
        joined(base, rel).len() >= rel.len(),
        joined(base, rel).skip(joined(base, rel).len() - rel.len()) == rel,
{
    let s = joined(base, rel);
    reveal_strlit("/");
    lemma_last_index(rel, '/');
    lemma_plain_starts(rel);
    let names = pieces(rel, '/');
    let last = names.last();
    assert(!is_filler(names[names.len() - 1]));
    let at = s.len() - rel.len();
    assert(s.skip(at) =~= rel);
    match last_index(rel, '/') {
        Some(i) => {
            assert(last == rel.skip(i + 1));
            assert(s.skip(at + i + 1) =~= last);
            assert(!last.contains('/')) by {
                if last.contains('/') {
                    let j = choose|j: int| 0 <= j < last.len() && last[j] == '/';
                    assert(rel[i + 1 + j] == '/');
                }
            }
            assert(s[at + i] == rel[i]);
            lemma_last_name(s, at + i);
        },
        None => {
            assert(last == rel);
            if at > 0 {
                assert(s[at - 1] == '/');
                lemma_last_name(s, at - 1);
            } else {
                assert(s =~= rel);
            }
        },
    }
}

proof fn lemma_plain_first_name(rel: Seq<char>)
    requires
        rel.len() > 0,
        is_plain(rel),
    ensures
        0 < name_end(rel, 0) <= rel.len(),
        !is_filler(rel.take(name_end(rel, 0))),
{
    let first = rel.take(name_end(rel, 0));
    lemma_first_index(rel.skip(0), '/');
    assert(rel.skip(0) =~= rel);
    lemma_plain_starts(rel);
    assert(!first.contains('/')) by {
        if first.contains('/') {
            let j = choose|j: int| 0 <= j < first.len() && first[j] == '/';
            assert(rel[j] == '/');
            assert(rel.contains('/'));
        }
    }
    lemma_first_piece_is(rel, first);
    assert(!is_filler(pieces(rel, '/')[0]));
}

proof fn lemma_parts_before_joined(base: Seq<char>, rel: Seq<char>)
    requires
        base.len() > 0,
        rel.len() > 0,
        rel[0] != '/',
    ensures
        ({
            let s = joined(base, rel);
            let at = s.len() - rel.len();
            at > 0 && s[0] == base[0] && s[at - 1] == '/' && parts_before(s, at) == parts_of(base)
        }),
{
    let s = joined(base, rel);
    let at = s.len() - rel.len();
    reveal_strlit("/");
    if base.last() == '/' {
        lemma_parts_of_trailing(base);
        assert(s.take(at - 1) =~= base.take(base.len() - 1));
    } else {
        assert(s.take(at - 1) =~= base);
    }
}

proof fn lemma_parts_before_first(s: Seq<char>)
    requires
        s.len() > 0,
        s[0] == '/',
    ensures
        parts_before(s, 1) == seq![PartModel::Root],
{
    let none = Seq::<char>::empty();
    assert(s.take(0) =~= none);
    lemma_last_index(none, '/');
    reveal_with_fuel(parts_from, 2);
    assert(pieces(none, '/') =~= seq![none]);
    assert(seq![none].drop_last() =~= Seq::<Seq<char>>::empty());
    assert(parts_before(s, 1) =~= seq![PartModel::Root]);
}

/// Taking a directory off a path that was joined to it gives back the very text,
/// where each of its names is a component.
pub proof fn law_rest_undoes_join(base: Seq<char>, rel: Seq<char>)
    requires
        rel.len() > 0,
        is_plain(rel),
    ensures
        trimmed(joined(base, rel)) == joined(base, rel),
        rest_text(joined(base, rel), parts_of(base).len()) == rel,
{
    let s = joined(base, rel);
    let k = parts_of(base).len();
    let at = s.len() - rel.len();
    let first = rel.take(name_end(rel, 0));
    lemma_joined_is_trimmed(base, rel);
    lemma_plain_first_name(rel);
    lemma_plain_starts(rel);
    if base.len() == 0 {
        lemma_no_parts();
        assert(base =~= Seq::<char>::empty());
        assert(s =~= rel);
        assert(s.subrange(0, name_end(s, 0)) =~= first);
        assert(s.skip(0) =~= rel);
    } else {
        lemma_parts_not_empty(base);
        lemma_parts_before_joined(base, rel);
        assert(rel.skip(0) =~= rel);
        assert(s.subrange(at, name_end(s, at)) =~= first);
        if s[0] == '/' {
            lemma_parts_before_first(s);
            lemma_part_start_reaches(s, 1, 1, k, at);
        } else {
            lemma_part_start_reaches(s, 0, 0, k, at);
        }
    }
}

/// Whether `name` names something in a directory.
pub open spec fn names_an_entry(name: Seq<char>) -> bool {
    &&& name.len() > 0
    &&& !name.contains('/')
    &&& name != seq!['.']
    &&& name != seq!['.', '.']
}

/// A path is its components in order: each slash begins another, the first one
/// at the root where it stands in front. A name is one of its own, `..` goes up,
/// and a doubled slash or a `.` behind one means nothing.
pub proof fn law_components_lie_between_slashes(s: Seq<char>, name: Seq<char>)
    requires
        !name.contains('/'),
    ensures
        names_an_entry(name) ==> parts_of(name) == seq![PartModel::Name(name)],
        names_an_entry(name) ==> parts_of(seq!['/'] + name) == seq![
            PartModel::Root,
            PartModel::Name(name),
        ],
        s.len() > 0 && names_an_entry(name) ==> parts_of(s.push('/') + name) == parts_of(s).push(
            PartModel::Name(name),
        ),
        s.len() > 0 && name == seq!['.', '.'] ==> parts_of(s.push('/') + name) == parts_of(s).push(
            PartModel::Up,
        ),
        s.len() > 0 && (name.len() == 0 || (name == seq!['.'] && parts_of(s).len() > 0))
            ==> parts_of(s.push('/') + name) == parts_of(s),
        parts_of(seq!['/']) == seq![PartModel::Root],
        parts_of(Seq::<char>::empty()).len() == 0,
{
    reveal_strlit(".");
    reveal_strlit("..");
    assert("."@ =~= seq!['.']);
    assert(".."@ =~= seq!['.', '.']);
    let none = Seq::<char>::empty();
    crate::text::law_each_separator_begins_a_piece(s, '/', name);
    crate::text::law_each_separator_begins_a_piece(none, '/', name);
    crate::text::law_each_separator_begins_a_piece(none, '/', none);
    reveal_with_fuel(parts_from, 3);
    assert(none.push('/') + name =~= seq!['/'] + name);
    assert(none.push('/') + none =~= seq!['/']);
    assert(pieces(none, '/') == seq![none]);
    assert(seq![name].drop_last() =~= Seq::<Seq<char>>::empty());
    assert(seq![none].drop_last() =~= Seq::<Seq<char>>::empty());
    if names_an_entry(name) {
        assert(parts_of(name) =~= seq![PartModel::Name(name)]) by {
            if name[0] == '/' {
                assert(name.contains('/'));
            }
        }
        let rooted = seq!['/'] + name;
        assert(pieces(rooted, '/') =~= seq![none].push(name));
        assert(seq![none].push(name).drop_last() =~= seq![none]);
        assert(parts_from(seq![none], true) =~= seq![PartModel::Root]);
        assert(parts_of(rooted) =~= seq![PartModel::Root, PartModel::Name(name)]);
    }
    assert(pieces(seq!['/'], '/') =~= seq![none].push(none));
    assert(seq![none].push(none).drop_last() =~= seq![none]);
    assert(parts_from(seq![none], true) =~= seq![PartModel::Root]);
    assert(parts_of(seq!['/']) =~= seq![PartModel::Root]);
    assert(parts_of(none) =~= Seq::<PartModel>::empty());
    if s.len() > 0 {
        let all = s.push('/') + name;
        assert(all[0] == s[0]);
        assert(pieces(all, '/') == pieces(s, '/').push(name));
        assert(pieces(s, '/').push(name).drop_last() =~= pieces(s, '/'));
    }
}

/// A name ends in an extension where a dot stands in it behind its first
/// character: what follows the last such dot is the extension, what comes before
/// it the stem. A name without one is its own stem.
pub proof fn law_extensions_follow_the_last_dot(stem: Seq<char>, ext: Seq<char>, name: Seq<char>)
    requires
        !ext.contains('.'),
    ensures
        stem.len() > 0 ==> stem_of(stem.push('.') + ext) == stem && extension_of(
            stem.push('.') + ext,
        ) == Some(ext),
        !name.contains('.') ==> stem_of(name) == name && extension_of(name) is None,
        stem_of(seq!['.'] + ext) == seq!['.'] + ext,
        extension_of(seq!['.'] + ext) is None,
{
    let full = stem.push('.') + ext;
    let hidden = seq!['.'] + ext;
    crate::text::lemma_last_index(full, '.');
    crate::text::lemma_last_index(hidden, '.');
    crate::text::lemma_last_index(name, '.');
    let n = stem.len() as int;
    assert(full[n] == '.');
    assert(full.contains('.'));
    assert(last_index(full, '.') == Some(n)) by {
        let i = last_index(full, '.')->0;
        if i > n {
            assert(full[i] == ext[i - n - 1]);
            assert(ext.contains('.'));
        }
    }
    assert(hidden[0] == '.');
    assert(hidden.contains('.'));
    assert(last_index(hidden, '.') == Some(0int)) by {
        let i = last_index(hidden, '.')->0;
        if i > 0 {
            assert(hidden[i] == ext[i - 1]);
            assert(ext.contains('.'));
        }
    }
    assert(full.take(n) =~= stem);
    assert(full.skip(n + 1) =~= ext);
}

/// A path below another is that path and what comes behind it, and nothing else
/// lies below it.
pub proof fn law_below_is_what_comes_behind(
    prefix: Seq<PartModel>,
    rest: Seq<PartModel>,
    path: Seq<PartModel>,
)
    ensures
        below(prefix + rest, prefix) == Some(rest),
        below(path, prefix) matches Some(left) ==> path == prefix + left,
{
    assert((prefix + rest).take(prefix.len() as int) =~= prefix);
    assert((prefix + rest).skip(prefix.len() as int) =~= rest);
    if below(path, prefix) is Some {
        assert(path =~= path.take(prefix.len() as int) + path.skip(prefix.len() as int));
    }
}

/// A text joined to another goes behind it and one slash, which is not doubled;
/// an absolute one stands for itself.
pub proof fn law_joined_texts_lie_below(base: Seq<char>, rel: Seq<char>)
    ensures
        rel.len() > 0 && rel[0] == '/' ==> joined(base, rel) == rel,
        !(rel.len() > 0 && rel[0] == '/') && base.len() > 0 && base.last() != '/' ==> joined(
            base,
            rel,
        ) == base.push('/') + rel,
        !(rel.len() > 0 && rel[0] == '/') && (base.len() == 0 || base.last() == '/') ==> joined(
            base,
            rel,
        ) == base + rel,
{
    reveal_strlit("/");
    assert(base + "/"@ =~= base.push('/'));
}

/// The last name of a path is its file name; behind the root, `.` and `..` there
/// is none.
pub proof fn law_file_names_come_last(path: Seq<PartModel>, name: Seq<char>)
    ensures
        name_of(path.push(PartModel::Name(name))) == Some(name),
        name_of(path.push(PartModel::Up)) is None,
        name_of(path.push(PartModel::Root)) is None,
        name_of(path.push(PartModel::Here)) is None,
        name_of(Seq::<PartModel>::empty()) is None,
{
}

/// Another extension replaces the one that a file's name has, or is added where
/// it has none; what comes before the name stays.
pub proof fn law_extensions_are_replaced_in_place(
    dir: Seq<char>,
    stem: Seq<char>,
    old_ext: Seq<char>,
    ext: Seq<char>,
)
    requires
        stem.len() > 0,
        !stem.contains('/'),
        !old_ext.contains('/'),
        !old_ext.contains('.'),
        ext.len() > 0,
        names_an_entry(stem.push('.') + old_ext),
        dir.len() > 0,
    ensures
        reextended(dir.push('/') + (stem.push('.') + old_ext), ext) == dir.push('/') + stem.push(
            '.',
        ) + ext,
{
    let name = stem.push('.') + old_ext;
    let s = dir.push('/') + name;
    reveal_strlit(".");
    law_components_lie_between_slashes(dir, name);
    law_extensions_follow_the_last_dot(stem, old_ext, name);
    assert(parts_of(s).last() == PartModel::Name(name));
    crate::text::lemma_last_index(s, '/');
    let n = dir.len() as int;
    assert(s[n] == '/');
    assert(s.contains('/'));
    assert(last_index(s, '/') == Some(n)) by {
        let i = last_index(s, '/')->0;
        if i > n {
            assert(s[i] == name[i - n - 1]);
            assert(name.contains('/'));
        }
    }
    assert(s.skip(n + 1) =~= name);
    assert("."@ =~= seq!['.']);
    assert(trimmed(s) == s);
    assert(s.take(s.len() - name.len()) =~= dir.push('/'));
    assert(stem + "."@ =~= stem.push('.'));
    assert(reextended(s, ext) =~= dir.push('/') + stem.push('.') + ext);
}

/// What holds an entry is the directory before the last slash, without the
/// slashes and dots at its end; at the root it is the root, and a name alone
/// lies in the directory that has no name.
pub proof fn law_entries_lie_in_their_directory(dir: Seq<char>, name: Seq<char>)
    requires
        names_an_entry(name),
    ensures
        dir.len() > 0 ==> parent_text(dir.push('/') + name) == Some(trimmed(dir)),
        parent_text(seq!['/'] + name) == Some(seq!['/']),
        parent_text(name) == Some(Seq::<char>::empty()),
        parent_text(seq!['/']) is None,
        parent_text(Seq::<char>::empty()) is None,
{
    reveal_strlit("/");
    reveal_strlit(".");
    assert("/"@ =~= seq!['/']);
    assert("."@ =~= seq!['.']);
    lemma_last_index(name, '/');
    assert(trimmed(name) == name);
    let rooted = seq!['/'] + name;
    lemma_last_slash(Seq::empty(), name);
    assert(Seq::<char>::empty().push('/') + name =~= rooted);
    assert(rooted.skip(1) =~= name);
    let root = seq!['/'];
    lemma_last_slash(Seq::empty(), Seq::empty());
    assert(Seq::<char>::empty().push('/') + Seq::<char>::empty() =~= root);
    assert(root.skip(1) =~= Seq::<char>::empty());
    assert(root.take(1) =~= root);
    lemma_last_index(Seq::empty(), '/');
    if dir.len() > 0 {
        let s = dir.push('/') + name;
        lemma_last_slash(dir, name);
        assert(s.skip(dir.len() as int + 1) =~= name);
        assert(s.take(dir.len() as int) =~= dir);
    }
}

proof fn lemma_last_slash(dir: Seq<char>, name: Seq<char>)
    requires
        !name.contains('/'),
    ensures
        last_index(dir.push('/') + name, '/') == Some(dir.len() as int),
{
    let s = dir.push('/') + name;
    let n = dir.len() as int;
    lemma_last_index(s, '/');
    assert(s[n] == '/');
    assert(s.contains('/'));
    let i = last_index(s, '/')->0;
    if i > n {
        assert(s[i] == name[i - n - 1]);
        assert(name.contains('/'));
    }
}

} // verus!

use nightcrow::native::NativePath;
use nightcrow::paths::{
    extension, file_name, file_stem, join, parent, parse, rest_from, strip_prefix, with_extension,
    Part,
};
use nightcrow::sorting::{comes_before, sort};
use nightcrow::text::{
    chars_of, decimal, find_sub, replace_sub, split_char, split_sub, string_of, trim,
    without_controls,
};
use nightcrow::textmap::{TextMap, TextSet};
use std::path::Path;

fn chars(s: &str) -> Vec<char> {
    chars_of(s)
}

const PATHS: [&str; 36] = [
    "", "/", "//", "///", ".", "..", "./", "./.", "/.", "/..", "/./", "a", "a/", "a//", "a/.", "a/./",
    "./a", "././a", "../a", "a/..", "a/../", "/a", "//a", "/a/", "/a//b", "a/./b", "a/b.tar.gz",
    ".hidden", "a/.hidden/", "/h/daemon.sock", "/h/./x//daemon.sock/.", "b.", "é/漢.x", "/repo/a",
    "/repo/a/b/c", "a b/ c",
];

fn raw(path: &Path) -> NativePath {
    NativePath { bytes: path.as_os_str().as_encoded_bytes().to_vec() }
}

#[test]
fn paths_as_bytes_are_joined_and_taken_apart_alike() {
    for base in PATHS {
        let path = Path::new(base);
        let native = NativePath::of_text(base);
        assert_eq!(native, raw(path));
        assert_eq!(native.parent(), path.parent().map(raw), "{base:?}");
        for ext in ["lock", ""] {
            assert_eq!(native.with_extension(ext), raw(&path.with_extension(ext)), "{base:?}");
        }
        for rel in PATHS {
            assert_eq!(native.join(rel), raw(&path.join(rel)), "{base:?} {rel:?}");
        }
        assert_eq!(native.shown(), path.display().to_string());
        assert_eq!(native.duplicate(), native);
    }
    let odd = NativePath { bytes: b"/\xff/\xfe.\xfd".to_vec() };
    assert_eq!(odd.parent().expect("a directory").bytes, b"/\xff");
    assert_eq!(odd.with_extension("lock").bytes, b"/\xff/\xfe.lock");
    assert_eq!(odd.join("a").bytes, b"/\xff/\xfe.\xfd/a");
    assert_eq!(odd.shown(), "/\u{fffd}/\u{fffd}.\u{fffd}");
}

fn std_text(path: &Path) -> &str {
    path.to_str().expect("text")
}

#[test]
fn joining_keeps_both_texts() {
    for base in PATHS {
        for rel in PATHS {
            let expected = Path::new(base).join(rel);
            assert_eq!(join(base, rel), std_text(&expected), "{base:?} {rel:?}");
        }
    }
    assert_eq!(join("/repo//x/", "./logs"), "/repo//x/./logs");
    assert_eq!(join("/repo", "/var/log"), "/var/log");
    assert_eq!(join("/repo", ""), "/repo/");
}

#[test]
fn stripping_undoes_joining() {
    let base = parse("/repo/a");
    let joined = join("/repo/a", "b/c");
    let rest = strip_prefix(&parse(&joined), &base).expect("below");
    assert_eq!(rest.len(), 2);
    assert!(rest[0].same(&Part::Name("b".into())) && rest[1].same(&Part::Name("c".into())));
    assert!(strip_prefix(&base, &parse(&joined)).is_none());
    assert!(strip_prefix(&parse("/repo/ab"), &base).is_none());
    for base in PATHS {
        for path in PATHS {
            let below = strip_prefix(&parse(path), &parse(base)).is_some();
            let rest = below.then_some(rest_from(path, parse(base).len()));
            let expected = Path::new(path).strip_prefix(base).ok().map(std_text);
            assert_eq!(rest.as_deref(), expected, "{path:?} below {base:?}");
        }
    }
}

#[test]
fn parents_names_and_extensions() {
    for path in PATHS {
        let expected = Path::new(path);
        assert_eq!(parent(path).as_deref(), expected.parent().map(std_text), "{path:?}");
        assert_eq!(file_name(&parse(path)).as_deref(), expected.file_name().map(|n| n.to_str().expect("text")));
        assert_eq!(parse(path).len(), expected.components().count(), "{path:?}");
        for ext in ["lock", ""] {
            let expected = expected.with_extension(ext);
            assert_eq!(with_extension(path, ext), std_text(&expected), "{path:?} {ext:?}");
        }
    }
    assert_eq!(parent("/a/b.lock").as_deref(), Some("/a"));
    assert_eq!(parent("/"), None);
    assert_eq!(parent(""), None);
    assert_eq!(file_name(&parse("/a/b.lock")).as_deref(), Some("b.lock"));
    assert_eq!(file_name(&parse("/a/..")), None);
    assert_eq!(file_stem("b.tar.gz"), "b.tar");
    assert_eq!(file_stem(".hidden"), ".hidden");
    assert_eq!(extension("b.tar.gz").as_deref(), Some("gz"));
    assert_eq!(extension(".hidden"), None);
    assert_eq!(with_extension("/h/daemon.sock", "lock"), "/h/daemon.lock");
}

#[test]
fn splitting_and_replacing() {
    assert_eq!(split_char(&chars("a;b;;c"), ';'), ["a", "b", "", "c"]);
    assert_eq!(split_sub(&chars("x | y | z"), &chars(" | ")), ["x", "y", "z"]);
    assert_eq!(split_sub(&chars("x"), &chars(" | ")), ["x"]);
    assert_eq!(split_sub(&chars(" | "), &chars(" | ")), ["", ""]);
    assert_eq!(
        replace_sub(&chars("<p> a <p>"), &chars("<p>"), "^F"),
        "^F a ^F"
    );
    assert_eq!(replace_sub(&chars("none"), &chars("<p>"), "^F"), "none");
    assert_eq!(find_sub(&chars("aab"), &chars("ab")), Some(1));
    assert_eq!(find_sub(&chars("aab"), &chars("ba")), None);
}

#[test]
fn trimming_and_cleaning() {
    assert_eq!(string_of(&trim(&chars("\u{a0} x y\u{3000}\n"))), "x y");
    assert_eq!(string_of(&trim(&chars("   "))), "");
    assert_eq!(string_of(&without_controls(&chars("a\u{7}b\u{9b}c"))), "abc");
}

#[test]
fn decimal_text_has_no_leading_zero() {
    assert_eq!(decimal(0), "0");
    assert_eq!(decimal(1024), "1024");
    assert_eq!(decimal(u64::MAX), "18446744073709551615");
}

#[test]
fn texts_are_ordered_as_strings_are() {
    for (a, b) in [("a", "b"), ("A", "a"), ("a", "aa"), ("z", "é"), ("é", "漢")] {
        assert!(comes_before(a, b), "{a} before {b}");
        assert!(!comes_before(b, a));
        assert!(a < b);
    }
    assert!(!comes_before("same", "same"));
    let mut names: Vec<String> = ["b", "é", "a", "B", "aa"].map(String::from).to_vec();
    let sorted = sort(names.clone());
    names.sort();
    assert_eq!(sorted, names);
}

#[test]
fn a_map_keeps_the_last_value_of_a_key() {
    let mut map: TextMap<u32> = TextMap::new();
    map.insert("a".into(), 1);
    map.insert("b".into(), 2);
    map.insert("a".into(), 3);
    assert_eq!(map.get("a"), Some(&3));
    assert_eq!(map.remove("b"), Some(2));
    assert!(!map.contains_key("b"));
    map.clear();
    assert!(map.get("a").is_none());
}

#[test]
fn a_set_holds_each_text_once() {
    let mut set = TextSet::new();
    assert!(set.insert("x".into()));
    assert!(!set.insert("x".into()));
    assert_eq!(set.items.len(), 1);
    assert!(set.remove("x"));
    assert!(!set.remove("x"));
    assert!(!set.contains("x"));
}

#[test]
fn a_set_stands_in_order() {
    let mut set = TextSet::new();
    for text in ["src/ui", "b", "", "src", "é", "a", "B"] {
        set.insert(text.into());
    }
    assert_eq!(set.items, ["", "B", "a", "b", "src", "src/ui", "é"]);
    set.remove("b");
    assert_eq!(set.items, ["", "B", "a", "src", "src/ui", "é"]);
}

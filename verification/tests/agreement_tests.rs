//! The library's path, text and decoding functions agree with std on Unix
//! paths and arbitrary inputs.

use std::path::{Component, Path, PathBuf};

use save_guard::discovery::{primary_sl2, DirEntryInfo};
use save_guard::paths::{file_name_as, is_within_as, join_as, parent_is_as, same_path_as, PathStyle};
use save_guard::platform::wide_eq_ignore_case;
use save_guard::snapshot::fingerprint;
use save_guard::snapshot::FileHash;
use save_guard::text::{parse_u64, trim};

const ST: PathStyle = PathStyle::Unix;

const PATHS: &[&str] = &[
    "", "/", "//", "a", "a/", "/a", "/a/", "/a/b", "/a//b", "/a/./b", "./a", "../a", "a/..",
    "/..", "/../a", "/a/b/../c", "/a/b/../../..", "a/b/../../..", "/a/b/.", ".", "..", "./",
    "a/./", "/a/b/c/../../x", "x/y/z", "/x/../y/../z",
];

fn normalize_lexical(p: &Path) -> PathBuf {
    let mut out = PathBuf::new();
    for c in p.components() {
        match c {
            Component::ParentDir => {
                out.pop();
            }
            Component::CurDir => {}
            other => out.push(other.as_os_str()),
        }
    }
    out
}

fn cmp_components(p: &Path) -> Vec<String> {
    p.components().map(|c| c.as_os_str().to_string_lossy().into_owned()).collect()
}

fn std_within(child: &str, ancestor: &str) -> bool {
    let c = cmp_components(&normalize_lexical(Path::new(child)));
    let a = cmp_components(&normalize_lexical(Path::new(ancestor)));
    a.len() <= c.len() && c[..a.len()] == a[..]
}

#[test]
fn within_agrees_with_path_components() {
    for c in PATHS {
        for a in PATHS {
            assert_eq!(is_within_as(ST, c, a), std_within(c, a), "within({c:?}, {a:?})");
        }
    }
}

#[test]
fn join_agrees_with_path_join() {
    for a in PATHS {
        for b in PATHS {
            let std = Path::new(a).join(b);
            assert_eq!(join_as(ST, a, b), std.to_string_lossy(), "join({a:?}, {b:?})");
        }
    }
}

#[test]
fn file_name_agrees_with_path_file_name() {
    for p in PATHS.iter().chain(["/a/b.txt", "b..", "/a/.hidden", "a/b/"].iter()) {
        let std = Path::new(p).file_name().map(|n| n.to_string_lossy().into_owned());
        assert_eq!(file_name_as(ST, p), std, "file_name({p:?})");
    }
}

#[test]
fn parent_and_equality_agree_with_path() {
    for d in PATHS {
        for p in PATHS {
            let std = Path::new(d).parent() == Some(Path::new(p));
            assert_eq!(parent_is_as(ST, d, p), std, "parent({d:?}) == {p:?}");
            assert_eq!(same_path_as(ST, d, p), Path::new(d) == Path::new(p), "{d:?} == {p:?}");
        }
    }
}

#[test]
fn save_choice_agrees_with_extension_and_sorting() {
    let names = [
        "ER0000.sl2", "er0000.SL2", "a.sl2", ".sl2", "x.sl2.bak", "b.Sl2", "..", "c.", "d.co2",
        "sl2", "e.tar.sl2", "Z.sl2",
    ];
    // Every non-empty subset of the first eight names, in listing order.
    for mask in 1u32..(1 << 8) {
        let chosen: Vec<&str> = (0..8).filter(|i| mask & (1 << i) != 0).map(|i| names[i]).collect();
        let mut all = chosen.clone();
        all.extend_from_slice(&names[8..]);
        let entries: Vec<DirEntryInfo> =
            all.iter().map(|n| DirEntryInfo { name: n.to_string(), is_file: true, meta: None }).collect();
        // What the file system walk would pick.
        let mut sl2: Vec<PathBuf> = all
            .iter()
            .map(|n| Path::new("/d").join(n))
            .filter(|p| {
                p.extension().and_then(|e| e.to_str()).is_some_and(|e| e.eq_ignore_ascii_case("sl2"))
            })
            .collect();
        sl2.sort();
        let expected = sl2
            .iter()
            .find(|p| {
                p.file_name().and_then(|n| n.to_str()).is_some_and(|n| n.eq_ignore_ascii_case("ER0000.sl2"))
            })
            .cloned()
            .or_else(|| sl2.into_iter().next())
            .map(|p| p.to_string_lossy().into_owned());
        assert_eq!(primary_sl2(ST, "/d", &entries), expected, "{all:?}");
    }
}

#[test]
fn lossy_utf16_agrees_with_std() {
    let samples: Vec<Vec<u16>> = vec![
        vec![],
        vec![0x41, 0x42],
        vec![0xD800],
        vec![0xDC00, 0x41],
        vec![0xD800, 0xD800, 0xDC00],
        vec![0xD83D, 0xDE00, 0xDBFF, 0xDFFF],
        vec![0xDBFF, 0x41, 0xDFFF],
        vec![0xE000, 0xFFFF, 0xD7FF],
        vec![0x10, 0xDE00, 0xD83D],
    ];
    for s in samples {
        let text = String::from_utf16_lossy(&s);
        let mut w = s.clone();
        w.push(0);
        assert!(wide_eq_ignore_case(&w, &text), "{s:?}");
        assert!(wide_eq_ignore_case(&w, &text.to_ascii_uppercase()), "{s:?}");
        if !text.is_empty() {
            assert!(!wide_eq_ignore_case(&w, &text[..text.len() - text.chars().last().unwrap().len_utf8()]));
        }
    }
}

#[test]
fn parse_and_trim_agree_with_std() {
    let inputs = [
        "", "0", "1", "+1", "++1", "-0", "01", "1_000", "184467440737095516150", "4294967296",
        " 5", "5 ", "٣", "\u{a0}7\u{a0}", "+", "12a", "99999999999999999999",
    ];
    for s in inputs {
        let cs: Vec<char> = s.chars().collect();
        assert_eq!(parse_u64(&cs), s.parse::<u64>().ok(), "{s:?}");
        let t: String = trim(&cs).into_iter().collect();
        assert_eq!(t, s.trim(), "{s:?}");
    }
}

#[test]
fn fingerprint_agrees_with_sorted_pairs() {
    let files = vec![
        FileHash { name: "b".into(), sha256: "2".into(), size: 0 },
        FileHash { name: "a".into(), sha256: "9".into(), size: 0 },
        FileHash { name: "é".into(), sha256: "1".into(), size: 0 },
        FileHash { name: "a".into(), sha256: "10".into(), size: 0 },
        FileHash { name: "Z".into(), sha256: "".into(), size: 0 },
    ];
    let mut expected: Vec<(String, String)> =
        files.iter().map(|f| (f.name.clone(), f.sha256.clone())).collect();
    expected.sort();
    assert_eq!(fingerprint(&files), expected);
}

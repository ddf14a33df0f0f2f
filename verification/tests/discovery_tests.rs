use save_guard::clock::UtcTime;
use save_guard::discovery::{
    bak_path, candidate_for, discover, find, is_steamid_dir_name, primary_sl2, AccountFolder,
    DirEntryInfo, FileMeta, SaveCandidate,
};
use save_guard::paths::{join_as, PathStyle};

const ST: PathStyle = PathStyle::Unix;

/// A folder of the Elden Ring root as the file system would list it.
struct FakeDir {
    name: &'static str,
    is_dir: bool,
    files: Vec<(&'static str, bool)>,
    modified: Option<i64>,
}

fn dir(name: &'static str, files: &[&'static str], modified: Option<i64>) -> FakeDir {
    FakeDir {
        name,
        is_dir: true,
        files: files.iter().map(|f| (*f, true)).collect(),
        modified,
    }
}

/// Runs discovery over a fake Elden Ring folder, doing what the program does
/// with the real one.
fn discover_fake(root: &str, listing: &[FakeDir]) -> Vec<SaveCandidate> {
    let mut found = Vec::new();
    for d in listing {
        let entries = if d.is_dir && is_steamid_dir_name(d.name) {
            Some(
                d.files
                    .iter()
                    .map(|(n, f)| DirEntryInfo {
                        name: n.to_string(),
                        is_file: *f,
                        meta: Some(FileMeta {
                            modified: d.modified.map(|s| UtcTime { secs: s, nanos: 0 }),
                            len: 4,
                        }),
                    })
                    .collect(),
            )
        } else {
            None
        };
        found.push(AccountFolder { name: d.name.to_string(), is_dir: d.is_dir, entries });
    }
    discover(ST, root, found)
}

#[test]
fn single_valid_dir() {
    let r = [dir("76561198000000001", &["ER0000.sl2", "ER0000.sl2.bak"], Some(10))];
    let c = discover_fake("/root", &r);
    assert_eq!(c.len(), 1);
    assert_eq!(c[0].steamid, "76561198000000001");
    assert!(c[0].bak_file.is_some());
}

#[test]
fn candidates_describe_their_own_folder() {
    let r = [
        dir("76561198000000001", &["ER0000.sl2", "ER0000.sl2.bak"], Some(10)),
        FakeDir {
            name: "222",
            is_dir: true,
            files: vec![("b.sl2", true), ("a.SL2", true), ("a.SL2.bak", false)],
            modified: None,
        },
    ];
    let c = discover_fake("/root", &r);
    assert_eq!(c.len(), 2);
    assert_eq!(c[0].steamid, "76561198000000001");
    assert_eq!(c[0].dir, "/root/76561198000000001");
    assert_eq!(c[0].save_file, "/root/76561198000000001/ER0000.sl2");
    assert_eq!(c[0].bak_file.as_deref(), Some("/root/76561198000000001/ER0000.sl2.bak"));
    assert_eq!(c[0].modified, Some(UtcTime { secs: 10, nanos: 0 }));
    assert_eq!(c[0].size, 4);
    assert_eq!(c[1].steamid, "222");
    assert_eq!(c[1].save_file, "/root/222/a.SL2");
    // The `.bak` sibling is a folder, not a file.
    assert_eq!(c[1].bak_file, None);
}

#[test]
fn ignores_junk() {
    let r = [
        dir("76561198000000001", &["ER0000.sl2"], Some(10)),
        dir("Copies", &["ER0000.sl2"], Some(10)), // non-numeric
        dir("76561198000000002", &[], Some(10)),  // numeric but no .sl2
        FakeDir { name: "GraphicsConfig.xml", is_dir: false, files: vec![], modified: None }, // a file
        dir("999", &["ER0000.co2"], Some(10)), // co-op save only
    ];
    let c = discover_fake("/root", &r);
    assert_eq!(c.len(), 1);
    assert_eq!(c[0].steamid, "76561198000000001");
}

#[test]
fn multiple_dirs() {
    let r = [dir("111", &["ER0000.sl2"], Some(1)), dir("222", &["ER0000.sl2"], Some(2))];
    let c = discover_fake("/root", &r);
    assert_eq!(c.len(), 2);
    assert!(find(c.clone(), "222").is_some());
    assert!(find(c, "333").is_none());
}

#[test]
fn missing_root() {
    assert!(discover_fake("/no/such/eldenring/root", &[]).is_empty());
}

#[test]
fn newest_save_first_unknown_last() {
    let r = [
        dir("1", &["ER0000.sl2"], None),
        dir("2", &["ER0000.sl2"], Some(100)),
        dir("3", &["ER0000.sl2"], Some(300)),
        dir("4", &["ER0000.sl2"], Some(100)),
    ];
    let c = discover_fake("/r", &r);
    let ids: Vec<&str> = c.iter().map(|c| c.steamid.as_str()).collect();
    // Equal times keep listing order.
    assert_eq!(ids, vec!["3", "2", "4", "1"]);
}

#[test]
fn primary_prefers_canonical_then_name_order() {
    let e = |names: &[&str]| -> Vec<DirEntryInfo> {
        names.iter().map(|n| DirEntryInfo { name: n.to_string(), is_file: true, meta: None }).collect()
    };
    assert_eq!(
        primary_sl2(ST, "/d", &e(&["b.sl2", "ER0000.sl2", "a.sl2"])).as_deref(),
        Some("/d/ER0000.sl2")
    );
    assert_eq!(
        primary_sl2(ST, "/d", &e(&["b.sl2", "a.SL2", "c.sl2"])).as_deref(),
        Some("/d/a.SL2")
    );
    assert_eq!(
        primary_sl2(ST, "/d", &e(&["er0000.SL2", "ER0000.sl2"])).as_deref(),
        Some("/d/ER0000.sl2")
    );
    // Not saves: a hidden name without extension, a backup, a co-op save.
    assert_eq!(primary_sl2(ST, "/d", &e(&[".sl2", "ER0000.sl2.bak", "x.co2"])), None);
    // A folder named like a save does not count.
    let dirs = vec![DirEntryInfo { name: "ER0000.sl2".to_string(), is_file: false, meta: None }];
    assert_eq!(primary_sl2(ST, "/d", &dirs), None);
}

#[test]
fn steamid_names_are_ascii_digits() {
    assert!(is_steamid_dir_name("76561198000000001"));
    assert!(is_steamid_dir_name("0"));
    assert!(!is_steamid_dir_name(""));
    assert!(!is_steamid_dir_name("123a"));
    assert!(!is_steamid_dir_name("١٢٣"));
}

#[test]
fn candidate_fields() {
    let c = candidate_for("/r/1", "1", "/r/1/ER0000.sl2".to_string(), false, None);
    assert_eq!(c.bak_file, None);
    assert_eq!(c.size, 0);
    assert_eq!(c.modified, None);
    let c = candidate_for(
        "/r/1",
        "1",
        "/r/1/ER0000.sl2".to_string(),
        true,
        Some(FileMeta { modified: Some(UtcTime { secs: 5, nanos: 1 }), len: 99 }),
    );
    assert_eq!(c.bak_file.as_deref(), Some("/r/1/ER0000.sl2.bak"));
    assert_eq!(c.size, 99);
    assert_eq!(c.modified, Some(UtcTime { secs: 5, nanos: 1 }));
    assert_eq!(c.dir, "/r/1");
    assert_eq!(c.save_file, "/r/1/ER0000.sl2");
}

#[test]
fn find_returns_the_first_match() {
    let mk = |id: &str, size: u64| SaveCandidate {
        steamid: id.to_string(),
        dir: format!("/r/{id}"),
        save_file: format!("/r/{id}/ER0000.sl2"),
        bak_file: None,
        modified: None,
        size,
    };
    let v = vec![mk("1", 1), mk("2", 2), mk("2", 3)];
    assert_eq!(find(v.clone(), "2").map(|c| c.size), Some(2));
    assert_eq!(find(v, "").map(|c| c.size), None);
}

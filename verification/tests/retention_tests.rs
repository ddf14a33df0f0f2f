use save_guard::clock::UtcTime;
use save_guard::paths::PathStyle;
use save_guard::retention::retention_plan;
use save_guard::snapshot::{
    check_metadata, list, listing_candidate, snapshots_dir_as, sort_by_created, FileHash, Metadata,
    Reason, ScannedFolder, Snapshot, SnapshotError, SnapshotFiles, ARCHIVE_FILE, METADATA_VERSION,
};

const ST: PathStyle = PathStyle::Unix;

fn snap(dest: &str, steamid: &str, name: &str, secs: i64) -> Snapshot {
    Snapshot {
        dir: format!("{}/{}", snapshots_dir_as(ST, dest), name),
        metadata: Metadata {
            format_version: METADATA_VERSION,
            steamid: steamid.to_string(),
            created_utc: UtcTime { secs, nanos: 0 },
            source_modified_utc: None,
            reason: Reason::Periodic,
            app_version: "1.0.7".to_string(),
            files: vec![FileHash {
                name: "ER0000.sl2".to_string(),
                sha256: "a".repeat(64),
                size: 9,
            }],
            archive: ARCHIVE_FILE.to_string(),
            stored_bytes: 5,
            archive_sha256: "b".repeat(64),
        },
    }
}

/// The listing of one account's snapshots, oldest first, as the program
/// builds it from the folders it finds under `<dest>/snapshots`.
fn listing(st: PathStyle, folders: Vec<(Snapshot, bool)>, steamid: &str) -> Vec<Snapshot> {
    let mut found = Vec::new();
    let mut dest = String::new();
    for (s, is_real_dir) in folders {
        let mut parts = s.dir.rsplitn(3, '/');
        let name = parts.next().unwrap().to_string();
        parts.next();
        dest = parts.next().unwrap().to_string();
        let files = if listing_candidate(&name, is_real_dir) {
            let archive = Ok((true, s.metadata.stored_bytes));
            Some(SnapshotFiles { metadata: s.metadata, archive })
        } else {
            None
        };
        found.push(ScannedFolder { name, is_real_dir, files });
    }
    list(st, &dest, steamid, found)
}

#[test]
fn keeps_the_newest_listed_snapshots() {
    let d = "/dest";
    let snaps: Vec<(Snapshot, bool)> =
        (0..5).map(|i| (snap(d, "111", &format!("s{i}"), 100 + i), true)).collect();
    let listed = listing(ST, snaps, "111");
    assert_eq!(listed.len(), 5);
    let removed = retention_plan(ST, d, listed, &[true; 5], 3);
    assert_eq!(removed.len(), 2);
    // The survivors are the newest three: the two oldest go.
    assert_eq!(removed[0].dir, "/dest/snapshots/s0");
    assert_eq!(removed[1].dir, "/dest/snapshots/s1");
}

#[test]
fn under_limit_deletes_nothing() {
    let d = "/dest";
    let snaps = vec![(snap(d, "111", "a", 1), true), (snap(d, "111", "b", 2), true)];
    let listed = listing(ST, snaps, "111");
    assert!(retention_plan(ST, d, listed, &[true; 2], 60).is_empty());
}

#[test]
fn ignores_temp_dirs() {
    let d = "/dest";
    let stray = snap(d, "111", ".tmp-999-999", 0);
    let snaps = vec![
        (snap(d, "111", "a", 1), true),
        (snap(d, "111", "b", 2), true),
        (stray, true),
    ];
    // A stray temp dir is neither counted nor deleted.
    assert!(!listing_candidate(".tmp-999-999", true));
    let listed = listing(ST, snaps, "111");
    assert_eq!(listed.len(), 2);
    let removed = retention_plan(ST, d, listed, &[true; 2], 1);
    assert_eq!(removed.len(), 1);
    assert_eq!(removed[0].dir, "/dest/snapshots/a");
}

#[test]
fn retention_never_removes_another_accounts_snapshots() {
    let d = "/dest";
    let all = || {
        vec![
            (snap(d, "111", "a1", 1), true),
            (snap(d, "111", "a2", 2), true),
            (snap(d, "222", "b1", 3), true),
            (snap(d, "222", "b2", 4), true),
        ]
    };
    let listed = listing(ST, all(), "111");
    let removed = retention_plan(ST, d, listed, &[true; 2], 1);
    assert_eq!(removed.len(), 1);
    assert_eq!(removed[0].metadata.steamid, "111");
    assert_eq!(listing(ST, all(), "222").len(), 2);
}

#[test]
fn keep_zero_still_keeps_the_newest() {
    let d = "/dest";
    let listed = vec![snap(d, "1", "a", 1), snap(d, "1", "b", 2), snap(d, "1", "c", 3)];
    let removed = retention_plan(ST, d, listed, &[true; 3], 0);
    assert_eq!(removed.len(), 2);
    assert_eq!(removed[1].dir, "/dest/snapshots/b");
}

#[test]
fn folders_outside_the_managed_tree_are_never_deleted() {
    let d = "/dest";
    let mut outside = snap(d, "1", "a", 1);
    outside.dir = "/elsewhere/a".to_string();
    let mut nested = snap(d, "1", "b", 2);
    nested.dir = "/dest/snapshots/x/b".to_string();
    let listed = vec![outside, nested, snap(d, "1", "c", 3), snap(d, "1", "e", 4)];
    let removed = retention_plan(ST, d, listed, &[true; 4], 1);
    assert_eq!(removed.len(), 1);
    assert_eq!(removed[0].dir, "/dest/snapshots/c");
}

#[test]
fn corrupt_newer_snapshots_do_not_count_toward_keep() {
    let d = "/dest";
    let listed = vec![snap(d, "1", "a", 1), snap(d, "1", "b", 2), snap(d, "1", "c", 3)];
    // The newest archive fails its check: the newest intact one is b, and
    // only a, older than it, goes; the corrupt c is newer and stays.
    let removed = retention_plan(ST, d, listed, &[true, true, false], 1);
    assert_eq!(removed.len(), 1);
    assert_eq!(removed[0].dir, "/dest/snapshots/a");
}

#[test]
fn nothing_is_deleted_while_too_few_snapshots_are_intact() {
    let d = "/dest";
    let listed = vec![snap(d, "1", "a", 1), snap(d, "1", "b", 2), snap(d, "1", "c", 3)];
    assert!(retention_plan(ST, d, listed, &[false, true, false], 2).is_empty());
    let listed = vec![snap(d, "1", "a", 1), snap(d, "1", "b", 2)];
    assert!(retention_plan(ST, d, listed, &[false, false], 1).is_empty());
}

#[test]
fn corrupt_snapshots_older_than_the_kept_ones_go() {
    let d = "/dest";
    let listed = vec![
        snap(d, "1", "a", 1),
        snap(d, "1", "b", 2),
        snap(d, "1", "c", 3),
        snap(d, "1", "e", 4),
    ];
    let removed = retention_plan(ST, d, listed, &[false, true, false, true], 2);
    assert_eq!(removed.len(), 1);
    assert_eq!(removed[0].dir, "/dest/snapshots/a");
}

#[test]
fn links_and_other_accounts_are_not_listed() {
    assert!(!listing_candidate("20240101-000000-abcdef12", false));
    assert!(listing_candidate("20240101-000000-abcdef12", true));
    assert!(listing_candidate(".tmp", true));
    let s = snap("/d", "222", "x", 1);
    assert_eq!(
        check_metadata(ST, &s.metadata, Some("111")),
        Err(SnapshotError::WrongAccount)
    );
    assert_eq!(check_metadata(ST, &s.metadata, None), Ok(()));
}

#[test]
fn listing_sorts_by_creation_time() {
    let d = "/d";
    let listed = sort_by_created(vec![snap(d, "1", "c", 30), snap(d, "1", "a", 10), snap(d, "1", "b", 10)]);
    let names: Vec<&str> = listed.iter().map(|s| s.dir.as_str()).collect();
    assert_eq!(names, vec!["/d/snapshots/a", "/d/snapshots/b", "/d/snapshots/c"]);
}

#[test]
fn listing_ties_each_snapshot_to_its_folder_and_account() {
    let m = |id: &str, secs: i64| snap("/elsewhere", id, "q", secs).metadata;
    let folder = |name: &str, metadata: Metadata, archive: Result<(bool, u64), String>| ScannedFolder {
        name: name.to_string(),
        is_real_dir: true,
        files: Some(SnapshotFiles { metadata, archive }),
    };
    let found = vec![
        folder("x", m("111", 2), Ok((true, 5))),
        folder("y", m("222", 1), Ok((true, 5))),
        folder("z", m("111", 1), Ok((true, 6))),
        folder("v", m("111", 1), Ok((false, 5))),
        folder("w", m("111", 1), Err("gone".to_string())),
        folder("..", m("111", 1), Ok((true, 5))),
        folder("u", m("111", 1), Ok((true, 5))),
        ScannedFolder { name: "t".to_string(), is_real_dir: true, files: None },
    ];
    let listed = list(ST, "/d", "111", found);
    let dirs: Vec<&str> = listed.iter().map(|s| s.dir.as_str()).collect();
    assert_eq!(dirs, vec!["/d/snapshots/u", "/d/snapshots/x"]);
    assert!(listed.iter().all(|s| s.metadata.steamid == "111"));
}

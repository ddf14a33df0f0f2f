use save_guard::paths::{
    app_data_dir, appdata_roaming, config_path, default_backup_dest_as, default_backup_dest_in,
    elden_ring_root, file_name_as, is_within, is_within_as, join_as, local_appdata, log_dir,
    parent_is_as, same_path_as, validate_backup_dest, validate_backup_dest_as, PathError,
    PathStyle,
};
use save_guard::paths::{guard_backup_dest, real_path, strip_verbatim};
use std::path::Path;

#[test]
fn within_basic() {
    assert!(is_within("/a/b/c", "/a/b"));
    assert!(is_within("/a/b", "/a/b"));
    assert!(!is_within("/a/b", "/a/b/c"));
    assert!(!is_within("/a/x", "/a/b"));
}

#[test]
fn within_resolves_dotdot() {
    assert!(is_within("/a/b/../b/c", "/a/b"));
    assert!(!is_within("/a/b/../x", "/a/b"));
}

#[test]
fn guard_rejects_overlap() {
    let save = "/save/76561198000000000";
    assert!(validate_backup_dest(save, "/save/76561198000000000/backups").is_err());
    assert!(validate_backup_dest(save, "/documents/backups").is_ok());
    // save inside dest
    assert!(validate_backup_dest("/documents/backups/save", "/documents/backups").is_err());
}

#[test]
fn default_dest_layout() {
    let d = default_backup_dest_in("/home/u/Documents", "76561198000000000");
    assert!(Path::new(&d).ends_with("Game Save Backups/Elden Ring/76561198000000000"));
}

#[test]
fn guard_reports_which_direction() {
    let st = PathStyle::Unix;
    assert_eq!(
        validate_backup_dest_as(st, "/s/1", "/s/1/b"),
        Err(PathError::DestInsideSave)
    );
    assert_eq!(
        validate_backup_dest_as(st, "/d/b/s", "/d/b"),
        Err(PathError::SaveInsideDest)
    );
    // The same folder lies inside itself: the first check answers.
    assert_eq!(
        validate_backup_dest_as(st, "/s/1", "/s/1/"),
        Err(PathError::DestInsideSave)
    );
    assert_eq!(validate_backup_dest_as(st, "/s/1", "/s/10"), Ok(()));
}

#[test]
fn windows_paths_compare_without_case_and_with_either_separator() {
    let st = PathStyle::Windows;
    assert!(is_within_as(st, r"C:\Users\Me\AppData\EldenRing\1\b", r"c:/users/me/appdata/eldenring/1"));
    assert!(!is_within_as(st, r"D:\x", r"C:\x"));
    assert!(is_within_as(st, r"C:\a\.\b\..\b", r"C:\A"));
    assert!(!is_within_as(PathStyle::Unix, "/A/b", "/a"));
    assert_eq!(
        validate_backup_dest_as(st, r"C:\Save\1", r"c:\save\1\Backups"),
        Err(PathError::DestInsideSave)
    );
}

#[test]
fn dotdot_above_root_stays_at_root() {
    assert!(is_within_as(PathStyle::Unix, "/../a", "/a"));
    assert!(is_within_as(PathStyle::Unix, "/a/../../b", "/b"));
}

#[test]
fn join_follows_path_join() {
    assert_eq!(join_as(PathStyle::Unix, "/a", "b"), "/a/b");
    assert_eq!(join_as(PathStyle::Unix, "/a/", "b"), "/a/b");
    assert_eq!(join_as(PathStyle::Unix, "", "b"), "b");
    assert_eq!(join_as(PathStyle::Unix, "/a", "/b"), "/b");
    assert_eq!(join_as(PathStyle::Windows, r"C:\a", "b"), r"C:\a\b");
    assert_eq!(join_as(PathStyle::Windows, "C:", "b"), "C:b");
    assert_eq!(join_as(PathStyle::Windows, r"C:\a", r"\b"), r"C:\b");
    assert_eq!(join_as(PathStyle::Windows, r"C:\a", "D:b"), "D:b");
}

#[test]
fn default_dest_in_each_style() {
    assert_eq!(
        default_backup_dest_as(PathStyle::Unix, "/home/u/Documents", "1"),
        "/home/u/Documents/Game Save Backups/Elden Ring/1"
    );
    assert_eq!(
        default_backup_dest_as(PathStyle::Windows, r"C:\Users\u\Documents", "1"),
        r"C:\Users\u\Documents\Game Save Backups\Elden Ring\1"
    );
}

#[test]
fn environment_folders() {
    assert_eq!(
        appdata_roaming(None),
        Err(PathError::EnvUnset("APPDATA".to_string()))
    );
    assert_eq!(
        appdata_roaming(Some(String::new())),
        Err(PathError::EnvEmpty("APPDATA".to_string()))
    );
    assert_eq!(appdata_roaming(Some("/r".to_string())), Ok("/r".to_string()));
    assert_eq!(
        local_appdata(None),
        Err(PathError::EnvUnset("LOCALAPPDATA".to_string()))
    );
    let root = elden_ring_root(Some("/r".to_string())).unwrap();
    assert!(Path::new(&root).ends_with("EldenRing"));
    assert!(elden_ring_root(Some(String::new())).is_err());
    let app = app_data_dir(Some("/l".to_string())).unwrap();
    assert!(Path::new(&app).ends_with("EldenRingSaveGuard"));
    let cfg = config_path(Some("/l".to_string())).unwrap();
    assert!(Path::new(&cfg).ends_with("EldenRingSaveGuard/config.json"));
    let logs = log_dir(Some("/l".to_string())).unwrap();
    assert!(Path::new(&logs).ends_with("EldenRingSaveGuard/logs"));
    assert!(log_dir(None).is_err());
}

#[test]
fn derived_dirs_name_the_missing_variable() {
    assert_eq!(elden_ring_root(None), Err(PathError::EnvUnset("APPDATA".to_string())));
    assert_eq!(elden_ring_root(Some(String::new())), Err(PathError::EnvEmpty("APPDATA".to_string())));
    for f in [app_data_dir, config_path, log_dir] {
        assert_eq!(f(None), Err(PathError::EnvUnset("LOCALAPPDATA".to_string())));
        assert_eq!(f(Some(String::new())), Err(PathError::EnvEmpty("LOCALAPPDATA".to_string())));
    }
}

#[test]
fn file_names_and_parents() {
    assert_eq!(file_name_as(PathStyle::Unix, "/a/b.txt").as_deref(), Some("b.txt"));
    assert_eq!(file_name_as(PathStyle::Unix, "/a/b/").as_deref(), Some("b"));
    assert_eq!(file_name_as(PathStyle::Unix, "/a/.."), None);
    assert_eq!(file_name_as(PathStyle::Unix, "/"), None);
    assert_eq!(file_name_as(PathStyle::Windows, r"C:\x\y"), Some("y".to_string()));
    assert!(parent_is_as(PathStyle::Unix, "/d/snapshots/s1", "/d/snapshots"));
    assert!(parent_is_as(PathStyle::Unix, "/d/snapshots/s1", "/d/./snapshots/"));
    assert!(!parent_is_as(PathStyle::Unix, "/d/snapshots/x/s1", "/d/snapshots"));
    assert!(!parent_is_as(PathStyle::Unix, "/d/snapshots", "/d/snapshots"));
    assert!(same_path_as(PathStyle::Unix, "/a//b/", "/a/b"));
    assert!(!same_path_as(PathStyle::Unix, "/a/b", "/a/B"));
}

#[test]
fn guard_follows_resolved_links() {
    let st = PathStyle::Unix;
    // `/docs/backups` is a link into the save folder.
    let resolved = vec![
        ("/docs/backups".to_string(), "/save/1/inner".to_string()),
        ("/save/1".to_string(), "/save/1".to_string()),
    ];
    assert_eq!(validate_backup_dest_as(st, "/save/1", "/docs/backups"), Ok(()));
    assert_eq!(
        guard_backup_dest(st, "/save/1", "/docs/backups", &resolved),
        Err(PathError::DestInsideSave)
    );
    // The save folder resolves into the destination.
    let resolved = vec![("/games/save".to_string(), "/data/backups/save".to_string())];
    assert_eq!(
        guard_backup_dest(st, "/games/save", "/data/backups", &resolved),
        Err(PathError::SaveInsideDest)
    );
    // What is refused as written stays refused.
    assert_eq!(
        guard_backup_dest(st, "/s", "/s/b", &[("/s/b".to_string(), "/x".to_string())]),
        Err(PathError::DestInsideSave)
    );
    assert_eq!(guard_backup_dest(st, "/s", "/b", &[]), Ok(()));
    assert_eq!(real_path(&[("a".to_string(), "b".to_string()), ("a".to_string(), "c".to_string())], "a"), "b");
    assert_eq!(real_path(&[], "a"), "a");
    assert_eq!(strip_verbatim(r"\\?\C:\Users\x"), r"C:\Users\x");
    assert_eq!(strip_verbatim(r"\\?\UNC\server\share\x"), r"\\server\share\x");
    assert_eq!(strip_verbatim(r"\\?\Volume{1}\x"), r"\\?\Volume{1}\x");
    assert_eq!(strip_verbatim("/home/u"), "/home/u");
}

#[test]
fn a_joined_name_lies_one_level_within_its_parent() {
    for (st, p) in [
        (PathStyle::Unix, "/a/b"),
        (PathStyle::Unix, "/a/b/"),
        (PathStyle::Unix, ""),
        (PathStyle::Unix, "rel/x"),
        (PathStyle::Windows, r"C:\Saves"),
        (PathStyle::Windows, "C:"),
        (PathStyle::Windows, r"D:\x\..\y"),
    ] {
        let j = join_as(st, p, "snapshots");
        assert!(is_within_as(st, &j, p), "{j} within {p}");
        assert!(!is_within_as(st, p, &j), "{p} not within {j}");
    }
    assert_eq!(join_as(PathStyle::Windows, "C:", "x"), "C:x");
    assert_eq!(join_as(PathStyle::Unix, "/a/b/", "x"), "/a/b/x");
}

#[test]
fn the_guard_is_symmetric() {
    let pairs = [("/s", "/s/b"), ("/s/b", "/s"), ("/s", "/t"), ("/s", "/s"), ("/a/./s", "/a/s/x")];
    for (a, b) in pairs {
        assert_eq!(
            validate_backup_dest_as(PathStyle::Unix, a, b).is_ok(),
            validate_backup_dest_as(PathStyle::Unix, b, a).is_ok()
        );
    }
    assert!(validate_backup_dest_as(PathStyle::Unix, "/s", "/t").is_ok());
    assert_eq!(
        validate_backup_dest_as(PathStyle::Unix, "/s", "/s"),
        Err(PathError::DestInsideSave)
    );
    let table = vec![("/link".to_string(), "/s/inner".to_string())];
    assert_eq!(
        guard_backup_dest(PathStyle::Unix, "/s", "/link", &table),
        Err(PathError::DestInsideSave)
    );
    assert_eq!(
        guard_backup_dest(PathStyle::Unix, "/link", "/s", &table),
        Err(PathError::SaveInsideDest)
    );
}

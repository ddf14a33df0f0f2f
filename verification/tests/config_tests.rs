use save_guard::config::{
    apply_settings_as, broken_config_path, load_result, must_preserve, select_account_as, Config,
    ConfigFile, SettingsError, DEFAULT_INTERVAL_SECS, DEFAULT_RETENTION, MAX_RETENTION,
    MIN_INTERVAL_SECS,
};
use save_guard::clock::UtcTime;
use save_guard::paths::{PathError, PathStyle};

#[test]
fn sanitize_clamps() {
    let cfg = Config {
        interval_secs: 1,
        retention: 0,
        ..Default::default()
    }
    .sanitized();
    assert_eq!(cfg.interval_secs, MIN_INTERVAL_SECS);
    assert_eq!(cfg.retention, 1);
}

#[test]
fn missing_file_gives_defaults() {
    let r = load_result(ConfigFile::Missing, None);
    assert_eq!(r.config, Config::default());
    assert!(r.recovered_from.is_none());
}

#[test]
fn malformed_preserved_and_defaults_returned() {
    let file = ConfigFile::Malformed;
    assert!(must_preserve(&file));
    let r = load_result(file, Some("config.json.bad-20240101-000000".to_string()));
    assert_eq!(r.config, Config::default());
    let preserved = r.recovered_from.expect("broken file preserved");
    assert_eq!(preserved, "config.json.bad-20240101-000000");
}

#[test]
fn unknown_fields_and_partial_ok() {
    // A file holding only `selected_steamid` parses with every other field at
    // its default; the result is sanitized and nothing is set aside.
    let parsed = Config {
        selected_steamid: Some("123".to_string()),
        ..Default::default()
    };
    let file = ConfigFile::Parsed(parsed);
    assert!(!must_preserve(&file));
    let r = load_result(file, None);
    assert_eq!(r.config.selected_steamid.as_deref(), Some("123"));
    assert_eq!(r.config.interval_secs, DEFAULT_INTERVAL_SECS);
    assert!(r.recovered_from.is_none());
}

#[test]
fn defaults_are_the_documented_ones() {
    let c = Config::default();
    assert_eq!(c.version, 1);
    assert_eq!(c.interval_secs, 300);
    assert_eq!(c.retention, DEFAULT_RETENTION);
    assert_eq!(c.retention, 60);
    assert!(c.pre_launch && c.periodic && c.post_exit);
    assert_eq!(c.log_level, "info");
    assert!(c.selected_steamid.is_none() && c.backup_dest.is_none());
}

#[test]
fn sanitize_clamps_high_retention_and_blank_level() {
    let cfg = Config {
        version: 7,
        retention: 50_000,
        log_level: "  ".to_string(),
        ..Default::default()
    }
    .sanitized();
    assert_eq!(cfg.version, 1);
    assert_eq!(cfg.retention, MAX_RETENTION);
    assert_eq!(cfg.log_level, "info");
    assert_eq!(cfg.interval_secs, DEFAULT_INTERVAL_SECS);
}

#[test]
fn sanitize_is_idempotent() {
    let once = Config {
        interval_secs: 5,
        retention: 99_999,
        log_level: String::new(),
        ..Default::default()
    }
    .sanitized();
    let twice = once.clone().sanitized();
    assert_eq!(once, twice);
}

#[test]
fn broken_file_path_gets_timestamp_suffix() {
    let p = broken_config_path("/cfg/config.json", UtcTime { secs: 0, nanos: 0 });
    assert_eq!(p.as_deref(), Some("/cfg/config.json.bad-19700101-000000"));
    let p = broken_config_path("c.json", UtcTime { secs: 1_700_000_000, nanos: 5 });
    assert_eq!(p.as_deref(), Some("c.json.bad-20231114-221320"));
}

#[test]
fn settings_are_checked_in_order() {
    let st = PathStyle::Unix;
    let mut c = Config::default();
    assert_eq!(
        apply_settings_as(st, &mut c, "abc", "x", "", None, &[]),
        Err(SettingsError::IntervalNotNumber)
    );
    assert_eq!(
        apply_settings_as(st, &mut c, "60", "-1", "", None, &[]),
        Err(SettingsError::RetentionNotNumber)
    );
    assert_eq!(
        apply_settings_as(st, &mut c, "59", "0", "", None, &[]),
        Err(SettingsError::IntervalTooShort)
    );
    assert_eq!(
        apply_settings_as(st, &mut c, "60", "0", "", None, &[]),
        Err(SettingsError::RetentionOutOfRange)
    );
    assert_eq!(
        apply_settings_as(st, &mut c, "60", "10001", "/b", None, &[]),
        Err(SettingsError::RetentionOutOfRange)
    );
    assert_eq!(
        apply_settings_as(st, &mut c, "60", "3", "   ", None, &[]),
        Err(SettingsError::DestEmpty)
    );
    assert_eq!(
        apply_settings_as(st, &mut c, "60", "3", "/save/1/b", Some("/save/1"), &[]),
        Err(SettingsError::Dest(PathError::DestInsideSave))
    );
    assert_eq!(
        apply_settings_as(st, &mut c, "60", "3", "/save", Some("/save/1"), &[]),
        Err(SettingsError::Dest(PathError::SaveInsideDest))
    );
    // Nothing changed on refusal.
    assert_eq!(c, Config::default());
    assert_eq!(
        apply_settings_as(st, &mut c, " 120 ", "+7", "  /backups  ", Some("/save/1"), &[]),
        Ok(())
    );
    assert_eq!(c.interval_secs, 120);
    assert_eq!(c.retention, 7);
    assert_eq!(c.backup_dest.as_deref(), Some("/backups"));
}

#[test]
fn interval_overflow_is_not_a_number() {
    let mut c = Config::default();
    assert_eq!(
        apply_settings_as(PathStyle::Unix, &mut c, "18446744073709551616", "1", "/b", None, &[]),
        Err(SettingsError::IntervalNotNumber)
    );
    assert_eq!(
        apply_settings_as(PathStyle::Unix, &mut c, "18446744073709551615", "1", "/b", None, &[]),
        Ok(())
    );
    assert_eq!(c.interval_secs, u64::MAX);
}

#[test]
fn selecting_account_moves_default_destination_only() {
    let st = PathStyle::Unix;
    let mut c = Config::default();
    let changed = select_account_as(st, &mut c, "111", None, Some("/docs/111".to_string()));
    assert!(changed);
    assert_eq!(c.selected_steamid.as_deref(), Some("111"));
    assert_eq!(c.backup_dest.as_deref(), Some("/docs/111"));
    // Switching while on the old default follows to the new default.
    let changed = select_account_as(
        st,
        &mut c,
        "222",
        Some("/docs/111".to_string()),
        Some("/docs/222".to_string()),
    );
    assert!(changed);
    assert_eq!(c.backup_dest.as_deref(), Some("/docs/222"));
    // A custom destination stays where it is.
    c.backup_dest = Some("/custom".to_string());
    let changed = select_account_as(
        st,
        &mut c,
        "333",
        Some("/docs/222".to_string()),
        Some("/docs/333".to_string()),
    );
    assert!(!changed);
    assert_eq!(c.selected_steamid.as_deref(), Some("333"));
    assert_eq!(c.backup_dest.as_deref(), Some("/custom"));
}

#[test]
fn round_trip() {
    // Saving writes the sanitized settings; loading parses them back and
    // sanitizes again: what was saved is what is loaded.
    let cfg = Config {
        selected_steamid: Some("76561198000000000".into()),
        backup_dest: Some("/backups".to_string()),
        ..Default::default()
    };
    let written = cfg.clone().sanitized();
    let r = load_result(ConfigFile::Parsed(written), None);
    assert_eq!(r.config, cfg);
    assert!(r.recovered_from.is_none());
}

//! Versioned settings: defaults, the clamps applied on every load and save,
//! recovery from a malformed file, and the checks applied to settings the
//! user edits.

use vstd::prelude::*;

use crate::clock::{UtcTime, chrono_compact_stamp, compact_stamp};
use crate::paths::{PathError, PathStyle, components, guard_backup_dest, guard_check, path_style, same_path_as};
use crate::text::{blank, concat, decimal_value, from_chars, is_blank, is_ws, parse_u64, to_chars, trim, trimmed};

verus! {

pub const CONFIG_VERSION: u32 = 1;

pub const MIN_INTERVAL_SECS: u64 = 60;

pub const DEFAULT_INTERVAL_SECS: u64 = 300;

pub const MAX_RETENTION: usize = 10_000;

pub const DEFAULT_RETENTION: usize = 60;

/// The persisted settings.
#[derive(Debug, Clone, PartialEq, Eq)]
pub struct Config {
    pub version: u32,
    /// Numeric SteamID64 folder the user chose to protect.
    pub selected_steamid: Option<String>,
    pub backup_dest: Option<String>,
    pub interval_secs: u64,
    pub retention: usize,
    pub pre_launch: bool,
    pub periodic: bool,
    pub post_exit: bool,
    pub log_level: String,
}

/// The settings a fresh install starts with.
pub open spec fn is_default(c: Config) -> bool {
    &&& c.version == CONFIG_VERSION
    &&& c.selected_steamid is None
    &&& c.backup_dest is None
    &&& c.interval_secs == DEFAULT_INTERVAL_SECS
    &&& c.retention == DEFAULT_RETENTION
    &&& c.pre_launch
    &&& c.periodic
    &&& c.post_exit
    &&& c.log_level@ == "info"@
}

/// Whether settings are within the ranges every load and save enforces.
pub open spec fn is_sane(c: Config) -> bool {
    &&& c.version == CONFIG_VERSION
    &&& c.interval_secs >= MIN_INTERVAL_SECS
    &&& 1 <= c.retention <= MAX_RETENTION
    &&& !blank(c.log_level@)
}

/// `r` is `c` after the clamps of [`Config::sanitized`]: the current
/// version, an interval of at least a minute, a retention between 1 and
/// [`MAX_RETENTION`], and `info` for a blank log level; all else unchanged.
pub open spec fn sanitized_from(r: Config, c: Config) -> bool {
    &&& r.version == CONFIG_VERSION
    &&& r.interval_secs == (if c.interval_secs < MIN_INTERVAL_SECS {
        MIN_INTERVAL_SECS
    } else {
        c.interval_secs
    })
    &&& r.retention == (if c.retention < 1 {
        1
    } else if c.retention > MAX_RETENTION {
        MAX_RETENTION
    } else {
        c.retention
    })
    &&& r.log_level@ == (if blank(c.log_level@) {
        "info"@
    } else {
        c.log_level@
    })
    &&& r.selected_steamid == c.selected_steamid
    &&& r.backup_dest == c.backup_dest
    &&& r.pre_launch == c.pre_launch
    &&& r.periodic == c.periodic
    &&& r.post_exit == c.post_exit
}

impl Default for Config {
    fn default() -> (c: Config)
        ensures
            is_default(c),
    {
        Config {
            version: CONFIG_VERSION,
            selected_steamid: None,
            backup_dest: None,
            interval_secs: DEFAULT_INTERVAL_SECS,
            retention: DEFAULT_RETENTION,
            pre_launch: true,
            periodic: true,
            post_exit: true,
            log_level: "info".to_owned(),
        }
    }
}


impl Config {
    /// Clamps values to safe ranges. Applied on load and before every save, so
    /// that a hand-edited file can never create a tight backup loop or an
    /// absurd retention.
    pub fn sanitized(self) -> (r: Config)
        ensures
            sanitized_from(r, self),
            is_sane(r),
    {
        let mut c = self;
        c.version = CONFIG_VERSION;
        if c.interval_secs < MIN_INTERVAL_SECS {
            c.interval_secs = MIN_INTERVAL_SECS;
        }
        if c.retention < 1 {
            c.retention = 1;
        } else if c.retention > MAX_RETENTION {
            c.retention = MAX_RETENTION;
        }
        if is_blank(c.log_level.as_str()) {
            c.log_level = "info".to_owned();
            proof {
                reveal_strlit("info");
                assert(c.log_level@ == "info"@);
                assert(c.log_level@[0] == 'i');
                assert(!is_ws(c.log_level@[0]));
                assert(!blank(c.log_level@));
            }
        }
        c
    }
}

/// Two settings hold the same values (strings compared by their text).
pub open spec fn same_settings(a: Config, b: Config) -> bool {
    &&& a.version == b.version
    &&& a.selected_steamid == b.selected_steamid
    &&& a.backup_dest == b.backup_dest
    &&& a.interval_secs == b.interval_secs
    &&& a.retention == b.retention
    &&& a.pre_launch == b.pre_launch
    &&& a.periodic == b.periodic
    &&& a.post_exit == b.post_exit
    &&& a.log_level@ == b.log_level@
}

/// Sanitizing settings that are already sanitized changes nothing: the
/// clamps are idempotent.
pub proof fn lemma_sanitize_idempotent(c: Config, r: Config, r2: Config)
    requires
        sanitized_from(r, c),
        sanitized_from(r2, r),
    ensures
        same_settings(r2, r),
{
    reveal_strlit("info");
    if blank(c.log_level@) {
        assert(!is_ws(r.log_level@[0]));
        assert(!blank(r.log_level@));
    }
}

/// Sanitized settings are within range, and settings within range are left
/// as they are.
pub proof fn lemma_sane_fixed(c: Config, r: Config)
    requires
        sanitized_from(r, c),
    ensures
        is_sane(r),
        is_sane(c) ==> same_settings(r, c),
{
    reveal_strlit("info");
    if blank(c.log_level@) {
        assert(!is_ws(r.log_level@[0]));
    }
}


/// What reading the settings file gave.
pub enum ConfigFile {
    /// There is no file, or it could not be read.
    Missing,
    /// The file parsed; fields it lacks took their defaults.
    Parsed(Config),
    /// The file is there but is not valid settings.
    Malformed,
}

/// The effective settings, and where a malformed file was set aside.
pub struct LoadResult {
    pub config: Config,
    pub recovered_from: Option<String>,
}

/// Whether the file must be set aside before defaults replace it: only a
/// malformed one is, so that its bytes stay available for inspection.
pub fn must_preserve(file: &ConfigFile) -> (r: bool)
    ensures
        r == (file is Malformed),
{
    match file {
        ConfigFile::Malformed => true,
        _ => false,
    }
}

/// The outcome of loading settings. A missing file gives the defaults; a
/// parsed one is sanitized; a malformed one gives the defaults and reports
/// where the broken file was kept (`preserved`, if setting it aside worked).
pub fn load_result(file: ConfigFile, preserved: Option<String>) -> (r: LoadResult)
    ensures
        match file {
            ConfigFile::Missing => is_default(r.config) && r.recovered_from is None,
            ConfigFile::Parsed(c) => sanitized_from(r.config, c) && r.recovered_from is None,
            ConfigFile::Malformed => is_default(r.config) && r.recovered_from == preserved,
        },
{
    match file {
        ConfigFile::Missing => LoadResult { config: Config::default(), recovered_from: None },
        ConfigFile::Parsed(c) => LoadResult { config: c.sanitized(), recovered_from: None },
        ConfigFile::Malformed => LoadResult { config: Config::default(), recovered_from: preserved },
    }
}

/// Where a malformed settings file is moved: its path followed by `.bad-`
/// and the UTC time as `YYYYmmdd-HHMMSS`. `None` when chrono cannot express
/// the time.
pub fn broken_config_path(path: &str, now: UtcTime) -> (r: Option<String>)
    ensures
        match chrono_compact_stamp(now.secs) {
            Some(stamp) => r matches Some(p) && p@ == path@ + ".bad-"@ + stamp,
            None => r is None,
        },
{
    match compact_stamp(now.secs) {
        Some(stamp) => {
            let head = concat(path, ".bad-");
            Some(concat(head.as_str(), stamp.as_str()))
        },
        None => None,
    }
}

/// Why edited settings were refused.
#[derive(Debug, PartialEq, Eq)]
pub enum SettingsError {
    /// The interval is not a whole number of seconds.
    IntervalNotNumber,
    /// The retention is not a whole number.
    RetentionNotNumber,
    /// The interval is shorter than [`MIN_INTERVAL_SECS`].
    IntervalTooShort,
    /// The retention is not between 1 and [`MAX_RETENTION`].
    RetentionOutOfRange,
    /// The backup destination is empty.
    DestEmpty,
    /// The backup destination overlaps the selected save folder.
    Dest(PathError),
}

/// A parsed number that fits below `max`.
pub open spec fn number_within(v: Option<nat>, max: int) -> bool {
    v matches Some(n) && n <= max
}

/// The interval, retention and destination the edited settings give, or why
/// they are refused; the checks come in this order.
pub open spec fn settings_check(
    st: PathStyle,
    interval: Seq<char>,
    retention: Seq<char>,
    dest: Seq<char>,
    save_dir: Option<Seq<char>>,
    resolved: Seq<(String, String)>,
) -> Result<(nat, nat, Seq<char>), SettingsError> {
    let iv = decimal_value(trimmed(interval));
    let rv = decimal_value(trimmed(retention));
    let d = trimmed(dest);
    if !number_within(iv, u64::MAX as int) {
        Err(SettingsError::IntervalNotNumber)
    } else if !number_within(rv, usize::MAX as int) {
        Err(SettingsError::RetentionNotNumber)
    } else if iv->0 < MIN_INTERVAL_SECS {
        Err(SettingsError::IntervalTooShort)
    } else if rv->0 == 0 || rv->0 > MAX_RETENTION {
        Err(SettingsError::RetentionOutOfRange)
    } else if d.len() == 0 {
        Err(SettingsError::DestEmpty)
    } else {
        match save_dir {
            Some(sd) => match guard_check(st, sd, d, resolved) {
                Ok(_) => Ok((iv->0, rv->0, d)),
                Err(e) => Err(SettingsError::Dest(e)),
            },
            None => Ok((iv->0, rv->0, d)),
        }
    }
}

/// `after` is `before` with edited settings applied as [`settings_check`]
/// decides, and `r` reports the outcome.
pub open spec fn settings_applied(
    st: PathStyle,
    before: Config,
    after: Config,
    interval: Seq<char>,
    retention: Seq<char>,
    dest: Seq<char>,
    save_dir: Option<Seq<char>>,
    resolved: Seq<(String, String)>,
    r: Result<(), SettingsError>,
) -> bool {
    match settings_check(st, interval, retention, dest, save_dir, resolved) {
        Ok((i, n, d)) => {
            &&& r is Ok
            &&& after.interval_secs == i
            &&& after.retention == n
            &&& after.backup_dest matches Some(p) && p@ == d
            &&& after.version == before.version
            &&& after.selected_steamid == before.selected_steamid
            &&& after.pre_launch == before.pre_launch
            &&& after.periodic == before.periodic
            &&& after.post_exit == before.post_exit
            &&& after.log_level == before.log_level
        },
        Err(e) => r == Err::<(), SettingsError>(e) && after == before,
    }
}

/// Applies settings the user typed: the interval in seconds, the number of
/// snapshots to keep, and the backup destination, each trimmed. They are
/// checked in that order, and the destination must not overlap the save
/// folder of the selected account (`save_dir`), as written or as the file
/// system resolves them (`resolved`). Nothing changes when a check fails.
pub fn apply_settings_as(
    st: PathStyle,
    config: &mut Config,
    interval: &str,
    retention: &str,
    dest: &str,
    save_dir: Option<&str>,
    resolved: &[(String, String)],
) -> (r: Result<(), SettingsError>)
    ensures
        settings_applied(
            st,
            *old(config),
            *final(config),
            interval@,
            retention@,
            dest@,
            match save_dir {
                Some(s) => Some(s@),
                None => None,
            },
            resolved@,
            r,
        ),
{
    let ic = to_chars(interval);
    let it = trim(ic.as_slice());
    let iv = match parse_u64(it.as_slice()) {
        Some(v) => v,
        None => return Err(SettingsError::IntervalNotNumber),
    };
    let rc = to_chars(retention);
    let rt = trim(rc.as_slice());
    let rv64 = match parse_u64(rt.as_slice()) {
        Some(v) => v,
        None => {
            return Err(SettingsError::RetentionNotNumber);
        },
    };
    if rv64 > usize::MAX as u64 {
        return Err(SettingsError::RetentionNotNumber);
    }
    let rv = rv64 as usize;
    if iv < MIN_INTERVAL_SECS {
        return Err(SettingsError::IntervalTooShort);
    }
    if rv == 0 || rv > MAX_RETENTION {
        return Err(SettingsError::RetentionOutOfRange);
    }
    let dc = to_chars(dest);
    let dt = trim(dc.as_slice());
    if dt.len() == 0 {
        return Err(SettingsError::DestEmpty);
    }
    let d = from_chars(dt.as_slice());
    match save_dir {
        Some(sd) => match guard_backup_dest(st, sd, d.as_str(), resolved) {
            Ok(()) => {},
            Err(e) => return Err(SettingsError::Dest(e)),
        },
        None => {},
    }
    config.interval_secs = iv;
    config.retention = rv;
    config.backup_dest = Some(d);
    Ok(())
}

/// [`apply_settings_as`] in this platform's path style.
pub fn apply_settings(
    config: &mut Config,
    interval: &str,
    retention: &str,
    dest: &str,
    save_dir: Option<&str>,
    resolved: &[(String, String)],
) -> (r: Result<(), SettingsError>)
    ensures
        settings_applied(
            PathStyle::Unix,
            *old(config),
            *final(config),
            interval@,
            retention@,
            dest@,
            match save_dir {
                Some(s) => Some(s@),
                None => None,
            },
            resolved@,
            r,
        ) || settings_applied(
            PathStyle::Windows,
            *old(config),
            *final(config),
            interval@,
            retention@,
            dest@,
            match save_dir {
                Some(s) => Some(s@),
                None => None,
            },
            resolved@,
            r,
        ),
{
    apply_settings_as(path_style(), config, interval, retention, dest, save_dir, resolved)
}

/// Whether two optional paths are equal component by component, as
/// `Option<&Path>` equality decides.
pub open spec fn same_optional_path(st: PathStyle, a: Option<String>, b: Option<String>) -> bool {
    match (a, b) {
        (None, None) => true,
        (Some(x), Some(y)) => components(st, x@) == components(st, y@),
        _ => false,
    }
}

/// The destination after selecting an account: the account's default
/// destination replaces the current one when there is none, or when the
/// current one is the previously selected account's default.
pub open spec fn dest_after_select(
    st: PathStyle,
    current: Option<String>,
    previous_default: Option<String>,
    new_default: Option<String>,
) -> Option<String> {
    if (current is None || same_optional_path(st, current, previous_default)) && new_default is Some {
        new_default
    } else {
        current
    }
}

/// Selects the account to protect. `previous_default` is the default
/// destination of the account selected before (if any could be resolved),
/// `new_default` that of `steamid`. Another account's backups are left where
/// they are: only a destination that was the old default follows the switch.
pub fn select_account_as(
    st: PathStyle,
    config: &mut Config,
    steamid: &str,
    previous_default: Option<String>,
    new_default: Option<String>,
) -> (dest_changed: bool)
    ensures
        final(config).selected_steamid matches Some(s) && s@ == steamid@,
        final(config).backup_dest == dest_after_select(
            st,
            old(config).backup_dest,
            previous_default,
            new_default,
        ),
        dest_changed == ((old(config).backup_dest is None || same_optional_path(
            st,
            old(config).backup_dest,
            previous_default,
        )) && new_default is Some),
        final(config).version == old(config).version,
        final(config).interval_secs == old(config).interval_secs,
        final(config).retention == old(config).retention,
        final(config).pre_launch == old(config).pre_launch,
        final(config).periodic == old(config).periodic,
        final(config).post_exit == old(config).post_exit,
        final(config).log_level == old(config).log_level,
{
    let was_default = match (&config.backup_dest, &previous_default) {
        (None, None) => true,
        (Some(x), Some(y)) => same_path_as(st, x.as_str(), y.as_str()),
        _ => false,
    };
    config.selected_steamid = Some(steamid.to_owned());
    if config.backup_dest.is_none() || was_default {
        match new_default {
            Some(d) => {
                config.backup_dest = Some(d);
                return true;
            },
            None => {},
        }
    }
    false
}

/// [`select_account_as`] in this platform's path style.
pub fn select_account(
    config: &mut Config,
    steamid: &str,
    previous_default: Option<String>,
    new_default: Option<String>,
) -> (dest_changed: bool)
    ensures
        final(config).selected_steamid matches Some(s) && s@ == steamid@,
        final(config).backup_dest == dest_after_select(
            PathStyle::Unix,
            old(config).backup_dest,
            previous_default,
            new_default,
        ) || final(config).backup_dest == dest_after_select(
            PathStyle::Windows,
            old(config).backup_dest,
            previous_default,
            new_default,
        ),
        dest_changed ==> final(config).backup_dest == new_default && new_default is Some,
        !dest_changed ==> final(config).backup_dest == old(config).backup_dest,
        final(config).version == old(config).version,
        final(config).interval_secs == old(config).interval_secs,
        final(config).retention == old(config).retention,
        final(config).pre_launch == old(config).pre_launch,
        final(config).periodic == old(config).periodic,
        final(config).post_exit == old(config).post_exit,
        final(config).log_level == old(config).log_level,
{
    select_account_as(path_style(), config, steamid, previous_default, new_default)
}

} // verus!

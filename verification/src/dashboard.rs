//! What the desktop dashboard decides and shows: the protection banner, the
//! checks before a manual backup, storage totals and short folder names.

use vstd::prelude::*;

use crate::config::Config;
use crate::discovery::SaveCandidate;
use crate::paths::{PathError, PathStyle, file_name_as, file_name_of, guard_backup_dest, guard_check};
use crate::snapshot::{FileHash, Snapshot, lemma_total_size_prefix, total_size};

verus! {

/// The protection banner.
#[derive(Clone, Copy, PartialEq, Eq, Debug, Structural)]
pub enum Protection {
    /// An account and a destination are set, and backups exist.
    Protected,
    /// No account is selected yet.
    ChooseAccount,
    /// No backup exists yet for the selected account.
    NoBackupsYet,
    /// The setup is otherwise incomplete (no destination).
    Incomplete,
}

pub open spec fn protection_of(config: Config, snapshot_count: nat) -> Protection {
    if config.selected_steamid is Some && config.backup_dest is Some && snapshot_count > 0 {
        Protection::Protected
    } else if config.selected_steamid is None {
        Protection::ChooseAccount
    } else if snapshot_count == 0 {
        Protection::NoBackupsYet
    } else {
        Protection::Incomplete
    }
}

/// The banner, case by case: with no account selected it asks for one,
/// whatever the number of snapshots; with an account and no snapshots it
/// says no backups exist yet; it says protected exactly when an account and
/// a destination are set and snapshots exist; and the remaining case (an
/// account and snapshots, but no destination) is incomplete setup.
pub proof fn lemma_protection_banner(config: Config, snapshot_count: nat)
    ensures
        config.selected_steamid is None ==> protection_of(config, snapshot_count)
            == Protection::ChooseAccount,
        config.selected_steamid is Some && snapshot_count == 0 ==> protection_of(
            config,
            snapshot_count,
        ) == Protection::NoBackupsYet,
        (protection_of(config, snapshot_count) == Protection::Protected) == (
        config.selected_steamid is Some && config.backup_dest is Some && snapshot_count > 0),
        config.selected_steamid is Some && config.backup_dest is None && snapshot_count > 0
            ==> protection_of(config, snapshot_count) == Protection::Incomplete,
{
}

/// Which banner the dashboard shows, given the settings and how many
/// snapshots the selected account has.
pub fn protection(config: &Config, snapshot_count: usize) -> (r: Protection)
    ensures
        r == protection_of(*config, snapshot_count as nat),
        config.selected_steamid is None ==> r == Protection::ChooseAccount,
        config.selected_steamid is Some && snapshot_count == 0 ==> r == Protection::NoBackupsYet,
        (r == Protection::Protected) == (config.selected_steamid is Some && config.backup_dest is Some
            && snapshot_count > 0),
{
    proof {
        lemma_protection_banner(*config, snapshot_count as nat);
    }
    if config.selected_steamid.is_some() && config.backup_dest.is_some() && snapshot_count > 0 {
        Protection::Protected
    } else if config.selected_steamid.is_none() {
        Protection::ChooseAccount
    } else if snapshot_count == 0 {
        Protection::NoBackupsYet
    } else {
        Protection::Incomplete
    }
}

/// The banner's text.
pub open spec fn protection_text(p: Protection) -> Seq<char> {
    match p {
        Protection::Protected => "Protected — backups exist"@,
        Protection::ChooseAccount => "Setup incomplete — choose an account below"@,
        Protection::NoBackupsYet => "No backups yet — launch the game or press Back up now"@,
        Protection::Incomplete => "Setup incomplete"@,
    }
}

impl Protection {
    /// The banner's text.
    pub fn text(self) -> (r: &'static str)
        ensures
            r@ == protection_text(self),
    {
        match self {
            Protection::Protected => "Protected — backups exist",
            Protection::ChooseAccount => "Setup incomplete — choose an account below",
            Protection::NoBackupsYet => "No backups yet — launch the game or press Back up now",
            Protection::Incomplete => "Setup incomplete",
        }
    }
}

/// Why a manual backup cannot start.
#[derive(Debug, PartialEq, Eq)]
pub enum ManualBackupError {
    /// No account is selected, or its save folder is not among those found.
    SelectAccount,
    /// No backup destination is set.
    ChooseDestination,
    /// The destination overlaps the save folder.
    Dest(PathError),
}

/// What a manual backup checks before it starts: an account whose save was
/// found, then a destination, then that the destination and the save folder
/// do not overlap, as written or as resolved. Gives the destination.
pub fn manual_backup_check(
    st: PathStyle,
    config: &Config,
    selected: Option<&SaveCandidate>,
    resolved: &[(String, String)],
) -> (r: Result<String, ManualBackupError>)
    ensures
        match selected {
            None => r == Err::<String, ManualBackupError>(ManualBackupError::SelectAccount),
            Some(c) => match config.backup_dest {
                None => r == Err::<String, ManualBackupError>(ManualBackupError::ChooseDestination),
                Some(d) => match guard_check(st, c.dir@, d@, resolved@) {
                    Err(e) => r == Err::<String, ManualBackupError>(ManualBackupError::Dest(e)),
                    Ok(_) => r matches Ok(x) && x@ == d@,
                },
            },
        },
{
    let c = match selected {
        None => return Err(ManualBackupError::SelectAccount),
        Some(c) => c,
    };
    let d = match &config.backup_dest {
        None => return Err(ManualBackupError::ChooseDestination),
        Some(d) => d,
    };
    match guard_backup_dest(st, c.dir.as_str(), d.as_str(), resolved) {
        Err(e) => Err(ManualBackupError::Dest(e)),
        Ok(()) => Ok(d.clone()),
    }
}

/// Bytes stored on disk by the snapshots: the sum of their archive sizes.
pub open spec fn stored_total(s: Seq<Snapshot>) -> int
    decreases s.len(),
{
    if s.len() == 0 {
        0
    } else {
        stored_total(s.drop_last()) + s.last().metadata.stored_bytes
    }
}

/// Original bytes of the saves the snapshots hold.
pub open spec fn original_total(s: Seq<Snapshot>) -> int
    decreases s.len(),
{
    if s.len() == 0 {
        0
    } else {
        original_total(s.drop_last()) + total_size(s.last().metadata.files@)
    }
}

proof fn lemma_totals_prefix(s: Seq<Snapshot>, i: int)
    requires
        0 <= i < s.len(),
    ensures
        stored_total(s.take(i)) + s[i].metadata.stored_bytes <= stored_total(s),
        original_total(s.take(i)) + total_size(s[i].metadata.files@) <= original_total(s),
        total_size(s[i].metadata.files@) >= 0,
    decreases s.len(),
{
    lemma_totals_nonneg(s.take(i));
    lemma_totals_nonneg(s);
    lemma_total_size_nonneg(s[i].metadata.files@);
    if i < s.len() - 1 {
        lemma_totals_prefix(s.drop_last(), i);
        assert(s.drop_last().take(i) =~= s.take(i));
        assert(s.drop_last()[i] == s[i]);
        lemma_total_size_nonneg(s.last().metadata.files@);
    } else {
        assert(s.drop_last() =~= s.take(i));
    }
}

proof fn lemma_totals_nonneg(s: Seq<Snapshot>)
    ensures
        stored_total(s) >= 0,
        original_total(s) >= 0,
    decreases s.len(),
{
    if s.len() > 0 {
        lemma_totals_nonneg(s.drop_last());
        lemma_total_size_nonneg(s.last().metadata.files@);
    }
}

proof fn lemma_total_size_nonneg(f: Seq<crate::snapshot::FileHash>)
    ensures
        total_size(f) >= 0,
    decreases f.len(),
{
    if f.len() > 0 {
        lemma_total_size_nonneg(f.drop_last());
    }
}

/// The storage the snapshots use on disk, and the original size of what
/// they hold.
pub fn storage_totals(snaps: &[Snapshot]) -> (r: (u64, u64))
    requires
        stored_total(snaps@) <= u64::MAX,
        original_total(snaps@) <= u64::MAX,
    ensures
        r.0 == stored_total(snaps@),
        r.1 == original_total(snaps@),
{
    let mut used: u64 = 0;
    let mut original: u64 = 0;
    let mut i: usize = 0;
    while i < snaps.len()
        invariant
            i <= snaps@.len(),
            used == stored_total(snaps@.take(i as int)),
            original == original_total(snaps@.take(i as int)),
            stored_total(snaps@) <= u64::MAX,
            original_total(snaps@) <= u64::MAX,
        decreases snaps@.len() - i,
    {
        proof {
            lemma_totals_prefix(snaps@, i as int);
            assert(snaps@.take(i + 1).drop_last() =~= snaps@.take(i as int));
            assert(snaps@.take(i + 1).last() == snaps@[i as int]);
            assert(total_size(snaps@[i as int].metadata.files@) <= u64::MAX);
        }
        used = used + snaps[i].stored_size();
        original = original + snaps[i].original_size();
        i = i + 1;
    }
    proof {
        assert(snaps@.take(snaps@.len() as int) =~= snaps@);
    }
    (used, original)
}

/// The sum of the recorded sizes, or `None` when it does not fit in a `u64`.
fn checked_total_size(files: &[FileHash]) -> (r: Option<u64>)
    ensures
        match r {
            Some(v) => v == total_size(files@),
            None => total_size(files@) > u64::MAX,
        },
{
    let mut total: u64 = 0;
    let mut i: usize = 0;
    while i < files.len()
        invariant
            i <= files@.len(),
            total == total_size(files@.take(i as int)),
        decreases files@.len() - i,
    {
        proof {
            lemma_total_size_prefix(files@, i as int);
            assert(files@.take(i + 1).drop_last() =~= files@.take(i as int));
        }
        match total.checked_add(files[i].size) {
            Some(t) => total = t,
            None => return None,
        }
        i = i + 1;
    }
    proof {
        assert(files@.take(files@.len() as int) =~= files@);
    }
    Some(total)
}

/// The storage the snapshots use on disk and the original size of what they
/// hold, or `None` when either sum does not fit in a `u64`.
pub fn storage_totals_checked(snaps: &[Snapshot]) -> (r: Option<(u64, u64)>)
    ensures
        match r {
            Some(t) => t.0 == stored_total(snaps@) && t.1 == original_total(snaps@),
            None => stored_total(snaps@) > u64::MAX || original_total(snaps@) > u64::MAX,
        },
{
    let mut used: u64 = 0;
    let mut original: u64 = 0;
    let mut i: usize = 0;
    while i < snaps.len()
        invariant
            i <= snaps@.len(),
            used == stored_total(snaps@.take(i as int)),
            original == original_total(snaps@.take(i as int)),
        decreases snaps@.len() - i,
    {
        proof {
            lemma_totals_prefix(snaps@, i as int);
            assert(snaps@.take(i + 1).drop_last() =~= snaps@.take(i as int));
            assert(snaps@.take(i + 1).last() == snaps@[i as int]);
        }
        match used.checked_add(snaps[i].stored_size()) {
            Some(u) => used = u,
            None => return None,
        }
        let size = match checked_total_size(snaps[i].metadata.files.as_slice()) {
            Some(v) => v,
            None => return None,
        };
        match original.checked_add(size) {
            Some(o) => original = o,
            None => return None,
        }
        i = i + 1;
    }
    proof {
        assert(snaps@.take(snaps@.len() as int) =~= snaps@);
    }
    Some((used, original))
}

/// A path's last name for display, or the whole path when it has none.
pub fn dir_name(st: PathStyle, path: &str) -> (r: String)
    ensures
        r@ == match file_name_of(st, path@) {
            Some(n) => n,
            None => path@,
        },
{
    match file_name_as(st, path) {
        Some(n) => n,
        None => path.to_owned(),
    }
}

} // verus!

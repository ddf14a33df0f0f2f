//! The decisions of the Steam-launched background monitor (`--monitor`).
//!
//! Two promises shape it:
//! 1. Never block the game. Every backup step is best-effort: whatever a
//!    backup gives, the game is launched and kept running.
//! 2. Live exactly as long as the game. Steam treats the game as running while
//!    the monitor lives, so the monitor waits for `eldenring.exe` to appear
//!    and then to disappear, not merely for its direct child (the anti-cheat
//!    launcher) to exit, since that one can end first.
//!
//! The caller performs each action (spawning, polling the process list,
//! sleeping, backing up) and reports what happened, with the time on a
//! monotonic clock in nanoseconds; the run decides what comes next.

use vstd::prelude::*;

use crate::config::Config;
use crate::discovery::{SaveCandidate, find};
use crate::paths::{PathError, PathStyle, guard_backup_dest, guard_check};
use crate::snapshot::{Reason, Snapshot, SnapshotError};

verus! {

/// Name of the lock that marks a running monitor.
pub const MUTEX_NAME: &'static str = "EldenRingSaveGuardMonitor";

/// How long the monitor waits for the game process to appear.
pub const APPEAR_TIMEOUT_NS: u64 = 180_000_000_000;

/// Pause between two looks at the process list, in milliseconds.
pub const PROCESS_POLL_MS: u64 = 2_000;

/// Pause after the game exits, for its last writes, in milliseconds.
pub const POST_EXIT_GRACE_MS: u64 = 8_000;

/// What a monitored session backs up, and where.
#[derive(Debug)]
pub struct Target {
    pub config: Config,
    pub elden_root: String,
    pub steamid: String,
    pub dest: String,
}

impl Target {
    /// The save folder of the target's account among freshly discovered
    /// candidates.
    pub fn candidate(&self, candidates: Vec<SaveCandidate>) -> (r: Option<SaveCandidate>)
        ensures
            r == first_of(candidates@, self.steamid@),
    {
        let ghost cs = candidates@;
        let r = find(candidates, self.steamid.as_str());
        proof {
            lemma_first_of(cs, self.steamid@, r);
        }
        r
    }
}

/// Why backups are disabled for a session.
#[derive(Debug, PartialEq, Eq)]
pub enum TargetError {
    /// The configuration file's location could not be resolved, the Elden
    /// Ring folder could not be resolved, or the destination overlaps the
    /// save folder.
    Path(PathError),
    /// No Steam account is selected.
    NoAccount,
    /// No backup destination is configured.
    NoDestination,
    /// The selected account's save folder was not found.
    SaveNotFound,
}

/// The first candidate of the account, if any.
pub open spec fn first_of(candidates: Seq<SaveCandidate>, steamid: Seq<char>) -> Option<SaveCandidate> {
    if exists|i: int| 0 <= i < candidates.len() && #[trigger] candidates[i].steamid@ == steamid {
        let i = choose|i: int|
            0 <= i < candidates.len() && #[trigger] candidates[i].steamid@ == steamid && forall|j: int|
                0 <= j < i ==> #[trigger] candidates[j].steamid@ != steamid;
        Some(candidates[i])
    } else {
        None
    }
}

/// Resolves what a session backs up: the configuration (or the failure to
/// locate it), the Elden Ring folder (or the failure to resolve it), and the
/// candidates discovered there. Checks come in this order: configuration,
/// selected account, destination, Elden Ring folder, the account's save, and
/// the destination's overlap with the save folder, as written or as the file
/// system resolves them (`resolved`).
pub fn resolve_target(
    st: PathStyle,
    config: Result<Config, PathError>,
    elden_root: Result<String, PathError>,
    candidates: Vec<SaveCandidate>,
    resolved: &[(String, String)],
) -> (r: Result<Target, TargetError>)
    ensures
        match config {
            Err(e) => r == Err::<Target, TargetError>(TargetError::Path(e)),
            Ok(c) => match (c.selected_steamid, c.backup_dest) {
                (None, _) => r == Err::<Target, TargetError>(TargetError::NoAccount),
                (Some(_), None) => r == Err::<Target, TargetError>(TargetError::NoDestination),
                (Some(id), Some(dest)) => match elden_root {
                    Err(e) => r == Err::<Target, TargetError>(TargetError::Path(e)),
                    Ok(root) => match first_of(candidates@, id@) {
                        None => r == Err::<Target, TargetError>(TargetError::SaveNotFound),
                        Some(cand) => match guard_check(st, cand.dir@, dest@, resolved@) {
                            Err(e) => r == Err::<Target, TargetError>(TargetError::Path(e)),
                            Ok(_) => r matches Ok(t) && t.config == c && t.elden_root == root
                                && t.steamid == id && t.dest == dest,
                        },
                    },
                },
            },
        },
{
    let c = match config {
        Err(e) => return Err(TargetError::Path(e)),
        Ok(c) => c,
    };
    let steamid = match &c.selected_steamid {
        None => return Err(TargetError::NoAccount),
        Some(s) => s.clone(),
    };
    let dest = match &c.backup_dest {
        None => return Err(TargetError::NoDestination),
        Some(d) => d.clone(),
    };
    let root = match elden_root {
        Err(e) => return Err(TargetError::Path(e)),
        Ok(r) => r,
    };
    let ghost cs = candidates@;
    let found = find(candidates, steamid.as_str());
    proof {
        lemma_first_of(cs, steamid@, found);
    }
    let cand = match found {
        None => return Err(TargetError::SaveNotFound),
        Some(cand) => cand,
    };
    match guard_backup_dest(st, cand.dir.as_str(), dest.as_str(), resolved) {
        Err(e) => Err(TargetError::Path(e)),
        Ok(()) => Ok(Target { config: c, elden_root: root, steamid, dest }),
    }
}

/// What [`find`] returns is [`first_of`].
proof fn lemma_first_of(cs: Seq<SaveCandidate>, steamid: Seq<char>, found: Option<SaveCandidate>)
    requires
        match found {
            None => forall|i: int| 0 <= i < cs.len() ==> #[trigger] cs[i].steamid@ != steamid,
            Some(c) => exists|i: int|
                0 <= i < cs.len() && c == #[trigger] cs[i] && c.steamid@ == steamid && forall|j: int|
                    0 <= j < i ==> #[trigger] cs[j].steamid@ != steamid,
        },
    ensures
        found == first_of(cs, steamid),
{
    if let Some(c) = found {
        let i = choose|i: int|
            0 <= i < cs.len() && c == #[trigger] cs[i] && c.steamid@ == steamid && forall|j: int|
                0 <= j < i ==> #[trigger] cs[j].steamid@ != steamid;
        assert(cs[i].steamid@ == steamid);
        let k = choose|k: int|
            0 <= k < cs.len() && #[trigger] cs[k].steamid@ == steamid && forall|j: int|
                0 <= j < k ==> #[trigger] cs[j].steamid@ != steamid;
        if k < i {
            assert(cs[k].steamid@ != steamid);
        }
        if i < k {
            assert(cs[i].steamid@ != steamid);
        }
    }
}

/// The files a backup copies: the vanilla save and, when present, its
/// `.sl2.bak` sibling.
pub open spec fn sources_of(c: SaveCandidate) -> Seq<String> {
    match c.bak_file {
        Some(b) => seq![c.save_file, b],
        None => seq![c.save_file],
    }
}

/// The vanilla save file plus its `.sl2.bak` sibling when present.
pub fn source_files(candidate: &SaveCandidate) -> (r: Vec<String>)
    ensures
        r@ == sources_of(*candidate),
{
    let mut v: Vec<String> = Vec::new();
    v.push(candidate.save_file.clone());
    match &candidate.bak_file {
        Some(b) => v.push(b.clone()),
        None => {},
    }
    assert(v@ =~= sources_of(*candidate));
    v
}

/// The steps of one backup: find the save, snapshot it, apply retention.
#[derive(Clone, Copy, PartialEq, Eq, Debug, Structural)]
pub enum BackupPhase {
    Finding,
    Creating,
    Retaining,
    Done,
}

/// What the caller reports after performing a [`BackupAction`].
pub enum BackupEvent {
    /// The account's save folder, freshly discovered, if it still exists.
    Found(Option<SaveCandidate>),
    /// What creating the snapshot gave.
    Created(Result<Option<Snapshot>, SnapshotError>),
    /// How many old snapshots retention removed, or why it failed.
    Retained(Result<usize, String>),
}

/// How a backup ended.
#[derive(Debug)]
pub enum BackupOutcome {
    /// The account's save folder was gone; nothing was copied.
    Vanished,
    /// The save equals the newest snapshot; nothing new was stored.
    Unchanged,
    /// Creating the snapshot failed.
    Failed(SnapshotError),
    /// A snapshot was finalized, then retention ran.
    Created(Snapshot, Result<usize, String>),
}

/// What the caller must do next.
pub enum BackupAction {
    /// Discover the account's save folder again.
    FindCandidate,
    /// Create a snapshot of these files.
    CreateSnapshot(Vec<String>),
    /// Apply retention to the account's snapshots, keeping this many.
    ApplyRetention(usize),
    /// The backup is over.
    Finish(BackupOutcome),
}

/// One best-effort backup.
pub struct BackupRun {
    phase: BackupPhase,
    reason: Reason,
    keep: usize,
    created: Option<Snapshot>,
}

impl BackupRun {
    pub closed spec fn phase(self) -> BackupPhase {
        self.phase
    }

    pub closed spec fn reason(self) -> Reason {
        self.reason
    }

    pub closed spec fn keep(self) -> usize {
        self.keep
    }

    /// The snapshot created by this backup, once there is one.
    pub closed spec fn created(self) -> Option<Snapshot> {
        self.created
    }

    pub closed spec fn wf(self) -> bool {
        (self.phase == BackupPhase::Retaining) == (self.created is Some)
    }

    /// Starts a backup for `reason`; retention will keep `keep` snapshots.
    pub fn start(reason: Reason, keep: usize) -> (r: (BackupRun, BackupAction))
        ensures
            r.0.wf(),
            r.0.phase() == BackupPhase::Finding,
            r.0.reason() == reason,
            r.0.keep() == keep,
            r.1 is FindCandidate,
    {
        (BackupRun { phase: BackupPhase::Finding, reason, keep, created: None }, BackupAction::FindCandidate)
    }

    /// The reason this backup was taken.
    pub fn reason_of(&self) -> (r: Reason)
        ensures
            r == self.reason(),
    {
        self.reason
    }

    /// Whether `event` is what the current phase waits for.
    pub open spec fn expects(self, event: BackupEvent) -> bool {
        match event {
            BackupEvent::Found(_) => self.phase() == BackupPhase::Finding,
            BackupEvent::Created(_) => self.phase() == BackupPhase::Creating,
            BackupEvent::Retained(_) => self.phase() == BackupPhase::Retaining,
        }
    }

    /// Advances the backup with what the last action gave. Retention is asked
    /// for only once a new snapshot is finalized, so a snapshot is never
    /// deleted before its replacement exists.
    pub fn step(&mut self, event: BackupEvent) -> (action: BackupAction)
        requires
            old(self).wf(),
            old(self).expects(event),
        ensures
            final(self).wf(),
            final(self).reason() == old(self).reason(),
            final(self).keep() == old(self).keep(),
            action is Finish <==> final(self).phase() == BackupPhase::Done,
            match event {
                BackupEvent::Found(None) => action matches BackupAction::Finish(BackupOutcome::Vanished),
                BackupEvent::Found(Some(c)) => final(self).phase() == BackupPhase::Creating && (
                action matches BackupAction::CreateSnapshot(v) && v@ == sources_of(c)),
                BackupEvent::Created(Ok(Some(s))) => final(self).phase() == BackupPhase::Retaining
                    && final(self).created() == Some(s) && action == BackupAction::ApplyRetention(
                    old(self).keep(),
                ),
                BackupEvent::Created(Ok(None)) => action matches BackupAction::Finish(
                    BackupOutcome::Unchanged,
                ),
                BackupEvent::Created(Err(e)) => action matches BackupAction::Finish(
                    BackupOutcome::Failed(x),
                ) && x == e,
                BackupEvent::Retained(res) => action matches BackupAction::Finish(
                    BackupOutcome::Created(s, x),
                ) && Some(s) == old(self).created() && x == res,
            },
            action is ApplyRetention ==> event matches BackupEvent::Created(Ok(Some(_))),
    {
        match event {
            BackupEvent::Found(None) => {
                self.phase = BackupPhase::Done;
                BackupAction::Finish(BackupOutcome::Vanished)
            },
            BackupEvent::Found(Some(c)) => {
                self.phase = BackupPhase::Creating;
                BackupAction::CreateSnapshot(source_files(&c))
            },
            BackupEvent::Created(Ok(Some(s))) => {
                self.phase = BackupPhase::Retaining;
                self.created = Some(s);
                BackupAction::ApplyRetention(self.keep)
            },
            BackupEvent::Created(Ok(None)) => {
                self.phase = BackupPhase::Done;
                BackupAction::Finish(BackupOutcome::Unchanged)
            },
            BackupEvent::Created(Err(e)) => {
                self.phase = BackupPhase::Done;
                BackupAction::Finish(BackupOutcome::Failed(e))
            },
            BackupEvent::Retained(res) => {
                let s = self.created.take();
                self.phase = BackupPhase::Done;
                match s {
                    Some(s) => BackupAction::Finish(BackupOutcome::Created(s, res)),
                    None => BackupAction::Finish(BackupOutcome::Unchanged),
                }
            },
        }
    }
}

/// What the session's configuration asks of the monitor.
#[derive(Clone, Copy, PartialEq, Eq, Debug, Structural)]
pub struct Stages {
    pub pre_launch: bool,
    pub periodic: bool,
    pub post_exit: bool,
    pub interval_secs: u64,
}

impl Stages {
    /// The stages a configuration enables.
    pub fn of(config: &Config) -> (r: Stages)
        ensures
            r.pre_launch == config.pre_launch,
            r.periodic == config.periodic,
            r.post_exit == config.post_exit,
            r.interval_secs == config.interval_secs,
    {
        Stages {
            pre_launch: config.pre_launch,
            periodic: config.periodic,
            post_exit: config.post_exit,
            interval_secs: config.interval_secs,
        }
    }
}

/// Where a monitored session stands.
#[derive(Clone, Copy, PartialEq, Eq, Debug, Structural)]
pub enum MonitorPhase {
    /// The pre-launch backup is under way.
    PreLaunch,
    /// The game's command is being spawned.
    Launching,
    /// Backups are off: waiting for the launcher to exit.
    Unmonitored,
    /// Looking for the game process to appear.
    Appearing,
    /// Pausing between two looks for the game process.
    AppearPause,
    /// The appearance timeout has passed: one last look.
    AppearLast,
    /// The game never appeared: waiting for the launcher to exit.
    LauncherWait,
    /// Looking whether the game still runs.
    Watching,
    /// Pausing while the game runs.
    WatchPause,
    /// A periodic backup is under way.
    Periodic,
    /// The game exited: pausing for its last writes.
    Grace,
    /// Collecting the launcher's exit status, if it has one.
    Reaping,
    /// The post-exit backup is under way.
    PostExit,
    /// The session is over.
    Done,
}

/// What the caller reports after performing a [`MonitorAction`]. Times are
/// nanoseconds on a monotonic clock.
#[derive(Clone, Copy, PartialEq, Eq, Debug, Structural)]
pub enum MonitorEvent {
    /// The requested backup ended, whatever its outcome.
    BackupDone { now_ns: u64 },
    /// Spawning the game's command succeeded or failed.
    Spawned { ok: bool, now_ns: u64 },
    /// The launcher process exited.
    ChildExited,
    /// Whether the game process is among the running processes.
    Polled { running: bool, now_ns: u64 },
    /// The requested pause is over.
    Slept { now_ns: u64 },
    /// The launcher's exit status was collected, if it had one.
    Reaped,
}

/// What the caller must do next.
#[derive(Clone, Copy, PartialEq, Eq, Debug, Structural)]
pub enum MonitorAction {
    /// Run one best-effort backup (see [`BackupRun`]).
    Backup(Reason),
    /// Spawn the wrapped game command, verbatim.
    SpawnGame,
    /// Wait for the launcher process to exit.
    WaitChild,
    /// Look whether the game process is running.
    PollGame,
    /// Pause for this many milliseconds.
    Sleep(u64),
    /// Collect the launcher's exit status without waiting.
    TryWaitChild,
    /// End the process with this exit code.
    Exit(i32),
}

/// One monitored session.
#[derive(Clone, Copy, PartialEq, Eq, Debug, Structural)]
pub struct MonitorRun {
    phase: MonitorPhase,
    monitoring: bool,
    stages: Stages,
    appear_start_ns: u64,
    last_periodic_ns: u64,
}

/// Time passed from `since` to `now`, never negative.
pub open spec fn elapsed(since: u64, now: u64) -> int {
    if now >= since {
        now - since
    } else {
        0
    }
}

/// A periodic backup is due: enabled, and the interval has passed since the
/// last one (or since the game appeared).
pub open spec fn periodic_due(stages: Stages, last_ns: u64, now_ns: u64) -> bool {
    stages.periodic && elapsed(last_ns, now_ns) >= stages.interval_secs * 1_000_000_000
}

impl MonitorRun {
    pub closed spec fn phase(self) -> MonitorPhase {
        self.phase
    }

    /// Whether backups run in this session: the target resolved and no
    /// other monitor is active.
    pub closed spec fn monitoring(self) -> bool {
        self.monitoring
    }

    pub closed spec fn stages(self) -> Stages {
        self.stages
    }

    /// When the search for the game process began.
    pub closed spec fn appear_start(self) -> u64 {
        self.appear_start_ns
    }

    /// When the last periodic backup ended, or the game was first seen.
    pub closed spec fn last_periodic(self) -> u64 {
        self.last_periodic_ns
    }

    /// The state's invariant: every phase that backs up or watches the game
    /// belongs to a monitored session, and an unmonitored session only waits
    /// for its launcher.
    pub open spec fn wf(self) -> bool {
        &&& (self.phase() == MonitorPhase::PreLaunch || self.phase() == MonitorPhase::Appearing
            || self.phase() == MonitorPhase::AppearPause || self.phase() == MonitorPhase::AppearLast
            || self.phase() == MonitorPhase::LauncherWait || self.phase() == MonitorPhase::Watching
            || self.phase() == MonitorPhase::WatchPause || self.phase() == MonitorPhase::Periodic
            || self.phase() == MonitorPhase::Grace || self.phase() == MonitorPhase::Reaping
            || self.phase() == MonitorPhase::PostExit) ==> self.monitoring()
        &&& self.phase() == MonitorPhase::Unmonitored ==> !self.monitoring()
        &&& self.phase() == MonitorPhase::PreLaunch ==> self.stages().pre_launch
        &&& self.phase() == MonitorPhase::Periodic ==> self.stages().periodic
        &&& self.phase() == MonitorPhase::PostExit ==> self.stages().post_exit
    }

    /// Starts a session. `command_ok` tells whether a game command followed
    /// the monitor flag; `stages` are those of the resolved target (`None`
    /// when backups are disabled); `lock_acquired` whether this is the only
    /// monitor. Without a command the session ends with code 1. Otherwise the
    /// game is launched, after a pre-launch backup when the session is
    /// monitored and asks for one.
    pub fn start(command_ok: bool, stages: Option<Stages>, lock_acquired: bool) -> (r: (
        MonitorRun,
        MonitorAction,
    ))
        ensures
            r.0.wf(),
            !command_ok ==> r.0.phase() == MonitorPhase::Done && r.1 == MonitorAction::Exit(1),
            command_ok ==> r.0.monitoring() == (lock_acquired && stages is Some),
            command_ok && r.0.monitoring() ==> r.0.stages() == stages->0,
            command_ok ==> if r.0.monitoring() && r.0.stages().pre_launch {
                r.0.phase() == MonitorPhase::PreLaunch && r.1 == MonitorAction::Backup(
                    Reason::PreLaunch,
                )
            } else {
                r.0.phase() == MonitorPhase::Launching && r.1 == MonitorAction::SpawnGame
            },
    {
        let none = Stages { pre_launch: false, periodic: false, post_exit: false, interval_secs: 0 };
        let (monitoring, st) = match stages {
            Some(s) => (lock_acquired, if lock_acquired { s } else { none }),
            None => (false, none),
        };
        let mut run = MonitorRun {
            phase: MonitorPhase::Done,
            monitoring,
            stages: st,
            appear_start_ns: 0,
            last_periodic_ns: 0,
        };
        if !command_ok {
            run.monitoring = false;
            return (run, MonitorAction::Exit(1));
        }
        if monitoring && st.pre_launch {
            run.phase = MonitorPhase::PreLaunch;
            (run, MonitorAction::Backup(Reason::PreLaunch))
        } else {
            run.phase = MonitorPhase::Launching;
            (run, MonitorAction::SpawnGame)
        }
    }

    /// Whether `event` is what the current phase waits for.
    pub open spec fn expects(self, event: MonitorEvent) -> bool {
        match event {
            MonitorEvent::BackupDone { .. } => self.phase() == MonitorPhase::PreLaunch || self.phase()
                == MonitorPhase::Periodic || self.phase() == MonitorPhase::PostExit,
            MonitorEvent::Spawned { .. } => self.phase() == MonitorPhase::Launching,
            MonitorEvent::ChildExited => self.phase() == MonitorPhase::Unmonitored || self.phase()
                == MonitorPhase::LauncherWait,
            MonitorEvent::Polled { .. } => self.phase() == MonitorPhase::Appearing || self.phase()
                == MonitorPhase::AppearLast || self.phase() == MonitorPhase::Watching,
            MonitorEvent::Slept { .. } => self.phase() == MonitorPhase::AppearPause || self.phase()
                == MonitorPhase::WatchPause || self.phase() == MonitorPhase::Grace,
            MonitorEvent::Reaped => self.phase() == MonitorPhase::Reaping,
        }
    }

    /// The next phase and action, by the phase and what happened.
    pub open spec fn next(self, event: MonitorEvent) -> (MonitorPhase, MonitorAction) {
        match (self.phase(), event) {
            (MonitorPhase::PreLaunch, _) => (MonitorPhase::Launching, MonitorAction::SpawnGame),
            (MonitorPhase::Launching, MonitorEvent::Spawned { ok, .. }) => if !ok {
                (MonitorPhase::Done, MonitorAction::Exit(1))
            } else if self.monitoring() {
                (MonitorPhase::Appearing, MonitorAction::PollGame)
            } else {
                (MonitorPhase::Unmonitored, MonitorAction::WaitChild)
            },
            (MonitorPhase::Unmonitored, _) => (MonitorPhase::Done, MonitorAction::Exit(0)),
            (MonitorPhase::Appearing, MonitorEvent::Polled { running, .. }) => if running {
                (MonitorPhase::Watching, MonitorAction::PollGame)
            } else {
                (MonitorPhase::AppearPause, MonitorAction::Sleep(PROCESS_POLL_MS))
            },
            (MonitorPhase::AppearPause, MonitorEvent::Slept { now_ns }) => if elapsed(
                self.appear_start(),
                now_ns,
            ) < APPEAR_TIMEOUT_NS {
                (MonitorPhase::Appearing, MonitorAction::PollGame)
            } else {
                (MonitorPhase::AppearLast, MonitorAction::PollGame)
            },
            (MonitorPhase::AppearLast, MonitorEvent::Polled { running, .. }) => if running {
                (MonitorPhase::Watching, MonitorAction::PollGame)
            } else {
                (MonitorPhase::LauncherWait, MonitorAction::WaitChild)
            },
            (MonitorPhase::LauncherWait, _) => (MonitorPhase::Done, MonitorAction::Exit(0)),
            (MonitorPhase::Watching, MonitorEvent::Polled { running, .. }) => if running {
                (MonitorPhase::WatchPause, MonitorAction::Sleep(PROCESS_POLL_MS))
            } else {
                (MonitorPhase::Grace, MonitorAction::Sleep(POST_EXIT_GRACE_MS))
            },
            (MonitorPhase::WatchPause, MonitorEvent::Slept { now_ns }) => if periodic_due(
                self.stages(),
                self.last_periodic(),
                now_ns,
            ) {
                (MonitorPhase::Periodic, MonitorAction::Backup(Reason::Periodic))
            } else {
                (MonitorPhase::Watching, MonitorAction::PollGame)
            },
            (MonitorPhase::Periodic, _) => (MonitorPhase::Watching, MonitorAction::PollGame),
            (MonitorPhase::Grace, _) => (MonitorPhase::Reaping, MonitorAction::TryWaitChild),
            (MonitorPhase::Reaping, _) => if self.stages().post_exit {
                (MonitorPhase::PostExit, MonitorAction::Backup(Reason::PostExit))
            } else {
                (MonitorPhase::Done, MonitorAction::Exit(0))
            },
            (MonitorPhase::PostExit, _) => (MonitorPhase::Done, MonitorAction::Exit(0)),
            _ => (self.phase(), MonitorAction::Exit(0)),
        }
    }

    /// The clock readings the next state keeps: the search for the game
    /// starts when it is spawned, and the periodic timer restarts when the
    /// game is first seen and when a periodic backup ends.
    pub open spec fn next_times(self, event: MonitorEvent) -> (u64, u64) {
        match (self.phase(), event) {
            (MonitorPhase::Launching, MonitorEvent::Spawned { now_ns, .. }) => (
                now_ns,
                self.last_periodic(),
            ),
            (MonitorPhase::Appearing, MonitorEvent::Polled { running: true, now_ns }) => (
                self.appear_start(),
                now_ns,
            ),
            (MonitorPhase::AppearLast, MonitorEvent::Polled { running: true, now_ns }) => (
                self.appear_start(),
                now_ns,
            ),
            (MonitorPhase::Periodic, MonitorEvent::BackupDone { now_ns }) => (
                self.appear_start(),
                now_ns,
            ),
            _ => (self.appear_start(), self.last_periodic()),
        }
    }

    /// Advances the session with what the last action gave.
    pub fn step(&mut self, event: MonitorEvent) -> (action: MonitorAction)
        requires
            old(self).wf(),
            old(self).expects(event),
        ensures
            final(self).wf(),
            (final(self).phase(), action) == old(self).next(event),
            (final(self).appear_start(), final(self).last_periodic()) == old(self).next_times(
                event,
            ),
            final(self).monitoring() == old(self).monitoring(),
            final(self).stages() == old(self).stages(),
    {
        match (self.phase, event) {
            (MonitorPhase::PreLaunch, _) => {
                self.phase = MonitorPhase::Launching;
                MonitorAction::SpawnGame
            },
            (MonitorPhase::Launching, MonitorEvent::Spawned { ok, now_ns }) => {
                self.appear_start_ns = now_ns;
                if !ok {
                    self.phase = MonitorPhase::Done;
                    MonitorAction::Exit(1)
                } else if self.monitoring {
                    self.phase = MonitorPhase::Appearing;
                    MonitorAction::PollGame
                } else {
                    self.phase = MonitorPhase::Unmonitored;
                    MonitorAction::WaitChild
                }
            },
            (MonitorPhase::Unmonitored, _) => {
                self.phase = MonitorPhase::Done;
                MonitorAction::Exit(0)
            },
            (MonitorPhase::Appearing, MonitorEvent::Polled { running, now_ns }) => {
                if running {
                    self.phase = MonitorPhase::Watching;
                    self.last_periodic_ns = now_ns;
                    MonitorAction::PollGame
                } else {
                    self.phase = MonitorPhase::AppearPause;
                    MonitorAction::Sleep(PROCESS_POLL_MS)
                }
            },
            (MonitorPhase::AppearPause, MonitorEvent::Slept { now_ns }) => {
                let waited: u64 = if now_ns >= self.appear_start_ns {
                    now_ns - self.appear_start_ns
                } else {
                    0
                };
                if waited < APPEAR_TIMEOUT_NS {
                    self.phase = MonitorPhase::Appearing;
                } else {
                    self.phase = MonitorPhase::AppearLast;
                }
                MonitorAction::PollGame
            },
            (MonitorPhase::AppearLast, MonitorEvent::Polled { running, now_ns }) => {
                if running {
                    self.phase = MonitorPhase::Watching;
                    self.last_periodic_ns = now_ns;
                    MonitorAction::PollGame
                } else {
                    self.phase = MonitorPhase::LauncherWait;
                    MonitorAction::WaitChild
                }
            },
            (MonitorPhase::LauncherWait, _) => {
                self.phase = MonitorPhase::Done;
                MonitorAction::Exit(0)
            },
            (MonitorPhase::Watching, MonitorEvent::Polled { running, .. }) => {
                if running {
                    self.phase = MonitorPhase::WatchPause;
                    MonitorAction::Sleep(PROCESS_POLL_MS)
                } else {
                    self.phase = MonitorPhase::Grace;
                    MonitorAction::Sleep(POST_EXIT_GRACE_MS)
                }
            },
            (MonitorPhase::WatchPause, MonitorEvent::Slept { now_ns }) => {
                let since: u64 = if now_ns >= self.last_periodic_ns {
                    now_ns - self.last_periodic_ns
                } else {
                    0
                };
                let interval: u128 = (self.stages.interval_secs as u128) * 1_000_000_000;
                if self.stages.periodic && (since as u128) >= interval {
                    self.phase = MonitorPhase::Periodic;
                    MonitorAction::Backup(Reason::Periodic)
                } else {
                    self.phase = MonitorPhase::Watching;
                    MonitorAction::PollGame
                }
            },
            (MonitorPhase::Periodic, MonitorEvent::BackupDone { now_ns }) => {
                self.phase = MonitorPhase::Watching;
                self.last_periodic_ns = now_ns;
                MonitorAction::PollGame
            },
            (MonitorPhase::Grace, _) => {
                self.phase = MonitorPhase::Reaping;
                MonitorAction::TryWaitChild
            },
            (MonitorPhase::Reaping, _) => {
                if self.stages.post_exit {
                    self.phase = MonitorPhase::PostExit;
                    MonitorAction::Backup(Reason::PostExit)
                } else {
                    self.phase = MonitorPhase::Done;
                    MonitorAction::Exit(0)
                }
            },
            (MonitorPhase::PostExit, _) => {
                self.phase = MonitorPhase::Done;
                MonitorAction::Exit(0)
            },
            _ => MonitorAction::Exit(0),
        }
    }
}

/// Backups belong to monitored sessions: in a reachable state, every backup
/// the monitor asks for is one its configuration enables, and none happens
/// when another monitor is active or the target did not resolve.
pub proof fn lemma_backup_only_when_monitoring(s: MonitorRun, e: MonitorEvent)
    requires
        s.wf(),
        s.expects(e),
    ensures
        s.next(e).1 matches MonitorAction::Backup(reason) ==> s.monitoring() && match reason {
            Reason::Periodic => s.stages().periodic,
            Reason::PostExit => s.stages().post_exit,
            _ => false,
        },
{
}

/// Never block the game: the pre-launch backup, whatever it gave, is
/// followed by launching the game; and only a failed launch (or a missing
/// command, see [`MonitorRun::start`]) ends the session with code 1.
pub proof fn lemma_game_never_blocked(s: MonitorRun, e: MonitorEvent)
    requires
        s.wf(),
        s.expects(e),
    ensures
        s.phase() == MonitorPhase::PreLaunch ==> s.next(e).1 == MonitorAction::SpawnGame,
        s.next(e).1 matches MonitorAction::Exit(code) ==> (code == 0 || code == 1),
        s.next(e).1 == MonitorAction::Exit(1) <==> (s.phase() == MonitorPhase::Launching
            && e matches MonitorEvent::Spawned { ok: false, .. }),
{
}

/// Live as long as the game: a monitored session ends only after the game
/// was seen gone (after the grace pause and the post-exit backup, when
/// enabled), or after its launcher exited when the game never appeared; a
/// periodic backup comes only while the game runs and the interval has
/// passed.
pub proof fn lemma_session_follows_game(s: MonitorRun, e: MonitorEvent)
    requires
        s.wf(),
        s.expects(e),
    ensures
        s.monitoring() && s.next(e).1 == MonitorAction::Exit(0) ==> (s.phase()
            == MonitorPhase::LauncherWait && e == MonitorEvent::ChildExited) || s.phase()
            == MonitorPhase::Reaping || s.phase() == MonitorPhase::PostExit,
        s.next(e).0 == MonitorPhase::Grace ==> s.phase() == MonitorPhase::Watching
            && e matches MonitorEvent::Polled { running: false, .. },
        s.next(e).0 == MonitorPhase::Reaping ==> s.phase() == MonitorPhase::Grace,
        s.next(e).0 == MonitorPhase::LauncherWait ==> s.phase() == MonitorPhase::AppearLast
            && e matches MonitorEvent::Polled { running: false, .. },
        s.next(e).1 == MonitorAction::Backup(Reason::Periodic) ==> s.phase() == MonitorPhase::WatchPause
            && (e matches MonitorEvent::Slept { now_ns } && periodic_due(
            s.stages(),
            s.last_periodic(),
            now_ns,
        )),
        s.next(e).0 == MonitorPhase::AppearLast ==> (e matches MonitorEvent::Slept { now_ns }
            && elapsed(s.appear_start(), now_ns) >= APPEAR_TIMEOUT_NS),
{
}

} // verus!

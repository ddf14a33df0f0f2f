use save_guard::config::Config;
use save_guard::discovery::SaveCandidate;
use save_guard::monitor::{
    resolve_target, source_files, BackupAction, BackupEvent, BackupOutcome, BackupRun,
    MonitorAction, MonitorEvent, MonitorPhase, MonitorRun, Stages, TargetError,
    APPEAR_TIMEOUT_NS, POST_EXIT_GRACE_MS, PROCESS_POLL_MS,
};
use save_guard::paths::{PathError, PathStyle};
use save_guard::snapshot::{Reason, SnapshotError};

const SEC: u64 = 1_000_000_000;

fn cand(id: &str, bak: bool) -> SaveCandidate {
    SaveCandidate {
        steamid: id.to_string(),
        dir: format!("/er/{id}"),
        save_file: format!("/er/{id}/ER0000.sl2"),
        bak_file: if bak { Some(format!("/er/{id}/ER0000.sl2.bak")) } else { None },
        modified: None,
        size: 1,
    }
}

fn stages(pre: bool, periodic: bool, post: bool, interval: u64) -> Stages {
    Stages { pre_launch: pre, periodic, post_exit: post, interval_secs: interval }
}

#[test]
fn source_files_lists_save_then_bak() {
    assert_eq!(
        source_files(&cand("1", true)),
        vec!["/er/1/ER0000.sl2".to_string(), "/er/1/ER0000.sl2.bak".to_string()]
    );
    assert_eq!(source_files(&cand("1", false)), vec!["/er/1/ER0000.sl2".to_string()]);
}

#[test]
fn target_resolution_order() {
    let st = PathStyle::Unix;
    let base = Config {
        selected_steamid: Some("1".to_string()),
        backup_dest: Some("/backups".to_string()),
        ..Default::default()
    };
    let root = || Ok("/er".to_string());
    assert_eq!(
        resolve_target(st, Err(PathError::EnvUnset("LOCALAPPDATA".into())), root(), vec![], &[]).unwrap_err(),
        TargetError::Path(PathError::EnvUnset("LOCALAPPDATA".into()))
    );
    let no_id = Config { selected_steamid: None, ..base.clone() };
    assert_eq!(resolve_target(st, Ok(no_id), root(), vec![], &[]).unwrap_err(), TargetError::NoAccount);
    let no_dest = Config { backup_dest: None, ..base.clone() };
    assert_eq!(
        resolve_target(st, Ok(no_dest), root(), vec![], &[]).unwrap_err(),
        TargetError::NoDestination
    );
    assert_eq!(
        resolve_target(st, Ok(base.clone()), Err(PathError::EnvEmpty("APPDATA".into())), vec![], &[])
            .unwrap_err(),
        TargetError::Path(PathError::EnvEmpty("APPDATA".into()))
    );
    assert_eq!(
        resolve_target(st, Ok(base.clone()), root(), vec![cand("2", false)], &[]).unwrap_err(),
        TargetError::SaveNotFound
    );
    let inside = Config { backup_dest: Some("/er/1/b".to_string()), ..base.clone() };
    assert_eq!(
        resolve_target(st, Ok(inside), root(), vec![cand("1", false)], &[]).unwrap_err(),
        TargetError::Path(PathError::DestInsideSave)
    );
    let t = resolve_target(st, Ok(base.clone()), root(), vec![cand("2", false), cand("1", true)], &[]).unwrap();
    assert_eq!(t.steamid, "1");
    assert_eq!(t.dest, "/backups");
    assert_eq!(t.elden_root, "/er");
    assert_eq!(t.config, base);
    assert_eq!(t.candidate(vec![cand("1", true)]).map(|c| c.dir), Some("/er/1".to_string()));
    assert!(t.candidate(vec![cand("3", true)]).is_none());
}

#[test]
fn missing_command_exits_with_one() {
    let (run, a) = MonitorRun::start(false, Some(stages(true, true, true, 60)), true);
    assert_eq!(a, MonitorAction::Exit(1));
    let _ = run;
}

/// Drives a session: `polls` says, look after look, whether the game runs;
/// every pause takes the time it asks for.
fn session(
    stages: Option<Stages>,
    lock: bool,
    spawn_ok: bool,
    polls: &[bool],
) -> (Vec<MonitorAction>, i32) {
    let (mut run, mut action) = MonitorRun::start(true, stages, lock);
    let mut now: u64 = 0;
    let mut seen = Vec::new();
    let mut polls = polls.iter();
    loop {
        seen.push(action);
        let event = match action {
            MonitorAction::Exit(code) => return (seen, code),
            MonitorAction::Backup(_) => {
                now += SEC;
                MonitorEvent::BackupDone { now_ns: now }
            }
            MonitorAction::SpawnGame => MonitorEvent::Spawned { ok: spawn_ok, now_ns: now },
            MonitorAction::WaitChild => MonitorEvent::ChildExited,
            MonitorAction::PollGame => {
                MonitorEvent::Polled { running: *polls.next().unwrap_or(&false), now_ns: now }
            }
            MonitorAction::Sleep(ms) => {
                now += ms * 1_000_000;
                MonitorEvent::Slept { now_ns: now }
            }
            MonitorAction::TryWaitChild => MonitorEvent::Reaped,
        };
        action = run.step(event);
    }
}

fn backups(actions: &[MonitorAction]) -> Vec<Reason> {
    actions
        .iter()
        .filter_map(|a| match a {
            MonitorAction::Backup(r) => Some(*r),
            _ => None,
        })
        .collect()
}

#[test]
fn full_session_backs_up_before_during_and_after() {
    // The game runs for 70 looks, 2 s apart: with a 60 s interval one
    // periodic backup falls in.
    let mut polls = vec![true; 70];
    polls.push(false);
    let (actions, code) = session(Some(stages(true, true, true, 60)), true, true, &polls);
    assert_eq!(code, 0);
    let b = backups(&actions);
    assert_eq!(b.first(), Some(&Reason::PreLaunch));
    assert_eq!(b.last(), Some(&Reason::PostExit));
    assert_eq!(b.iter().filter(|r| **r == Reason::Periodic).count(), 2);
    assert_eq!(actions[0], MonitorAction::Backup(Reason::PreLaunch));
    assert_eq!(actions[1], MonitorAction::SpawnGame);
    assert!(actions.contains(&MonitorAction::Sleep(POST_EXIT_GRACE_MS)));
    let grace = actions.iter().position(|a| *a == MonitorAction::Sleep(POST_EXIT_GRACE_MS)).unwrap();
    let post = actions.iter().position(|a| *a == MonitorAction::Backup(Reason::PostExit)).unwrap();
    assert!(grace < post);
}

#[test]
fn stage_toggles_are_honoured() {
    let mut polls = vec![true; 70];
    polls.push(false);
    let (actions, code) = session(Some(stages(false, false, false, 60)), true, true, &polls);
    assert_eq!(code, 0);
    assert!(backups(&actions).is_empty());
    assert_eq!(actions[0], MonitorAction::SpawnGame);
}

#[test]
fn another_monitor_means_launch_without_backups() {
    let (actions, code) = session(Some(stages(true, true, true, 60)), false, true, &[true, false]);
    assert_eq!(code, 0);
    assert_eq!(
        actions,
        vec![MonitorAction::SpawnGame, MonitorAction::WaitChild, MonitorAction::Exit(0)]
    );
}

#[test]
fn unresolved_target_still_launches_the_game() {
    let (actions, code) = session(None, true, true, &[]);
    assert_eq!(code, 0);
    assert_eq!(actions[0], MonitorAction::SpawnGame);
    assert!(backups(&actions).is_empty());
}

#[test]
fn failed_launch_exits_with_one() {
    let (actions, code) = session(Some(stages(true, true, true, 60)), true, false, &[]);
    assert_eq!(code, 1);
    assert_eq!(backups(&actions), vec![Reason::PreLaunch]);
}

#[test]
fn game_that_never_appears_waits_for_the_launcher() {
    let (actions, code) = session(Some(stages(false, true, true, 60)), true, true, &[]);
    assert_eq!(code, 0);
    let looks = actions.iter().filter(|a| **a == MonitorAction::PollGame).count();
    // One look right away, one every 2 s for 180 s, and a last one.
    assert_eq!(looks as u64, APPEAR_TIMEOUT_NS / (PROCESS_POLL_MS * 1_000_000) + 1);
    assert_eq!(actions[actions.len() - 2], MonitorAction::WaitChild);
    assert!(backups(&actions).is_empty());
}

#[test]
fn game_seen_on_the_last_look_is_watched() {
    let mut polls = vec![false; 90];
    polls.push(true);
    polls.push(false);
    let (actions, code) = session(Some(stages(false, false, true, 60)), true, true, &polls);
    assert_eq!(code, 0);
    assert_eq!(backups(&actions), vec![Reason::PostExit]);
}

#[test]
fn step_reports_phase() {
    let (mut run, a) = MonitorRun::start(true, Some(stages(false, true, false, 60)), true);
    assert_eq!(a, MonitorAction::SpawnGame);
    assert_eq!(run.step(MonitorEvent::Spawned { ok: true, now_ns: 5 }), MonitorAction::PollGame);
    assert_eq!(
        run.step(MonitorEvent::Polled { running: true, now_ns: 5 }),
        MonitorAction::PollGame
    );
    assert_eq!(
        run.step(MonitorEvent::Polled { running: true, now_ns: 6 }),
        MonitorAction::Sleep(PROCESS_POLL_MS)
    );
    // Exactly the interval after the game was first seen: due.
    assert_eq!(
        run.step(MonitorEvent::Slept { now_ns: 5 + 60 * SEC }),
        MonitorAction::Backup(Reason::Periodic)
    );
    let _ = MonitorPhase::Done;
}

#[test]
fn backup_runs_retention_only_after_a_new_snapshot() {
    let (mut b, a) = BackupRun::start(Reason::Periodic, 3);
    assert!(matches!(a, BackupAction::FindCandidate));
    match b.step(BackupEvent::Found(Some(cand("1", true)))) {
        BackupAction::CreateSnapshot(v) => assert_eq!(v.len(), 2),
        _ => panic!("expected a snapshot request"),
    }
    assert!(matches!(
        b.step(BackupEvent::Created(Ok(None))),
        BackupAction::Finish(BackupOutcome::Unchanged)
    ));

    let (mut b, _) = BackupRun::start(Reason::PostExit, 3);
    b.step(BackupEvent::Found(Some(cand("1", false))));
    assert!(matches!(
        b.step(BackupEvent::Created(Err(SnapshotError::KeptChanging))),
        BackupAction::Finish(BackupOutcome::Failed(SnapshotError::KeptChanging))
    ));

    let (mut b, _) = BackupRun::start(Reason::PreLaunch, 5);
    assert!(matches!(
        b.step(BackupEvent::Found(None)),
        BackupAction::Finish(BackupOutcome::Vanished)
    ));
    assert_eq!(b.reason_of(), Reason::PreLaunch);
}

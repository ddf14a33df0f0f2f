# Elden Ring Save Guard

Automatic, versioned backups of a vanilla Elden Ring save. Launched through a
Steam launch option, a background monitor snapshots the save before the game
starts, periodically while it runs, and after it exits; a small dashboard
chooses the account to protect, shows the snapshots and hands out the launch
option.

The crate is a Verus project: the library under `src/` carries the logic with
its contracts and proofs, and `app/` is the program around it.

## Layout

- `src/` — the verified library.
  - `snapshot` — snapshot creation as a step-by-step run (check sources, find
    the newest valid snapshot, hash, write and read back the archive, check
    the copy is stable, describe and finalize), record validation, content
    hashing with size limits, fingerprints for deduplication, listing and
    archive checks for verification and extraction.
  - `retention` — which snapshots of an account are pruned: those older than
    its newest intact ones.
  - `monitor` — the monitored session (launch, wait for the game, periodic
    and post-exit backups) and one best-effort backup, as runs that decide the
    next action from what the previous one gave; target resolution.
  - `discovery` — which folders hold a vanilla save, the primary save of a
    folder, newest-first ordering.
  - `paths` — lexical path handling in Unix and Windows style, the guards
    between backup destination and save folder, known folders.
  - `config` — defaults, clamps, recovery from a malformed file, edited
    settings, account selection.
  - `launch`, `platform`, `dashboard`, `clock`, `digest`, `text`, `sorting` —
    the launch option and the wrapped command, process-name matching,
    dashboard decisions, times, SHA-256 and hexadecimal, text helpers, stable
    sorting.
- `app/` — the executable: file system and archive I/O (`fsops`), the
  monitor loop (`monitor_run`), operating-system calls (`platform_sys`), the
  JSON forms of settings and metadata (`store`), logging and the egui
  dashboard (`gui`).
- `tests/` — tests of the library, including simulated file systems for
  snapshot creation, retention and discovery, and comparisons with std.

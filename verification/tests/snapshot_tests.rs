use std::collections::BTreeMap;
use std::io::{Cursor, Read, Write};

use save_guard::clock::UtcTime;
use save_guard::digest::to_hex;
use save_guard::paths::PathStyle;
use save_guard::retention::retention_plan;
use save_guard::snapshot::{
    check_archive_hash, check_archive_stat, check_read_size, check_source_len, final_dir_base,
    final_dir_candidate, fingerprint, same_fingerprint, snapshots_dir_as, source_name,
    snapshot_from_metadata, tmp_dir_name, unique_final_dir, validate_file_hashes, ArchiveCheck, ArchivePlan, ContentHasher, CreateAction,
    CreateEvent, CreateRun, FileHash, Metadata, NewestSearch, Reason, Snapshot, SnapshotError,
    ARCHIVE_FILE, IO_BUFFER_BYTES, MAX_ARCHIVE_BYTES, MAX_COPY_ATTEMPTS, MAX_SOURCE_FILE_BYTES,
    METADATA_FILE, METADATA_VERSION, TMP_PREFIX,
};

const ST: PathStyle = PathStyle::Unix;

/// A file system just large enough for snapshot creation.
struct Fs {
    files: BTreeMap<String, Vec<u8>>,
    dirs: Vec<String>,
    archives: BTreeMap<String, Vec<(String, Vec<u8>)>>,
    snapshots: Vec<Snapshot>,
    clock: u128,
    removed: Vec<String>,
}

impl Fs {
    fn new() -> Fs {
        Fs {
            files: BTreeMap::new(),
            dirs: Vec::new(),
            archives: BTreeMap::new(),
            snapshots: Vec::new(),
            clock: 1,
            removed: Vec::new(),
        }
    }

    fn write(&mut self, p: &str, bytes: &[u8]) {
        self.files.insert(p.to_string(), bytes.to_vec());
    }

    fn live_dirs(&self) -> Vec<String> {
        self.dirs.iter().filter(|d| !self.removed.contains(d)).cloned().collect()
    }

    /// The archive's bytes on disk: a deflate ZIP of its entries.
    fn archive_bytes(&self, zip: &str) -> Vec<u8> {
        let mut w = zip::ZipWriter::new(Cursor::new(Vec::new()));
        let opts = zip::write::SimpleFileOptions::default()
            .compression_method(zip::CompressionMethod::Deflated)
            .last_modified_time(zip::DateTime::default());
        for (n, b) in &self.archives[zip] {
            w.start_file(n.as_str(), opts).unwrap();
            w.write_all(b).unwrap();
        }
        w.finish().unwrap().into_inner()
    }
}

fn hash(name: &str, bytes: &[u8], limit: u64) -> Result<FileHash, SnapshotError> {
    let mut h = ContentHasher::new(name.to_string(), limit);
    for chunk in bytes.chunks(IO_BUFFER_BYTES) {
        h.feed(chunk)?;
    }
    Ok(h.finish())
}

fn hash_sources(fs: &Fs, sources: &[String]) -> Result<Vec<FileHash>, SnapshotError> {
    let mut out = Vec::new();
    for p in sources {
        let name = source_name(ST, p)?;
        let bytes = fs.files.get(p).ok_or_else(|| SnapshotError::Io(p.clone()))?;
        out.push(hash(&name, bytes, MAX_SOURCE_FILE_BYTES)?);
    }
    Ok(out)
}

fn write_archive(fs: &mut Fs, zip: &str, sources: &[String]) -> Result<Vec<FileHash>, SnapshotError> {
    let mut plan = ArchivePlan::start(ST, sources.len())?;
    let mut entries = Vec::new();
    for p in sources {
        let name = plan.begin_source(p)?;
        let bytes = fs.files.get(p).cloned().ok_or_else(|| SnapshotError::Io(p.clone()))?;
        check_source_len(&name, bytes.len() as u64)?;
        let mut hasher = ContentHasher::new(name.clone(), MAX_SOURCE_FILE_BYTES);
        for chunk in bytes.chunks(IO_BUFFER_BYTES) {
            hasher.feed(chunk)?;
        }
        entries.push((name, bytes));
        plan.end_source(hasher);
    }
    fs.archives.insert(zip.to_string(), entries);
    plan.finish()
}

fn verify_archive(fs: &Fs, zip: &str, expected: Vec<FileHash>) -> Result<(), SnapshotError> {
    let entries = &fs.archives[zip];
    let mut check = ArchiveCheck::for_verify(ST, expected, entries.len())?;
    for (name, bytes) in entries {
        let i = check.begin_entry(name, false)?;
        let actual = hash(name, bytes, MAX_SOURCE_FILE_BYTES)?;
        check.end_entry(i, &actual)?;
    }
    Ok(())
}

/// Creates a snapshot the way the program does, against the fake file system.
fn create_with_hook(
    fs: &mut Fs,
    dest: &str,
    steamid: &str,
    sources: &[&str],
    reason: Reason,
    mut after_copy: impl FnMut(u32, &mut Fs),
) -> Result<Option<Snapshot>, SnapshotError> {
    let sources: Vec<String> = sources.iter().map(|s| s.to_string()).collect();
    let (mut run, mut action) = CreateRun::start(ST, dest, steamid, sources, reason, "1.0.7")?;
    loop {
        let event = match action {
            CreateAction::CheckSources => {
                CreateEvent::SourcesChecked(run.sources().iter().position(|p| !fs.files.contains_key(p)))
            }
            CreateAction::MakeDir(d) => {
                fs.dirs.push(d);
                CreateEvent::DirMade(Ok(()))
            }
            CreateAction::FindNewest => {
                let listed: Vec<Snapshot> = fs
                    .snapshots
                    .iter()
                    .filter(|s| {
                        !fs.removed.contains(&s.dir)
                            && save_guard::snapshot::check_metadata(ST, &s.metadata, Some(run.steamid())).is_ok()
                    })
                    .cloned()
                    .collect();
                let mut search = NewestSearch::new(listed);
                let mut found = None;
                while let Some(c) = search.candidate() {
                    let zip = format!("{}/{}", c.dir, ARCHIVE_FILE);
                    let digest = hash(ARCHIVE_FILE, &fs.archive_bytes(&zip), MAX_ARCHIVE_BYTES).ok();
                    if let Some(s) = search.report(digest) {
                        found = Some(s);
                        break;
                    }
                }
                CreateEvent::NewestFound(found)
            }
            CreateAction::HashSources => CreateEvent::SourcesHashed(hash_sources(fs, run.sources())),
            CreateAction::MakeTmp(_) => {
                let t = tmp_dir_name(ST, run.snaps_dir(), 42, fs.clock);
                fs.clock += 1;
                fs.dirs.push(t.clone());
                CreateEvent::TmpMade(t, Ok(()))
            }
            CreateAction::WriteArchive(zip) => {
                let sources = run.sources().clone();
                CreateEvent::ArchiveWritten(write_archive(fs, &zip, &sources))
            }
            CreateAction::VerifyArchive(zip, attempt) => {
                after_copy(attempt, fs);
                let expected = fs.archives[&zip]
                    .iter()
                    .map(|(n, b)| hash(n, b, MAX_SOURCE_FILE_BYTES).unwrap())
                    .collect();
                CreateEvent::ArchiveVerified(verify_archive(fs, &zip, expected))
            }
            CreateAction::StatArchive(zip) => {
                CreateEvent::ArchiveStatted(Ok(fs.archive_bytes(&zip).len() as u64))
            }
            CreateAction::HashArchive(zip) => {
                CreateEvent::ArchiveHashed(hash(ARCHIVE_FILE, &fs.archive_bytes(&zip), MAX_ARCHIVE_BYTES))
            }
            CreateAction::Describe => CreateEvent::Described(
                UtcTime { secs: 1_700_000_000 + fs.clock as i64, nanos: 0 },
                None,
            ),
            CreateAction::Finalize(tmp) => {
                fs.write(&format!("{tmp}/{METADATA_FILE}"), b"{}");
                CreateEvent::MetadataWritten(Ok(fs.live_dirs()))
            }
            CreateAction::Rename(tmp, dir) => {
                let zip = format!("{tmp}/{ARCHIVE_FILE}");
                let entries = fs.archives.remove(&zip).unwrap();
                fs.archives.insert(format!("{dir}/{ARCHIVE_FILE}"), entries);
                let meta = fs.files.remove(&format!("{tmp}/{METADATA_FILE}")).unwrap();
                fs.files.insert(format!("{dir}/{METADATA_FILE}"), meta);
                fs.removed.push(tmp);
                fs.dirs.push(dir);
                CreateEvent::Renamed(Ok(()))
            }
            CreateAction::Retry(tmp) => {
                fs.removed.push(tmp);
                CreateEvent::RetryReady
            }
            CreateAction::Finish(result, leftover) => {
                if let Some(d) = leftover {
                    fs.removed.push(d);
                }
                if let Ok(Some(s)) = &result {
                    fs.snapshots.push(s.clone());
                }
                return result;
            }
        };
        action = run.step(event);
    }
}

fn create(
    fs: &mut Fs,
    dest: &str,
    steamid: &str,
    sources: &[&str],
    reason: Reason,
) -> Result<Option<Snapshot>, SnapshotError> {
    create_with_hook(fs, dest, steamid, sources, reason, |_, _| {})
}

/// What the entry `name` of a snapshot's archive inflates to.
fn extracted(fs: &Fs, snap: &Snapshot, name: &str) -> Vec<u8> {
    let zip = format!("{}/{}", snap.dir, ARCHIVE_FILE);
    let mut archive = zip::ZipArchive::new(Cursor::new(fs.archive_bytes(&zip))).unwrap();
    let mut out = Vec::new();
    archive.by_name(name).unwrap().read_to_end(&mut out).unwrap();
    out
}

const SL2: &str = "/save/ER0000.sl2";
const BAK: &str = "/save/ER0000.sl2.bak";

fn sources(fs: &mut Fs, with_bak: bool) -> Vec<&'static str> {
    fs.write(SL2, b"save-v1");
    let mut v = vec![SL2];
    if with_bak {
        fs.write(BAK, b"bak-v1");
        v.push(BAK);
    }
    v
}

#[test]
fn first_snapshot_with_bak() {
    let mut fs = Fs::new();
    let src = sources(&mut fs, true);
    let snap = create(&mut fs, "/dest", "111", &src, Reason::Manual).unwrap().expect("created");
    assert_eq!(snap.metadata.files.len(), 2);
    assert!(fs.archives.contains_key(&format!("{}/{}", snap.dir, ARCHIVE_FILE)));
    assert!(fs.files.contains_key(&format!("{}/{}", snap.dir, METADATA_FILE)));
    assert!(
        !fs.files.contains_key(&format!("{}/ER0000.sl2", snap.dir)),
        "saves live inside the zip"
    );
    assert_eq!(snap.metadata.files[0].name, "ER0000.sl2");
    assert_eq!(extracted(&fs, &snap, "ER0000.sl2"), b"save-v1");
    assert_eq!(extracted(&fs, &snap, "ER0000.sl2.bak"), b"bak-v1");
    assert_eq!(snap.metadata.steamid, "111");
    assert_eq!(snap.metadata.reason, Reason::Manual);
    assert_eq!(snap.metadata.format_version, METADATA_VERSION);
    assert_eq!(snap.metadata.archive, "save.zip");
    assert!(snap.dir.starts_with("/dest/snapshots/"));
}

#[test]
fn archive_plan_names_each_bad_source() {
    let mut plan = ArchivePlan::start(ST, 3).unwrap();
    assert_eq!(plan.begin_source("/"), Err(SnapshotError::NoSourceName));
    assert_eq!(plan.begin_source("/a/.."), Err(SnapshotError::NoSourceName));
    assert_eq!(
        plan.begin_source("/a/x\\y"),
        Err(SnapshotError::UnsafeSourceName("x\\y".to_string()))
    );
    assert_eq!(plan.begin_source("/a/ER0000.sl2"), Ok("ER0000.sl2".to_string()));
    assert_eq!(
        plan.begin_source("/b/ER0000.sl2"),
        Err(SnapshotError::DuplicateSource("ER0000.sl2".to_string()))
    );
}

#[test]
fn without_bak() {
    let mut fs = Fs::new();
    let src = sources(&mut fs, false);
    let snap = create(&mut fs, "/dest", "111", &src, Reason::Periodic).unwrap().unwrap();
    assert_eq!(snap.metadata.files.len(), 1);
}

#[test]
fn dedup_identical_content() {
    let mut fs = Fs::new();
    let src = sources(&mut fs, true);
    let a = create(&mut fs, "/dest", "111", &src, Reason::Periodic).unwrap();
    assert!(a.is_some());
    let b = create(&mut fs, "/dest", "111", &src, Reason::Periodic).unwrap();
    assert!(b.is_none(), "identical content must not create a new snapshot");
    assert_eq!(fs.snapshots.len(), 1);
}

#[test]
fn changed_content_creates_new() {
    let mut fs = Fs::new();
    let src = sources(&mut fs, false);
    create(&mut fs, "/dest", "111", &src, Reason::Periodic).unwrap().unwrap();
    fs.write(SL2, b"save-v2-different");
    let b = create(&mut fs, "/dest", "111", &src, Reason::Periodic).unwrap();
    assert!(b.is_some());
    assert_eq!(fs.snapshots.len(), 2);
}

#[test]
fn source_changes_during_copy_then_stabilizes() {
    let mut fs = Fs::new();
    let src = sources(&mut fs, false);
    let snap = create_with_hook(&mut fs, "/dest", "111", &src, Reason::Periodic, |attempt, fs| {
        if attempt == 1 {
            fs.write(SL2, b"changed-mid-copy");
        }
    })
    .unwrap()
    .expect("eventually stable");
    assert_eq!(extracted(&fs, &snap, "ER0000.sl2"), b"changed-mid-copy");
}

#[test]
fn save_that_never_settles_fails() {
    let mut fs = Fs::new();
    let src = sources(&mut fs, false);
    let r = create_with_hook(&mut fs, "/dest", "111", &src, Reason::Periodic, |attempt, fs| {
        fs.write(SL2, format!("v{attempt}").as_bytes());
    });
    assert_eq!(r.unwrap_err(), SnapshotError::KeptChanging);
    assert!(fs.live_dirs().iter().all(|d| !d.contains(TMP_PREFIX)));
    assert_eq!(fs.clock as u32, 1 + MAX_COPY_ATTEMPTS);
}

#[test]
fn no_temp_dir_left_behind() {
    let mut fs = Fs::new();
    let src = sources(&mut fs, false);
    create(&mut fs, "/dest", "111", &src, Reason::Periodic).unwrap().unwrap();
    assert!(
        fs.live_dirs().iter().all(|d| !d.contains(TMP_PREFIX)),
        "temp dir must not survive finalization"
    );
}

#[test]
fn missing_source_errors() {
    let mut fs = Fs::new();
    let r = create(&mut fs, "/dest", "111", &["/save/nope.sl2"], Reason::Manual);
    assert_eq!(r.unwrap_err(), SnapshotError::SourceMissing("/save/nope.sl2".to_string()));
    let r = create(&mut fs, "/dest", "111", &[], Reason::Manual);
    assert_eq!(r.unwrap_err(), SnapshotError::NoSources);
}

#[test]
fn snapshots_are_scoped_by_account() {
    let mut fs = Fs::new();
    let src = sources(&mut fs, false);
    create(&mut fs, "/dest", "111", &src, Reason::Periodic).unwrap().unwrap();
    // The same content for another account is not a duplicate of the first.
    let other = create(&mut fs, "/dest", "222", &src, Reason::Periodic).unwrap();
    assert!(other.is_some());
    assert_eq!(fs.snapshots.iter().filter(|s| s.metadata.steamid == "111").count(), 1);
    assert_eq!(fs.snapshots.iter().filter(|s| s.metadata.steamid == "222").count(), 1);
}

#[test]
fn corrupt_archive_is_ignored_and_replaced() {
    let mut fs = Fs::new();
    let src = sources(&mut fs, false);
    create(&mut fs, "/dest", "111", &src, Reason::Periodic).unwrap().unwrap();
    // The stored metadata no longer passes its checks.
    fs.snapshots[0].metadata.files[0].sha256 = "not a digest".to_string();
    let again = create(&mut fs, "/dest", "111", &src, Reason::Periodic).unwrap();
    assert!(again.is_some(), "invalid metadata must not suppress a replacement");
    assert_eq!(fs.snapshots.len(), 2);
}

#[test]
fn same_size_corrupt_archive_cannot_suppress_replacement() {
    let mut fs = Fs::new();
    let src = sources(&mut fs, false);
    let first = create(&mut fs, "/dest", "111", &src, Reason::Periodic).unwrap().unwrap();
    // Same-size tampering of the stored archive.
    let zip = format!("{}/{}", first.dir, ARCHIVE_FILE);
    fs.archives.get_mut(&zip).unwrap()[0].1[0] ^= 0xff;
    let again = create(&mut fs, "/dest", "111", &src, Reason::Periodic).unwrap();
    assert!(again.is_some(), "corrupt archive must not deduplicate the current save");
}

#[test]
fn newest_skips_a_corrupt_candidate_and_finds_an_older_valid_snapshot() {
    let mut fs = Fs::new();
    let src = sources(&mut fs, false);
    let older = create(&mut fs, "/dest", "111", &src, Reason::Periodic).unwrap().unwrap();
    fs.write(SL2, b"newer");
    let newer = create(&mut fs, "/dest", "111", &src, Reason::Periodic).unwrap().unwrap();
    let zip = format!("{}/{}", newer.dir, ARCHIVE_FILE);
    fs.archives.get_mut(&zip).unwrap()[0].1[0] ^= 0xff;
    let mut search = NewestSearch::new(vec![older.clone(), newer.clone()]);
    let mut hashed = 0;
    let mut found = None;
    while let Some(c) = search.candidate() {
        hashed += 1;
        let zip = format!("{}/{}", c.dir, ARCHIVE_FILE);
        let d = hash(ARCHIVE_FILE, &fs.archive_bytes(&zip), MAX_ARCHIVE_BYTES).ok();
        if let Some(s) = search.report(d) {
            found = Some(s);
            break;
        }
    }
    assert_eq!(hashed, 2);
    assert_eq!(found.unwrap().dir, older.dir);
}

#[test]
fn newest_hashes_only_the_first_valid_candidate() {
    let mut fs = Fs::new();
    let src = sources(&mut fs, false);
    let older = create(&mut fs, "/dest", "111", &src, Reason::Periodic).unwrap().unwrap();
    fs.write(SL2, b"newer");
    let newer = create(&mut fs, "/dest", "111", &src, Reason::Periodic).unwrap().unwrap();
    let mut search = NewestSearch::new(vec![older, newer.clone()]);
    let c = search.candidate().unwrap().clone();
    assert_eq!(c.dir, newer.dir);
    let zip = format!("{}/{}", c.dir, ARCHIVE_FILE);
    let d = hash(ARCHIVE_FILE, &fs.archive_bytes(&zip), MAX_ARCHIVE_BYTES).ok();
    assert_eq!(search.report(d).unwrap().dir, newer.dir);
    assert!(search.candidate().is_some(), "the older one was never hashed");
}

#[test]
fn extraction_rejects_same_size_archive_tampering() {
    let mut fs = Fs::new();
    let src = sources(&mut fs, false);
    let snap = create(&mut fs, "/dest", "111", &src, Reason::Periodic).unwrap().unwrap();
    let zip = format!("{}/{}", snap.dir, ARCHIVE_FILE);
    let len = fs.archive_bytes(&zip).len() as u64;
    fs.archives.get_mut(&zip).unwrap()[0].1[0] ^= 0xff;
    assert_eq!(check_archive_stat(&snap.metadata, true, len), Ok(()));
    let actual = hash(ARCHIVE_FILE, &fs.archive_bytes(&zip), MAX_ARCHIVE_BYTES).unwrap();
    assert!(check_archive_hash(&snap.metadata, &actual).is_err());
}

#[test]
fn oversized_source_is_rejected_before_copy() {
    assert_eq!(
        check_source_len("ER0000.sl2", MAX_SOURCE_FILE_BYTES + 1),
        Err(SnapshotError::TooLarge("ER0000.sl2".to_string()))
    );
    assert_eq!(check_source_len("ER0000.sl2", MAX_SOURCE_FILE_BYTES), Ok(()));
    let mut h = ContentHasher::new("x".to_string(), 4);
    assert_eq!(h.feed(b"abc"), Ok(()));
    assert_eq!(h.feed(b"de"), Err(SnapshotError::TooLarge("x".to_string())));
    let r = h.finish();
    assert_eq!(r.size, 3);
}

#[test]
fn listing_is_structural_and_does_not_hash_archive_payloads() {
    // What listing reads of a snapshot: its metadata and the archive's size;
    // the archive's content is not part of it.
    let mut fs = Fs::new();
    let src = sources(&mut fs, false);
    let snap = create(&mut fs, "/dest", "111", &src, Reason::Periodic).unwrap().unwrap();
    let zip = format!("{}/{}", snap.dir, ARCHIVE_FILE);
    let len = fs.archive_bytes(&zip).len() as u64;
    fs.archives.get_mut(&zip).unwrap()[0].1[0] ^= 0xff;
    assert_eq!(check_archive_stat(&snap.metadata, true, len), Ok(()));
    assert_eq!(
        check_archive_stat(&snap.metadata, true, len + 1),
        Err(SnapshotError::ArchiveMissingOrWrongSize)
    );
    assert_eq!(
        check_archive_stat(&snap.metadata, false, len),
        Err(SnapshotError::ArchiveMissingOrWrongSize)
    );
}

#[test]
fn compresses_zero_heavy_saves() {
    let mut fs = Fs::new();
    fs.write(SL2, &vec![0u8; 4 * 1024 * 1024]); // 4 MiB of zeros
    let snap = create(&mut fs, "/dest", "111", &[SL2], Reason::Manual).unwrap().unwrap();
    assert_eq!(snap.original_size(), 4 * 1024 * 1024);
    assert!(snap.stored_size() < snap.original_size() / 10, "zeros should compress hugely");
    let zip = format!("{}/{}", snap.dir, ARCHIVE_FILE);
    assert_eq!(snap.stored_size(), fs.archive_bytes(&zip).len() as u64);
}

#[test]
fn keeps_newest_n() {
    let mut fs = Fs::new();
    for i in 0..5 {
        fs.write(SL2, format!("content-{i}").as_bytes());
        create(&mut fs, "/dest", "111", &[SL2], Reason::Periodic).unwrap().expect("distinct content each time");
    }
    let live = |fs: &Fs| -> Vec<Snapshot> {
        fs.snapshots.iter().filter(|s| !fs.removed.contains(&s.dir)).cloned().collect()
    };
    let listed = live(&fs);
    let intact: Vec<bool> = listed
        .iter()
        .map(|s| {
            let zip = format!("{}/{}", s.dir, ARCHIVE_FILE);
            let h = hash(ARCHIVE_FILE, &fs.archive_bytes(&zip), MAX_ARCHIVE_BYTES).unwrap();
            check_archive_hash(&s.metadata, &h).is_ok()
        })
        .collect();
    let removed = retention_plan(ST, "/dest", listed, &intact, 3);
    assert_eq!(removed.len(), 2);
    for s in &removed {
        fs.removed.push(s.dir.clone());
    }
    let remaining = live(&fs);
    assert_eq!(remaining.len(), 3);
    // The survivors are the newest three.
    let newest = remaining.last().unwrap();
    assert_eq!(extracted(&fs, newest, "ER0000.sl2"), b"content-4");
}

#[test]
fn sha256_of_known_content() {
    let h = hash("abc", b"abc", 10).unwrap();
    assert_eq!(h.sha256, "ba7816bf8f01cfea414140de5dae2223b00361a396177a9cb410ff61f20015ad");
    assert_eq!(h.size, 3);
    let e = hash("e", b"", 10).unwrap();
    assert_eq!(e.sha256, "e3b0c44298fc1c149afbf4c8996fb92427ae41e4649b934ca495991b7852b855");
    assert_eq!(to_hex(&[0x00, 0xab, 0xff]), "00abff");
}

#[test]
fn fingerprint_ignores_record_order_and_size() {
    let a = FileHash { name: "b".to_string(), sha256: "1".repeat(64), size: 1 };
    let b = FileHash { name: "a".to_string(), sha256: "2".repeat(64), size: 2 };
    let f1 = fingerprint(&[a.clone(), b.clone()]);
    let f2 = fingerprint(&[b.clone(), FileHash { size: 99, ..a.clone() }]);
    assert_eq!(f1[0].0, "a");
    assert!(same_fingerprint(&f1, &f2));
    let c = FileHash { sha256: "3".repeat(64), ..a };
    assert!(!same_fingerprint(&f1, &fingerprint(&[b, c])));
}

#[test]
fn file_record_validation() {
    let ok = FileHash { name: "ER0000.sl2".to_string(), sha256: "a".repeat(64), size: 1 };
    assert_eq!(validate_file_hashes(ST, &[ok.clone()]), Ok(()));
    assert_eq!(validate_file_hashes(ST, &[]), Err(SnapshotError::BadFileCount));
    let nine = vec![ok.clone(); 9];
    assert_eq!(validate_file_hashes(ST, &nine), Err(SnapshotError::BadFileCount));
    let bad = FileHash { name: "a/b".to_string(), ..ok.clone() };
    assert_eq!(
        validate_file_hashes(ST, &[bad]),
        Err(SnapshotError::UnsafeFileName("a/b".to_string()))
    );
    assert_eq!(
        validate_file_hashes(ST, &[ok.clone(), ok.clone()]),
        Err(SnapshotError::DuplicateFileName("ER0000.sl2".to_string()))
    );
    let big = FileHash { size: MAX_SOURCE_FILE_BYTES + 1, ..ok.clone() };
    assert_eq!(
        validate_file_hashes(ST, &[big]),
        Err(SnapshotError::FileTooLarge("ER0000.sl2".to_string()))
    );
    let sha = FileHash { sha256: "g".repeat(64), ..ok.clone() };
    assert_eq!(
        validate_file_hashes(ST, &[sha]),
        Err(SnapshotError::BadSha256("ER0000.sl2".to_string()))
    );
    let a = FileHash { name: "a".to_string(), size: MAX_SOURCE_FILE_BYTES, ..ok.clone() };
    let b = FileHash { name: "b".to_string(), size: MAX_SOURCE_FILE_BYTES, ..ok.clone() };
    let c = FileHash { name: "c".to_string(), size: 1, ..ok };
    assert_eq!(validate_file_hashes(ST, &[a, b, c]), Err(SnapshotError::TotalTooLarge));
}

#[test]
fn names_of_snapshot_folders() {
    let files = vec![FileHash { name: "x".to_string(), sha256: "0123456789abcdef".repeat(4), size: 1 }];
    let base = final_dir_base(UtcTime { secs: 86_400 + 3_661, nanos: 0 }, &files).unwrap();
    assert_eq!(base, "19700102-010101-01234567");
    assert_eq!(final_dir_base(UtcTime { secs: 0, nanos: 0 }, &[]).unwrap(), "19700101-000000-00000000");
    let sd = snapshots_dir_as(ST, "/d");
    assert_eq!(sd, "/d/snapshots");
    assert_eq!(final_dir_candidate(ST, &sd, &base, 0), "/d/snapshots/19700102-010101-01234567");
    assert_eq!(final_dir_candidate(ST, &sd, &base, 2), "/d/snapshots/19700102-010101-01234567-2");
    assert_eq!(tmp_dir_name(ST, &sd, 7, 123), "/d/snapshots/.tmp-7-123");
}

#[test]
fn source_names_and_read_limits() {
    assert_eq!(source_name(ST, "/s/ER0000.sl2"), Ok("ER0000.sl2".to_string()));
    assert_eq!(source_name(ST, "/"), Err(SnapshotError::NoSourceName));
    assert_eq!(
        source_name(ST, "/s/a\\b"),
        Err(SnapshotError::UnsafeSourceName("a\\b".to_string()))
    );
    assert_eq!(check_read_size("m", 11, 10), Err(SnapshotError::TooLarge("m".to_string())));
    assert_eq!(check_read_size("m", 10, 10), Ok(()));
}

#[test]
fn reason_labels() {
    assert_eq!(Reason::PreLaunch.label(), "pre-launch");
    assert_eq!(Reason::Periodic.label(), "periodic");
    assert_eq!(Reason::PostExit.label(), "post-exit");
    assert_eq!(Reason::Manual.label(), "manual");
}

#[test]
fn metadata_checks() {
    let m = Metadata {
        format_version: METADATA_VERSION,
        steamid: "1".to_string(),
        created_utc: UtcTime { secs: 0, nanos: 0 },
        source_modified_utc: None,
        reason: Reason::Manual,
        app_version: "x".to_string(),
        files: vec![FileHash { name: "a".to_string(), sha256: "a".repeat(64), size: 1 }],
        archive: ARCHIVE_FILE.to_string(),
        stored_bytes: MAX_ARCHIVE_BYTES + 1,
        archive_sha256: "c".repeat(64),
    };
    assert_eq!(
        check_archive_stat(&m, true, MAX_ARCHIVE_BYTES + 1),
        Err(SnapshotError::ArchiveTooLarge)
    );
    let v2 = Metadata { format_version: 2, ..m.clone() };
    assert_eq!(
        save_guard::snapshot::check_metadata(ST, &v2, None),
        Err(SnapshotError::UnsupportedVersion)
    );
    let other = Metadata { archive: "x.zip".to_string(), ..m };
    assert_eq!(
        save_guard::snapshot::check_metadata(ST, &other, Some("1")),
        Err(SnapshotError::UnexpectedArchiveName)
    );
}

#[test]
fn final_folder_skips_existing_names() {
    let sd = "/d/snapshots";
    let taken = vec![
        "/d/snapshots/b".to_string(),
        "/d/snapshots/b-1".to_string(),
        "/d/snapshots/other".to_string(),
    ];
    assert_eq!(unique_final_dir(ST, sd, "b", &taken), "/d/snapshots/b-2");
    assert_eq!(unique_final_dir(ST, sd, "c", &taken), "/d/snapshots/c");
}

#[test]
fn snapshot_read_from_its_folder() {
    let m = Metadata {
        format_version: METADATA_VERSION,
        steamid: "1".to_string(),
        created_utc: UtcTime { secs: 0, nanos: 0 },
        source_modified_utc: None,
        reason: Reason::Manual,
        app_version: "x".to_string(),
        files: vec![FileHash { name: "a".to_string(), sha256: "a".repeat(64), size: 1 }],
        archive: ARCHIVE_FILE.to_string(),
        stored_bytes: 10,
        archive_sha256: "c".repeat(64),
    };
    let ok = snapshot_from_metadata(ST, "/d/s".to_string(), m.clone(), Some("1"), Ok((true, 10))).unwrap();
    assert_eq!(ok.dir, "/d/s");
    assert_eq!(ok.metadata, m);
    assert_eq!(
        snapshot_from_metadata(ST, "/d/s".to_string(), m.clone(), Some("2"), Ok((true, 10))).unwrap_err(),
        SnapshotError::WrongAccount
    );
    assert_eq!(
        snapshot_from_metadata(ST, "/d/s".to_string(), m.clone(), None, Err("gone".to_string())).unwrap_err(),
        SnapshotError::Io("gone".to_string())
    );
    assert_eq!(
        snapshot_from_metadata(ST, "/d/s".to_string(), m.clone(), None, Ok((true, 11))).unwrap_err(),
        SnapshotError::ArchiveMissingOrWrongSize
    );
    assert_eq!(
        snapshot_from_metadata(ST, "/d/s".to_string(), m, None, Ok((false, 10))).unwrap_err(),
        SnapshotError::ArchiveMissingOrWrongSize
    );
}

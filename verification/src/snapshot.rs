//! Content-verified, atomically finalized save snapshots.
//!
//! A snapshot lives at `<dest>/snapshots/<UTC-timestamp>-<shorthash>/` and
//! holds `save.zip` (the `.sl2` and optional `.sl2.bak`, deflate-compressed)
//! plus `metadata.json`. Creation never overwrites a finalized snapshot,
//! never finalizes a partial copy, and deduplicates on file content, not on
//! modification time. Hashes recorded in metadata are of the original bytes.
//!
//! The filesystem and archive work is done by the caller; this module makes
//! every decision: what is safe, what is a duplicate, when to retry, and what
//! is recorded.

use vstd::prelude::*;
use vstd::relations::{sorted_by, total_ordering};
use vstd::seq_lib::lemma_sorted_unique;

use crate::clock::{UtcTime, chrono_compact_stamp, compact_stamp, lemma_utc_key_order, utc_key, utc_le, utc_sort_key};
use crate::digest::{Sha256Stream, hex_lower, sha256_of, to_hex};
use crate::paths::{PathStyle, file_name_as, file_name_of, is_normal_name, join_as, joined, lemma_joined_parent, normal_name, parent_is, path_style};
use crate::sorting::{key_pos_leq, keys_of, lemma_stable_order, sort_stable_by_key, stable_order, stable_sorted};
use crate::text::{concat, decimal, u64_to_decimal, u128_to_decimal, str_eq, chars_lt, compare_chars, lemma_chars_lt_irreflexive, lemma_chars_lt_total, lemma_chars_lt_transitive, to_chars};

verus! {

pub const METADATA_VERSION: u32 = 1;

pub const METADATA_FILE: &'static str = "metadata.json";

pub const ARCHIVE_FILE: &'static str = "save.zip";

pub const MAX_SOURCE_FILE_BYTES: u64 = 536_870_912;

pub const MAX_TOTAL_SOURCE_BYTES: u64 = 1_073_741_824;

pub const MAX_METADATA_BYTES: u64 = 1_048_576;

pub const MAX_ARCHIVE_BYTES: u64 = 1_090_519_040;

pub const MAX_ARCHIVE_ENTRIES: usize = 8;

/// Size of the buffer in which files are streamed.
pub const IO_BUFFER_BYTES: usize = 65_536;

/// Name prefix of the folder a snapshot is built in before it is finalized.
pub const TMP_PREFIX: &'static str = ".tmp-";

pub const MAX_COPY_ATTEMPTS: u32 = 4;

/// Why a snapshot was taken.
#[derive(Clone, Copy, Debug, PartialEq, Eq, Structural)]
pub enum Reason {
    PreLaunch,
    Periodic,
    PostExit,
    Manual,
}

pub open spec fn reason_label(r: Reason) -> Seq<char> {
    match r {
        Reason::PreLaunch => "pre-launch"@,
        Reason::Periodic => "periodic"@,
        Reason::PostExit => "post-exit"@,
        Reason::Manual => "manual"@,
    }
}

impl Reason {
    /// The label shown and logged for this reason.
    pub fn label(self) -> (r: &'static str)
        ensures
            r@ == reason_label(self),
    {
        match self {
            Reason::PreLaunch => "pre-launch",
            Reason::Periodic => "periodic",
            Reason::PostExit => "post-exit",
            Reason::Manual => "manual",
        }
    }
}

/// One save file recorded in a snapshot; `size` and `sha256` describe the
/// original, uncompressed bytes.
#[derive(Debug, Clone, PartialEq, Eq)]
pub struct FileHash {
    pub name: String,
    pub sha256: String,
    pub size: u64,
}

/// A file record as values: name, digest text, size.
pub open spec fn fh(f: FileHash) -> (Seq<char>, Seq<char>, u64) {
    (f.name@, f.sha256@, f.size)
}

pub open spec fn fhs(v: Seq<FileHash>) -> Seq<(Seq<char>, Seq<char>, u64)> {
    v.map_values(|f: FileHash| fh(f))
}

/// What `metadata.json` records.
#[derive(Debug, Clone, PartialEq, Eq)]
pub struct Metadata {
    pub format_version: u32,
    pub steamid: String,
    pub created_utc: UtcTime,
    pub source_modified_utc: Option<UtcTime>,
    pub reason: Reason,
    pub app_version: String,
    pub files: Vec<FileHash>,
    /// Archive holding the copied saves, relative to the snapshot folder.
    pub archive: String,
    /// On-disk size of the compressed archive.
    pub stored_bytes: u64,
    /// SHA-256 of the complete compressed archive.
    pub archive_sha256: String,
}

/// A finalized snapshot: its folder and what its metadata records.
#[derive(Debug, Clone)]
pub struct Snapshot {
    pub dir: String,
    pub metadata: Metadata,
}

/// Why a snapshot operation failed.
#[derive(Debug, Clone, PartialEq, Eq)]
pub enum SnapshotError {
    /// No source files were given.
    NoSources,
    /// A source file does not exist.
    SourceMissing(String),
    /// A source path has no usable file name.
    NoSourceName,
    /// A source file name holds a path separator.
    UnsafeSourceName(String),
    /// Two sources have the same file name.
    DuplicateSource(String),
    /// More sources than an archive may hold.
    TooManySources,
    /// Content exceeded the size limit given while it was read.
    TooLarge(String),
    /// A running size no longer fits in 64 bits.
    SizeOverflow,
    /// A snapshot must hold between 1 and [`MAX_ARCHIVE_ENTRIES`] files.
    BadFileCount,
    /// A recorded file name is not a plain file name.
    UnsafeFileName(String),
    /// A recorded file name occurs twice.
    DuplicateFileName(String),
    /// A recorded file exceeds [`MAX_SOURCE_FILE_BYTES`].
    FileTooLarge(String),
    /// A recorded digest is not 64 hexadecimal digits.
    BadSha256(String),
    /// The recorded files together exceed [`MAX_TOTAL_SOURCE_BYTES`].
    TotalTooLarge,
    /// The metadata has another format version.
    UnsupportedVersion,
    /// The snapshot belongs to another Steam account.
    WrongAccount,
    /// The metadata names another archive than [`ARCHIVE_FILE`].
    UnexpectedArchiveName,
    /// The archive is missing or its size differs from the metadata.
    ArchiveMissingOrWrongSize,
    /// The archive exceeds [`MAX_ARCHIVE_BYTES`].
    ArchiveTooLarge,
    /// The archive's digest differs from the metadata.
    ArchiveHashMismatch,
    /// The archive holds another number of entries than recorded.
    EntryCountMismatch,
    /// An archive entry is a folder, holds a separator, or repeats a name.
    UnsafeEntry(String),
    /// An archive entry is not among the recorded files.
    UnexpectedEntry(String),
    /// An archive entry's content differs from its record.
    VerifyFailed(String),
    /// The save kept changing; no stable copy after [`MAX_COPY_ATTEMPTS`].
    KeptChanging,
    /// The clock gave a time chrono cannot express.
    ClockOutOfRange,
    /// A filesystem, archive or metadata operation failed.
    Io(String),
}

impl Snapshot {
    /// Total original (uncompressed) bytes of the saved files.
    pub fn original_size(&self) -> (r: u64)
        requires
            total_size(self.metadata.files@) <= u64::MAX,
        ensures
            r == total_size(self.metadata.files@),
    {
        let files = &self.metadata.files;
        let mut total: u64 = 0;
        let mut i: usize = 0;
        while i < files.len()
            invariant
                i <= files@.len(),
                total == total_size(files@.take(i as int)),
                total_size(files@) <= u64::MAX,
            decreases files@.len() - i,
        {
            proof {
                lemma_total_size_prefix(files@, i as int);
                assert(files@.take(i + 1).drop_last() =~= files@.take(i as int));
            }
            total = total + files[i].size;
            i = i + 1;
        }
        proof {
            assert(files@.take(files@.len() as int) =~= files@);
        }
        total
    }

    /// Bytes this snapshot occupies on disk: the compressed archive.
    pub fn stored_size(&self) -> (r: u64)
        ensures
            r == self.metadata.stored_bytes,
    {
        self.metadata.stored_bytes
    }
}

/// The sum of the recorded sizes.
pub open spec fn total_size(files: Seq<FileHash>) -> int
    decreases files.len(),
{
    if files.len() == 0 {
        0
    } else {
        total_size(files.drop_last()) + files.last().size
    }
}

pub(crate) proof fn lemma_total_size_prefix(files: Seq<FileHash>, i: int)
    requires
        0 <= i < files.len(),
    ensures
        total_size(files.take(i)) + files[i].size <= total_size(files),
    decreases files.len(),
{
    if i < files.len() - 1 {
        lemma_total_size_prefix(files.drop_last(), i);
        assert(files.drop_last().take(i) =~= files.take(i));
    } else {
        assert(files.drop_last() =~= files.take(i));
    }
}

/// `<dest>/snapshots` in the given style.
pub fn snapshots_dir_as(st: PathStyle, dest: &str) -> (r: String)
    ensures
        r@ == joined(st, dest@, "snapshots"@),
{
    join_as(st, dest, "snapshots")
}

/// `<dest>/snapshots`, where the snapshot folders live.
pub fn snapshots_dir(dest: &str) -> (r: String)
    ensures
        r@ == joined(PathStyle::Unix, dest@, "snapshots"@) || r@ == joined(
            PathStyle::Windows,
            dest@,
            "snapshots"@,
        ),
{
    snapshots_dir_as(path_style(), dest)
}

pub open spec fn has_sep_char(s: Seq<char>) -> bool {
    exists|i: int| 0 <= i < s.len() && (s[i] == '/' || s[i] == '\\')
}

fn contains_sep(s: &[char]) -> (r: bool)
    ensures
        r == has_sep_char(s@),
{
    let mut i: usize = 0;
    while i < s.len()
        invariant
            i <= s@.len(),
            forall|j: int| 0 <= j < i ==> s@[j] != '/' && s@[j] != '\\',
        decreases s@.len() - i,
    {
        if s[i] == '/' || s[i] == '\\' {
            return true;
        }
        i = i + 1;
    }
    false
}

/// The archive entry name of a source file.
pub fn source_name(st: PathStyle, path: &str) -> (r: Result<String, SnapshotError>)
    ensures
        match file_name_of(st, path@) {
            None => r == Err::<String, SnapshotError>(SnapshotError::NoSourceName),
            Some(n) => if has_sep_char(n) {
                r matches Err(SnapshotError::UnsafeSourceName(m)) && m@ == n
            } else {
                r matches Ok(m) && m@ == n
            },
        },
{
    match file_name_as(st, path) {
        None => Err(SnapshotError::NoSourceName),
        Some(n) => {
            let c = to_chars(n.as_str());
            if contains_sep(c.as_slice()) {
                Err(SnapshotError::UnsafeSourceName(n))
            } else {
                Ok(n)
            }
        },
    }
}

/// A recorded name must be a plain file name: not empty, no separator, and
/// read back as itself by `Path::file_name`.
pub open spec fn name_ok(st: PathStyle, n: Seq<char>) -> bool {
    n.len() > 0 && !has_sep_char(n) && file_name_of(st, n) == Some(n)
}

pub open spec fn is_hex_char(c: char) -> bool {
    ('0' <= c && c <= '9') || ('a' <= c && c <= 'f') || ('A' <= c && c <= 'F')
}

/// A digest must be 64 hexadecimal digits.
pub open spec fn sha_ok(s: Seq<char>) -> bool {
    s.len() == 64 && forall|i: int| 0 <= i < s.len() ==> #[trigger] is_hex_char(s[i])
}

/// What is wrong with the `i`-th record, if anything, in the order the
/// checks are made: its name, a repeated name, its size, its digest.
pub open spec fn file_problem(st: PathStyle, files: Seq<FileHash>, i: int) -> Option<
    SnapshotError,
> {
    let f = files[i];
    if !name_ok(st, f.name@) {
        Some(SnapshotError::UnsafeFileName(f.name))
    } else if exists|j: int| 0 <= j < i && #[trigger] files[j].name@ == f.name@ {
        Some(SnapshotError::DuplicateFileName(f.name))
    } else if f.size > MAX_SOURCE_FILE_BYTES {
        Some(SnapshotError::FileTooLarge(f.name))
    } else if !sha_ok(f.sha256@) {
        Some(SnapshotError::BadSha256(f.name))
    } else {
        None
    }
}

/// Two errors are the same variant naming the same text.
pub open spec fn same_error(a: SnapshotError, b: SnapshotError) -> bool {
    match (a, b) {
        (SnapshotError::UnsafeFileName(x), SnapshotError::UnsafeFileName(y)) => x@ == y@,
        (SnapshotError::DuplicateFileName(x), SnapshotError::DuplicateFileName(y)) => x@ == y@,
        (SnapshotError::FileTooLarge(x), SnapshotError::FileTooLarge(y)) => x@ == y@,
        (SnapshotError::BadSha256(x), SnapshotError::BadSha256(y)) => x@ == y@,
        (SnapshotError::UnsafeSourceName(x), SnapshotError::UnsafeSourceName(y)) => x@ == y@,
        (SnapshotError::DuplicateSource(x), SnapshotError::DuplicateSource(y)) => x@ == y@,
        (SnapshotError::TooLarge(x), SnapshotError::TooLarge(y)) => x@ == y@,
        (SnapshotError::SourceMissing(x), SnapshotError::SourceMissing(y)) => x@ == y@,
        (SnapshotError::UnsafeEntry(x), SnapshotError::UnsafeEntry(y)) => x@ == y@,
        (SnapshotError::UnexpectedEntry(x), SnapshotError::UnexpectedEntry(y)) => x@ == y@,
        (SnapshotError::VerifyFailed(x), SnapshotError::VerifyFailed(y)) => x@ == y@,
        (SnapshotError::Io(x), SnapshotError::Io(y)) => x@ == y@,
        _ => a == b,
    }
}

/// The records are acceptable: 1 to [`MAX_ARCHIVE_ENTRIES`] of them, none
/// with a problem, and within [`MAX_TOTAL_SOURCE_BYTES`] together.
pub open spec fn files_valid(st: PathStyle, files: Seq<FileHash>) -> bool {
    &&& 1 <= files.len() <= MAX_ARCHIVE_ENTRIES
    &&& forall|i: int| 0 <= i < files.len() ==> #[trigger] file_problem(st, files, i) is None
    &&& total_size(files) <= MAX_TOTAL_SOURCE_BYTES
}

/// `e` is the error [`validate_file_hashes`] reports for `files`: a bad
/// count, else the problem of the first record that has one, else the total.
pub open spec fn validation_error(st: PathStyle, files: Seq<FileHash>, e: SnapshotError) -> bool {
    if !(1 <= files.len() <= MAX_ARCHIVE_ENTRIES) {
        e == SnapshotError::BadFileCount
    } else if exists|i: int| 0 <= i < files.len() && #[trigger] file_problem(st, files, i) is Some {
        exists|i: int|
            0 <= i < files.len() && (#[trigger] file_problem(st, files, i) matches Some(p)
                && same_error(e, p)) && forall|j: int|
                0 <= j < i ==> file_problem(st, files, j) is None
    } else {
        e == SnapshotError::TotalTooLarge
    }
}

fn is_hex_char_exec(c: char) -> (r: bool)
    ensures
        r == is_hex_char(c),
{
    ('0' <= c && c <= '9') || ('a' <= c && c <= 'f') || ('A' <= c && c <= 'F')
}

fn sha_ok_exec(s: &str) -> (r: bool)
    ensures
        r == sha_ok(s@),
{
    let c = to_chars(s);
    if c.len() != 64 {
        return false;
    }
    let mut i: usize = 0;
    while i < c.len()
        invariant
            c@ == s@,
            i <= c@.len(),
            forall|j: int| 0 <= j < i ==> #[trigger] is_hex_char(c@[j]),
        decreases c@.len() - i,
    {
        if !is_hex_char_exec(c[i]) {
            assert(!is_hex_char(s@[i as int]));
            return false;
        }
        i = i + 1;
    }
    true
}

fn name_ok_exec(st: PathStyle, n: &String) -> (r: bool)
    ensures
        r == name_ok(st, n@),
{
    let c = to_chars(n.as_str());
    if c.len() == 0 || contains_sep(c.as_slice()) {
        return false;
    }
    match file_name_as(st, n.as_str()) {
        Some(f) => {
            let fc = to_chars(f.as_str());
            let same = crate::text::compare_chars(fc.as_slice(), c.as_slice()) == 0;
            same
        },
        None => false,
    }
}

fn copy_string(s: &String) -> (r: String)
    ensures
        r == *s,
{
    s.clone()
}

/// Index of an earlier record with the same name as record `i`, if any.
fn earlier_same_name(files: &[FileHash], i: usize) -> (r: bool)
    requires
        i < files@.len(),
    ensures
        r == exists|j: int| 0 <= j < i && #[trigger] files@[j].name@ == files@[i as int].name@,
{
    let mut j: usize = 0;
    while j < i
        invariant
            j <= i < files@.len(),
            forall|k: int| 0 <= k < j ==> files@[k].name@ != files@[i as int].name@,
        decreases i - j,
    {
        if files[j].name == files[i].name {
            return true;
        }
        j = j + 1;
    }
    false
}

proof fn lemma_total_size_bound(files: Seq<FileHash>)
    requires
        forall|i: int| 0 <= i < files.len() ==> (#[trigger] files[i]).size <= MAX_SOURCE_FILE_BYTES,
    ensures
        total_size(files) <= files.len() * MAX_SOURCE_FILE_BYTES,
    decreases files.len(),
{
    if files.len() > 0 {
        assert forall|i: int| 0 <= i < files.drop_last().len() implies (
        #[trigger] files.drop_last()[i]).size <= MAX_SOURCE_FILE_BYTES by {
            assert(files.drop_last()[i] == files[i]);
        }
        lemma_total_size_bound(files.drop_last());
    }
}

/// Checks the file records of a snapshot: 1 to [`MAX_ARCHIVE_ENTRIES`]
/// records, each with a plain file name that occurs once, a size within
/// [`MAX_SOURCE_FILE_BYTES`] and a 64-digit hexadecimal digest, and all
/// within [`MAX_TOTAL_SOURCE_BYTES`] together.
pub fn validate_file_hashes(st: PathStyle, files: &[FileHash]) -> (r: Result<(), SnapshotError>)
    ensures
        r is Ok <==> files_valid(st, files@),
        r matches Err(e) ==> validation_error(st, files@, e),
{
    if files.len() == 0 || files.len() > MAX_ARCHIVE_ENTRIES {
        return Err(SnapshotError::BadFileCount);
    }
    let mut total: u64 = 0;
    let mut i: usize = 0;
    while i < files.len()
        invariant
            1 <= files@.len() <= MAX_ARCHIVE_ENTRIES,
            i <= files@.len(),
            forall|j: int| 0 <= j < i ==> #[trigger] file_problem(st, files@, j) is None,
            total == total_size(files@.take(i as int)),
            total <= i * MAX_SOURCE_FILE_BYTES,
        decreases files@.len() - i,
    {
        let f = &files[i];
        let ghost p = file_problem(st, files@, i as int);
        if !name_ok_exec(st, &f.name) {
            assert(p == Some(SnapshotError::UnsafeFileName(f.name)));
            return Err(SnapshotError::UnsafeFileName(copy_string(&f.name)));
        }
        if earlier_same_name(files, i) {
            assert(p == Some(SnapshotError::DuplicateFileName(f.name)));
            return Err(SnapshotError::DuplicateFileName(copy_string(&f.name)));
        }
        if f.size > MAX_SOURCE_FILE_BYTES {
            return Err(SnapshotError::FileTooLarge(copy_string(&f.name)));
        }
        if !sha_ok_exec(f.sha256.as_str()) {
            return Err(SnapshotError::BadSha256(copy_string(&f.name)));
        }
        assert(p is None);
        proof {
            assert(files@.take(i + 1).drop_last() =~= files@.take(i as int));
            assert(total + f.size <= (i + 1) * MAX_SOURCE_FILE_BYTES) by (nonlinear_arith)
                requires
                    total <= i * MAX_SOURCE_FILE_BYTES,
                    f.size <= MAX_SOURCE_FILE_BYTES,
            ;
        }
        total = total + f.size;
        i = i + 1;
    }
    proof {
        assert(files@.take(files@.len() as int) =~= files@);
    }
    if total > MAX_TOTAL_SOURCE_BYTES {
        return Err(SnapshotError::TotalTooLarge);
    }
    Ok(())
}


/// Streams content through SHA-256 while enforcing a size limit: the
/// hashing half of reading a save, an archive entry or an archive.
pub struct ContentHasher {
    name: String,
    stream: Sha256Stream,
    size: u64,
    limit: u64,
}

impl ContentHasher {
    /// The running size is the number of bytes fed, within the limit.
    pub closed spec fn wf(self) -> bool {
        self.size == self.stream.fed().len() && self.size <= self.limit
    }

    /// The bytes fed so far.
    pub closed spec fn consumed(self) -> Seq<u8> {
        self.stream.fed()
    }

    /// The name the content is recorded under.
    pub closed spec fn label(self) -> Seq<char> {
        self.name@
    }

    /// The most bytes the content may have.
    pub closed spec fn limit(self) -> u64 {
        self.limit
    }

    /// A hasher for content recorded as `name`, of at most `limit` bytes.
    pub fn new(name: String, limit: u64) -> (r: ContentHasher)
        ensures
            r.wf(),
            r.consumed() == Seq::<u8>::empty(),
            r.label() == name@,
            r.limit() == limit,
    {
        ContentHasher { name, stream: Sha256Stream::new(), size: 0, limit }
    }

    /// Feeds the next chunk. Refused, with nothing fed, when the content
    /// would exceed the limit.
    pub fn feed(&mut self, chunk: &[u8]) -> (r: Result<(), SnapshotError>)
        requires
            old(self).wf(),
        ensures
            final(self).wf(),
            final(self).label() == old(self).label(),
            final(self).limit() == old(self).limit(),
            if old(self).consumed().len() + chunk@.len() > u64::MAX {
                r == Err::<(), SnapshotError>(SnapshotError::SizeOverflow) && final(self).consumed()
                    == old(self).consumed()
            } else if old(self).consumed().len() + chunk@.len() > old(self).limit() {
                r matches Err(SnapshotError::TooLarge(n)) && n@ == old(self).label()
                    && final(self).consumed() == old(self).consumed()
            } else {
                r is Ok && final(self).consumed() == old(self).consumed() + chunk@
            },
    {
        let n = chunk.len() as u64;
        if self.size > u64::MAX - n {
            return Err(SnapshotError::SizeOverflow);
        }
        let size = self.size + n;
        if size > self.limit {
            return Err(SnapshotError::TooLarge(copy_string(&self.name)));
        }
        self.stream.update(chunk);
        self.size = size;
        Ok(())
    }

    /// A well-formed hasher never holds more than its limit.
    pub proof fn lemma_within_limit(self)
        requires
            self.wf(),
        ensures
            self.consumed().len() <= self.limit(),
    {
    }

    /// The record of everything fed: its name, the lower-case hexadecimal
    /// SHA-256 digest, and its size.
    pub fn finish(self) -> (r: FileHash)
        requires
            self.wf(),
        ensures
            r.name@ == self.label(),
            r.sha256@ == hex_lower(sha256_of(self.consumed())),
            r.size == self.consumed().len(),
    {
        let size = self.size;
        let name = self.name;
        let digest = self.stream.finalize();
        FileHash { name, sha256: to_hex(digest.as_slice()), size }
    }
}

/// The (name, digest) pair by which snapshots are compared.
pub open spec fn pair_of(f: FileHash) -> (Seq<char>, Seq<char>) {
    (f.name@, f.sha256@)
}

/// Lexicographic order on (name, digest) pairs, as `Vec<(String, String)>`
/// sorts them.
pub open spec fn pair_leq(a: (Seq<char>, Seq<char>), b: (Seq<char>, Seq<char>)) -> bool {
    chars_lt(a.0, b.0) || (a.0 == b.0 && (chars_lt(a.1, b.1) || a.1 == b.1))
}

pub proof fn lemma_pair_leq_total()
    ensures
        total_ordering(|a: (Seq<char>, Seq<char>), b: (Seq<char>, Seq<char>)| pair_leq(a, b)),
{
    let leq = |a: (Seq<char>, Seq<char>), b: (Seq<char>, Seq<char>)| pair_leq(a, b);
    assert forall|a: (Seq<char>, Seq<char>)| #[trigger] leq(a, a) by {}
    assert forall|a: (Seq<char>, Seq<char>), b: (Seq<char>, Seq<char>)|
        #[trigger] leq(a, b) && #[trigger] leq(b, a) implies a == b by {
        lemma_chars_lt_total(a.0, b.0);
        lemma_chars_lt_total(a.1, b.1);
        lemma_chars_lt_irreflexive(a.0);
    }
    assert forall|a: (Seq<char>, Seq<char>), b: (Seq<char>, Seq<char>), c: (Seq<char>, Seq<char>)|
        #[trigger] leq(a, b) && #[trigger] leq(b, c) implies leq(a, c) by {
        if chars_lt(a.0, b.0) && chars_lt(b.0, c.0) {
            lemma_chars_lt_transitive(a.0, b.0, c.0);
        }
        if chars_lt(a.1, b.1) && chars_lt(b.1, c.1) {
            lemma_chars_lt_transitive(a.1, b.1, c.1);
        }
    }
    assert forall|a: (Seq<char>, Seq<char>), b: (Seq<char>, Seq<char>)|
        #[trigger] leq(a, b) || #[trigger] leq(b, a) by {
        lemma_chars_lt_total(a.0, b.0);
        lemma_chars_lt_total(a.1, b.1);
    }
}

/// The fingerprint of a snapshot: its (name, digest) pairs, sorted.
pub open spec fn fingerprint_of(files: Seq<FileHash>) -> Seq<(Seq<char>, Seq<char>)> {
    files.map_values(|f: FileHash| pair_of(f)).sort_by(
        |a: (Seq<char>, Seq<char>), b: (Seq<char>, Seq<char>)| pair_leq(a, b),
    )
}

pub open spec fn pair_views(v: Seq<(String, String)>) -> Seq<(Seq<char>, Seq<char>)> {
    v.map_values(|p: (String, String)| (p.0@, p.1@))
}

fn pair_leq_exec(a: &(Vec<char>, Vec<char>), b: &(Vec<char>, Vec<char>)) -> (r: bool)
    ensures
        r == pair_leq((a.0@, a.1@), (b.0@, b.1@)),
{
    let c = compare_chars(a.0.as_slice(), b.0.as_slice());
    if c < 0 {
        true
    } else if c > 0 {
        proof {
            lemma_chars_lt_total(a.0@, b.0@);
        }
        false
    } else {
        compare_chars(a.1.as_slice(), b.1.as_slice()) <= 0
    }
}

/// The fingerprint of the given records: their (name, digest) pairs in
/// sorted order, so that the order in which files were recorded does not
/// matter.
pub fn fingerprint(files: &[FileHash]) -> (r: Vec<(String, String)>)
    ensures
        pair_views(r@) == fingerprint_of(files@),
{
    let ghost leq = |a: (Seq<char>, Seq<char>), b: (Seq<char>, Seq<char>)| pair_leq(a, b);
    let ghost src = files@.map_values(|f: FileHash| pair_of(f));
    let mut out: Vec<(String, String)> = Vec::new();
    let mut keys: Vec<(Vec<char>, Vec<char>)> = Vec::new();
    let mut i: usize = 0;
    proof {
        broadcast use vstd::seq_lib::group_to_multiset_ensures;

        lemma_pair_leq_total();
        assert(src.take(0) =~= Seq::<(Seq<char>, Seq<char>)>::empty());
        assert(pair_views(out@) =~= Seq::<(Seq<char>, Seq<char>)>::empty());
    }
    while i < files.len()
        invariant
            i <= files@.len(),
            src == files@.map_values(|f: FileHash| pair_of(f)),
            leq == (|a: (Seq<char>, Seq<char>), b: (Seq<char>, Seq<char>)| pair_leq(a, b)),
            total_ordering(leq),
            keys@.len() == out@.len(),
            forall|j: int| 0 <= j < keys@.len() ==> (#[trigger] keys@[j]).0@ == out@[j].0@ && keys@[j].1@
                == out@[j].1@,
            sorted_by(pair_views(out@), leq),
            pair_views(out@).to_multiset() == src.take(i as int).to_multiset(),
        decreases files@.len() - i,
    {
        broadcast use vstd::seq_lib::group_to_multiset_ensures;

        let f = &files[i];
        let k = (to_chars(f.name.as_str()), to_chars(f.sha256.as_str()));
        let ghost kv = (k.0@, k.1@);
        assert(kv == src[i as int]);
        let mut pos: usize = 0;
        while pos < keys.len() && pair_leq_exec(&keys[pos], &k)
            invariant
                pos <= keys@.len(),
                kv == (k.0@, k.1@),
                forall|j: int| 0 <= j < pos ==> pair_leq(((#[trigger] keys@[j]).0@, keys@[j].1@), kv),
            decreases keys@.len() - pos,
        {
            pos = pos + 1;
        }
        let ghost old_v = pair_views(out@);
        let ghost old_keys = keys@;
        assert(forall|j: int| 0 <= j < old_v.len() ==> #[trigger] old_v[j] == (old_keys[j].0@, old_keys[j].1@));
        assert(pos < old_v.len() ==> !pair_leq(old_v[pos as int], kv));
        out.insert(pos, (copy_string(&f.name), copy_string(&f.sha256)));
        keys.insert(pos, k);
        proof {
            let nv = pair_views(out@);
            assert(nv =~= old_v.insert(pos as int, kv));
            assert(src.take(i + 1) =~= src.take(i as int).push(kv));
            assert(nv.to_multiset() =~= old_v.to_multiset().insert(kv));
            assert forall|a: int, b: int| 0 <= a < b < nv.len() implies #[trigger] leq(nv[a], nv[b]) by {
                if b < pos {
                    assert(leq(old_v[a], old_v[b]));
                } else if a > pos {
                    assert(leq(old_v[a - 1], old_v[b - 1]));
                } else if a == pos {
                    assert(!leq(old_v[pos as int], kv));
                    assert(leq(kv, old_v[pos as int]));
                    if b - 1 > pos {
                        assert(leq(old_v[pos as int], old_v[b - 1]));
                    }
                } else if b == pos {
                    assert(leq(old_v[a], kv));
                } else {
                    assert(leq(old_v[a], old_v[b - 1]));
                }
            }
            assert forall|j: int| 0 <= j < keys@.len() implies (#[trigger] keys@[j]).0@ == out@[j].0@
                && keys@[j].1@ == out@[j].1@ by {
                if j < pos {
                    assert(keys@[j] == old_keys[j]);
                } else if j > pos {
                    assert(keys@[j] == old_keys[j - 1]);
                }
            }
        }
        i = i + 1;
    }
    proof {
        broadcast use vstd::seq_lib::group_to_multiset_ensures;

        assert(src.take(files@.len() as int) =~= src);
        src.lemma_sort_by_ensures(leq);
        lemma_sorted_unique(pair_views(out@), fingerprint_of(files@), leq);
    }
    out
}

/// Whether two fingerprints are equal.
pub fn same_fingerprint(a: &[(String, String)], b: &[(String, String)]) -> (r: bool)
    ensures
        r == (pair_views(a@) == pair_views(b@)),
{
    if a.len() != b.len() {
        assert(pair_views(a@).len() != pair_views(b@).len());
        return false;
    }
    let mut i: usize = 0;
    while i < a.len()
        invariant
            a@.len() == b@.len(),
            i <= a@.len(),
            forall|j: int| 0 <= j < i ==> pair_views(a@)[j] == pair_views(b@)[j],
        decreases a@.len() - i,
    {
        if a[i].0 != b[i].0 || a[i].1 != b[i].1 {
            assert(pair_views(a@)[i as int] != pair_views(b@)[i as int]);
            return false;
        }
        i = i + 1;
    }
    assert(pair_views(a@) =~= pair_views(b@));
    true
}

/// Deduplication ignores the order in which files were recorded: two sets
/// of records have the same fingerprint exactly when they hold the same
/// (name, digest) pairs, each as often.
pub proof fn lemma_fingerprint_is_content(a: Seq<FileHash>, b: Seq<FileHash>)
    ensures
        (fingerprint_of(a) == fingerprint_of(b)) == (a.map_values(|f: FileHash| pair_of(f)).to_multiset()
            == b.map_values(|f: FileHash| pair_of(f)).to_multiset()),
{
    let leq = |x: (Seq<char>, Seq<char>), y: (Seq<char>, Seq<char>)| pair_leq(x, y);
    lemma_pair_leq_total();
    let pa = a.map_values(|f: FileHash| pair_of(f));
    let pb = b.map_values(|f: FileHash| pair_of(f));
    pa.lemma_sort_by_ensures(leq);
    pb.lemma_sort_by_ensures(leq);
    if pa.to_multiset() == pb.to_multiset() {
        lemma_sorted_unique(pa.sort_by(leq), pb.sort_by(leq), leq);
    }
}


/// What [`check_metadata`] decides, in the order of its checks: the format
/// version, the owning account (when one is expected), the archive name,
/// then the file records.
pub open spec fn metadata_ok(st: PathStyle, m: Metadata, expected: Option<Seq<char>>) -> bool {
    &&& m.format_version == METADATA_VERSION
    &&& (expected matches Some(e) ==> m.steamid@ == e)
    &&& m.archive@ == ARCHIVE_FILE@
    &&& files_valid(st, m.files@)
}

/// Checks metadata read from a snapshot folder before it is trusted.
pub fn check_metadata(st: PathStyle, m: &Metadata, expected_steamid: Option<&str>) -> (r: Result<
    (),
    SnapshotError,
>)
    ensures
        r is Ok <==> metadata_ok(
            st,
            *m,
            match expected_steamid {
                Some(e) => Some(e@),
                None => None,
            },
        ),
        m.format_version != METADATA_VERSION ==> r == Err::<(), SnapshotError>(
            SnapshotError::UnsupportedVersion,
        ),
        m.format_version == METADATA_VERSION ==> (expected_steamid matches Some(e)
            && m.steamid@ != e@ <==> r == Err::<(), SnapshotError>(SnapshotError::WrongAccount)),
        m.format_version == METADATA_VERSION && (expected_steamid matches Some(e) ==> m.steamid@
            == e@) && m.archive@ != ARCHIVE_FILE@ ==> r == Err::<(), SnapshotError>(
            SnapshotError::UnexpectedArchiveName,
        ),
        m.format_version == METADATA_VERSION && (expected_steamid matches Some(e) ==> m.steamid@
            == e@) && m.archive@ == ARCHIVE_FILE@ ==> (r matches Err(e) ==> validation_error(
            st,
            m.files@,
            e,
        )),
{
    if m.format_version != METADATA_VERSION {
        return Err(SnapshotError::UnsupportedVersion);
    }
    match expected_steamid {
        Some(e) => {
            if !str_eq(m.steamid.as_str(), e) {
                return Err(SnapshotError::WrongAccount);
            }
        },
        None => {},
    }
    if !str_eq(m.archive.as_str(), ARCHIVE_FILE) {
        return Err(SnapshotError::UnexpectedArchiveName);
    }
    validate_file_hashes(st, m.files.as_slice())
}

/// Checks what the filesystem says of a snapshot's archive against its
/// metadata: it must be a file of the recorded size, within
/// [`MAX_ARCHIVE_BYTES`].
pub fn check_archive_stat(m: &Metadata, is_file: bool, len: u64) -> (r: Result<(), SnapshotError>)
    ensures
        r == (if !is_file || len != m.stored_bytes {
            Err::<(), SnapshotError>(SnapshotError::ArchiveMissingOrWrongSize)
        } else if m.stored_bytes > MAX_ARCHIVE_BYTES {
            Err(SnapshotError::ArchiveTooLarge)
        } else {
            Ok(())
        }),
{
    if !is_file || len != m.stored_bytes {
        return Err(SnapshotError::ArchiveMissingOrWrongSize);
    }
    if m.stored_bytes > MAX_ARCHIVE_BYTES {
        return Err(SnapshotError::ArchiveTooLarge);
    }
    Ok(())
}

/// A snapshot read from its folder, once its metadata and what the file
/// system says of its archive (whether it is a file and its length, or why
/// that could not be read) pass the structural checks, in this order: the
/// metadata as [`check_metadata`] checks it, the archive's status, then its
/// size as [`check_archive_stat`] checks it. The archive's content is not
/// read.
pub fn snapshot_from_metadata(
    st: PathStyle,
    dir: String,
    metadata: Metadata,
    expected_steamid: Option<&str>,
    archive: Result<(bool, u64), String>,
) -> (r: Result<Snapshot, SnapshotError>)
    ensures
        r is Ok <==> metadata_ok(
            st,
            metadata,
            match expected_steamid {
                Some(e) => Some(e@),
                None => None,
            },
        ) && (archive matches Ok((is_file, len)) && is_file && len == metadata.stored_bytes
            && metadata.stored_bytes <= MAX_ARCHIVE_BYTES),
        r matches Ok(s) ==> s.dir == dir && s.metadata == metadata,
        metadata.format_version != METADATA_VERSION ==> r == Err::<Snapshot, SnapshotError>(
            SnapshotError::UnsupportedVersion,
        ),
        metadata.format_version == METADATA_VERSION ==> (expected_steamid matches Some(e)
            && metadata.steamid@ != e@ <==> r == Err::<Snapshot, SnapshotError>(
            SnapshotError::WrongAccount,
        )),
        metadata_ok(
            st,
            metadata,
            match expected_steamid {
                Some(e) => Some(e@),
                None => None,
            },
        ) ==> match archive {
            Err(m) => r == Err::<Snapshot, SnapshotError>(SnapshotError::Io(m)),
            Ok((is_file, len)) => if !is_file || len != metadata.stored_bytes {
                r == Err::<Snapshot, SnapshotError>(SnapshotError::ArchiveMissingOrWrongSize)
            } else if metadata.stored_bytes > MAX_ARCHIVE_BYTES {
                r == Err::<Snapshot, SnapshotError>(SnapshotError::ArchiveTooLarge)
            } else {
                r is Ok
            },
        },
{
    check_metadata(st, &metadata, expected_steamid)?;
    let (is_file, len) = match archive {
        Err(m) => return Err(SnapshotError::Io(m)),
        Ok(x) => x,
    };
    check_archive_stat(&metadata, is_file, len)?;
    Ok(Snapshot { dir, metadata })
}

/// Checks the size of a file read with a limit: `len` bytes were read of at
/// most `limit + 1` asked for.
pub fn check_read_size(what: &str, len: u64, limit: u64) -> (r: Result<(), SnapshotError>)
    ensures
        len <= limit ==> r is Ok,
        len > limit ==> (r matches Err(SnapshotError::TooLarge(n)) && n@ == what@),
{
    if len > limit {
        Err(SnapshotError::TooLarge(what.to_owned()))
    } else {
        Ok(())
    }
}

/// Checks the digest of a snapshot's archive against its metadata.
pub fn check_archive_hash(m: &Metadata, actual: &FileHash) -> (r: Result<(), SnapshotError>)
    ensures
        r is Ok <==> actual.sha256@ == m.archive_sha256@,
        r is Err ==> r == Err::<(), SnapshotError>(SnapshotError::ArchiveHashMismatch),
{
    if actual.sha256 != m.archive_sha256 {
        Err(SnapshotError::ArchiveHashMismatch)
    } else {
        Ok(())
    }
}

pub open spec fn starts_with(s: Seq<char>, p: Seq<char>) -> bool {
    p.len() <= s.len() && s.subrange(0, p.len() as int) == p
}

/// Whether a folder under `snapshots/` is considered by listing: a real
/// directory (not a link or reparse point) whose name does not mark an
/// unfinished snapshot. A name that is not valid Unicode is passed as empty.
pub fn listing_candidate(name: &str, is_real_dir: bool) -> (r: bool)
    ensures
        r == (is_real_dir && !starts_with(name@, TMP_PREFIX@)),
{
    if !is_real_dir {
        return false;
    }
    let c = to_chars(name);
    let p = to_chars(TMP_PREFIX);
    if p.len() > c.len() {
        return true;
    }
    let mut i: usize = 0;
    while i < p.len()
        invariant
            is_real_dir,
            p@ == TMP_PREFIX@,
            c@ == name@,
            p@.len() <= c@.len(),
            i <= p@.len(),
            forall|j: int| 0 <= j < i ==> c@[j] == p@[j],
        decreases p@.len() - i,
    {
        if c[i] != p[i] {
            assert(c@.subrange(0, p@.len() as int)[i as int] != p@[i as int]);
            assert(c@.subrange(0, p@.len() as int) != p@);
            return true;
        }
        i = i + 1;
    }
    assert(c@.subrange(0, p@.len() as int) =~= p@);
    false
}

/// The order in which snapshots are listed: by creation time.
pub open spec fn created_keys(v: Seq<Snapshot>) -> Seq<int> {
    v.map_values(|s: Snapshot| utc_key(s.metadata.created_utc))
}

/// Orders listed snapshots oldest to newest by creation time; snapshots
/// created at the same instant keep the order in which they were found.
pub fn sort_by_created(v: Vec<Snapshot>) -> (r: Vec<Snapshot>)
    ensures
        r@ == stable_sorted(v@, created_keys(v@)),
        r@.len() == v@.len(),
        forall|i: int, j: int|
            0 <= i < j < r@.len() ==> utc_le(r@[i].metadata.created_utc, r@[j].metadata.created_utc),
{
    let mut keys: Vec<i128> = Vec::new();
    let mut i: usize = 0;
    while i < v.len()
        invariant
            i <= v@.len(),
            keys@.len() == i,
            forall|j: int| 0 <= j < i ==> keys@[j] as int == utc_key(#[trigger] v@[j].metadata.created_utc),
        decreases v@.len() - i,
    {
        keys.push(utc_sort_key(v[i].metadata.created_utc));
        i = i + 1;
    }
    let ghost vv = v@;
    let r = sort_stable_by_key(v, keys);
    proof {
        let ks = created_keys(vv);
        assert(keys_of(keys@) =~= ks);
        lemma_stable_order(ks);
        let so = stable_order(ks);
        assert forall|i: int, j: int| 0 <= i < j < r@.len() implies utc_le(
            r@[i].metadata.created_utc,
            r@[j].metadata.created_utc,
        ) by {
            let leq = |a: (int, int), b: (int, int)| key_pos_leq(a, b);
            assert(vstd::relations::sorted_by(so, leq));
            assert(leq(so[i], so[j]));
            assert(r@[i] == vv[so[i].1]);
            assert(r@[j] == vv[so[j].1]);
            lemma_utc_key_order(r@[i].metadata.created_utc, r@[j].metadata.created_utc);
        }
    }
    r
}

/// What was read from a folder under `snapshots/`: its metadata, and what
/// the file system says of its archive (whether it is a file, and its
/// length), or why that could not be read.
#[derive(Debug)]
pub struct SnapshotFiles {
    pub metadata: Metadata,
    pub archive: Result<(bool, u64), String>,
}

/// A folder found under `snapshots/`: its name, whether it is a real
/// directory, and what was read from it (`None` when its metadata could not
/// be read or parsed).
#[derive(Debug)]
pub struct ScannedFolder {
    pub name: String,
    pub is_real_dir: bool,
    pub files: Option<SnapshotFiles>,
}

/// Whether what was read from a folder makes a snapshot of the account:
/// metadata that checks out for it, and an archive that is a file of the
/// recorded size within the limit.
pub open spec fn loads_as(st: PathStyle, steamid: Seq<char>, x: SnapshotFiles) -> bool {
    &&& metadata_ok(st, x.metadata, Some(steamid))
    &&& x.archive matches Ok((is_file, len)) && is_file && len == x.metadata.stored_bytes
    &&& x.metadata.stored_bytes <= MAX_ARCHIVE_BYTES
}

/// A folder that listing keeps: a real directory with a plain name that does
/// not mark an unfinished snapshot, holding a snapshot of the account.
pub open spec fn listed_folder(st: PathStyle, steamid: Seq<char>, f: ScannedFolder) -> bool {
    &&& f.is_real_dir
    &&& !starts_with(f.name@, TMP_PREFIX@)
    &&& normal_name(st, f.name@)
    &&& f.files matches Some(x) && loads_as(st, steamid, x)
}

/// The folders listing keeps, in the order found.
pub open spec fn kept_folders(st: PathStyle, steamid: Seq<char>, found: Seq<ScannedFolder>) -> Seq<
    ScannedFolder,
> {
    found.filter(|f: ScannedFolder| listed_folder(st, steamid, f))
}

/// `s` is the snapshot in folder `f` under `snaps_dir`.
pub open spec fn snapshot_in(st: PathStyle, snaps_dir: Seq<char>, f: ScannedFolder, s: Snapshot) -> bool {
    &&& s.dir@ == joined(st, snaps_dir, f.name@)
    &&& f.files matches Some(x) && s.metadata == x.metadata
}

/// The snapshots of one account from the folders under `<dest>/snapshots`:
/// temporary folders, links and folders whose snapshot does not check out
/// for the account are skipped; the rest come oldest to newest by creation
/// time, each in its own folder directly under `snapshots/`.
pub fn list(st: PathStyle, dest: &str, steamid: &str, found: Vec<ScannedFolder>) -> (r: Vec<Snapshot>)
    ensures
        exists|ks: Seq<Snapshot>|
            {
                &&& ks.len() == kept_folders(st, steamid@, found@).len()
                &&& forall|i: int|
                    0 <= i < ks.len() ==> snapshot_in(
                        st,
                        joined(st, dest@, "snapshots"@),
                        kept_folders(st, steamid@, found@)[i],
                        #[trigger] ks[i],
                    )
                &&& r@ == stable_sorted(ks, created_keys(ks))
            },
        r@.len() == kept_folders(st, steamid@, found@).len(),
        forall|i: int|
            0 <= i < r@.len() ==> {
                &&& (#[trigger] r@[i]).metadata.steamid@ == steamid@
                &&& metadata_ok(st, r@[i].metadata, Some(steamid@))
                &&& parent_is(st, r@[i].dir@, joined(st, dest@, "snapshots"@))
            },
        forall|i: int, j: int|
            0 <= i < j < r@.len() ==> utc_le(r@[i].metadata.created_utc, r@[j].metadata.created_utc),
{
    let ghost pred = |f: ScannedFolder| listed_folder(st, steamid@, f);
    let ghost orig = found@;
    let snaps_dir = snapshots_dir_as(st, dest);
    let n = found.len();
    let mut rest = found;
    let mut kept: Vec<Snapshot> = Vec::new();
    let mut i: usize = 0;
    proof {
        reveal_with_fuel(Seq::<_>::filter, 1);
        assert(orig.take(0) =~= Seq::<ScannedFolder>::empty());
        assert(orig.take(0).filter(pred) =~= Seq::<ScannedFolder>::empty());
    }
    while i < n
        invariant
            n == orig.len(),
            i <= n,
            rest@ == orig.subrange(i as int, n as int),
            pred == (|f: ScannedFolder| listed_folder(st, steamid@, f)),
            snaps_dir@ == joined(st, dest@, "snapshots"@),
            kept@.len() == orig.take(i as int).filter(pred).len(),
            forall|j: int|
                0 <= j < kept@.len() ==> snapshot_in(
                    st,
                    snaps_dir@,
                    orig.take(i as int).filter(pred)[j],
                    #[trigger] kept@[j],
                ),
            forall|j: int|
                0 <= j < kept@.len() ==> {
                    &&& metadata_ok(st, (#[trigger] kept@[j]).metadata, Some(steamid@))
                    &&& parent_is(st, kept@[j].dir@, snaps_dir@)
                },
        decreases n - i,
    {
        let f = rest.remove(0);
        assert(f == orig[i as int]);
        let ghost before = kept@;
        let ghost fb = orig.take(i as int).filter(pred);
        proof {
            reveal_with_fuel(Seq::<_>::filter, 1);
            assert(orig.take(i + 1).drop_last() =~= orig.take(i as int));
            assert(orig.take(i + 1).last() == f);
        }
        let mut taken = false;
        if listing_candidate(f.name.as_str(), f.is_real_dir) && is_normal_name(st, f.name.as_str()) {
            match f.files {
                Some(x) => {
                    let dir = join_as(st, snaps_dir.as_str(), f.name.as_str());
                    let ghost fx = x;
                    match snapshot_from_metadata(st, dir, x.metadata, Some(steamid), x.archive) {
                        Ok(snap) => {
                            proof {
                                lemma_joined_parent(st, snaps_dir@, f.name@);
                                assert(listed_folder(st, steamid@, f));
                            }
                            kept.push(snap);
                            taken = true;
                        },
                        Err(_) => {
                            assert(!loads_as(st, steamid@, fx));
                        },
                    }
                },
                None => {},
            }
        }
        proof {
            if taken {
                assert(orig.take(i + 1).filter(pred) =~= fb.push(f));
                assert forall|j: int| 0 <= j < kept@.len() implies snapshot_in(
                    st,
                    snaps_dir@,
                    orig.take(i + 1).filter(pred)[j],
                    #[trigger] kept@[j],
                ) by {
                    if j < before.len() {
                        assert(kept@[j] == before[j]);
                    }
                }
                assert forall|j: int| 0 <= j < kept@.len() implies {
                    &&& metadata_ok(st, (#[trigger] kept@[j]).metadata, Some(steamid@))
                    &&& parent_is(st, kept@[j].dir@, snaps_dir@)
                } by {
                    if j < before.len() {
                        assert(kept@[j] == before[j]);
                    }
                }
            } else {
                assert(!pred(f));
                assert(orig.take(i + 1).filter(pred) =~= fb);
            }
        }
        i = i + 1;
    }
    proof {
        assert(orig.take(n as int) =~= orig);
    }
    let ghost items = kept@;
    let r = sort_by_created(kept);
    proof {
        let ks = created_keys(items);
        lemma_stable_order(ks);
        assert forall|i: int| 0 <= i < r@.len() implies {
            &&& (#[trigger] r@[i]).metadata.steamid@ == steamid@
            &&& metadata_ok(st, r@[i].metadata, Some(steamid@))
            &&& parent_is(st, r@[i].dir@, joined(st, dest@, "snapshots"@))
        } by {
            let p = stable_order(ks)[i].1;
            assert(r@[i] == items[p]);
        }
    }
    r
}

/// Whether an archive digest (`None`: the archive could not be read) matches
/// what a snapshot's metadata records.
pub open spec fn archive_matches(s: Snapshot, digest: Option<FileHash>) -> bool {
    digest matches Some(a) && a.sha256@ == s.metadata.archive_sha256@
}

/// What a search over `pending` (oldest first) finds when each archive
/// hashes to `digest` of its snapshot: the newest candidate is hashed first,
/// and the first that matches is the answer.
pub open spec fn newest_intact(
    pending: Seq<Snapshot>,
    digest: spec_fn(Snapshot) -> Option<FileHash>,
) -> Option<Snapshot>
    decreases pending.len(),
{
    if pending.len() == 0 {
        None
    } else if archive_matches(pending.last(), digest(pending.last())) {
        Some(pending.last())
    } else {
        newest_intact(pending.drop_last(), digest)
    }
}

/// How many archives that search hashes.
pub open spec fn archives_hashed(
    pending: Seq<Snapshot>,
    digest: spec_fn(Snapshot) -> Option<FileHash>,
) -> nat
    decreases pending.len(),
{
    if pending.len() == 0 {
        0
    } else if archive_matches(pending.last(), digest(pending.last())) {
        1
    } else {
        archives_hashed(pending.drop_last(), digest) + 1
    }
}

/// The newest-snapshot search, whole: over a listing oldest to newest whose
/// archives hash to `digest`, it finds the last snapshot whose archive
/// matches its metadata, or nothing when none does, and it hashes exactly
/// the archives of that snapshot and those newer than it (all of them when
/// none matches), so one archive only when the newest is intact.
pub proof fn lemma_newest_search(listed: Seq<Snapshot>, digest: spec_fn(Snapshot) -> Option<FileHash>)
    ensures
        match newest_intact(listed, digest) {
            Some(s) => exists|i: int|
                #![trigger listed[i]]
                {
                    &&& 0 <= i < listed.len()
                    &&& listed[i] == s
                    &&& archive_matches(s, digest(s))
                    &&& forall|j: int|
                        i < j < listed.len() ==> !archive_matches(
                            #[trigger] listed[j],
                            digest(listed[j]),
                        )
                    &&& archives_hashed(listed, digest) == listed.len() - i
                },
            None => {
                &&& forall|j: int|
                    0 <= j < listed.len() ==> !archive_matches(
                        #[trigger] listed[j],
                        digest(listed[j]),
                    )
                &&& archives_hashed(listed, digest) == listed.len()
            },
        },
    decreases listed.len(),
{
    if listed.len() > 0 {
        let n = listed.len() - 1;
        let d = listed.drop_last();
        if archive_matches(listed.last(), digest(listed.last())) {
            assert(listed[n] == listed.last());
        } else {
            lemma_newest_search(d, digest);
            match newest_intact(d, digest) {
                Some(s) => {
                    let i = choose|i: int|
                        #![trigger d[i]]
                        {
                            &&& 0 <= i < d.len()
                            &&& d[i] == s
                            &&& archive_matches(s, digest(s))
                            &&& forall|j: int|
                                i < j < d.len() ==> !archive_matches(
                                    #[trigger] d[j],
                                    digest(d[j]),
                                )
                            &&& archives_hashed(d, digest) == d.len() - i
                        };
                    assert(listed[i] == d[i]);
                    assert forall|j: int| i < j < listed.len() implies !archive_matches(
                        #[trigger] listed[j],
                        digest(listed[j]),
                    ) by {
                        if j < n {
                            assert(listed[j] == d[j]);
                        }
                    }
                },
                None => {
                    assert forall|j: int| 0 <= j < listed.len() implies !archive_matches(
                        #[trigger] listed[j],
                        digest(listed[j]),
                    ) by {
                        if j < n {
                            assert(listed[j] == d[j]);
                        }
                    }
                },
            }
        }
    }
}

/// The search for the newest snapshot whose archive still matches its
/// metadata. Candidates come newest first; the search stops at the first
/// one that checks out, so older archives are not read.
pub struct NewestSearch {
    pending: Vec<Snapshot>,
}

impl NewestSearch {
    /// The snapshots not yet tried, oldest first.
    pub closed spec fn pending(self) -> Seq<Snapshot> {
        self.pending@
    }

    /// Starts from a listing sorted oldest to newest.
    pub fn new(listed: Vec<Snapshot>) -> (r: NewestSearch)
        ensures
            r.pending() == listed@,
    {
        NewestSearch { pending: listed }
    }

    /// The next snapshot whose archive should be hashed: the newest not yet
    /// tried.
    pub fn candidate(&self) -> (r: Option<&Snapshot>)
        ensures
            self.pending().len() == 0 ==> r is None,
            self.pending().len() > 0 ==> r == Some(&self.pending().last()),
    {
        if self.pending.len() == 0 {
            None
        } else {
            Some(&self.pending[self.pending.len() - 1])
        }
    }

    /// Reports the digest of the candidate's archive (`None` when it could
    /// not be read). The candidate is returned when the digest matches its
    /// metadata; either way it is not tried again.
    pub fn report(&mut self, archive: Option<FileHash>) -> (r: Option<Snapshot>)
        requires
            old(self).pending().len() > 0,
        ensures
            final(self).pending() == old(self).pending().drop_last(),
            match archive {
                Some(a) => if a.sha256@ == old(self).pending().last().metadata.archive_sha256@ {
                    r == Some(old(self).pending().last())
                } else {
                    r is None
                },
                None => r is None,
            },
            forall|d: spec_fn(Snapshot) -> Option<FileHash>|
                d(old(self).pending().last()) == archive ==> (#[trigger] newest_intact(
                    old(self).pending(),
                    d,
                ) == if r is Some {
                    r
                } else {
                    newest_intact(final(self).pending(), d)
                } && archives_hashed(old(self).pending(), d) == if r is Some {
                    1
                } else {
                    archives_hashed(final(self).pending(), d) + 1
                }),
    {
        let last = self.pending.pop().unwrap();
        match archive {
            Some(a) => match check_archive_hash(&last.metadata, &a) {
                Ok(()) => Some(last),
                Err(_) => None,
            },
            None => None,
        }
    }
}

/// Whether a name is among the given strings.
fn contains_name(v: &Vec<String>, name: &str) -> (r: bool)
    ensures
        r == v@.map_values(|n: String| n@).contains(name@),
{
    let ghost vs = v@.map_values(|n: String| n@);
    let mut i: usize = 0;
    while i < v.len()
        invariant
            i <= v@.len(),
            vs == v@.map_values(|n: String| n@),
            forall|j: int| 0 <= j < i ==> vs[j] != name@,
        decreases v@.len() - i,
    {
        if str_eq(v[i].as_str(), name) {
            assert(vs[i as int] == name@);
            return true;
        }
        i = i + 1;
    }
    false
}

/// The index of the first record with the given name.
fn find_record(v: &Vec<FileHash>, name: &str) -> (r: Option<usize>)
    ensures
        match r {
            Some(i) => i < v@.len() && v@[i as int].name@ == name@ && forall|j: int|
                0 <= j < i ==> v@[j].name@ != name@,
            None => forall|j: int| 0 <= j < v@.len() ==> v@[j].name@ != name@,
        },
{
    let mut k: usize = 0;
    while k < v.len()
        invariant
            k <= v@.len(),
            forall|j: int| 0 <= j < k ==> v@[j].name@ != name@,
        decreases v@.len() - k,
    {
        if str_eq(v[k].name.as_str(), name) {
            return Some(k);
        }
        k = k + 1;
    }
    None
}

/// The record a content hasher gives for bytes recorded under `name`.
pub open spec fn record_of(name: Seq<char>, bytes: Seq<u8>, h: FileHash) -> bool {
    &&& h.name@ == name
    &&& h.sha256@ == hex_lower(sha256_of(bytes))
    &&& h.size == bytes.len()
}

/// The decisions made while writing a snapshot's archive: how many sources,
/// the entry names, the size limits, and the records kept, one per source in
/// the order the sources were begun.
pub struct ArchivePlan {
    style: PathStyle,
    names: Vec<String>,
    hashes: Vec<FileHash>,
    paths: Ghost<Seq<Seq<char>>>,
    contents: Ghost<Seq<Seq<u8>>>,
}

impl ArchivePlan {
    /// The entry names taken so far.
    pub closed spec fn names(self) -> Seq<Seq<char>> {
        self.names@.map_values(|n: String| n@)
    }

    /// The records of the entries written so far.
    pub closed spec fn hashes(self) -> Seq<FileHash> {
        self.hashes@
    }

    pub closed spec fn style(self) -> PathStyle {
        self.style
    }

    /// The paths of the sources begun so far, in order.
    pub closed spec fn sources(self) -> Seq<Seq<char>> {
        self.paths@
    }

    /// The bytes hashed for each source ended so far, in order.
    pub closed spec fn contents(self) -> Seq<Seq<u8>> {
        self.contents@
    }

    /// Entry `i` is named after source `i`, and record `i` is that name with
    /// the digest and size of the bytes hashed for it; at most one entry is
    /// open (begun and not yet ended).
    pub closed spec fn wf(self) -> bool {
        &&& self.names().len() == self.paths@.len()
        &&& self.hashes@.len() == self.contents@.len()
        &&& self.hashes@.len() <= self.names().len() <= self.hashes@.len() + 1
        &&& forall|i: int|
            0 <= i < self.names().len() ==> file_name_of(self.style, #[trigger] self.paths@[i])
                == Some(self.names()[i])
        &&& forall|i: int|
            0 <= i < self.hashes@.len() ==> record_of(
                self.names()[i],
                self.contents@[i],
                #[trigger] self.hashes@[i],
            )
    }

    /// Whether an entry has been begun and not yet ended.
    pub closed spec fn entry_open(self) -> bool {
        self.names().len() == self.hashes@.len() + 1
    }

    /// Plans an archive of the given sources: at most
    /// [`MAX_ARCHIVE_ENTRIES`] of them.
    pub fn start(st: PathStyle, source_count: usize) -> (r: Result<ArchivePlan, SnapshotError>)
        ensures
            source_count > MAX_ARCHIVE_ENTRIES <==> r == Err::<ArchivePlan, SnapshotError>(
                SnapshotError::TooManySources,
            ),
            r matches Ok(p) ==> p.wf() && !p.entry_open() && p.names().len() == 0
                && p.hashes().len() == 0 && p.sources().len() == 0 && p.style() == st,
    {
        if source_count > MAX_ARCHIVE_ENTRIES {
            return Err(SnapshotError::TooManySources);
        }
        let r = ArchivePlan {
            style: st,
            names: Vec::new(),
            hashes: Vec::new(),
            paths: Ghost(Seq::empty()),
            contents: Ghost(Seq::empty()),
        };
        assert(r.names() =~= Seq::<Seq<char>>::empty());
        Ok(r)
    }

    /// The entry name for the next source: its file name, refused when it
    /// holds a separator or repeats an earlier entry's name.
    pub fn begin_source(&mut self, path: &str) -> (r: Result<String, SnapshotError>)
        requires
            old(self).wf(),
            !old(self).entry_open(),
        ensures
            final(self).wf(),
            final(self).hashes() == old(self).hashes(),
            final(self).contents() == old(self).contents(),
            final(self).style() == old(self).style(),
            r is Ok <==> final(self).entry_open(),
            r is Ok ==> final(self).sources() == old(self).sources().push(path@),
            r is Err ==> final(self).sources() == old(self).sources(),
            match file_name_of(old(self).style(), path@) {
                None => r == Err::<String, SnapshotError>(SnapshotError::NoSourceName)
                    && final(self).names() == old(self).names(),
                Some(n) => if has_sep_char(n) {
                    r matches Err(SnapshotError::UnsafeSourceName(m)) && m@ == n
                        && final(self).names() == old(self).names()
                } else if old(self).names().contains(n) {
                    r matches Err(SnapshotError::DuplicateSource(m)) && m@ == n && final(self).names()
                        == old(self).names()
                } else {
                    r matches Ok(m) && m@ == n && final(self).names() == old(self).names().push(n)
                },
            },
    {
        let name = match source_name(self.style, path) {
            Ok(n) => n,
            Err(e) => return Err(e),
        };
        if contains_name(&self.names, name.as_str()) {
            return Err(SnapshotError::DuplicateSource(name));
        }
        let ghost before = self.names();
        self.names.push(copy_string(&name));
        self.paths = Ghost(self.paths@.push(path@));
        assert(self.names() =~= before.push(name@));
        assert forall|i: int| 0 <= i < self.names().len() implies file_name_of(
            self.style,
            #[trigger] self.paths@[i],
        ) == Some(self.names()[i]) by {
            if i < before.len() {
                assert(self.names()[i] == before[i]);
            }
        }
        assert forall|i: int| 0 <= i < self.hashes@.len() implies record_of(
            self.names()[i],
            self.contents@[i],
            #[trigger] self.hashes@[i],
        ) by {
            assert(self.names()[i] == before[i]);
        }
        Ok(name)
    }

    /// Ends the open entry with the hasher that read its content: a hasher
    /// labelled with the entry's name and limited to
    /// [`MAX_SOURCE_FILE_BYTES`]. Its record is kept.
    pub fn end_source(&mut self, hasher: ContentHasher)
        requires
            old(self).wf(),
            old(self).entry_open(),
            hasher.wf(),
            hasher.label() == old(self).names().last(),
            hasher.limit() == MAX_SOURCE_FILE_BYTES,
        ensures
            final(self).wf(),
            !final(self).entry_open(),
            final(self).names() == old(self).names(),
            final(self).sources() == old(self).sources(),
            final(self).style() == old(self).style(),
            final(self).contents() == old(self).contents().push(hasher.consumed()),
            final(self).hashes().len() == old(self).hashes().len() + 1,
            final(self).hashes().drop_last() == old(self).hashes(),
            record_of(hasher.label(), hasher.consumed(), final(self).hashes().last()),
            hasher.consumed().len() <= MAX_SOURCE_FILE_BYTES,
    {
        let ghost bytes = hasher.consumed();
        let ghost before = self.hashes@;
        proof {
            hasher.lemma_within_limit();
        }
        let h = hasher.finish();
        self.hashes.push(h);
        self.contents = Ghost(self.contents@.push(bytes));
        assert(self.hashes@.drop_last() =~= before);
        assert forall|i: int| 0 <= i < self.hashes@.len() implies record_of(
            self.names()[i],
            self.contents@[i],
            #[trigger] self.hashes@[i],
        ) by {
            if i < before.len() {
                assert(self.hashes@[i] == before[i]);
            }
        }
    }

    /// The records of the archive, once every begun entry is ended and they
    /// pass [`validate_file_hashes`]: record `i` names source `i` and holds
    /// the digest and size of the bytes hashed for it.
    pub fn finish(self) -> (r: Result<Vec<FileHash>, SnapshotError>)
        requires
            self.wf(),
            !self.entry_open(),
        ensures
            r is Ok <==> files_valid(self.style(), self.hashes()),
            r matches Ok(h) ==> h@ == self.hashes(),
            r matches Err(e) ==> validation_error(self.style(), self.hashes(), e),
            self.hashes().len() == self.sources().len(),
            self.contents().len() == self.sources().len(),
            forall|i: int|
                0 <= i < self.hashes().len() ==> (file_name_of(self.style(), self.sources()[i])
                    matches Some(n) && record_of(n, self.contents()[i], #[trigger] self.hashes()[i])),
    {
        proof {
            assert forall|i: int| 0 <= i < self.hashes().len() implies (file_name_of(
                self.style(),
                self.sources()[i],
            ) matches Some(n) && record_of(n, self.contents()[i], #[trigger] self.hashes()[i])) by {
                assert(file_name_of(self.style, self.paths@[i]) == Some(self.names()[i]));
                assert(record_of(self.names()[i], self.contents@[i], self.hashes@[i]));
            }
        }
        validate_file_hashes(self.style, self.hashes.as_slice())?;
        Ok(self.hashes)
    }
}

/// A source file's size as the filesystem reports it, checked before any of
/// it is copied.
pub fn check_source_len(name: &str, len: u64) -> (r: Result<(), SnapshotError>)
    ensures
        len <= MAX_SOURCE_FILE_BYTES ==> r is Ok,
        len > MAX_SOURCE_FILE_BYTES ==> (r matches Err(SnapshotError::TooLarge(n)) && n@ == name@),
{
    check_read_size(name, len, MAX_SOURCE_FILE_BYTES)
}

/// An entry name is safe: not a folder, no separator, not seen before, and
/// (for extraction) read back as itself by `Path::file_name`.
pub open spec fn entry_name_safe(
    st: PathStyle,
    strict: bool,
    name: Seq<char>,
    is_dir: bool,
    seen: Seq<Seq<char>>,
) -> bool {
    &&& !is_dir
    &&& !has_sep_char(name)
    &&& (strict ==> file_name_of(st, name) == Some(name))
    &&& !seen.contains(name)
}

/// Checks the entries of a snapshot archive against the records they must
/// reproduce: the number of entries, each entry's name, and each entry's
/// size and digest.
pub struct ArchiveCheck {
    style: PathStyle,
    strict: bool,
    expected: Vec<FileHash>,
    seen: Vec<String>,
    total: u64,
}

impl ArchiveCheck {
    pub closed spec fn expected(self) -> Seq<FileHash> {
        self.expected@
    }

    /// The entry names taken so far.
    pub closed spec fn seen(self) -> Seq<Seq<char>> {
        self.seen@.map_values(|n: String| n@)
    }

    /// The bytes of all entries checked so far.
    pub closed spec fn total(self) -> u64 {
        self.total
    }

    pub closed spec fn strict(self) -> bool {
        self.strict
    }

    pub closed spec fn style(self) -> PathStyle {
        self.style
    }

    /// Every entry taken so far was taken once and names a record.
    pub open spec fn all_matched(self) -> bool {
        &&& self.seen().no_duplicates()
        &&& forall|i: int|
            0 <= i < self.seen().len() ==> #[trigger] record_names(self.expected()).contains(
                self.seen()[i],
            )
    }

    /// Starts verifying a freshly written archive: the records must be
    /// valid, and the archive must hold exactly as many entries.
    pub fn for_verify(st: PathStyle, expected: Vec<FileHash>, entry_count: usize) -> (r: Result<
        ArchiveCheck,
        SnapshotError,
    >)
        ensures
            !files_valid(st, expected@) ==> (r matches Err(e) && validation_error(st, expected@, e)),
            files_valid(st, expected@) && entry_count != expected@.len() ==> r
                == Err::<ArchiveCheck, SnapshotError>(SnapshotError::EntryCountMismatch),
            files_valid(st, expected@) && entry_count == expected@.len() ==> (r matches Ok(c)
                && c.expected() == expected@ && c.seen().len() == 0 && c.total() == 0 && !c.strict()
                && c.style() == st),
    {
        validate_file_hashes(st, expected.as_slice())?;
        if entry_count != expected.len() {
            return Err(SnapshotError::EntryCountMismatch);
        }
        let r = ArchiveCheck { style: st, strict: false, expected, seen: Vec::new(), total: 0 };
        assert(r.seen() =~= Seq::<Seq<char>>::empty());
        Ok(r)
    }

    /// Starts checking an archive being extracted, whose records were
    /// validated with its metadata: the counts must agree.
    pub fn for_extract(st: PathStyle, expected: Vec<FileHash>, entry_count: usize) -> (r: Result<
        ArchiveCheck,
        SnapshotError,
    >)
        ensures
            entry_count != expected@.len() ==> r == Err::<ArchiveCheck, SnapshotError>(
                SnapshotError::EntryCountMismatch,
            ),
            entry_count == expected@.len() ==> (r matches Ok(c) && c.expected() == expected@
                && c.seen().len() == 0 && c.total() == 0 && c.strict() && c.style() == st),
    {
        if entry_count != expected.len() {
            return Err(SnapshotError::EntryCountMismatch);
        }
        let r = ArchiveCheck { style: st, strict: true, expected, seen: Vec::new(), total: 0 };
        assert(r.seen() =~= Seq::<Seq<char>>::empty());
        Ok(r)
    }

    /// Checks the next entry's name and finds its record: refused when the
    /// name is unsafe or repeated, or names no record.
    pub fn begin_entry(&mut self, name: &str, is_dir: bool) -> (r: Result<usize, SnapshotError>)
        ensures
            final(self).expected() == old(self).expected(),
            final(self).total() == old(self).total(),
            final(self).strict() == old(self).strict(),
            final(self).style() == old(self).style(),
            !entry_name_safe(old(self).style(), old(self).strict(), name@, is_dir, old(self).seen())
                ==> (r matches Err(SnapshotError::UnsafeEntry(n)) && n@ == name@),
            entry_name_safe(old(self).style(), old(self).strict(), name@, is_dir, old(self).seen())
                ==> final(self).seen() == old(self).seen().push(name@) && match r {
                Ok(i) => i < old(self).expected().len() && old(self).expected()[i as int].name@
                    == name@ && forall|j: int|
                    0 <= j < i ==> old(self).expected()[j].name@ != name@,
                Err(e) => (e matches SnapshotError::UnexpectedEntry(n) && n@ == name@) && forall|
                    j: int,
                |
                    0 <= j < old(self).expected().len() ==> old(self).expected()[j].name@ != name@,
            },
            r is Ok && old(self).all_matched() ==> final(self).all_matched(),
    {
        let c = to_chars(name);
        if is_dir || contains_sep(c.as_slice()) {
            return Err(SnapshotError::UnsafeEntry(name.to_owned()));
        }
        if self.strict {
            match file_name_as(self.style, name) {
                Some(f) => {
                    if !str_eq(f.as_str(), name) {
                        return Err(SnapshotError::UnsafeEntry(name.to_owned()));
                    }
                },
                None => return Err(SnapshotError::UnsafeEntry(name.to_owned())),
            }
        }
        if contains_name(&self.seen, name) {
            return Err(SnapshotError::UnsafeEntry(name.to_owned()));
        }
        let ghost before = self.seen();
        let ghost matched_before = self.all_matched();
        self.seen.push(name.to_owned());
        assert(self.seen() =~= before.push(name@));
        match find_record(&self.expected, name) {
            Some(k) => {
                proof {
                    if matched_before {
                        let names = record_names(self.expected());
                        assert(names[k as int] == name@);
                        assert forall|i: int| 0 <= i < self.seen().len() implies
                            #[trigger] names.contains(self.seen()[i]) by {
                            if i < before.len() {
                                assert(self.seen()[i] == before[i]);
                            }
                        }
                        assert forall|i: int, j: int|
                            0 <= i < self.seen().len() && 0 <= j < self.seen().len() && i != j
                                implies self.seen()[i] != self.seen()[j] by {
                            if i < before.len() && j < before.len() {
                                assert(self.seen()[i] == before[i] && self.seen()[j] == before[j]);
                            } else if i < before.len() {
                                assert(before.contains(before[i]));
                            } else if j < before.len() {
                                assert(before.contains(before[j]));
                            }
                        }
                    }
                }
                Ok(k)
            },
            None => Err(SnapshotError::UnexpectedEntry(name.to_owned())),
        }
    }

    /// Checks an entry's content, hashed as it was read, against its record,
    /// and the running total against [`MAX_TOTAL_SOURCE_BYTES`].
    pub fn end_entry(&mut self, index: usize, actual: &FileHash) -> (r: Result<(), SnapshotError>)
        requires
            index < old(self).expected().len(),
        ensures
            final(self).expected() == old(self).expected(),
            final(self).seen() == old(self).seen(),
            final(self).strict() == old(self).strict(),
            final(self).style() == old(self).style(),
            old(self).total() + actual.size > u64::MAX ==> r == Err::<(), SnapshotError>(
                SnapshotError::SizeOverflow,
            ),
            old(self).total() + actual.size <= u64::MAX ==> final(self).total() == old(self).total()
                + actual.size && (r is Ok <==> final(self).total() <= MAX_TOTAL_SOURCE_BYTES && fh(
                *actual,
            ) == fh(old(self).expected()[index as int])) && (r matches Err(e) ==> e matches SnapshotError::VerifyFailed(
                n,
            ) && n@ == actual.name@),
    {
        if self.total > u64::MAX - actual.size {
            return Err(SnapshotError::SizeOverflow);
        }
        self.total = self.total + actual.size;
        let exp = &self.expected[index];
        if self.total > MAX_TOTAL_SOURCE_BYTES || actual.name != exp.name || actual.sha256
            != exp.sha256 || actual.size != exp.size {
            return Err(SnapshotError::VerifyFailed(copy_string(&actual.name)));
        }
        Ok(())
    }
}


/// The names of the records, in order.
pub open spec fn record_names(v: Seq<FileHash>) -> Seq<Seq<char>> {
    v.map_values(|f: FileHash| f.name@)
}

/// A check that took as many entries as there are records, each once and
/// each under a record's name, reproduced every record: with valid records
/// (distinct names) no record is left out of a verified copy or a restore.
pub proof fn lemma_every_record_checked(c: ArchiveCheck)
    requires
        c.all_matched(),
        c.seen().len() == c.expected().len(),
        files_valid(c.style(), c.expected()),
    ensures
        forall|j: int|
            0 <= j < c.expected().len() ==> c.seen().contains(#[trigger] c.expected()[j].name@),
{
    let names = record_names(c.expected());
    let seen = c.seen();
    assert(names.no_duplicates()) by {
        assert forall|i: int, j: int| 0 <= i < names.len() && 0 <= j < names.len() && i != j implies names[i]
            != names[j] by {
            let (a, b) = if i < j { (i, j) } else { (j, i) };
            assert(file_problem(c.style(), c.expected(), b) is None);
            if names[a] == names[b] {
                assert(c.expected()[a].name@ == c.expected()[b].name@);
            }
        }
    }
    names.unique_seq_to_set();
    seen.unique_seq_to_set();
    assert(seen.to_set().subset_of(names.to_set())) by {
        assert forall|x: Seq<char>| seen.to_set().contains(x) implies names.to_set().contains(x) by {
            let i = choose|i: int| 0 <= i < seen.len() && seen[i] == x;
            assert(names.contains(seen[i]));
        }
    }
    vstd::set_lib::lemma_subset_equality(seen.to_set(), names.to_set());
    assert forall|j: int| 0 <= j < c.expected().len() implies seen.contains(
        #[trigger] c.expected()[j].name@,
    ) by {
        assert(names[j] == c.expected()[j].name@);
        assert(names.to_set().contains(names[j]));
    }
}

/// The folder a snapshot is built in: `.tmp-<pid>-<nanos>` under
/// `snapshots/`, unique to the process and the moment.
pub fn tmp_dir_name(st: PathStyle, snaps_dir: &str, pid: u32, nanos: u128) -> (r: String)
    ensures
        r@ == joined(
            st,
            snaps_dir@,
            TMP_PREFIX@ + decimal(pid as nat) + "-"@ + decimal(nanos as nat),
        ),
{
    let a = concat(TMP_PREFIX, u64_to_decimal(pid as u64).as_str());
    let b = concat(a.as_str(), "-");
    let c = concat(b.as_str(), u128_to_decimal(nanos).as_str());
    join_as(st, snaps_dir, c.as_str())
}

/// The first eight characters of the first record's digest, which name the
/// final folder along with the time (`00000000` without records).
pub open spec fn short_hash(files: Seq<FileHash>) -> Seq<char> {
    if files.len() == 0 {
        "00000000"@
    } else {
        let h = files[0].sha256@;
        if h.len() <= 8 {
            h
        } else {
            h.subrange(0, 8)
        }
    }
}

/// The name of a snapshot's final folder: the creation time as
/// `YYYYmmdd-HHMMSS`, a dash and [`short_hash`]. `None` when chrono cannot
/// express the time.
pub fn final_dir_base(created: UtcTime, files: &[FileHash]) -> (r: Option<String>)
    ensures
        match chrono_compact_stamp(created.secs) {
            Some(stamp) => r matches Some(b) && b@ == stamp + "-"@ + short_hash(files@),
            None => r is None,
        },
{
    let stamp = match compact_stamp(created.secs) {
        Some(s) => s,
        None => return None,
    };
    let short = if files.len() == 0 {
        "00000000".to_owned()
    } else {
        let h = to_chars(files[0].sha256.as_str());
        if h.len() <= 8 {
            copy_string(&files[0].sha256)
        } else {
            let mut v: Vec<char> = Vec::new();
            let mut i: usize = 0;
            while i < 8
                invariant
                    i <= 8,
                    h@.len() > 8,
                    v@ == h@.subrange(0, i as int),
                decreases 8 - i,
            {
                v.push(h[i]);
                proof {
                    assert(h@.subrange(0, i + 1) =~= h@.subrange(0, i as int).push(h@[i as int]));
                }
                i = i + 1;
            }
            crate::text::from_chars(v.as_slice())
        }
    };
    let a = concat(stamp.as_str(), "-");
    Some(concat(a.as_str(), short.as_str()))
}

/// The `n`-th candidate for the final folder: `base`, then `base-1`,
/// `base-2`, and so on, until one does not exist. A finalized snapshot is
/// never overwritten.
pub open spec fn dir_candidate(st: PathStyle, snaps_dir: Seq<char>, base: Seq<char>, n: nat) -> Seq<char> {
    if n == 0 {
        joined(st, snaps_dir, base)
    } else {
        joined(st, snaps_dir, base + "-"@ + decimal(n))
    }
}

pub fn final_dir_candidate(st: PathStyle, snaps_dir: &str, base: &str, n: u64) -> (r: String)
    ensures
        r@ == dir_candidate(st, snaps_dir@, base@, n as nat),
        n == 0 ==> r@ == joined(st, snaps_dir@, base@),
        n > 0 ==> r@ == joined(st, snaps_dir@, base@ + "-"@ + decimal(n as nat)),
{
    if n == 0 {
        join_as(st, snaps_dir, base)
    } else {
        let a = concat(base, "-");
        let b = concat(a.as_str(), u64_to_decimal(n).as_str());
        join_as(st, snaps_dir, b.as_str())
    }
}

/// Whether a path is among the given ones.
fn among(paths: &[String], p: &str) -> (r: bool)
    ensures
        r == paths@.map_values(|s: String| s@).contains(p@),
{
    let ghost ps = paths@.map_values(|s: String| s@);
    let mut i: usize = 0;
    while i < paths.len()
        invariant
            i <= paths@.len(),
            ps == paths@.map_values(|s: String| s@),
            forall|j: int| 0 <= j < i ==> ps[j] != p@,
        decreases paths@.len() - i,
    {
        if str_eq(paths[i].as_str(), p) {
            assert(ps[i as int] == p@);
            return true;
        }
        i = i + 1;
    }
    false
}

/// Where a finalized snapshot goes, given the paths `taken` in `snapshots/`:
/// the first of the base name's candidates under `snaps_dir` that is not
/// taken (the last one tried when the count runs out).
pub open spec fn final_placement(
    st: PathStyle,
    snaps_dir: Seq<char>,
    base: Seq<char>,
    taken: Seq<Seq<char>>,
    dir: Seq<char>,
) -> bool {
    exists|n: nat|
        #![trigger dir_candidate(st, snaps_dir, base, n)]
        dir == dir_candidate(st, snaps_dir, base, n) && (!taken.contains(dir) || n == u64::MAX)
            && forall|m: nat| m < n ==> taken.contains(#[trigger] dir_candidate(st, snaps_dir, base, m))
}

/// The final folder of a snapshot: the first of [`final_dir_candidate`]'s
/// names that is not among the paths that exist (`taken`), so that a
/// finalized snapshot is never overwritten. The count stops at `u64::MAX`.
pub fn unique_final_dir(st: PathStyle, snaps_dir: &str, base: &str, taken: &[String]) -> (r: String)
    ensures
        final_placement(st, snaps_dir@, base@, taken@.map_values(|s: String| s@), r@),
        exists|n: nat|
            #![trigger dir_candidate(st, snaps_dir@, base@, n)]
            r@ == dir_candidate(st, snaps_dir@, base@, n) && (!taken@.map_values(|s: String| s@).contains(r@)
                || n == u64::MAX) && forall|m: nat|
                m < n ==> taken@.map_values(|s: String| s@).contains(
                    #[trigger] dir_candidate(st, snaps_dir@, base@, m),
                ),
{
    let ghost ps = taken@.map_values(|s: String| s@);
    let mut n: u64 = 0;
    let mut dir = final_dir_candidate(st, snaps_dir, base, 0);
    while among(taken, dir.as_str()) && n < u64::MAX
        invariant
            ps == taken@.map_values(|s: String| s@),
            dir@ == dir_candidate(st, snaps_dir@, base@, n as nat),
            forall|m: nat| m < n ==> ps.contains(#[trigger] dir_candidate(st, snaps_dir@, base@, m)),
        decreases u64::MAX - n,
    {
        let ghost prev = n as nat;
        assert(ps.contains(dir_candidate(st, snaps_dir@, base@, prev)));
        n = n + 1;
        dir = final_dir_candidate(st, snaps_dir, base, n);
        assert forall|m: nat| m < n implies ps.contains(#[trigger] dir_candidate(st, snaps_dir@, base@, m)) by {
            if m < prev {
            } else {
                assert(m == prev);
            }
        }
    }
    assert(dir@ == dir_candidate(st, snaps_dir@, base@, n as nat));
    dir
}

/// The steps of creating a snapshot.
#[derive(Clone, Copy, PartialEq, Eq, Debug, Structural)]
pub enum CreatePhase {
    CheckingSources,
    MakingDir,
    FindingNewest,
    QuickHashing,
    MakingTmp,
    Writing,
    Verifying,
    Rehashing,
    Statting,
    HashingArchive,
    Describing,
    Finalizing,
    Renaming,
    Retrying,
    Done,
}

/// What the caller reports after performing a [`CreateAction`].
pub enum CreateEvent {
    /// The index of the first source that is not a file, if any.
    SourcesChecked(Option<usize>),
    /// Creating the `snapshots/` folder succeeded or failed.
    DirMade(Result<(), String>),
    /// The newest snapshot of the account whose archive checks out.
    NewestFound(Option<Snapshot>),
    /// The sources hashed in order (each with a [`ContentHasher`] limited to
    /// [`MAX_SOURCE_FILE_BYTES`]), or the first failure.
    SourcesHashed(Result<Vec<FileHash>, SnapshotError>),
    /// The temporary folder's path, and whether creating it succeeded.
    TmpMade(String, Result<(), String>),
    /// The records [`ArchivePlan::finish`] gave for the written archive, or
    /// the failure.
    ArchiveWritten(Result<Vec<FileHash>, SnapshotError>),
    /// Whether the archive read back to exactly its records.
    ArchiveVerified(Result<(), SnapshotError>),
    /// The archive's size on disk.
    ArchiveStatted(Result<u64, String>),
    /// The archive's record (a [`ContentHasher`] limited to
    /// [`MAX_ARCHIVE_BYTES`]).
    ArchiveHashed(Result<FileHash, SnapshotError>),
    /// The creation time, and the first source's modification time.
    Described(UtcTime, Option<UtcTime>),
    /// The metadata was written, and these paths exist in `snapshots/`; or
    /// the failure.
    MetadataWritten(Result<Vec<String>, String>),
    /// Renaming the temporary folder succeeded or failed.
    Renamed(Result<(), String>),
    /// The discarded attempt was removed and the pause is over.
    RetryReady,
}

/// What the caller must do next.
pub enum CreateAction {
    /// Check that every source is an existing file.
    CheckSources,
    /// Create this folder and its parents.
    MakeDir(String),
    /// Find the newest valid snapshot of the account (see [`NewestSearch`]).
    FindNewest,
    /// Hash every source.
    HashSources,
    /// Create a temporary folder named by [`tmp_dir_name`] for this attempt.
    MakeTmp(u32),
    /// Write the sources into this deflate archive (see [`ArchivePlan`]).
    WriteArchive(String),
    /// Run the after-copy hook with the attempt number, then read this
    /// archive back and check it against the written records (see
    /// [`ArchiveCheck::for_verify`]).
    VerifyArchive(String, u32),
    /// Read this archive's size on disk.
    StatArchive(String),
    /// Hash this archive.
    HashArchive(String),
    /// Read the clock and the first source's modification time.
    Describe,
    /// Write [`CreateRun::pending_metadata`] as `metadata.json` into this
    /// temporary folder, then list the paths that exist in `snapshots/`.
    Finalize(String),
    /// Rename the temporary folder (first field) to the final one (second).
    Rename(String, String),
    /// Remove this temporary folder (ignoring failure), wait 250 ms, and
    /// report [`CreateEvent::RetryReady`].
    Retry(String),
    /// Creation is over: remove the folder, if one is given (ignoring
    /// failure), and return the result.
    Finish(Result<Option<Snapshot>, SnapshotError>, Option<String>),
}

/// Whether a fingerprint exists and equals that of the given records.
pub open spec fn duplicates(prev: Option<Seq<(Seq<char>, Seq<char>)>>, files: Seq<FileHash>) -> bool {
    prev matches Some(p) && p == fingerprint_of(files)
}

/// One run of snapshot creation. The caller performs each action and reports
/// what happened; the run decides what comes next.
pub struct CreateRun {
    style: PathStyle,
    steamid: String,
    sources: Vec<String>,
    reason: Reason,
    app_version: String,
    snaps_dir: String,
    phase: CreatePhase,
    attempt: u32,
    prev: Option<Vec<(String, String)>>,
    tmp: Option<String>,
    archived: Option<Vec<FileHash>>,
    stored: u64,
    archive_sha: Option<String>,
    metadata: Option<Metadata>,
    verified: bool,
    base: Option<String>,
    final_dir: Option<String>,
}

impl CreateRun {
    pub closed spec fn phase(self) -> CreatePhase {
        self.phase
    }

    /// The copy attempt under way (1 to [`MAX_COPY_ATTEMPTS`]).
    pub closed spec fn attempt(self) -> u32 {
        self.attempt
    }

    /// The fingerprint of the newest valid snapshot, once found.
    pub closed spec fn prev(self) -> Option<Seq<(Seq<char>, Seq<char>)>> {
        match self.prev {
            Some(v) => Some(pair_views(v@)),
            None => None,
        }
    }

    /// The temporary folder of the attempt under way.
    pub closed spec fn tmp(self) -> Option<Seq<char>> {
        match self.tmp {
            Some(t) => Some(t@),
            None => None,
        }
    }

    /// The records of the archive written in this attempt.
    pub closed spec fn archived(self) -> Option<Seq<FileHash>> {
        match self.archived {
            Some(v) => Some(v@),
            None => None,
        }
    }

    /// Whether the archive of this attempt read back to its records.
    pub closed spec fn verified(self) -> bool {
        self.verified
    }

    pub closed spec fn stored(self) -> u64 {
        self.stored
    }

    pub closed spec fn archive_sha(self) -> Option<Seq<char>> {
        match self.archive_sha {
            Some(t) => Some(t@),
            None => None,
        }
    }

    pub closed spec fn account(self) -> Seq<char> {
        self.steamid@
    }

    pub closed spec fn reason(self) -> Reason {
        self.reason
    }

    pub closed spec fn source_paths(self) -> Seq<Seq<char>> {
        self.sources@.map_values(|s: String| s@)
    }

    pub closed spec fn style(self) -> PathStyle {
        self.style
    }

    pub closed spec fn snapshot_root(self) -> Seq<char> {
        self.snaps_dir@
    }

    /// The metadata to be written once the copy is stable and verified.
    pub closed spec fn pending(self) -> Option<Metadata> {
        self.metadata
    }

    /// The program version recorded in the metadata.
    pub closed spec fn version_text(self) -> Seq<char> {
        self.app_version@
    }

    /// The base name of the final folder, once the snapshot is described.
    pub closed spec fn base(self) -> Option<Seq<char>> {
        match self.base {
            Some(b) => Some(b@),
            None => None,
        }
    }

    /// The final folder chosen for the snapshot.
    pub closed spec fn final_dir(self) -> Option<Seq<char>> {
        match self.final_dir {
            Some(d) => Some(d@),
            None => None,
        }
    }

    /// The state's invariant: attempts stay within bounds, and past the
    /// stability check the copy is verified and its records kept.
    pub closed spec fn wf(self) -> bool {
        &&& 1 <= self.attempt <= MAX_COPY_ATTEMPTS
        &&& (self.phase == CreatePhase::Verifying || self.phase == CreatePhase::Rehashing
            || self.phase == CreatePhase::Statting || self.phase == CreatePhase::HashingArchive
            || self.phase == CreatePhase::Describing || self.phase == CreatePhase::Finalizing
            || self.phase == CreatePhase::Renaming)
            ==> self.archived is Some && self.tmp is Some
        &&& self.phase == CreatePhase::Writing ==> self.tmp is Some
        &&& (self.phase == CreatePhase::CheckingSources || self.phase == CreatePhase::MakingDir
            || self.phase == CreatePhase::FindingNewest || self.phase == CreatePhase::QuickHashing
            || self.phase == CreatePhase::MakingTmp || self.phase == CreatePhase::Retrying) ==> self.tmp is None
        &&& (self.phase == CreatePhase::Rehashing || self.phase == CreatePhase::Statting
            || self.phase == CreatePhase::HashingArchive || self.phase == CreatePhase::Describing
            || self.phase == CreatePhase::Finalizing || self.phase == CreatePhase::Renaming) ==> self.verified
        &&& self.phase == CreatePhase::HashingArchive ==> self.stored <= MAX_ARCHIVE_BYTES
        &&& (self.phase == CreatePhase::Describing || self.phase == CreatePhase::Finalizing
            || self.phase == CreatePhase::Renaming) ==> {
            &&& self.archive_sha is Some
            &&& self.stored <= MAX_ARCHIVE_BYTES
            &&& !duplicates(self.prev(), self.archived->0@)
        }
        &&& self.phase == CreatePhase::Finalizing ==> self.base is Some
        &&& self.phase == CreatePhase::Renaming ==> self.final_dir is Some
        &&& (self.phase == CreatePhase::Finalizing || self.phase == CreatePhase::Renaming) ==> (self.metadata matches Some(m) && {
            &&& m.files@ == self.archived->0@
            &&& m.steamid@ == self.steamid@
            &&& m.reason == self.reason
            &&& m.format_version == METADATA_VERSION
            &&& m.archive@ == ARCHIVE_FILE@
            &&& m.stored_bytes == self.stored
            &&& m.archive_sha256@ == self.archive_sha->0@
        })
        &&& self.phase == CreatePhase::Retrying ==> self.attempt < MAX_COPY_ATTEMPTS
    }

    /// Starts creating a snapshot of `sources` (the `.sl2` and optional
    /// `.sl2.bak`) for `steamid` under `dest`. Refused without sources.
    pub fn start(
        st: PathStyle,
        dest: &str,
        steamid: &str,
        sources: Vec<String>,
        reason: Reason,
        app_version: &str,
    ) -> (r: Result<(CreateRun, CreateAction), SnapshotError>)
        ensures
            sources@.len() == 0 <==> r == Err::<(CreateRun, CreateAction), SnapshotError>(
                SnapshotError::NoSources,
            ),
            r matches Ok((run, a)) ==> run.wf() && run.phase() == CreatePhase::CheckingSources
                && a is CheckSources && run.source_paths() == sources@.map_values(|s: String| s@)
                && run.account() == steamid@ && run.reason() == reason && run.snapshot_root() == joined(
                st,
                dest@,
                "snapshots"@,
            ) && run.prev() is None && run.style() == st && run.version_text() == app_version@
                && run.attempt() == 1 && run.tmp() is None && run.archived() is None,
    {
        if sources.len() == 0 {
            return Err(SnapshotError::NoSources);
        }
        let run = CreateRun {
            style: st,
            steamid: steamid.to_owned(),
            sources,
            reason,
            app_version: app_version.to_owned(),
            snaps_dir: snapshots_dir_as(st, dest),
            phase: CreatePhase::CheckingSources,
            attempt: 1,
            prev: None,
            tmp: None,
            archived: None,
            stored: 0,
            archive_sha: None,
            metadata: None,
            verified: false,
            base: None,
            final_dir: None,
        };
        Ok((run, CreateAction::CheckSources))
    }

    /// The sources being backed up.
    pub fn sources(&self) -> (r: &Vec<String>)
        ensures
            r@.map_values(|s: String| s@) == self.source_paths(),
    {
        &self.sources
    }

    /// The `snapshots/` folder.
    pub fn snaps_dir(&self) -> (r: &str)
        ensures
            r@ == self.snapshot_root(),
    {
        self.snaps_dir.as_str()
    }

    /// The account being backed up.
    pub fn steamid(&self) -> (r: &str)
        ensures
            r@ == self.account(),
    {
        self.steamid.as_str()
    }

    /// The metadata to write when finalizing.
    pub fn pending_metadata(&self) -> (r: Option<&Metadata>)
        ensures
            match self.pending() {
                Some(m) => r == Some(&m),
                None => r is None,
            },
    {
        match &self.metadata {
            Some(m) => Some(m),
            None => None,
        }
    }

    /// Whether `event` is what the current phase waits for.
    pub open spec fn expects(self, event: CreateEvent) -> bool {
        match event {
            CreateEvent::SourcesChecked(i) => self.phase() == CreatePhase::CheckingSources && (i matches Some(k) ==> k < self.source_paths().len()),
            CreateEvent::DirMade(_) => self.phase() == CreatePhase::MakingDir,
            CreateEvent::NewestFound(_) => self.phase() == CreatePhase::FindingNewest,
            CreateEvent::SourcesHashed(_) => self.phase() == CreatePhase::QuickHashing || self.phase() == CreatePhase::Rehashing,
            CreateEvent::TmpMade(_, _) => self.phase() == CreatePhase::MakingTmp,
            CreateEvent::ArchiveWritten(_) => self.phase() == CreatePhase::Writing,
            CreateEvent::ArchiveVerified(_) => self.phase() == CreatePhase::Verifying,
            CreateEvent::ArchiveStatted(_) => self.phase() == CreatePhase::Statting,
            CreateEvent::ArchiveHashed(_) => self.phase() == CreatePhase::HashingArchive,
            CreateEvent::Described(_, _) => self.phase() == CreatePhase::Describing,
            CreateEvent::MetadataWritten(_) => self.phase() == CreatePhase::Finalizing,
            CreateEvent::Renamed(_) => self.phase() == CreatePhase::Renaming,
            CreateEvent::RetryReady => self.phase() == CreatePhase::Retrying,
        }
    }

    /// The archive path of the attempt under way.
    pub open spec fn zip_of(self) -> Seq<char> {
        joined(self.style(), self.tmp()->0, ARCHIVE_FILE@)
    }

    /// Whether a finishing action hands back exactly the temporary folder of
    /// the attempt under way (or none when there is none).
    pub open spec fn hands_back_tmp(self, d: Option<String>) -> bool {
        match self.tmp() {
            Some(t) => d matches Some(x) && x@ == t,
            None => d is None,
        }
    }

    /// Each step of a run: from the phase and what the last action gave, the
    /// next phase, the next action and what the run keeps.
    pub open spec fn step_taken(self, event: CreateEvent, next: CreateRun, action: CreateAction) -> bool {
        match event {
            CreateEvent::SourcesChecked(Some(i)) => next.phase() == CreatePhase::Done && (
            action matches CreateAction::Finish(Err(SnapshotError::SourceMissing(p)), None)
                && p@ == self.source_paths()[i as int]),
            CreateEvent::SourcesChecked(None) => next.phase() == CreatePhase::MakingDir && (
            action matches CreateAction::MakeDir(d) && d@ == self.snapshot_root()),
            CreateEvent::DirMade(Ok(())) => next.phase() == CreatePhase::FindingNewest
                && action is FindNewest,
            CreateEvent::DirMade(Err(m)) => next.phase() == CreatePhase::Done && action
                == CreateAction::Finish(Err(SnapshotError::Io(m)), None),
            CreateEvent::NewestFound(Some(snap)) => next.phase() == CreatePhase::QuickHashing
                && next.prev() == Some(fingerprint_of(snap.metadata.files@)) && action is HashSources,
            CreateEvent::NewestFound(None) => next.phase() == CreatePhase::MakingTmp && action
                == CreateAction::MakeTmp(self.attempt()),
            CreateEvent::SourcesHashed(r) => if self.phase() == CreatePhase::QuickHashing {
                match r {
                    Err(e) => next.phase() == CreatePhase::Done && action == CreateAction::Finish(
                        Err(e),
                        None,
                    ),
                    Ok(h) => if !files_valid(self.style(), h@) {
                        next.phase() == CreatePhase::Done && (action matches CreateAction::Finish(
                            Err(e),
                            None,
                        ) && validation_error(self.style(), h@, e))
                    } else if duplicates(self.prev(), h@) {
                        next.phase() == CreatePhase::Done && action == CreateAction::Finish(
                            Ok(None),
                            None,
                        )
                    } else {
                        next.phase() == CreatePhase::MakingTmp && action == CreateAction::MakeTmp(
                            self.attempt(),
                        )
                    },
                }
            } else {
                match r {
                    Err(e) => next.phase() == CreatePhase::Done && (action matches CreateAction::Finish(
                        Err(x),
                        d,
                    ) && x == e && self.hands_back_tmp(d)),
                    Ok(h) => if !files_valid(self.style(), h@) {
                        next.phase() == CreatePhase::Done && (action matches CreateAction::Finish(
                            Err(e),
                            d,
                        ) && validation_error(self.style(), h@, e) && self.hands_back_tmp(d))
                    } else if fhs(self.archived()->0) != fhs(h@) {
                        if self.attempt() < MAX_COPY_ATTEMPTS {
                            next.phase() == CreatePhase::Retrying && (action matches CreateAction::Retry(
                                t,
                            ) && Some(t@) == self.tmp())
                        } else {
                            next.phase() == CreatePhase::Done && (action matches CreateAction::Finish(
                                Err(SnapshotError::KeptChanging),
                                d,
                            ) && self.hands_back_tmp(d))
                        }
                    } else {
                        next.phase() == CreatePhase::Statting && (action matches CreateAction::StatArchive(
                            z,
                        ) && z@ == self.zip_of())
                    },
                }
            },
            CreateEvent::TmpMade(dir, Ok(())) => next.phase() == CreatePhase::Writing && next.tmp()
                == Some(dir@) && next.archived() is None && (action matches CreateAction::WriteArchive(
                z,
            ) && z@ == joined(self.style(), dir@, ARCHIVE_FILE@)),
            CreateEvent::TmpMade(dir, Err(m)) => next.phase() == CreatePhase::Done && (
            action matches CreateAction::Finish(Err(SnapshotError::Io(x)), Some(d)) && x == m && d
                == dir),
            CreateEvent::ArchiveWritten(Ok(h)) => next.phase() == CreatePhase::Verifying
                && next.archived() == Some(h@) && (
            action matches CreateAction::VerifyArchive(z, a) && z@ == self.zip_of() && a
                == self.attempt()),
            CreateEvent::ArchiveWritten(Err(e)) => next.phase() == CreatePhase::Done && (
            action matches CreateAction::Finish(Err(x), d) && x == e && self.hands_back_tmp(d)),
            CreateEvent::ArchiveVerified(Ok(())) => next.phase() == CreatePhase::Rehashing
                && next.verified() && action is HashSources,
            CreateEvent::ArchiveVerified(Err(e)) => next.phase() == CreatePhase::Done && (
            action matches CreateAction::Finish(Err(x), d) && x == e && self.hands_back_tmp(d)),
            CreateEvent::ArchiveStatted(Ok(len)) => if len > MAX_ARCHIVE_BYTES {
                next.phase() == CreatePhase::Done && (action matches CreateAction::Finish(
                    Err(SnapshotError::ArchiveTooLarge),
                    d,
                ) && self.hands_back_tmp(d))
            } else {
                next.phase() == CreatePhase::HashingArchive && next.stored() == len && (
                action matches CreateAction::HashArchive(z) && z@ == self.zip_of())
            },
            CreateEvent::ArchiveStatted(Err(m)) => next.phase() == CreatePhase::Done && (
            action matches CreateAction::Finish(Err(SnapshotError::Io(x)), d) && x == m
                && self.hands_back_tmp(d)),
            CreateEvent::ArchiveHashed(Ok(h)) => if duplicates(self.prev(), self.archived()->0) {
                next.phase() == CreatePhase::Done && (action matches CreateAction::Finish(
                    Ok(None),
                    d,
                ) && self.hands_back_tmp(d))
            } else {
                next.phase() == CreatePhase::Describing && next.archive_sha() == Some(h.sha256@)
                    && action is Describe
            },
            CreateEvent::ArchiveHashed(Err(e)) => next.phase() == CreatePhase::Done && (
            action matches CreateAction::Finish(Err(x), d) && x == e && self.hands_back_tmp(d)),
            CreateEvent::Described(created, modified) => match chrono_compact_stamp(created.secs) {
                None => next.phase() == CreatePhase::Done && (action matches CreateAction::Finish(
                    Err(SnapshotError::ClockOutOfRange),
                    d,
                ) && self.hands_back_tmp(d)),
                Some(stamp) => next.phase() == CreatePhase::Finalizing && (
                action matches CreateAction::Finalize(t) && Some(t@) == self.tmp()) && next.base()
                    == Some(stamp + "-"@ + short_hash(self.archived()->0)) && (next.pending() matches Some(m)
                    && m.format_version == METADATA_VERSION && m.steamid@ == self.account()
                    && m.created_utc == created && m.source_modified_utc == modified && m.reason
                    == self.reason() && m.app_version@ == self.version_text() && m.files@
                    == self.archived()->0 && m.archive@ == ARCHIVE_FILE@ && m.stored_bytes
                    == self.stored() && m.archive_sha256@ == self.archive_sha()->0),
            },
            CreateEvent::MetadataWritten(Ok(taken)) => next.phase() == CreatePhase::Renaming && (
            action matches CreateAction::Rename(t, d) && Some(t@) == self.tmp() && next.final_dir()
                == Some(d@) && final_placement(
                self.style(),
                self.snapshot_root(),
                self.base()->0,
                taken@.map_values(|p: String| p@),
                d@,
            )) && next.pending() == self.pending(),
            CreateEvent::MetadataWritten(Err(m)) => next.phase() == CreatePhase::Done && action
                == CreateAction::Finish(Err(SnapshotError::Io(m)), None),
            CreateEvent::Renamed(Ok(())) => next.phase() == CreatePhase::Done && (
            action matches CreateAction::Finish(Ok(Some(snap)), None) && Some(snap.dir@)
                == self.final_dir() && Some(snap.metadata) == self.pending()),
            CreateEvent::Renamed(Err(m)) => next.phase() == CreatePhase::Done && action
                == CreateAction::Finish(Err(SnapshotError::Io(m)), None),
            CreateEvent::RetryReady => next.phase() == CreatePhase::MakingTmp && next.attempt()
                == self.attempt() + 1 && next.tmp() is None && action == CreateAction::MakeTmp(
                (self.attempt() + 1) as u32,
            ),
        }
    }

    fn zip_path(&self) -> (r: String)
        requires
            self.tmp is Some,
        ensures
            r@ == joined(self.style, self.tmp->0@, ARCHIVE_FILE@),
    {
        match &self.tmp {
            Some(t) => join_as(self.style, t.as_str(), ARCHIVE_FILE),
            None => String::new(),
        }
    }

    fn take_tmp(&mut self) -> (r: Option<String>)
        ensures
            r == old(self).tmp,
            *final(self) == (CreateRun { tmp: None, ..*old(self) }),
    {
        self.tmp.take()
    }

    /// Advances the run with what the last action gave.
    pub fn step(&mut self, event: CreateEvent) -> (action: CreateAction)
        requires
            old(self).wf(),
            old(self).expects(event),
        ensures
            old(self).step_taken(event, *final(self), action),
            final(self).version_text() == old(self).version_text(),
            final(self).wf() || final(self).phase() == CreatePhase::Done,
            action is Finish <==> final(self).phase() == CreatePhase::Done,
            final(self).account() == old(self).account(),
            final(self).reason() == old(self).reason(),
            final(self).source_paths() == old(self).source_paths(),
            final(self).style() == old(self).style(),
            final(self).snapshot_root() == old(self).snapshot_root(),
            final(self).attempt() >= old(self).attempt(),
            !(event matches CreateEvent::NewestFound(Some(_)))
                ==> final(self).prev() == old(self).prev(),
            // The metadata records the clock reading reported as the creation
            // time, and the source's modification time apart from it.
            match event {
                CreateEvent::Described(c, m) => final(self).phase() == CreatePhase::Finalizing
                    ==> (final(self).pending() matches Some(md) && md.created_utc == c
                    && md.source_modified_utc == m),
                _ => true,
            },
            action matches CreateAction::Finish(Ok(Some(snap)), _) ==> old(self).pending() == Some(
                snap.metadata,
            ),
            // A snapshot is only ever finalized from a copy that was read back
            // intact, found stable, and differs from the newest snapshot.
            action matches CreateAction::Finish(Ok(Some(snap)), _) ==> {
                &&& old(self).phase() == CreatePhase::Renaming
                &&& old(self).verified()
                &&& old(self).archived() matches Some(files) && snap.metadata.files@ == files
                    && !duplicates(old(self).prev(), files)
                &&& snap.metadata.steamid@ == old(self).account()
                &&& snap.metadata.reason == old(self).reason()
                &&& snap.metadata.archive@ == ARCHIVE_FILE@
                &&& snap.metadata.stored_bytes <= MAX_ARCHIVE_BYTES
                &&& old(self).archive_sha() matches Some(h) && snap.metadata.archive_sha256@ == h
                &&& event is Renamed
                &&& old(self).final_dir() == Some(snap.dir@)
            },
            // Nothing new is made when the save matches the newest snapshot.
            action matches CreateAction::Finish(Ok(None), _) ==> old(self).prev() matches Some(p)
                && ((event matches CreateEvent::SourcesHashed(Ok(h)) && old(self).phase()
                == CreatePhase::QuickHashing && p == fingerprint_of(h@)) || (old(self).phase()
                == CreatePhase::HashingArchive && (old(self).archived() matches Some(files) && p
                == fingerprint_of(files)))),
            // A discarded attempt's folder is always handed back for removal,
            // except when finalizing itself failed.
            action matches CreateAction::Finish(_, d) ==> (d is Some <==> ((old(self).tmp() is Some
                && old(self).phase() != CreatePhase::Finalizing && old(self).phase()
                != CreatePhase::Renaming) || event is TmpMade)) && (d matches Some(
                t,
            ) ==> (old(self).tmp() == Some(t@) || (event matches CreateEvent::TmpMade(x, _) && x@ == t@))),
            action matches CreateAction::Retry(t) ==> old(self).tmp() == Some(t@) && old(self).phase()
                == CreatePhase::Rehashing && old(self).attempt() < MAX_COPY_ATTEMPTS,
            // A copy whose source changed meanwhile is discarded and tried
            // again, up to MAX_COPY_ATTEMPTS attempts in all.
            old(self).phase() == CreatePhase::Rehashing && (event matches CreateEvent::SourcesHashed(
                Ok(h),
            ) && files_valid(old(self).style(), h@) && (old(self).archived() matches Some(a)
                && fhs(a) != fhs(h@))) ==> if old(self).attempt() < MAX_COPY_ATTEMPTS {
                action is Retry
            } else {
                action matches CreateAction::Finish(Err(SnapshotError::KeptChanging), _)
            },
            // A stable copy goes on to be measured and hashed.
            old(self).phase() == CreatePhase::Rehashing && (event matches CreateEvent::SourcesHashed(
                Ok(h),
            ) && files_valid(old(self).style(), h@) && (old(self).archived() matches Some(a)
                && fhs(a) == fhs(h@))) ==> action is StatArchive,
            action matches CreateAction::MakeTmp(a) ==> a == final(self).attempt() && (a
                == old(self).attempt() + 1 <==> old(self).phase() == CreatePhase::Retrying),
    {
        match event {
            CreateEvent::SourcesChecked(missing) => {
                match missing {
                    Some(i) => {
                        self.phase = CreatePhase::Done;
                        let p = copy_string(&self.sources[i]);
                        CreateAction::Finish(Err(SnapshotError::SourceMissing(p)), None)
                    },
                    None => {
                        self.phase = CreatePhase::MakingDir;
                        CreateAction::MakeDir(copy_string(&self.snaps_dir))
                    },
                }
            },
            CreateEvent::DirMade(r) => match r {
                Ok(()) => {
                    self.phase = CreatePhase::FindingNewest;
                    CreateAction::FindNewest
                },
                Err(m) => {
                    self.phase = CreatePhase::Done;
                    CreateAction::Finish(Err(SnapshotError::Io(m)), None)
                },
            },
            CreateEvent::NewestFound(p) => match p {
                Some(snap) => {
                    self.prev = Some(fingerprint(snap.metadata.files.as_slice()));
                    self.phase = CreatePhase::QuickHashing;
                    CreateAction::HashSources
                },
                None => {
                    self.phase = CreatePhase::MakingTmp;
                    CreateAction::MakeTmp(self.attempt)
                },
            },
            CreateEvent::SourcesHashed(r) => {
                if self.phase == CreatePhase::QuickHashing {
                    let h = match r {
                        Ok(h) => h,
                        Err(e) => {
                            self.phase = CreatePhase::Done;
                            return CreateAction::Finish(Err(e), None);
                        },
                    };
                    match validate_file_hashes(self.style, h.as_slice()) {
                        Ok(()) => {},
                        Err(e) => {
                            self.phase = CreatePhase::Done;
                            return CreateAction::Finish(Err(e), None);
                        },
                    }
                    let fp = fingerprint(h.as_slice());
                    let dup = match &self.prev {
                        Some(p) => same_fingerprint(p.as_slice(), fp.as_slice()),
                        None => false,
                    };
                    if dup {
                        self.phase = CreatePhase::Done;
                        CreateAction::Finish(Ok(None), None)
                    } else {
                        self.phase = CreatePhase::MakingTmp;
                        CreateAction::MakeTmp(self.attempt)
                    }
                } else {
                    let h = match r {
                        Ok(h) => h,
                        Err(e) => {
                            self.phase = CreatePhase::Done;
                            let t = self.take_tmp();
                            return CreateAction::Finish(Err(e), t);
                        },
                    };
                    match validate_file_hashes(self.style, h.as_slice()) {
                        Ok(()) => {},
                        Err(e) => {
                            self.phase = CreatePhase::Done;
                            let t = self.take_tmp();
                            return CreateAction::Finish(Err(e), t);
                        },
                    }
                    let stable = match &self.archived {
                        Some(a) => same_records(a.as_slice(), h.as_slice()),
                        None => false,
                    };
                    if !stable {
                        if self.attempt < MAX_COPY_ATTEMPTS {
                            self.phase = CreatePhase::Retrying;
                            let t = match self.take_tmp() {
                                Some(t) => t,
                                None => String::new(),
                            };
                            CreateAction::Retry(t)
                        } else {
                            self.phase = CreatePhase::Done;
                            let t = self.take_tmp();
                            CreateAction::Finish(Err(SnapshotError::KeptChanging), t)
                        }
                    } else {
                        self.phase = CreatePhase::Statting;
                        CreateAction::StatArchive(self.zip_path())
                    }
                }
            },
            CreateEvent::TmpMade(dir, r) => {
                self.tmp = Some(dir);
                self.verified = false;
                self.archived = None;
                match r {
                    Ok(()) => {
                        self.phase = CreatePhase::Writing;
                        CreateAction::WriteArchive(self.zip_path())
                    },
                    Err(m) => {
                        self.phase = CreatePhase::Done;
                        let t = self.take_tmp();
                        CreateAction::Finish(Err(SnapshotError::Io(m)), t)
                    },
                }
            },
            CreateEvent::ArchiveWritten(r) => match r {
                Ok(h) => {
                    self.archived = Some(h);
                    self.phase = CreatePhase::Verifying;
                    CreateAction::VerifyArchive(self.zip_path(), self.attempt)
                },
                Err(e) => {
                    self.phase = CreatePhase::Done;
                    let t = self.take_tmp();
                    CreateAction::Finish(Err(e), t)
                },
            },
            CreateEvent::ArchiveVerified(r) => match r {
                Ok(()) => {
                    self.verified = true;
                    self.phase = CreatePhase::Rehashing;
                    CreateAction::HashSources
                },
                Err(e) => {
                    self.phase = CreatePhase::Done;
                    let t = self.take_tmp();
                    CreateAction::Finish(Err(e), t)
                },
            },
            CreateEvent::ArchiveStatted(r) => match r {
                Ok(len) => {
                    if len > MAX_ARCHIVE_BYTES {
                        self.phase = CreatePhase::Done;
                        let t = self.take_tmp();
                        CreateAction::Finish(Err(SnapshotError::ArchiveTooLarge), t)
                    } else {
                        self.stored = len;
                        self.phase = CreatePhase::HashingArchive;
                        CreateAction::HashArchive(self.zip_path())
                    }
                },
                Err(m) => {
                    self.phase = CreatePhase::Done;
                    let t = self.take_tmp();
                    CreateAction::Finish(Err(SnapshotError::Io(m)), t)
                },
            },
            CreateEvent::ArchiveHashed(r) => match r {
                Ok(h) => {
                    let dup = match (&self.prev, &self.archived) {
                        (Some(p), Some(a)) => {
                            let fp = fingerprint(a.as_slice());
                            same_fingerprint(p.as_slice(), fp.as_slice())
                        },
                        _ => false,
                    };
                    if dup {
                        self.phase = CreatePhase::Done;
                        let t = self.take_tmp();
                        CreateAction::Finish(Ok(None), t)
                    } else {
                        self.archive_sha = Some(h.sha256);
                        self.phase = CreatePhase::Describing;
                        CreateAction::Describe
                    }
                },
                Err(e) => {
                    self.phase = CreatePhase::Done;
                    let t = self.take_tmp();
                    CreateAction::Finish(Err(e), t)
                },
            },
            CreateEvent::Described(created, source_modified) => {
                let files = match &self.archived {
                    Some(a) => copy_records(a.as_slice()),
                    None => Vec::new(),
                };
                let base = match final_dir_base(created, files.as_slice()) {
                    Some(b) => b,
                    None => {
                        self.phase = CreatePhase::Done;
                        let t = self.take_tmp();
                        return CreateAction::Finish(Err(SnapshotError::ClockOutOfRange), t);
                    },
                };
                let sha = match &self.archive_sha {
                    Some(s) => copy_string(s),
                    None => String::new(),
                };
                self.metadata = Some(Metadata {
                    format_version: METADATA_VERSION,
                    steamid: copy_string(&self.steamid),
                    created_utc: created,
                    source_modified_utc: source_modified,
                    reason: self.reason,
                    app_version: copy_string(&self.app_version),
                    files,
                    archive: ARCHIVE_FILE.to_owned(),
                    stored_bytes: self.stored,
                    archive_sha256: sha,
                });
                self.phase = CreatePhase::Finalizing;
                self.base = Some(base);
                let t = match &self.tmp {
                    Some(t) => copy_string(t),
                    None => String::new(),
                };
                CreateAction::Finalize(t)
            },
            CreateEvent::MetadataWritten(r) => match r {
                Ok(taken) => {
                    let dir = match &self.base {
                        Some(b) => unique_final_dir(
                            self.style,
                            self.snaps_dir.as_str(),
                            b.as_str(),
                            taken.as_slice(),
                        ),
                        None => String::new(),
                    };
                    self.final_dir = Some(copy_string(&dir));
                    self.phase = CreatePhase::Renaming;
                    let t = match &self.tmp {
                        Some(t) => copy_string(t),
                        None => String::new(),
                    };
                    CreateAction::Rename(t, dir)
                },
                Err(msg) => {
                    self.phase = CreatePhase::Done;
                    CreateAction::Finish(Err(SnapshotError::Io(msg)), None)
                },
            },
            CreateEvent::Renamed(r) => {
                self.phase = CreatePhase::Done;
                match r {
                    Ok(()) => {
                        let m = self.metadata.take().unwrap();
                        let dir = self.final_dir.take().unwrap();
                        CreateAction::Finish(Ok(Some(Snapshot { dir, metadata: m })), None)
                    },
                    Err(msg) => CreateAction::Finish(Err(SnapshotError::Io(msg)), None),
                }
            },
            CreateEvent::RetryReady => {
                self.attempt = self.attempt + 1;
                self.phase = CreatePhase::MakingTmp;
                CreateAction::MakeTmp(self.attempt)
            },
        }
    }
}

/// Whether two record lists are equal, record by record.
pub fn same_records(a: &[FileHash], b: &[FileHash]) -> (r: bool)
    ensures
        r == (fhs(a@) == fhs(b@)),
{
    if a.len() != b.len() {
        assert(fhs(a@).len() != fhs(b@).len());
        return false;
    }
    let mut i: usize = 0;
    while i < a.len()
        invariant
            a@.len() == b@.len(),
            i <= a@.len(),
            forall|j: int| 0 <= j < i ==> fhs(a@)[j] == fhs(b@)[j],
        decreases a@.len() - i,
    {
        if a[i].name != b[i].name || a[i].sha256 != b[i].sha256 || a[i].size != b[i].size {
            assert(fhs(a@)[i as int] != fhs(b@)[i as int]);
            return false;
        }
        i = i + 1;
    }
    assert(fhs(a@) =~= fhs(b@));
    true
}

/// A copy of a list of records.
pub fn copy_records(v: &[FileHash]) -> (r: Vec<FileHash>)
    ensures
        r@ == v@,
{
    let mut out: Vec<FileHash> = Vec::new();
    let mut i: usize = 0;
    while i < v.len()
        invariant
            i <= v@.len(),
            out@ == v@.take(i as int),
        decreases v@.len() - i,
    {
        out.push(FileHash { name: copy_string(&v[i].name), sha256: copy_string(&v[i].sha256), size: v[i].size });
        proof {
            assert(out@[i as int] == v@[i as int]);
            assert(out@ =~= v@.take(i + 1));
        }
        i = i + 1;
    }
    assert(v@.take(v@.len() as int) =~= v@);
    out
}

/// The runs, events and actions of a snapshot creation, step by step as
/// [`CreateRun::step`] takes them: `runs[k]`, well formed and waiting for
/// `events[k]`, becomes `runs[k + 1]` and asks for `actions[k]`.
pub open spec fn create_trace(
    runs: Seq<CreateRun>,
    events: Seq<CreateEvent>,
    actions: Seq<CreateAction>,
) -> bool {
    &&& runs.len() == events.len() + 1
    &&& actions.len() == events.len()
    &&& forall|k: int|
        #![trigger events[k]]
        0 <= k < events.len() ==> {
            &&& runs[k].wf()
            &&& runs[k].expects(events[k])
            &&& runs[k].step_taken(events[k], runs[k + 1], actions[k])
            &&& !(events[k] matches CreateEvent::NewestFound(Some(_))) ==> runs[k + 1].prev()
                == runs[k].prev()
        }
}

/// A run that starts with no fingerprint only ever holds the fingerprint of
/// a snapshot that the newest-snapshot search reported.
proof fn lemma_prev_origin(
    runs: Seq<CreateRun>,
    events: Seq<CreateEvent>,
    actions: Seq<CreateAction>,
    m: int,
)
    requires
        create_trace(runs, events, actions),
        runs[0].prev() is None,
        0 <= m < runs.len(),
        runs[m].prev() is Some,
    ensures
        exists|k: int|
            #![trigger events[k]]
            0 <= k < m && (events[k] matches CreateEvent::NewestFound(Some(q)) && runs[m].prev()
                == Some(fingerprint_of(q.metadata.files@))),
    decreases m,
{
    let k = m - 1;
    assert(0 <= k < events.len());
    match events[k] {
        CreateEvent::NewestFound(Some(q)) => {
            assert(runs[m].prev() == Some(fingerprint_of(q.metadata.files@)));
        },
        _ => {
            assert(runs[m].prev() == runs[k].prev());
            lemma_prev_origin(runs, events, actions, k);
        },
    }
}

/// Deduplication over a whole creation: a run that started afresh and ends
/// with nothing made (`Ok(None)`) found, at some step, a newest intact
/// snapshot whose fingerprint (the sorted names and SHA-256 digests of its
/// files) equals that of the sources as hashed, at the quick hash before
/// any copy was made or at the final check of a verified copy.
pub proof fn lemma_dedup_run(
    runs: Seq<CreateRun>,
    events: Seq<CreateEvent>,
    actions: Seq<CreateAction>,
)
    requires
        create_trace(runs, events, actions),
        runs[0].prev() is None,
        events.len() > 0,
        actions.last() matches CreateAction::Finish(Ok(None), _),
    ensures
        exists|k: int|
            #![trigger events[k]]
            0 <= k < events.len() - 1 && (events[k] matches CreateEvent::NewestFound(Some(q)) && {
                let fp = fingerprint_of(q.metadata.files@);
                ||| (events.last() matches CreateEvent::SourcesHashed(Ok(h)) && runs[events.len()
                    - 1].phase() == CreatePhase::QuickHashing && fingerprint_of(h@) == fp)
                ||| (runs[events.len() - 1].phase() == CreatePhase::HashingArchive && (runs[events.len()
                    - 1].archived() matches Some(f) && fingerprint_of(f) == fp))
            }),
{
    let n = events.len() - 1;
    assert(events[n] == events.last());
    assert(actions[n] == actions.last());
    let r = runs[n];
    assert(r.step_taken(events[n], runs[n + 1], actions[n]));
    let files: Seq<FileHash> = match events[n] {
        CreateEvent::SourcesHashed(Ok(h)) if r.phase() == CreatePhase::QuickHashing => h@,
        _ => r.archived()->0,
    };
    assert(duplicates(r.prev(), files) && (r.phase() == CreatePhase::QuickHashing || (
    r.phase() == CreatePhase::HashingArchive && r.archived() is Some))) by {
        match events[n] {
            CreateEvent::SourcesHashed(res) => {
                if r.phase() != CreatePhase::QuickHashing {
                    assert(false);
                }
            },
            CreateEvent::ArchiveHashed(res) => {},
            _ => {},
        }
    }
    lemma_prev_origin(runs, events, actions, n);
    let k = choose|k: int|
        #![trigger events[k]]
        0 <= k < n && (events[k] matches CreateEvent::NewestFound(Some(q)) && r.prev() == Some(
            fingerprint_of(q.metadata.files@),
        ));
    assert(0 <= k < n);
}

/// Between steps `a` and `b` of a run, with no snapshot reported by the
/// search in between, the fingerprint held does not change.
proof fn lemma_prev_kept(
    runs: Seq<CreateRun>,
    events: Seq<CreateEvent>,
    actions: Seq<CreateAction>,
    a: int,
    b: int,
)
    requires
        create_trace(runs, events, actions),
        0 <= a <= b < runs.len(),
        forall|m: int| a <= m < b ==> !(#[trigger] events[m] matches CreateEvent::NewestFound(Some(_))),
    ensures
        runs[b].prev() == runs[a].prev(),
    decreases b - a,
{
    if a < b {
        lemma_prev_kept(runs, events, actions, a, b - 1);
        let e = events[b - 1];
        assert(!(e matches CreateEvent::NewestFound(Some(_))));
    }
}

/// Deduplication, the other way: when the save, as hashed at the quick
/// hash, has the fingerprint of the snapshot the newest-snapshot search
/// reported, the run finishes right there with nothing made and no
/// temporary folder to remove, before any copy exists.
pub proof fn lemma_dedup_when_unchanged(
    runs: Seq<CreateRun>,
    events: Seq<CreateEvent>,
    actions: Seq<CreateAction>,
    j: int,
    k: int,
    q: Snapshot,
)
    requires
        create_trace(runs, events, actions),
        0 <= j < k < events.len(),
        events[j] == CreateEvent::NewestFound(Some(q)),
        forall|m: int| j < m < k ==> !(#[trigger] events[m] matches CreateEvent::NewestFound(Some(_))),
        runs[k].phase() == CreatePhase::QuickHashing,
        events[k] matches CreateEvent::SourcesHashed(Ok(h)) && files_valid(runs[k].style(), h@)
            && fingerprint_of(h@) == fingerprint_of(q.metadata.files@),
    ensures
        actions[k] == CreateAction::Finish(Ok(None), None),
        runs[k].tmp() is None,
{
    assert(runs[j].step_taken(events[j], runs[j + 1], actions[j]));
    assert(runs[j + 1].prev() == Some(fingerprint_of(q.metadata.files@)));
    lemma_prev_kept(runs, events, actions, j + 1, k);
    assert(runs[k].wf());
    assert(runs[k].step_taken(events[k], runs[k + 1], actions[k]));
}

/// A snapshot's creation time is the clock reading: in a run that started
/// afresh and ends with a snapshot, the snapshot's metadata records as its
/// creation time exactly the time reported when the snapshot was described,
/// and the source's modification time reported then as a separate field,
/// whatever that modification time is.
pub proof fn lemma_created_is_clock_reading(
    runs: Seq<CreateRun>,
    events: Seq<CreateEvent>,
    actions: Seq<CreateAction>,
    snap: Snapshot,
)
    requires
        create_trace(runs, events, actions),
        runs[0].phase() == CreatePhase::CheckingSources,
        events.len() > 0,
        actions.last() matches CreateAction::Finish(Ok(Some(s)), _) && s == snap,
    ensures
        exists|k: int|
            #![trigger events[k]]
            0 <= k < events.len() && (events[k] matches CreateEvent::Described(c, m)
                && snap.metadata.created_utc == c && snap.metadata.source_modified_utc == m),
{
    let n = events.len() - 1;
    assert(events[n] == events.last());
    assert(actions[n] == actions.last());
    assert(runs[n].wf() && runs[n].expects(events[n]));
    assert(runs[n].step_taken(events[n], runs[n + 1], actions[n]));
    assert(events[n] is Renamed);
    assert(runs[n].phase() == CreatePhase::Renaming);
    assert(n >= 1);
    let a = n - 1;
    assert(runs[a].wf() && runs[a].expects(events[a]));
    assert(runs[a].step_taken(events[a], runs[a + 1], actions[a]));
    assert(events[a] is MetadataWritten);
    assert(runs[a].phase() == CreatePhase::Finalizing);
    assert(runs[n].pending() == runs[a].pending());
    assert(a >= 1);
    let b = a - 1;
    assert(runs[b].wf() && runs[b].expects(events[b]));
    assert(runs[b].step_taken(events[b], runs[b + 1], actions[b]));
    assert(events[b] is Described);
}

} // verus!

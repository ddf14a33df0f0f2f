//! Path resolution and the guards that keep backups out of the save tree and
//! the save tree out of the backups.
//!
//! Paths are held as text. Their lexical structure follows the platform's
//! conventions, given by [`PathStyle`]: on Unix `/` separates components and
//! names compare exactly; on Windows `/` and `\` both separate, a leading drive
//! such as `C:` is a prefix, and names compare case-insensitively.

use vstd::prelude::*;

use crate::text::{concat, to_chars, from_chars};

verus! {

/// The lexical conventions of a platform's paths.
#[derive(Clone, Copy, PartialEq, Eq, Debug, Structural)]
pub enum PathStyle {
    Unix,
    Windows,
}

/// Why a path could not be resolved or was refused.
#[derive(Clone, PartialEq, Eq, Debug)]
pub enum PathError {
    /// The named environment variable is not set.
    EnvUnset(String),
    /// The named environment variable is set to an empty value.
    EnvEmpty(String),
    /// The Documents folder could not be resolved.
    NoDocuments,
    /// The backup destination lies inside the save folder.
    DestInsideSave,
    /// The save folder lies inside the backup destination.
    SaveInsideDest,
}

/// `std::path::MAIN_SEPARATOR`: the separator this platform writes.
#[verifier::external_body]
fn main_separator() -> (c: char)
    ensures
        c == '/' || c == '\\',
{
    std::path::MAIN_SEPARATOR
}

/// The path conventions of the platform this program was built for.
pub fn path_style() -> (st: PathStyle) {
    if main_separator() == '\\' {
        PathStyle::Windows
    } else {
        PathStyle::Unix
    }
}

/// The separator a style writes between components.
pub open spec fn sep_char(st: PathStyle) -> char {
    match st {
        PathStyle::Unix => '/',
        PathStyle::Windows => '\\',
    }
}

pub open spec fn is_sep(st: PathStyle, c: char) -> bool {
    c == '/' || (st == PathStyle::Windows && c == '\\')
}

pub open spec fn is_ascii_letter(c: char) -> bool {
    ('a' <= c && c <= 'z') || ('A' <= c && c <= 'Z')
}

/// Length of a Windows drive prefix such as `C:` at the start of `s` (2), or 0.
pub open spec fn prefix_len(st: PathStyle, s: Seq<char>) -> int {
    if st == PathStyle::Windows && s.len() >= 2 && is_ascii_letter(s[0]) && s[1] == ':' {
        2
    } else {
        0
    }
}

/// Whether the path is rooted: a separator follows the prefix, if any.
pub open spec fn has_root(st: PathStyle, s: Seq<char>) -> bool {
    s.len() > prefix_len(st, s) && is_sep(st, s[prefix_len(st, s)])
}

/// Splits text into the non-empty runs between separators; `cur` is the run
/// read so far.
pub open spec fn split_acc(st: PathStyle, s: Seq<char>, cur: Seq<char>) -> Seq<Seq<char>>
    decreases s.len(),
{
    if s.len() == 0 {
        if cur.len() > 0 {
            seq![cur]
        } else {
            seq![]
        }
    } else if is_sep(st, s[0]) {
        (if cur.len() > 0 {
            seq![cur]
        } else {
            seq![]
        }) + split_acc(st, s.drop_first(), seq![])
    } else {
        split_acc(st, s.drop_first(), cur.push(s[0]))
    }
}

/// The names of a path, after its prefix, in order: `.` and `..` included.
pub open spec fn raw_names(st: PathStyle, s: Seq<char>) -> Seq<Seq<char>> {
    split_acc(st, s.subrange(prefix_len(st, s), s.len() as int), seq![])
}

/// One step of lexical normalization: `.` is dropped, `..` removes the
/// last name kept so far (never the root or prefix), other names are kept.
pub open spec fn norm_step(acc: Seq<Seq<char>>, t: Seq<char>) -> Seq<Seq<char>> {
    if t == seq!['.'] {
        acc
    } else if t == seq!['.', '.'] {
        if acc.len() > 0 {
            acc.drop_last()
        } else {
            acc
        }
    } else {
        acc.push(t)
    }
}

pub open spec fn normalize_names(ts: Seq<Seq<char>>) -> Seq<Seq<char>>
    decreases ts.len(),
{
    if ts.len() == 0 {
        seq![]
    } else {
        norm_step(normalize_names(ts.drop_last()), ts.last())
    }
}

/// The name of Rust's `str::to_lowercase`, the full Unicode lower-case mapping.
pub uninterp spec fn unicode_lowercase(s: Seq<char>) -> Seq<char>;

/// `str::to_lowercase`.
#[verifier::external_body]
fn to_lowercase(s: &str) -> (r: String)
    ensures
        r@ == unicode_lowercase(s@),
{
    s.to_lowercase()
}

/// How a component is compared: lower-cased on Windows, as is elsewhere.
pub open spec fn fold_case(st: PathStyle, t: Seq<char>) -> Seq<char> {
    if st == PathStyle::Windows {
        unicode_lowercase(t)
    } else {
        t
    }
}

/// The components by which two paths are compared: the case-folded prefix,
/// a root marker, and the case-folded names after lexical normalization.
pub open spec fn compare_key(st: PathStyle, s: Seq<char>) -> Seq<Seq<char>> {
    let names = normalize_names(raw_names(st, s));
    (if prefix_len(st, s) == 2 {
        seq![fold_case(st, s.subrange(0, 2))]
    } else {
        seq![]
    }) + (if has_root(st, s) {
        seq![seq!['/']]
    } else {
        seq![]
    }) + names.map_values(|t: Seq<char>| fold_case(st, t))
}

pub open spec fn is_prefix_of<T>(a: Seq<T>, b: Seq<T>) -> bool {
    a.len() <= b.len() && b.subrange(0, a.len() as int) == a
}

/// `child` equals `ancestor` or lies below it, compared lexically.
pub open spec fn within(st: PathStyle, child: Seq<char>, ancestor: Seq<char>) -> bool {
    is_prefix_of(compare_key(st, ancestor), compare_key(st, child))
}

proof fn lemma_split_acc_step(st: PathStyle, s: Seq<char>, i: int, cur: Seq<char>)
    requires
        0 <= i < s.len(),
    ensures
        split_acc(st, s.subrange(i, s.len() as int), cur) == (if is_sep(st, s[i]) {
            (if cur.len() > 0 {
                seq![cur]
            } else {
                seq![]
            }) + split_acc(st, s.subrange(i + 1, s.len() as int), seq![])
        } else {
            split_acc(st, s.subrange(i + 1, s.len() as int), cur.push(s[i]))
        }),
{
    let t = s.subrange(i, s.len() as int);
    assert(t.drop_first() =~= s.subrange(i + 1, s.len() as int));
    assert(t[0] == s[i]);
}

/// The text after the prefix, split into names.
fn split_names(st: PathStyle, s: &[char], start: usize) -> (r: Vec<Vec<char>>)
    requires
        start <= s@.len(),
    ensures
        r@.map_values(|v: Vec<char>| v@) == split_acc(st, s@.subrange(start as int, s@.len() as int), seq![]),
{
    let mut out: Vec<Vec<char>> = Vec::new();
    let mut cur: Vec<char> = Vec::new();
    let mut i = start;
    while i < s.len()
        invariant
            start <= i <= s@.len(),
            out@.map_values(|v: Vec<char>| v@) + split_acc(st, s@.subrange(i as int, s@.len() as int), cur@)
                == split_acc(st, s@.subrange(start as int, s@.len() as int), seq![]),
        decreases s@.len() - i,
    {
        proof {
            lemma_split_acc_step(st, s@, i as int, cur@);
        }
        let c = s[i];
        let sep = c == '/' || (st == PathStyle::Windows && c == '\\');
        if sep {
            if cur.len() > 0 {
                let ghost before = out@.map_values(|v: Vec<char>| v@);
                let done = cur;
                out.push(done);
                cur = Vec::new();
                proof {
                    assert(out@.map_values(|v: Vec<char>| v@) =~= before.push(done@));
                    assert(before + seq![done@] =~= before.push(done@));
                }
            } else {
                assert(seq![] + split_acc(st, s@.subrange(i + 1, s@.len() as int), seq![])
                    =~= split_acc(st, s@.subrange(i + 1, s@.len() as int), seq![]));
                cur = Vec::new();
            }
            proof {
                assert(cur@ =~= Seq::<char>::empty());
            }
        } else {
            cur.push(c);
        }
        i = i + 1;
    }
    proof {
        assert(s@.subrange(i as int, s@.len() as int).len() == 0);
    }
    if cur.len() > 0 {
        let ghost before = out@.map_values(|v: Vec<char>| v@);
        let done = cur;
        out.push(done);
        proof {
            assert(out@.map_values(|v: Vec<char>| v@) =~= before.push(done@));
            assert(before + seq![done@] =~= before.push(done@));
        }
    } else {
        assert(out@.map_values(|v: Vec<char>| v@) + seq![] =~= out@.map_values(|v: Vec<char>| v@));
    }
    out
}

fn is_single_dot(t: &Vec<char>) -> (r: bool)
    ensures
        r == (t@ == seq!['.']),
{
    let r = t.len() == 1 && t[0] == '.';
    proof {
        if t@ == seq!['.'] {
            assert(t@.len() == 1);
        }
        if r {
            assert(t@ =~= seq!['.']);
        }
    }
    r
}

fn is_double_dot(t: &Vec<char>) -> (r: bool)
    ensures
        r == (t@ == seq!['.', '.']),
{
    let r = t.len() == 2 && t[0] == '.' && t[1] == '.';
    proof {
        if t@ == seq!['.', '.'] {
            assert(t@.len() == 2);
        }
        if r {
            assert(t@ =~= seq!['.', '.']);
        }
    }
    r
}

/// Lexical normalization of a list of names.
fn normalize(ts: Vec<Vec<char>>) -> (r: Vec<Vec<char>>)
    ensures
        r@.map_values(|v: Vec<char>| v@) == normalize_names(ts@.map_values(|v: Vec<char>| v@)),
{
    let ghost tv = ts@.map_values(|v: Vec<char>| v@);
    let mut out: Vec<Vec<char>> = Vec::new();
    let mut i: usize = 0;
    while i < ts.len()
        invariant
            i <= ts@.len(),
            tv == ts@.map_values(|v: Vec<char>| v@),
            out@.map_values(|v: Vec<char>| v@) == normalize_names(tv.take(i as int)),
        decreases ts@.len() - i,
    {
        let ghost before = out@.map_values(|v: Vec<char>| v@);
        proof {
            assert(tv.take(i + 1).drop_last() =~= tv.take(i as int));
            assert(tv.take(i + 1).last() == tv[i as int]);
        }
        let t = &ts[i];
        if is_single_dot(t) {
        } else if is_double_dot(t) {
            if out.len() > 0 {
                out.pop();
                proof {
                    assert(out@.map_values(|v: Vec<char>| v@) =~= before.drop_last());
                }
            }
        } else {
            out.push(t.clone());
            proof {
                assert(out@.map_values(|v: Vec<char>| v@) =~= before.push(t@));
            }
        }
        i = i + 1;
    }
    proof {
        assert(tv.take(ts@.len() as int) =~= tv);
    }
    out
}

fn fold_case_exec(st: PathStyle, t: &Vec<char>) -> (r: Vec<char>)
    ensures
        r@ == fold_case(st, t@),
{
    match st {
        PathStyle::Windows => {
            let s = from_chars(t.as_slice());
            let l = to_lowercase(s.as_str());
            to_chars(l.as_str())
        },
        PathStyle::Unix => t.clone(),
    }
}

/// The comparison key of a path; see [`compare_key`].
fn key_of(st: PathStyle, p: &str) -> (r: Vec<Vec<char>>)
    ensures
        r@.map_values(|v: Vec<char>| v@) == compare_key(st, p@),
{
    let s = to_chars(p);
    let win = st == PathStyle::Windows;
    let plen: usize = if win && s.len() >= 2 && (('a' <= s[0] && s[0] <= 'z') || ('A' <= s[0]
        && s[0] <= 'Z')) && s[1] == ':' {
        2
    } else {
        0
    };
    assert(plen == prefix_len(st, p@));
    let root = s.len() > plen && (s[plen] == '/' || (win && s[plen] == '\\'));
    let names = normalize(split_names(st, s.as_slice(), plen));
    let ghost nv = names@.map_values(|v: Vec<char>| v@);
    let mut key: Vec<Vec<char>> = Vec::new();
    if plen == 2 {
        let mut pre: Vec<char> = Vec::new();
        pre.push(s[0]);
        pre.push(s[1]);
        assert(pre@ =~= s@.subrange(0, 2));
        key.push(fold_case_exec(st, &pre));
    }
    if root {
        let mut r: Vec<char> = Vec::new();
        r.push('/');
        key.push(r);
    }
    let ghost head = key@.map_values(|v: Vec<char>| v@);
    assert(head =~= (if prefix_len(st, p@) == 2 {
        seq![fold_case(st, p@.subrange(0, 2))]
    } else {
        seq![]
    }) + (if has_root(st, p@) {
        seq![seq!['/']]
    } else {
        seq![]
    }));
    let mut i: usize = 0;
    while i < names.len()
        invariant
            i <= names@.len(),
            nv == names@.map_values(|v: Vec<char>| v@),
            key@.map_values(|v: Vec<char>| v@) == head + nv.take(i as int).map_values(
                |t: Seq<char>| fold_case(st, t),
            ),
        decreases names@.len() - i,
    {
        let ghost before = key@.map_values(|v: Vec<char>| v@);
        let f = fold_case_exec(st, &names[i]);
        key.push(f);
        proof {
            assert(nv.take(i + 1) =~= nv.take(i as int).push(nv[i as int]));
            assert(nv.take(i + 1).map_values(|t: Seq<char>| fold_case(st, t)) =~= nv.take(
                i as int,
            ).map_values(|t: Seq<char>| fold_case(st, t)).push(fold_case(st, nv[i as int])));
            assert(key@.map_values(|v: Vec<char>| v@) =~= before.push(f@));
        }
        i = i + 1;
    }
    proof {
        assert(nv.take(names@.len() as int) =~= nv);
    }
    key
}

fn vec_chars_eq(a: &Vec<char>, b: &Vec<char>) -> (r: bool)
    ensures
        r == (a@ == b@),
{
    if a.len() != b.len() {
        return false;
    }
    let mut i: usize = 0;
    while i < a.len()
        invariant
            a@.len() == b@.len(),
            i <= a@.len(),
            forall|j: int| 0 <= j < i ==> a@[j] == b@[j],
        decreases a@.len() - i,
    {
        if a[i] != b[i] {
            return false;
        }
        i = i + 1;
    }
    assert(a@ =~= b@);
    true
}

/// Whether `child` equals `ancestor` or lies below it, by lexical comparison
/// in the given style: `.` and `..` are resolved textually, without touching
/// the filesystem.
pub fn is_within_as(st: PathStyle, child: &str, ancestor: &str) -> (r: bool)
    ensures
        r == within(st, child@, ancestor@),
{
    let c = key_of(st, child);
    let a = key_of(st, ancestor);
    let ghost cv = c@.map_values(|v: Vec<char>| v@);
    let ghost av = a@.map_values(|v: Vec<char>| v@);
    if a.len() > c.len() {
        return false;
    }
    let mut i: usize = 0;
    while i < a.len()
        invariant
            a@.len() <= c@.len(),
            i <= a@.len(),
            cv == c@.map_values(|v: Vec<char>| v@),
            av == a@.map_values(|v: Vec<char>| v@),
            cv == compare_key(st, child@),
            av == compare_key(st, ancestor@),
            forall|j: int| 0 <= j < i ==> cv[j] == av[j],
        decreases a@.len() - i,
    {
        if !vec_chars_eq(&c[i], &a[i]) {
            assert(cv[i as int] == c@[i as int]@ && av[i as int] == a@[i as int]@);
            assert(cv.subrange(0, av.len() as int)[i as int] != av[i as int]);
            assert(cv.subrange(0, av.len() as int) != av);
            return false;
        }
        assert(cv[i as int] == c@[i as int]@ && av[i as int] == a@[i as int]@);
        i = i + 1;
    }
    assert(cv.subrange(0, av.len() as int) =~= av);
    true
}

/// Whether `child` equals `ancestor` or lies below it, by lexical comparison
/// in this platform's style (case-insensitive on Windows).
pub fn is_within(child: &str, ancestor: &str) -> (r: bool)
    ensures
        r == within(PathStyle::Unix, child@, ancestor@) || r == within(
            PathStyle::Windows,
            child@,
            ancestor@,
        ),
{
    is_within_as(path_style(), child, ancestor)
}

/// What [`validate_backup_dest_as`] answers.
pub open spec fn backup_dest_check(st: PathStyle, save_dir: Seq<char>, dest: Seq<char>) -> Result<
    (),
    PathError,
> {
    if within(st, dest, save_dir) {
        Err(PathError::DestInsideSave)
    } else if within(st, save_dir, dest) {
        Err(PathError::SaveInsideDest)
    } else {
        Ok(())
    }
}

/// What the file system resolves a path to, as far as the table of
/// resolved paths says: the first entry for the path, else the path as
/// written.
pub open spec fn real_of(table: Seq<(String, String)>, p: Seq<char>) -> Seq<char>
    decreases table.len(),
{
    if table.len() == 0 {
        p
    } else if table[0].0@ == p {
        table[0].1@
    } else {
        real_of(table.drop_first(), p)
    }
}

/// The path a table of resolved paths gives for `p`.
pub fn real_path(table: &[(String, String)], p: &str) -> (r: String)
    ensures
        r@ == real_of(table@, p@),
{
    let mut i: usize = 0;
    assert(table@.skip(0) =~= table@);
    while i < table.len()
        invariant
            i <= table@.len(),
            real_of(table@, p@) == real_of(table@.skip(i as int), p@),
        decreases table@.len() - i,
    {
        assert(table@.skip(i as int).drop_first() =~= table@.skip(i + 1));
        assert(table@.skip(i as int)[0] == table@[i as int]);
        if crate::text::str_eq(table[i].0.as_str(), p) {
            return table[i].1.clone();
        }
        i = i + 1;
    }
    assert(table@.skip(i as int) =~= Seq::<(String, String)>::empty());
    p.to_owned()
}

/// The guard between a save folder and a backup destination, on the paths
/// as written and on the paths as the file system resolves them (links and
/// junctions followed): the first refusal found is the answer.
pub open spec fn guard_check(
    st: PathStyle,
    save_dir: Seq<char>,
    dest: Seq<char>,
    table: Seq<(String, String)>,
) -> Result<(), PathError> {
    match backup_dest_check(st, save_dir, dest) {
        Err(e) => Err(e),
        Ok(_) => backup_dest_check(st, real_of(table, save_dir), real_of(table, dest)),
    }
}

/// Refuses a backup destination that overlaps the save folder in either
/// direction, as written or once resolved through `resolved` (what the file
/// system resolves each existing path to).
pub fn guard_backup_dest(
    st: PathStyle,
    save_dir: &str,
    dest: &str,
    resolved: &[(String, String)],
) -> (r: Result<(), PathError>)
    ensures
        r == guard_check(st, save_dir@, dest@, resolved@),
{
    validate_backup_dest_as(st, save_dir, dest)?;
    let sr = real_path(resolved, save_dir);
    let dr = real_path(resolved, dest);
    validate_backup_dest_as(st, sr.as_str(), dr.as_str())
}

/// The guard refuses whatever the check on the paths as written refuses:
/// resolving links only ever adds refusals.
pub proof fn lemma_guard_extends_lexical(
    st: PathStyle,
    save_dir: Seq<char>,
    dest: Seq<char>,
    table: Seq<(String, String)>,
)
    ensures
        backup_dest_check(st, save_dir, dest) is Err ==> guard_check(st, save_dir, dest, table)
            == backup_dest_check(st, save_dir, dest),
        table.len() == 0 ==> guard_check(st, save_dir, dest, table) == backup_dest_check(
            st,
            save_dir,
            dest,
        ),
{
}

/// The guard does not depend on which folder is which: a pair passes in
/// one order exactly when it passes in the other, and it passes exactly
/// when neither folder lies within the other, as written or as resolved.
pub proof fn lemma_guard_symmetric(
    st: PathStyle,
    save_dir: Seq<char>,
    dest: Seq<char>,
    table: Seq<(String, String)>,
)
    ensures
        backup_dest_check(st, save_dir, dest) is Ok <==> backup_dest_check(st, dest, save_dir) is Ok,
        guard_check(st, save_dir, dest, table) is Ok <==> guard_check(st, dest, save_dir, table) is Ok,
        guard_check(st, save_dir, dest, table) is Ok <==> {
            &&& !within(st, dest, save_dir)
            &&& !within(st, save_dir, dest)
            &&& !within(st, real_of(table, dest), real_of(table, save_dir))
            &&& !within(st, real_of(table, save_dir), real_of(table, dest))
        },
{
}

/// The text form of a path the file system resolved, without Windows'
/// verbatim prefix: `\\?\C:\x` becomes `C:\x` and `\\?\UNC\server\share`
/// becomes `\\server\share`; anything else is kept.
pub open spec fn without_verbatim(p: Seq<char>) -> Seq<char> {
    let v = seq!['\\', '\\', '?', '\\'];
    if p.len() >= 6 && p.take(4) == v && is_ascii_letter(p[4]) && p[5] == ':' {
        p.skip(4)
    } else if p.len() >= 8 && p.take(4) == v && p[4] == 'U' && p[5] == 'N' && p[6] == 'C' && p[7]
        == '\\' {
        seq!['\\'] + p.skip(7)
    } else {
        p
    }
}

/// Drops Windows' verbatim prefix from a resolved path, as [`without_verbatim`]
/// says.
pub fn strip_verbatim(p: &str) -> (r: String)
    ensures
        r@ == without_verbatim(p@),
{
    let c = to_chars(p);
    let n = c.len();
    let v = n >= 4 && c[0] == '\\' && c[1] == '\\' && c[2] == '?' && c[3] == '\\';
    proof {
        if n >= 4 {
            assert(v == (c@.take(4) == seq!['\\', '\\', '?', '\\'])) by {
                if c@.take(4) == seq!['\\', '\\', '?', '\\'] {
                    assert(c@.take(4)[0] == c@[0]);
                    assert(c@.take(4)[1] == c@[1]);
                    assert(c@.take(4)[2] == c@[2]);
                    assert(c@.take(4)[3] == c@[3]);
                }
                if v {
                    assert(c@.take(4) =~= seq!['\\', '\\', '?', '\\']);
                }
            }
        }
    }
    if v && n >= 6 && (('a' <= c[4] && c[4] <= 'z') || ('A' <= c[4] && c[4] <= 'Z')) && c[5] == ':' {
        let mut out: Vec<char> = Vec::new();
        let mut i: usize = 4;
        while i < n
            invariant
                4 <= i <= n,
                n == c@.len(),
                out@ == c@.subrange(4, i as int),
            decreases n - i,
        {
            out.push(c[i]);
            assert(c@.subrange(4, i + 1) =~= c@.subrange(4, i as int).push(c@[i as int]));
            i = i + 1;
        }
        assert(c@.subrange(4, n as int) =~= c@.skip(4));
        from_chars(out.as_slice())
    } else if v && n >= 8 && c[4] == 'U' && c[5] == 'N' && c[6] == 'C' && c[7] == '\\' {
        let mut out: Vec<char> = Vec::new();
        out.push('\\');
        let mut i: usize = 7;
        while i < n
            invariant
                7 <= i <= n,
                n == c@.len(),
                out@ == seq!['\\'] + c@.subrange(7, i as int),
            decreases n - i,
        {
            out.push(c[i]);
            assert(seq!['\\'] + c@.subrange(7, i + 1) =~= (seq!['\\'] + c@.subrange(7, i as int)).push(
                c@[i as int],
            ));
            i = i + 1;
        }
        assert(c@.subrange(7, n as int) =~= c@.skip(7));
        from_chars(out.as_slice())
    } else {
        p.to_owned()
    }
}

/// Containment is reflexive and transitive: a folder lies within itself, and
/// what lies within a folder lies within every folder that contains it.
pub proof fn lemma_within_order(st: PathStyle, a: Seq<char>, b: Seq<char>, c: Seq<char>)
    ensures
        within(st, a, a),
        within(st, a, b) && within(st, b, c) ==> within(st, a, c),
{
    let ka = compare_key(st, a);
    let kb = compare_key(st, b);
    let kc = compare_key(st, c);
    assert(ka.subrange(0, ka.len() as int) =~= ka);
    if within(st, a, b) && within(st, b, c) {
        assert(ka.subrange(0, kc.len() as int) =~= kb.subrange(0, kc.len() as int));
    }
}

/// A single normal path component: non-empty, no separator, no drive
/// prefix, and neither `.` nor `..`.
pub open spec fn normal_name(st: PathStyle, n: Seq<char>) -> bool {
    &&& n.len() > 0
    &&& forall|i: int| 0 <= i < n.len() ==> !is_sep(st, #[trigger] n[i])
    &&& prefix_len(st, n) == 0
    &&& n != seq!['.']
    &&& n != seq!['.', '.']
}

proof fn lemma_split_no_sep(st: PathStyle, n: Seq<char>, cur: Seq<char>)
    requires
        forall|i: int| 0 <= i < n.len() ==> !is_sep(st, #[trigger] n[i]),
    ensures
        split_acc(st, n, cur) == if cur.len() + n.len() > 0 {
            seq![cur + n]
        } else {
            seq![]
        },
    decreases n.len(),
{
    if n.len() == 0 {
        assert(cur + n =~= cur);
    } else {
        assert(!is_sep(st, n[0]));
        let m = n.drop_first();
        assert forall|i: int| 0 <= i < m.len() implies !is_sep(st, #[trigger] m[i]) by {
            assert(m[i] == n[i + 1]);
        }
        lemma_split_no_sep(st, m, cur.push(n[0]));
        assert(cur.push(n[0]) + m =~= cur + n);
    }
}

proof fn lemma_split_trailing_sep(st: PathStyle, x: Seq<char>, c: char, cur: Seq<char>)
    requires
        is_sep(st, c),
    ensures
        split_acc(st, x.push(c), cur) == split_acc(st, x, cur),
    decreases x.len(),
{
    let xc = x.push(c);
    let head: Seq<Seq<char>> = if cur.len() > 0 {
        seq![cur]
    } else {
        seq![]
    };
    if x.len() == 0 {
        assert(xc.drop_first() =~= Seq::<char>::empty());
        assert(xc[0] == c);
        assert(split_acc(st, Seq::<char>::empty(), seq![]) =~= Seq::<Seq<char>>::empty());
        assert(split_acc(st, xc, cur) == head + split_acc(st, xc.drop_first(), seq![]));
        assert(head + Seq::<Seq<char>>::empty() =~= head);
        assert(split_acc(st, x, cur) == head);
    } else {
        assert(xc[0] == x[0]);
        assert(xc.drop_first() =~= x.drop_first().push(c));
        if is_sep(st, x[0]) {
            lemma_split_trailing_sep(st, x.drop_first(), c, seq![]);
            assert(split_acc(st, xc, cur) == head + split_acc(st, xc.drop_first(), seq![]));
        } else {
            lemma_split_trailing_sep(st, x.drop_first(), c, cur.push(x[0]));
            assert(split_acc(st, xc, cur) == split_acc(st, xc.drop_first(), cur.push(x[0])));
        }
    }
}

proof fn lemma_split_concat(st: PathStyle, x: Seq<char>, y: Seq<char>, cur: Seq<char>)
    requires
        x.len() > 0,
        is_sep(st, x.last()),
    ensures
        split_acc(st, x + y, cur) == split_acc(st, x, cur) + split_acc(st, y, seq![]),
    decreases x.len(),
{
    let xy = x + y;
    assert(xy[0] == x[0]);
    let head: Seq<Seq<char>> = if cur.len() > 0 {
        seq![cur]
    } else {
        seq![]
    };
    if x.len() == 1 {
        assert(xy.drop_first() =~= y);
        assert(x.drop_first() =~= Seq::<char>::empty());
        assert(x[0] == x.last());
        assert(split_acc(st, Seq::<char>::empty(), seq![]) =~= Seq::<Seq<char>>::empty());
        assert(split_acc(st, x, cur) == head + split_acc(st, x.drop_first(), seq![]));
        assert(head + Seq::<Seq<char>>::empty() =~= head);
        assert(split_acc(st, xy, cur) == head + split_acc(st, xy.drop_first(), seq![]));
    } else {
        let x1 = x.drop_first();
        assert(xy.drop_first() =~= x1 + y);
        assert(x1.last() == x.last());
        if is_sep(st, x[0]) {
            lemma_split_concat(st, x1, y, seq![]);
            assert(split_acc(st, xy, cur) == head + split_acc(st, xy.drop_first(), seq![]));
            assert(split_acc(st, x, cur) == head + split_acc(st, x1, seq![]));
            assert(head + (split_acc(st, x1, seq![]) + split_acc(st, y, seq![])) =~= (head
                + split_acc(st, x1, seq![])) + split_acc(st, y, seq![]));
        } else {
            lemma_split_concat(st, x1, y, cur.push(x[0]));
            assert(split_acc(st, xy, cur) == split_acc(st, xy.drop_first(), cur.push(x[0])));
            assert(split_acc(st, x, cur) == split_acc(st, x1, cur.push(x[0])));
        }
    }
}

/// The names of `joined(p, n)` for a normal name `n`: those of `p`, then `n`;
/// its prefix and root are those of `p`.
proof fn lemma_joined_names(st: PathStyle, p: Seq<char>, n: Seq<char>)
    requires
        normal_name(st, n),
    ensures
        prefix_len(st, joined(st, p, n)) == prefix_len(st, p),
        joined(st, p, n).subrange(0, prefix_len(st, p)) == p.subrange(0, prefix_len(st, p)),
        has_root(st, joined(st, p, n)) == has_root(st, p),
        raw_names(st, joined(st, p, n)) == raw_names(st, p).push(n),
{
    let j = joined(st, p, n);
    let pre = prefix_len(st, p);
    let rest_p = p.subrange(pre, p.len() as int);
    assert(!is_sep(st, n[0]));
    lemma_split_no_sep(st, n, seq![]);
    assert(Seq::<char>::empty() + n =~= n);
    if p.len() == 0 {
        assert(j =~= n);
        assert(rest_p =~= Seq::<char>::empty());
        assert(n.subrange(0, n.len() as int) =~= n);
        assert(raw_names(st, p) =~= Seq::<Seq<char>>::empty());
        assert(Seq::<Seq<char>>::empty().push(n) =~= seq![n]);
    } else if pre == 2 && p.len() == 2 {
        assert(j =~= p + n);
        assert(j[0] == p[0] && j[1] == p[1]);
        assert(j.subrange(2, j.len() as int) =~= n);
        assert(j[2] == n[0]);
        assert(rest_p =~= Seq::<char>::empty());
        assert(Seq::<Seq<char>>::empty().push(n) =~= seq![n]);
    } else if is_sep(st, p.last()) {
        assert(j =~= p + n);
        assert(p.len() > pre);
        if p.len() >= 2 {
            assert(j[0] == p[0] && j[1] == p[1]);
        }
        assert(j[pre] == p[pre]);
        assert(j.subrange(pre, j.len() as int) =~= rest_p + n);
        assert(rest_p.last() == p.last());
        lemma_split_concat(st, rest_p, n, seq![]);
        assert(split_acc(st, rest_p, seq![]) + seq![n] =~= split_acc(st, rest_p, seq![]).push(n));
    } else {
        let c = sep_char(st);
        assert(is_sep(st, c));
        assert(j =~= p.push(c) + n);
        assert(p.len() > pre);
        if p.len() >= 2 {
            assert(j[0] == p[0] && j[1] == p[1]);
        } else {
            assert(j[1] == c);
        }
        assert(j[pre] == p[pre]);
        let x = rest_p.push(c);
        assert(j.subrange(pre, j.len() as int) =~= x + n);
        lemma_split_concat(st, x, n, seq![]);
        lemma_split_trailing_sep(st, rest_p, c, seq![]);
        assert(split_acc(st, rest_p, seq![]) + seq![n] =~= split_acc(st, rest_p, seq![]).push(n));
    }
    assert(j.subrange(0, pre) =~= p.subrange(0, pre));
}

/// A path joined with one normal name lies within that path, one level
/// below it: its comparison key is the path's with the name appended, so
/// the path does not lie within it in turn.
pub proof fn lemma_joined_name_within(st: PathStyle, p: Seq<char>, n: Seq<char>)
    requires
        normal_name(st, n),
    ensures
        compare_key(st, joined(st, p, n)) == compare_key(st, p).push(fold_case(st, n)),
        within(st, joined(st, p, n), p),
        !within(st, p, joined(st, p, n)),
{
    let j = joined(st, p, n);
    lemma_joined_names(st, p, n);
    let raw = raw_names(st, p);
    assert(raw.push(n).drop_last() =~= raw);
    let names = normalize_names(raw);
    assert(normalize_names(raw.push(n)) == names.push(n));
    let f = |t: Seq<char>| fold_case(st, t);
    assert(names.push(n).map_values(f) =~= names.map_values(f).push(fold_case(st, n)));
    if prefix_len(st, p) == 2 {
        assert(j.subrange(0, 2) == p.subrange(0, 2));
    }
    let kp = compare_key(st, p);
    assert(compare_key(st, j) =~= kp.push(fold_case(st, n)));
    assert(kp.push(fold_case(st, n)).subrange(0, kp.len() as int) =~= kp);
}

/// The guard refuses the save folder itself as the backup destination.
pub proof fn lemma_guard_refuses_same_folder(st: PathStyle, dir: Seq<char>)
    ensures
        backup_dest_check(st, dir, dir) == Err::<(), PathError>(PathError::DestInsideSave),
{
    lemma_within_order(st, dir, dir, dir);
}

/// Refuses a backup destination that overlaps the save folder in either
/// direction.
pub fn validate_backup_dest_as(st: PathStyle, save_dir: &str, dest: &str) -> (r: Result<
    (),
    PathError,
>)
    ensures
        r == backup_dest_check(st, save_dir@, dest@),
{
    if is_within_as(st, dest, save_dir) {
        return Err(PathError::DestInsideSave);
    }
    if is_within_as(st, save_dir, dest) {
        return Err(PathError::SaveInsideDest);
    }
    Ok(())
}

/// Refuses a backup destination that overlaps the save folder in either
/// direction, in this platform's style.
pub fn validate_backup_dest(save_dir: &str, dest: &str) -> (r: Result<(), PathError>)
    ensures
        r == backup_dest_check(PathStyle::Unix, save_dir@, dest@) || r == backup_dest_check(
            PathStyle::Windows,
            save_dir@,
            dest@,
        ),
{
    validate_backup_dest_as(path_style(), save_dir, dest)
}

/// What `Path::join` gives for a path `b` that carries neither a prefix nor a
/// root: `a`, a separator unless `a` already ends in one (or is empty, or is
/// a bare drive prefix), then `b`. A rooted `b` replaces all of `a` but its
/// prefix; a prefixed `b` replaces `a`.
pub open spec fn joined(st: PathStyle, a: Seq<char>, b: Seq<char>) -> Seq<char> {
    if prefix_len(st, b) == 2 {
        b
    } else if b.len() > 0 && is_sep(st, b[0]) {
        a.subrange(0, prefix_len(st, a)) + b
    } else if a.len() == 0 || is_sep(st, a.last()) || (prefix_len(st, a) == 2 && a.len() == 2) {
        a + b
    } else {
        a.push(sep_char(st)) + b
    }
}

/// `Path::join` in the given style.
pub fn join_as(st: PathStyle, a: &str, b: &str) -> (r: String)
    ensures
        r@ == joined(st, a@, b@),
{
    let av = to_chars(a);
    let bv = to_chars(b);
    let win = st == PathStyle::Windows;
    let bpre = win && bv.len() >= 2 && (('a' <= bv[0] && bv[0] <= 'z') || ('A' <= bv[0] && bv[0]
        <= 'Z')) && bv[1] == ':';
    let apre = win && av.len() >= 2 && (('a' <= av[0] && av[0] <= 'z') || ('A' <= av[0] && av[0]
        <= 'Z')) && av[1] == ':';
    assert(bpre == (prefix_len(st, b@) == 2));
    assert(apre == (prefix_len(st, a@) == 2));
    if bpre {
        return b.to_owned();
    }
    if bv.len() > 0 && (bv[0] == '/' || (win && bv[0] == '\\')) {
        if apre {
            let mut r: Vec<char> = Vec::new();
            r.push(av[0]);
            r.push(av[1]);
            assert(r@ =~= a@.subrange(0, 2));
            let head = from_chars(r.as_slice());
            return concat(head.as_str(), b);
        } else {
            assert(a@.subrange(0, 0) + b@ =~= b@);
            return b.to_owned();
        }
    }
    let n = av.len();
    if n == 0 || av[n - 1] == '/' || (win && av[n - 1] == '\\') || (apre && n == 2) {
        concat(a, b)
    } else {
        let mut head = a.to_owned();
        crate::text::push_char(&mut head, if win { '\\' } else { '/' });
        concat(head.as_str(), b)
    }
}

/// `Path::join` in this platform's style.
pub fn join(a: &str, b: &str) -> (r: String)
    ensures
        r@ == joined(PathStyle::Unix, a@, b@) || r@ == joined(PathStyle::Windows, a@, b@),
{
    join_as(path_style(), a, b)
}

/// A directory named by an environment variable: refused when the variable
/// is unset or empty.
pub fn env_dir(var: &str, value: Option<String>) -> (r: Result<String, PathError>)
    ensures
        match value {
            None => r matches Err(PathError::EnvUnset(v)) && v@ == var@,
            Some(s) => if s@.len() == 0 {
                r matches Err(PathError::EnvEmpty(v)) && v@ == var@
            } else {
                r == Ok::<String, PathError>(s)
            },
        },
{
    match value {
        None => Err(PathError::EnvUnset(var.to_owned())),
        Some(s) => {
            if s.as_str().is_empty() {
                Err(PathError::EnvEmpty(var.to_owned()))
            } else {
                Ok(s)
            }
        },
    }
}


/// `%APPDATA%` (Roaming), from the variable's value.
pub fn appdata_roaming(value: Option<String>) -> (r: Result<String, PathError>)
    ensures
        match value {
            None => r matches Err(PathError::EnvUnset(v)) && v@ == "APPDATA"@,
            Some(s) => if s@.len() == 0 {
                r matches Err(PathError::EnvEmpty(v)) && v@ == "APPDATA"@
            } else {
                r == Ok::<String, PathError>(s)
            },
        },
{
    env_dir("APPDATA", value)
}

/// `%LOCALAPPDATA%`, from the variable's value.
pub fn local_appdata(value: Option<String>) -> (r: Result<String, PathError>)
    ensures
        match value {
            None => r matches Err(PathError::EnvUnset(v)) && v@ == "LOCALAPPDATA"@,
            Some(s) => if s@.len() == 0 {
                r matches Err(PathError::EnvEmpty(v)) && v@ == "LOCALAPPDATA"@
            } else {
                r == Ok::<String, PathError>(s)
            },
        },
{
    env_dir("LOCALAPPDATA", value)
}

/// `%APPDATA%\EldenRing`: the save root holding one folder per SteamID64.
pub fn elden_ring_root(appdata: Option<String>) -> (r: Result<String, PathError>)
    ensures
        match appdata {
            None => r matches Err(PathError::EnvUnset(v)) && v@ == "APPDATA"@,
            Some(s) => if s@.len() == 0 {
                r matches Err(PathError::EnvEmpty(v)) && v@ == "APPDATA"@
            } else {
                r matches Ok(p) && (p@ == joined(PathStyle::Unix, s@, "EldenRing"@) || p@ == joined(
                    PathStyle::Windows,
                    s@,
                    "EldenRing"@,
                ))
            },
        },
{
    match appdata_roaming(appdata) {
        Ok(base) => Ok(join(base.as_str(), "EldenRing")),
        Err(e) => Err(e),
    }
}

/// `%LOCALAPPDATA%\EldenRingSaveGuard`: settings and logs.
pub fn app_data_dir(local: Option<String>) -> (r: Result<String, PathError>)
    ensures
        match local {
            None => r matches Err(PathError::EnvUnset(v)) && v@ == "LOCALAPPDATA"@,
            Some(s) => if s@.len() == 0 {
                r matches Err(PathError::EnvEmpty(v)) && v@ == "LOCALAPPDATA"@
            } else {
                r matches Ok(p) && (p@ == joined(PathStyle::Unix, s@, "EldenRingSaveGuard"@)
                    || p@ == joined(PathStyle::Windows, s@, "EldenRingSaveGuard"@))
            },
        },
{
    match local_appdata(local) {
        Ok(base) => Ok(join(base.as_str(), crate::APP_NAME)),
        Err(e) => Err(e),
    }
}

/// `%LOCALAPPDATA%\EldenRingSaveGuard\config.json`.
pub fn config_path(local: Option<String>) -> (r: Result<String, PathError>)
    ensures
        match local {
            None => r matches Err(PathError::EnvUnset(v)) && v@ == "LOCALAPPDATA"@,
            Some(s) => if s@.len() == 0 {
                r matches Err(PathError::EnvEmpty(v)) && v@ == "LOCALAPPDATA"@
            } else {
                r matches Ok(p) && exists|st: PathStyle|
                    p@ == joined(st, joined(st, s@, "EldenRingSaveGuard"@), "config.json"@)
            },
        },
{
    let st = path_style();
    match local_appdata(local) {
        Ok(base) => {
            let dir = join_as(st, base.as_str(), crate::APP_NAME);
            Ok(join_as(st, dir.as_str(), "config.json"))
        },
        Err(e) => Err(e),
    }
}

/// `%LOCALAPPDATA%\EldenRingSaveGuard\logs`.
pub fn log_dir(local: Option<String>) -> (r: Result<String, PathError>)
    ensures
        match local {
            None => r matches Err(PathError::EnvUnset(v)) && v@ == "LOCALAPPDATA"@,
            Some(s) => if s@.len() == 0 {
                r matches Err(PathError::EnvEmpty(v)) && v@ == "LOCALAPPDATA"@
            } else {
                r matches Ok(p) && exists|st: PathStyle|
                    p@ == joined(st, joined(st, s@, "EldenRingSaveGuard"@), "logs"@)
            },
        },
{
    let st = path_style();
    match local_appdata(local) {
        Ok(base) => {
            let dir = join_as(st, base.as_str(), crate::APP_NAME);
            Ok(join_as(st, dir.as_str(), "logs"))
        },
        Err(e) => Err(e),
    }
}

/// The layout of the default backup destination under a Documents folder.
pub open spec fn default_dest_in(st: PathStyle, documents: Seq<char>, steamid: Seq<char>) -> Seq<
    char,
> {
    joined(st, joined(st, joined(st, documents, "Game Save Backups"@), "Elden Ring"@), steamid)
}

/// `<documents>/Game Save Backups/Elden Ring/<steamid>` in the given style.
pub fn default_backup_dest_as(st: PathStyle, documents: &str, steamid: &str) -> (r: String)
    ensures
        r@ == default_dest_in(st, documents@, steamid@),
{
    let a = join_as(st, documents, "Game Save Backups");
    let b = join_as(st, a.as_str(), "Elden Ring");
    join_as(st, b.as_str(), steamid)
}

/// Default backup destination for a SteamID64, below the given Documents
/// folder.
pub fn default_backup_dest_in(documents: &str, steamid: &str) -> (r: String)
    ensures
        r@ == default_dest_in(PathStyle::Unix, documents@, steamid@) || r@ == default_dest_in(
            PathStyle::Windows,
            documents@,
            steamid@,
        ),
{
    default_backup_dest_as(path_style(), documents, steamid)
}

#[verifier::external_type_specification]
#[verifier::external_body]
pub struct ExUserDirs(directories::UserDirs);

/// `directories::UserDirs::new`: the user's folders, when the system gives a
/// home directory. What it finds depends on the machine; nothing is claimed.
#[verifier::external_body]
fn user_dirs() -> Option<directories::UserDirs> {
    directories::UserDirs::new()
}

/// `directories::UserDirs::document_dir`, as text. Which folder the system
/// names depends on the machine; nothing is claimed of it.
#[verifier::external_body]
fn document_dir(dirs: &directories::UserDirs) -> Option<String> {
    match dirs.document_dir() {
        Some(p) => Some(p.to_string_lossy().into_owned()),
        None => None,
    }
}

/// The user's Documents folder, honouring redirection such as OneDrive.
pub fn documents_dir() -> (r: Result<String, PathError>)
    ensures
        r is Err ==> r == Err::<String, PathError>(PathError::NoDocuments),
{
    match user_dirs() {
        Some(d) => match document_dir(&d) {
            Some(p) => Ok(p),
            None => Err(PathError::NoDocuments),
        },
        None => Err(PathError::NoDocuments),
    }
}

/// Default backup destination for a SteamID64, below the user's Documents.
pub fn default_backup_dest(steamid: &str) -> (r: Result<String, PathError>)
    ensures
        r is Err ==> r == Err::<String, PathError>(PathError::NoDocuments),
        r matches Ok(p) ==> exists|st: PathStyle, docs: Seq<char>| p@ == default_dest_in(
            st,
            docs,
            steamid@,
        ),
{
    let docs = documents_dir()?;
    Ok(default_backup_dest_in(docs.as_str(), steamid))
}

/// Keeps a leading `.` of a relative path (as `Path::components` does) and
/// drops every other `.`.
pub open spec fn drop_dots(ts: Seq<Seq<char>>, keep_first: bool) -> Seq<Seq<char>>
    decreases ts.len(),
{
    if ts.len() == 0 {
        seq![]
    } else if ts.last() == seq!['.'] && !(keep_first && ts.len() == 1) {
        drop_dots(ts.drop_last(), keep_first)
    } else {
        drop_dots(ts.drop_last(), keep_first).push(ts.last())
    }
}

/// The names among `Path::components`: normal names, `..`, and a leading `.`.
pub open spec fn component_names(st: PathStyle, s: Seq<char>) -> Seq<Seq<char>> {
    drop_dots(raw_names(st, s), prefix_len(st, s) == 0 && !has_root(st, s))
}

/// `Path::components`, each as text: the prefix, a root marker, the names.
pub open spec fn components(st: PathStyle, s: Seq<char>) -> Seq<Seq<char>> {
    (if prefix_len(st, s) == 2 {
        seq![s.subrange(0, 2)]
    } else {
        seq![]
    }) + (if has_root(st, s) {
        seq![seq!['/']]
    } else {
        seq![]
    }) + component_names(st, s)
}

/// One level down: a path joined with a normal name has that path as its
/// parent and that name as its file name.
pub proof fn lemma_joined_parent(st: PathStyle, p: Seq<char>, n: Seq<char>)
    requires
        normal_name(st, n),
    ensures
        parent_is(st, joined(st, p, n), p),
        file_name_of(st, joined(st, p, n)) == Some(n),
{
    let j = joined(st, p, n);
    lemma_joined_names(st, p, n);
    let raw = raw_names(st, p);
    let kf = prefix_len(st, p) == 0 && !has_root(st, p);
    assert(raw.push(n).drop_last() =~= raw);
    assert(drop_dots(raw.push(n), kf) == drop_dots(raw, kf).push(n));
    if prefix_len(st, p) == 2 {
        assert(j.subrange(0, 2) == p.subrange(0, 2));
    }
    assert(components(st, j) =~= components(st, p).push(n));
    assert(components(st, j).drop_last() =~= components(st, p));
}

/// Whether text is a single normal path component.
pub fn is_normal_name(st: PathStyle, name: &str) -> (r: bool)
    ensures
        r == normal_name(st, name@),
{
    let c = to_chars(name);
    let n = c.len();
    if n == 0 {
        return false;
    }
    let win = st == PathStyle::Windows;
    let mut i: usize = 0;
    while i < n
        invariant
            i <= n,
            n == c@.len(),
            c@ == name@,
            win == (st == PathStyle::Windows),
            forall|j: int| 0 <= j < i ==> !is_sep(st, #[trigger] c@[j]),
        decreases n - i,
    {
        if c[i] == '/' || (win && c[i] == '\\') {
            return false;
        }
        i = i + 1;
    }
    if win && n >= 2 && (('a' <= c[0] && c[0] <= 'z') || ('A' <= c[0] && c[0] <= 'Z')) && c[1] == ':' {
        return false;
    }
    if n == 1 && c[0] == '.' {
        assert(name@ =~= seq!['.']);
        return false;
    }
    if n == 2 && c[0] == '.' && c[1] == '.' {
        assert(name@ =~= seq!['.', '.']);
        return false;
    }
    assert(name@ != seq!['.']) by {
        if name@ == seq!['.'] {
            assert(name@[0] == '.');
        }
    }
    assert(name@ != seq!['.', '.']) by {
        if name@ == seq!['.', '.'] {
            assert(name@[0] == '.' && name@[1] == '.');
        }
    }
    true
}

/// `Path::file_name`: the last component when it is a normal name.
pub open spec fn file_name_of(st: PathStyle, s: Seq<char>) -> Option<Seq<char>> {
    let ns = component_names(st, s);
    if ns.len() > 0 && ns.last() != seq!['.'] && ns.last() != seq!['.', '.'] {
        Some(ns.last())
    } else {
        None
    }
}

/// `dir.parent() == Some(parent)`: `dir` is `parent` and one name more.
pub open spec fn parent_is(st: PathStyle, dir: Seq<char>, parent: Seq<char>) -> bool {
    component_names(st, dir).len() > 0 && components(st, dir).drop_last() == components(
        st,
        parent,
    )
}

/// The names of a path as `Path::components` yields them.
fn component_names_exec(st: PathStyle, s: &Vec<char>) -> (r: Vec<Vec<char>>)
    ensures
        r@.map_values(|v: Vec<char>| v@) == component_names(st, s@),
{
    let win = st == PathStyle::Windows;
    let plen: usize = if win && s.len() >= 2 && (('a' <= s[0] && s[0] <= 'z') || ('A' <= s[0]
        && s[0] <= 'Z')) && s[1] == ':' {
        2
    } else {
        0
    };
    assert(plen == prefix_len(st, s@));
    let root = s.len() > plen && (s[plen] == '/' || (win && s[plen] == '\\'));
    let keep_first = plen == 0 && !root;
    let ts = split_names(st, s.as_slice(), plen);
    let ghost tv = ts@.map_values(|v: Vec<char>| v@);
    let mut out: Vec<Vec<char>> = Vec::new();
    let mut i: usize = 0;
    while i < ts.len()
        invariant
            i <= ts@.len(),
            tv == ts@.map_values(|v: Vec<char>| v@),
            out@.map_values(|v: Vec<char>| v@) == drop_dots(tv.take(i as int), keep_first),
        decreases ts@.len() - i,
    {
        let ghost before = out@.map_values(|v: Vec<char>| v@);
        proof {
            assert(tv.take(i + 1).drop_last() =~= tv.take(i as int));
            assert(tv.take(i + 1).last() == tv[i as int]);
        }
        let t = &ts[i];
        if is_single_dot(t) && !(keep_first && i == 0) {
        } else {
            out.push(t.clone());
            proof {
                assert(out@.map_values(|v: Vec<char>| v@) =~= before.push(t@));
            }
        }
        i = i + 1;
    }
    proof {
        assert(tv.take(ts@.len() as int) =~= tv);
    }
    out
}

/// `r` holds what `Path::file_name` gives for `path`.
pub open spec fn file_name_is(st: PathStyle, path: Seq<char>, r: Option<String>) -> bool {
    match file_name_of(st, path) {
        Some(n) => r matches Some(s) && s@ == n,
        None => r is None,
    }
}

/// `Path::file_name` in the given style.
pub fn file_name_as(st: PathStyle, path: &str) -> (r: Option<String>)
    ensures
        file_name_is(st, path@, r),
{
    let s = to_chars(path);
    let ns = component_names_exec(st, &s);
    let ghost nv = ns@.map_values(|v: Vec<char>| v@);
    if ns.len() == 0 {
        return None;
    }
    let last = &ns[ns.len() - 1];
    assert(nv.last() == last@);
    if is_single_dot(last) || is_double_dot(last) {
        None
    } else {
        Some(from_chars(last.as_slice()))
    }
}

/// `Path::file_name` in this platform's style.
pub fn file_name(path: &str) -> (r: Option<String>)
    ensures
        file_name_is(PathStyle::Unix, path@, r) || file_name_is(PathStyle::Windows, path@, r),
{
    file_name_as(path_style(), path)
}

/// The components of a path, each as text.
fn components_exec(st: PathStyle, p: &str) -> (r: Vec<Vec<char>>)
    ensures
        r@.map_values(|v: Vec<char>| v@) == components(st, p@),
{
    let s = to_chars(p);
    let win = st == PathStyle::Windows;
    let plen: usize = if win && s.len() >= 2 && (('a' <= s[0] && s[0] <= 'z') || ('A' <= s[0]
        && s[0] <= 'Z')) && s[1] == ':' {
        2
    } else {
        0
    };
    assert(plen == prefix_len(st, p@));
    let root = s.len() > plen && (s[plen] == '/' || (win && s[plen] == '\\'));
    let mut out: Vec<Vec<char>> = Vec::new();
    if plen == 2 {
        let mut pre: Vec<char> = Vec::new();
        pre.push(s[0]);
        pre.push(s[1]);
        assert(pre@ =~= s@.subrange(0, 2));
        out.push(pre);
    }
    if root {
        let mut r: Vec<char> = Vec::new();
        r.push('/');
        out.push(r);
    }
    let names = component_names_exec(st, &s);
    let ghost head = out@.map_values(|v: Vec<char>| v@);
    let ghost nv = names@.map_values(|v: Vec<char>| v@);
    let mut i: usize = 0;
    while i < names.len()
        invariant
            i <= names@.len(),
            nv == names@.map_values(|v: Vec<char>| v@),
            out@.map_values(|v: Vec<char>| v@) == head + nv.take(i as int),
        decreases names@.len() - i,
    {
        let ghost before = out@.map_values(|v: Vec<char>| v@);
        out.push(names[i].clone());
        proof {
            assert(nv.take(i + 1) =~= nv.take(i as int).push(nv[i as int]));
            assert(out@.map_values(|v: Vec<char>| v@) =~= before.push(nv[i as int]));
        }
        i = i + 1;
    }
    proof {
        assert(nv.take(names@.len() as int) =~= nv);
        assert(out@.map_values(|v: Vec<char>| v@) =~= components(st, p@));
    }
    out
}

/// Whether two paths are equal as `Path`s are: component by component.
pub fn same_path_as(st: PathStyle, a: &str, b: &str) -> (r: bool)
    ensures
        r == (components(st, a@) == components(st, b@)),
{
    let x = components_exec(st, a);
    let y = components_exec(st, b);
    let ghost xv = x@.map_values(|v: Vec<char>| v@);
    let ghost yv = y@.map_values(|v: Vec<char>| v@);
    if x.len() != y.len() {
        assert(xv.len() != yv.len());
        return false;
    }
    let mut i: usize = 0;
    while i < x.len()
        invariant
            x@.len() == y@.len(),
            i <= x@.len(),
            xv == x@.map_values(|v: Vec<char>| v@),
            yv == y@.map_values(|v: Vec<char>| v@),
            xv == components(st, a@),
            yv == components(st, b@),
            forall|j: int| 0 <= j < i ==> xv[j] == yv[j],
        decreases x@.len() - i,
    {
        if !vec_chars_eq(&x[i], &y[i]) {
            assert(xv[i as int] != yv[i as int]);
            return false;
        }
        i = i + 1;
    }
    assert(xv =~= yv);
    true
}

/// Whether `dir.parent() == Some(parent)` in the given style.
pub fn parent_is_as(st: PathStyle, dir: &str, parent: &str) -> (r: bool)
    ensures
        r == parent_is(st, dir@, parent@),
{
    let d = components_exec(st, dir);
    let p = components_exec(st, parent);
    let ghost dv = d@.map_values(|v: Vec<char>| v@);
    let ghost pv = p@.map_values(|v: Vec<char>| v@);
    let dchars = to_chars(dir);
    let names = component_names_exec(st, &dchars);
    if names.len() == 0 {
        return false;
    }
    if d.len() == 0 || d.len() - 1 != p.len() {
        assert(dv.drop_last().len() != pv.len());
        return false;
    }
    let mut i: usize = 0;
    while i < p.len()
        invariant
            d@.len() == p@.len() + 1,
            i <= p@.len(),
            dv == d@.map_values(|v: Vec<char>| v@),
            pv == p@.map_values(|v: Vec<char>| v@),
            dv == components(st, dir@),
            pv == components(st, parent@),
            component_names(st, dir@).len() > 0,
            forall|j: int| 0 <= j < i ==> dv[j] == pv[j],
        decreases p@.len() - i,
    {
        if !vec_chars_eq(&d[i], &p[i]) {
            assert(dv.drop_last()[i as int] != pv[i as int]);
            return false;
        }
        i = i + 1;
    }
    assert(dv.drop_last() =~= pv);
    true
}

/// Whether `dir.parent() == Some(parent)` in this platform's style.
pub fn parent_is_dir(dir: &str, parent: &str) -> (r: bool)
    ensures
        r == parent_is(PathStyle::Unix, dir@, parent@) || r == parent_is(
            PathStyle::Windows,
            dir@,
            parent@,
        ),
{
    parent_is_as(path_style(), dir, parent)
}

} // verus!

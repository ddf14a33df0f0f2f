//! Discovery of vanilla Elden Ring save folders from what the file system
//! lists. No Steam APIs, registry or `loginusers.vdf`: a valid candidate is a
//! numeric `SteamID64` folder that holds a `.sl2` save.

use vstd::prelude::*;

use crate::clock::{UtcTime, utc_key, utc_sort_key};
use crate::paths::{PathStyle, join_as, joined};
use crate::sorting::{keys_of, lemma_stable_order, sort_stable_by_key, stable_order, stable_sorted};
use crate::text::{
    chars_lt, compare_chars, concat, eq_ascii_ci, eq_ignore_ascii_case, is_digit,
    lemma_chars_lt_total, lemma_chars_lt_transitive, str_eq, to_chars,
};

verus! {

/// A save folder of one Steam account.
#[derive(Debug, Clone, PartialEq, Eq)]
pub struct SaveCandidate {
    pub steamid: String,
    pub dir: String,
    /// Primary vanilla save file (`ER0000.sl2` when present).
    pub save_file: String,
    /// Sibling `.sl2.bak` if it exists.
    pub bak_file: Option<String>,
    pub modified: Option<UtcTime>,
    pub size: u64,
}

/// One entry of a save folder: its name, whether it is a regular file, and
/// what its metadata says, when it could be read (links followed).
#[derive(Debug, Clone)]
pub struct DirEntryInfo {
    pub name: String,
    pub is_file: bool,
    pub meta: Option<FileMeta>,
}

/// What the file system says of a save file: its modification time, when
/// known, and its length.
#[derive(Debug, Clone, Copy)]
pub struct FileMeta {
    pub modified: Option<UtcTime>,
    pub len: u64,
}

/// One entry of the Elden Ring folder: its name, whether it is a directory
/// (links followed), and its own entries when it is a directory with an
/// account folder's name that could be read.
#[derive(Debug, Clone)]
pub struct AccountFolder {
    pub name: String,
    pub is_dir: bool,
    pub entries: Option<Vec<DirEntryInfo>>,
}

/// A `SteamID64` folder name: one or more ASCII digits.
pub open spec fn is_steamid_name(s: Seq<char>) -> bool {
    s.len() > 0 && forall|i: int| 0 <= i < s.len() ==> #[trigger] is_digit(s[i])
}

pub fn is_steamid_dir_name(name: &str) -> (r: bool)
    ensures
        r == is_steamid_name(name@),
{
    let v = to_chars(name);
    if v.len() == 0 {
        return false;
    }
    let mut i: usize = 0;
    while i < v.len()
        invariant
            v@ == name@,
            i <= v@.len(),
            forall|j: int| 0 <= j < i ==> #[trigger] is_digit(v@[j]),
        decreases v@.len() - i,
    {
        if !('0' <= v[i] && v[i] <= '9') {
            assert(!is_digit(v@[i as int]));
            return false;
        }
        i = i + 1;
    }
    true
}

/// The index of the last `.` in `s`, or -1.
pub open spec fn last_dot(s: Seq<char>) -> int
    decreases s.len(),
{
    if s.len() == 0 {
        -1
    } else if s.last() == '.' {
        s.len() - 1
    } else {
        last_dot(s.drop_last())
    }
}

proof fn lemma_last_dot_bounds(s: Seq<char>)
    ensures
        -1 <= last_dot(s) < s.len(),
        last_dot(s) >= 0 ==> s[last_dot(s)] == '.',
    decreases s.len(),
{
    if s.len() > 0 && s.last() != '.' {
        lemma_last_dot_bounds(s.drop_last());
    }
}

/// `Path::extension` of a file name: what follows the last `.`, unless the
/// name is `..`, has no `.`, or has its only leading `.` as the last one.
pub open spec fn extension_of(name: Seq<char>) -> Option<Seq<char>> {
    if name == seq!['.', '.'] || last_dot(name) <= 0 {
        None
    } else {
        Some(name.subrange(last_dot(name) + 1, name.len() as int))
    }
}

/// The extension of a file name, as [`extension_of`] gives it.
fn extension(name: &[char]) -> (r: Option<Vec<char>>)
    ensures
        match extension_of(name@) {
            Some(x) => r matches Some(v) && v@ == x,
            None => r is None,
        },
{
    let n = name.len();
    if n == 2 && name[0] == '.' && name[1] == '.' {
        assert(name@ =~= seq!['.', '.']);
        return None;
    }
    let mut i: usize = n;
    assert(name@.take(n as int) =~= name@);
    while i > 0 && name[i - 1] != '.'
        invariant
            i <= n,
            n == name@.len(),
            last_dot(name@) == last_dot(name@.take(i as int)),
        decreases i,
    {
        assert(name@.take(i as int).drop_last() =~= name@.take(i - 1));
        i = i - 1;
    }
    if i == 0 {
        assert(name@.take(0) =~= Seq::<char>::empty());
        return None;
    }
    assert(name@.take(i as int).last() == '.');
    if i == 1 {
        return None;
    }
    assert(name@ != seq!['.', '.']) by {
        if name@ == seq!['.', '.'] {
            assert(name@.len() == 2);
        }
    }
    let mut out: Vec<char> = Vec::new();
    let mut j: usize = i;
    while j < n
        invariant
            i <= j <= n,
            n == name@.len(),
            out@ == name@.subrange(i as int, j as int),
        decreases n - j,
    {
        out.push(name[j]);
        assert(name@.subrange(i as int, j + 1) =~= name@.subrange(i as int, j as int).push(
            name@[j as int],
        ));
        j = j + 1;
    }
    Some(out)
}

/// A vanilla save: a file with the extension `sl2` in any ASCII case (never
/// `.co2` of Seamless Co-op, nor `.sl2.bak`).
pub open spec fn is_sl2_entry(e: DirEntryInfo) -> bool {
    e.is_file && (extension_of(e.name@) matches Some(x) && eq_ascii_ci(x, "sl2"@))
}

/// The canonical save file `ER0000.sl2`, in any ASCII case.
pub open spec fn is_canonical_entry(e: DirEntryInfo) -> bool {
    is_sl2_entry(e) && eq_ascii_ci(e.name@, "ER0000.sl2"@)
}

/// A vanilla save, or only the canonical one.
pub open spec fn qualifies(e: DirEntryInfo, canonical_only: bool) -> bool {
    if canonical_only {
        is_canonical_entry(e)
    } else {
        is_sl2_entry(e)
    }
}

/// Entry `k` has the least name among the entries that qualify.
pub open spec fn least_name(entries: Seq<DirEntryInfo>, canonical_only: bool, k: int) -> bool {
    &&& 0 <= k < entries.len()
    &&& qualifies(entries[k], canonical_only)
    &&& forall|j: int|
        0 <= j < entries.len() && qualifies(#[trigger] entries[j], canonical_only) ==> !chars_lt(
            entries[j].name@,
            entries[k].name@,
        )
}

/// The entry chosen as the primary save: the canonical `ER0000.sl2` when
/// present, else the first `.sl2` in name order.
pub open spec fn is_primary(entries: Seq<DirEntryInfo>, k: int) -> bool {
    if exists|j: int| 0 <= j < entries.len() && #[trigger] is_canonical_entry(entries[j]) {
        least_name(entries, true, k)
    } else {
        least_name(entries, false, k)
    }
}

/// Whether an entry is a vanilla save, and whether it is the canonical one.
fn classify(e: &DirEntryInfo) -> (r: (bool, bool))
    ensures
        r.0 == is_sl2_entry(*e),
        r.1 == is_canonical_entry(*e),
{
    if !e.is_file {
        return (false, false);
    }
    let name = to_chars(e.name.as_str());
    let sl2 = match extension(name.as_slice()) {
        Some(x) => {
            let want = to_chars("sl2");
            eq_ignore_ascii_case(x.as_slice(), want.as_slice())
        },
        None => false,
    };
    if !sl2 {
        return (false, false);
    }
    let canon = to_chars("ER0000.sl2");
    (true, eq_ignore_ascii_case(name.as_slice(), canon.as_slice()))
}

/// Updates the index of the least name among the entries seen so far that
/// satisfy a predicate, with entry `i` that satisfies it.
fn keep_least(entries: &[DirEntryInfo], best: Option<usize>, i: usize) -> (r: usize)
    requires
        i < entries@.len(),
        best matches Some(b) ==> b < i,
    ensures
        r == i || best == Some(r),
        best matches Some(b) ==> (r == i <==> chars_lt(entries@[i as int].name@, entries@[b as int].name@)),
{
    match best {
        None => i,
        Some(b) => {
            let x = to_chars(entries[i].name.as_str());
            let y = to_chars(entries[b].name.as_str());
            if compare_chars(x.as_slice(), y.as_slice()) < 0 {
                i
            } else {
                b
            }
        },
    }
}

/// The primary save file of a folder from its entries: `ER0000.sl2` (in any
/// ASCII case) when present, else the first `.sl2` file in name order.
/// `None` when the folder holds no `.sl2` file.
pub fn primary_sl2(st: PathStyle, dir: &str, entries: &[DirEntryInfo]) -> (r: Option<String>)
    ensures
        r is None <==> !exists|j: int| 0 <= j < entries@.len() && #[trigger] is_sl2_entry(entries@[j]),
        r matches Some(p) ==> exists|k: int|
            #![trigger entries@[k]]
            is_primary(entries@, k) && p@ == joined(st, dir@, entries@[k].name@),
{
    match primary_index(entries) {
        Some(k) => {
            assert(is_primary(entries@, k as int));
            Some(join_as(st, dir, entries[k].name.as_str()))
        },
        None => None,
    }
}

/// The position of a folder's primary save among its entries.
fn primary_index(entries: &[DirEntryInfo]) -> (r: Option<usize>)
    ensures
        r is None <==> !exists|j: int| 0 <= j < entries@.len() && #[trigger] is_sl2_entry(entries@[j]),
        r matches Some(k) ==> k < entries@.len() && is_primary(entries@, k as int),
{
    let mut best_any: Option<usize> = None;
    let mut best_canon: Option<usize> = None;
    let mut i: usize = 0;
    while i < entries.len()
        invariant
            i <= entries@.len(),
            best_any is None <==> !exists|j: int| 0 <= j < i && #[trigger] is_sl2_entry(entries@[j]),
            best_canon is None <==> !exists|j: int|
                0 <= j < i && #[trigger] is_canonical_entry(entries@[j]),
            best_any matches Some(b) ==> b < i && least_name(entries@.take(i as int), false, b as int),
            best_canon matches Some(b) ==> b < i && least_name(entries@.take(i as int), true, b as int),
        decreases entries@.len() - i,
    {
        let ghost before = entries@.take(i as int);
        let ghost after = entries@.take(i + 1);
        let (is_sl2, is_canon) = classify(&entries[i]);
        let ghost old_any = best_any;
        let ghost old_canon = best_canon;
        if is_sl2 {
            best_any = Some(keep_least(entries, best_any, i));
        }
        if is_canon {
            best_canon = Some(keep_least(entries, best_canon, i));
        }
        proof {
            assert forall|j: int| 0 <= j < i + 1 implies #[trigger] after[j] == entries@[j] by {}
            lemma_least_step(entries@, i as int, false, old_any, best_any);
            lemma_least_step(entries@, i as int, true, old_canon, best_canon);
        }
        i = i + 1;
    }
    assert(entries@.take(entries@.len() as int) =~= entries@);
    match best_canon {
        Some(k) => {
            assert(is_canonical_entry(entries@[k as int]));
            Some(k)
        },
        None => best_any,
    }
}

/// One step of the least-name search: after looking at entry `i`, the index
/// kept is the least among the first `i + 1` entries.
proof fn lemma_least_step(
    entries: Seq<DirEntryInfo>,
    i: int,
    canonical_only: bool,
    before: Option<usize>,
    after: Option<usize>,
)
    requires
        0 <= i < entries.len(),
        before is None <==> !exists|j: int| 0 <= j < i && #[trigger] qualifies(entries[j], canonical_only),
        before matches Some(b) ==> b < i && least_name(entries.take(i), canonical_only, b as int),
        qualifies(entries[i], canonical_only) ==> (after matches Some(r) && (r == i || before == Some(r)) && (
        before matches Some(b) ==> (r == i <==> chars_lt(entries[i].name@, entries[b as int].name@)))),
        !qualifies(entries[i], canonical_only) ==> after == before,
    ensures
        after is None <==> !exists|j: int| 0 <= j < i + 1 && #[trigger] qualifies(entries[j], canonical_only),
        after matches Some(b) ==> b < i + 1 && least_name(entries.take(i + 1), canonical_only, b as int),
{
    let t0 = entries.take(i);
    let t1 = entries.take(i + 1);
    assert forall|j: int| 0 <= j < i implies #[trigger] t0[j] == entries[j] by {}
    assert forall|j: int| 0 <= j < i + 1 implies #[trigger] t1[j] == entries[j] by {}
    if qualifies(entries[i], canonical_only) {
        assert(qualifies(t1[i], canonical_only));
    } else {
        if before is None {
            assert forall|j: int| 0 <= j < i + 1 implies !#[trigger] qualifies(entries[j], canonical_only) by {
                if j < i {
                    assert(!qualifies(entries[j], canonical_only));
                }
            }
        }
    }
    if let Some(r) = after {
        let r = r as int;
        assert forall|j: int| 0 <= j < t1.len() && qualifies(#[trigger] t1[j], canonical_only) implies !chars_lt(
            t1[j].name@,
            t1[r].name@,
        ) by {
            if j < i {
                assert(t0[j] == t1[j]);
                if let Some(b) = before {
                    let b = b as int;
                    assert(!chars_lt(t0[j].name@, t0[b].name@));
                    if r == i && r != b {
                        // entry i is strictly below b, and nothing seen was below b
                        if chars_lt(t1[j].name@, t1[r].name@) {
                            lemma_chars_lt_transitive(t1[j].name@, t1[r].name@, t0[b].name@);
                        }
                    }
                } else {
                    assert(qualifies(entries[j], canonical_only));
                }
            } else {
                assert(j == i);
                if let Some(b) = before {
                    let b = b as int;
                    if r != i {
                        assert(!chars_lt(entries[i].name@, entries[b].name@));
                    } else {
                        text_lt_irreflexive(t1[r].name@);
                    }
                } else {
                    assert(r == i);
                    text_lt_irreflexive(t1[r].name@);
                }
            }
        }
        if r < i {
            assert(t0[r] == t1[r]);
        }
    }
}

proof fn text_lt_irreflexive(a: Seq<char>)
    ensures
        !chars_lt(a, a),
{
    crate::text::lemma_chars_lt_irreflexive(a);
}

/// The sibling backup of a save file: its path with `.bak` appended.
pub fn bak_path(save_file: &str) -> (r: String)
    ensures
        r@ == save_file@ + ".bak"@,
{
    concat(save_file, ".bak")
}

/// The candidate for an account folder whose primary save is `save_file`:
/// the backup sibling is listed when it is a file, the save's modification
/// time and size when its metadata could be read (size 0 otherwise).
pub fn candidate_for(
    dir: &str,
    steamid: &str,
    save_file: String,
    bak_is_file: bool,
    save_meta: Option<FileMeta>,
) -> (r: SaveCandidate)
    ensures
        r.steamid@ == steamid@,
        r.dir@ == dir@,
        r.save_file@ == save_file@,
        match r.bak_file {
            Some(b) => bak_is_file && b@ == save_file@ + ".bak"@,
            None => !bak_is_file,
        },
        r.modified == (match save_meta {
            Some(m) => m.modified,
            None => None,
        }),
        r.size == (match save_meta {
            Some(m) => m.len,
            None => 0,
        }),
{
    let bak = if bak_is_file {
        Some(bak_path(save_file.as_str()))
    } else {
        None
    };
    let (modified, size) = match save_meta {
        Some(m) => (m.modified, m.len),
        None => (None, 0),
    };
    SaveCandidate {
        steamid: steamid.to_owned(),
        dir: dir.to_owned(),
        save_file,
        bak_file: bak,
        modified,
        size,
    }
}

/// Whether a folder's entries hold a file of that name.
pub open spec fn has_file_named(es: Seq<DirEntryInfo>, name: Seq<char>) -> bool {
    exists|j: int| 0 <= j < es.len() && (#[trigger] es[j]).is_file && es[j].name@ == name
}

/// An entry of the Elden Ring folder that yields a candidate: a directory
/// with an account's name whose entries hold a vanilla save.
pub open spec fn yields_candidate(f: AccountFolder) -> bool {
    &&& f.is_dir
    &&& is_steamid_name(f.name@)
    &&& f.entries matches Some(es) && exists|j: int|
        0 <= j < es@.len() && #[trigger] is_sl2_entry(es@[j])
}

/// The account folders that yield a candidate, in listing order.
pub open spec fn yielding(found: Seq<AccountFolder>) -> Seq<AccountFolder> {
    found.filter(|f: AccountFolder| yields_candidate(f))
}

/// `c` is the candidate of folder `f` under `root`: the account is the
/// folder's name, the save its primary `.sl2`, the backup that save's
/// `.bak` sibling when it is a file, and the save's time and size from its
/// metadata (size 0 when unreadable).
pub open spec fn candidate_of(st: PathStyle, root: Seq<char>, f: AccountFolder, c: SaveCandidate) -> bool {
    f.entries matches Some(es) && exists|k: int|
        #![trigger es@[k]]
        is_primary(es@, k) && {
            let dir = joined(st, root, f.name@);
            let save = joined(st, dir, es@[k].name@);
            &&& c.steamid@ == f.name@
            &&& c.dir@ == dir
            &&& c.save_file@ == save
            &&& match c.bak_file {
                Some(b) => b@ == save + ".bak"@ && has_file_named(es@, es@[k].name@ + ".bak"@),
                None => !has_file_named(es@, es@[k].name@ + ".bak"@),
            }
            &&& c.modified == match es@[k].meta {
                Some(m) => m.modified,
                None => None,
            }
            &&& c.size == match es@[k].meta {
                Some(m) => m.len,
                None => 0,
            }
        }
}

/// Each candidate is that of the folder at the same place among those that
/// yield one.
pub open spec fn candidates_of(st: PathStyle, root: Seq<char>, found: Seq<AccountFolder>, cs: Seq<SaveCandidate>) -> bool {
    &&& cs.len() == yielding(found).len()
    &&& forall|i: int| 0 <= i < cs.len() ==> candidate_of(st, root, yielding(found)[i], #[trigger] cs[i])
}

/// Whether the entries hold a file named `name` followed by `.bak`.
fn has_bak_file(es: &Vec<DirEntryInfo>, name: &str) -> (r: bool)
    ensures
        r == has_file_named(es@, name@ + ".bak"@),
{
    let want = concat(name, ".bak");
    let mut i: usize = 0;
    while i < es.len()
        invariant
            i <= es@.len(),
            want@ == name@ + ".bak"@,
            forall|j: int| 0 <= j < i ==> !((#[trigger] es@[j]).is_file && es@[j].name@ == want@),
        decreases es@.len() - i,
    {
        if es[i].is_file && str_eq(es[i].name.as_str(), want.as_str()) {
            return true;
        }
        i = i + 1;
    }
    false
}

/// The candidate of one entry of the Elden Ring folder at `root`, when it
/// yields one.
pub fn folder_candidate(st: PathStyle, root: &str, f: &AccountFolder) -> (r: Option<SaveCandidate>)
    ensures
        r is Some <==> yields_candidate(*f),
        r matches Some(c) ==> candidate_of(st, root@, *f, c),
{
    if !f.is_dir || !is_steamid_dir_name(f.name.as_str()) {
        return None;
    }
    match &f.entries {
        None => None,
        Some(es) => match primary_index(es.as_slice()) {
            None => None,
            Some(k) => {
                let dir = join_as(st, root, f.name.as_str());
                let save = join_as(st, dir.as_str(), es[k].name.as_str());
                let bak = has_bak_file(es, es[k].name.as_str());
                let c = candidate_for(dir.as_str(), f.name.as_str(), save, bak, es[k].meta);
                assert(is_primary(es@, k as int));
                Some(c)
            },
        },
    }
}

/// Sort key putting the newest save first and saves of unknown age last.
pub open spec fn newest_first_key(m: Option<UtcTime>) -> int {
    match m {
        Some(t) => -utc_key(t),
        None => 0x7fff_ffff_ffff_ffff_ffff_ffff_ffff_ffff,
    }
}

pub open spec fn candidate_keys(cs: Seq<SaveCandidate>) -> Seq<int> {
    cs.map_values(|c: SaveCandidate| newest_first_key(c.modified))
}

/// `m` is at least as new as `n`: a known time beats an unknown one.
pub open spec fn newer_or_same(m: Option<UtcTime>, n: Option<UtcTime>) -> bool {
    match (m, n) {
        (Some(a), Some(b)) => utc_key(b) <= utc_key(a),
        (_, None) => true,
        (None, Some(_)) => false,
    }
}

fn newest_first_sort_key(m: Option<UtcTime>) -> (k: i128)
    ensures
        k == newest_first_key(m),
{
    match m {
        Some(t) => {
            let k = utc_sort_key(t);
            assert(-0x8000_0000_0000_0000 * 0x1_0000_0000 <= t.secs * 0x1_0000_0000) by (nonlinear_arith);
            -k
        },
        None => i128::MAX,
    }
}

/// The valid save candidates among the entries of the Elden Ring folder at
/// `root` (directories with a numeric name and a save), newest save first;
/// saves of equal age keep their listing order.
pub fn discover(st: PathStyle, root: &str, found: Vec<AccountFolder>) -> (r: Vec<SaveCandidate>)
    ensures
        exists|cs: Seq<SaveCandidate>|
            candidates_of(st, root@, found@, cs) && r@ == stable_sorted(cs, candidate_keys(cs)),
        r@.len() == yielding(found@).len(),
        forall|i: int, j: int|
            0 <= i < j < r@.len() ==> newer_or_same(r@[i].modified, r@[j].modified),
{
    let ghost pred = |f: AccountFolder| yields_candidate(f);
    let ghost orig = found@;
    let n = found.len();
    let mut kept: Vec<SaveCandidate> = Vec::new();
    let mut keys: Vec<i128> = Vec::new();
    let mut i: usize = 0;
    proof {
        reveal_with_fuel(Seq::<_>::filter, 1);
        assert(orig.take(0) =~= Seq::<AccountFolder>::empty());
        assert(orig.take(0).filter(pred) =~= Seq::<AccountFolder>::empty());
        assert(keys_of(keys@) =~= candidate_keys(kept@));
    }
    while i < n
        invariant
            n == orig.len(),
            orig == found@,
            i <= n,
            pred == (|f: AccountFolder| yields_candidate(f)),
            kept@.len() == orig.take(i as int).filter(pred).len(),
            forall|j: int|
                0 <= j < kept@.len() ==> candidate_of(
                    st,
                    root@,
                    orig.take(i as int).filter(pred)[j],
                    #[trigger] kept@[j],
                ),
            keys_of(keys@) == candidate_keys(kept@),
            keys@.len() == kept@.len(),
        decreases n - i,
    {
        let f = &found[i];
        let ghost before = kept@;
        let ghost fb = orig.take(i as int).filter(pred);
        proof {
            reveal_with_fuel(Seq::<_>::filter, 1);
            assert(orig.take(i + 1).drop_last() =~= orig.take(i as int));
            assert(orig.take(i + 1).last() == *f);
        }
        match folder_candidate(st, root, f) {
            Some(c) => {
                let k = newest_first_sort_key(c.modified);
                let ghost old_keys = keys@;
                let ghost ck = newest_first_key(c.modified);
                kept.push(c);
                keys.push(k);
                proof {
                    assert(orig.take(i + 1).filter(pred) =~= fb.push(*f));
                    assert forall|j: int| 0 <= j < kept@.len() implies candidate_of(
                        st,
                        root@,
                        orig.take(i + 1).filter(pred)[j],
                        #[trigger] kept@[j],
                    ) by {
                        if j < before.len() {
                            assert(kept@[j] == before[j]);
                        }
                    }
                    assert(keys_of(keys@) =~= keys_of(old_keys).push(ck));
                    assert(candidate_keys(kept@) =~= candidate_keys(before).push(ck));
                }
            },
            None => {
                proof {
                    assert(orig.take(i + 1).filter(pred) =~= fb);
                }
            },
        }
        i = i + 1;
    }
    proof {
        assert(orig.take(n as int) =~= orig);
        assert(candidates_of(st, root@, found@, kept@));
    }
    let ghost items = kept@;
    let ghost ks = keys_of(keys@);
    let r = sort_stable_by_key(kept, keys);
    proof {
        lemma_stable_order(ks);
        let so = stable_order(ks);
        assert forall|i: int, j: int| 0 <= i < j < r@.len() implies newer_or_same(
            r@[i].modified,
            r@[j].modified,
        ) by {
            let pi = so[i].1;
            let pj = so[j].1;
            assert(so[i].0 == ks[pi]);
            assert(so[j].0 == ks[pj]);
            let leq = |a: (int, int), b: (int, int)| crate::sorting::key_pos_leq(a, b);
            assert(vstd::relations::sorted_by(so, leq));
            assert(leq(so[i], so[j]));
            assert(r@[i] == items[pi]);
            assert(r@[j] == items[pj]);
            assert(ks[pi] == newest_first_key(items[pi].modified));
            assert(ks[pj] == newest_first_key(items[pj].modified));
        }
    }
    r
}

/// The candidate whose folder name is `steamid`: the first such in the list.
pub fn find(candidates: Vec<SaveCandidate>, steamid: &str) -> (r: Option<SaveCandidate>)
    ensures
        match r {
            None => forall|i: int|
                0 <= i < candidates@.len() ==> #[trigger] candidates@[i].steamid@ != steamid@,
            Some(c) => exists|i: int|
                0 <= i < candidates@.len() && c == #[trigger] candidates@[i] && c.steamid@ == steamid@
                    && forall|j: int| 0 <= j < i ==> #[trigger] candidates@[j].steamid@ != steamid@,
        },
{
    let mut i: usize = 0;
    while i < candidates.len()
        invariant
            i <= candidates@.len(),
            forall|j: int| 0 <= j < i ==> #[trigger] candidates@[j].steamid@ != steamid@,
        decreases candidates@.len() - i,
    {
        if str_eq(candidates[i].steamid.as_str(), steamid) {
            let ghost orig = candidates@;
            let mut candidates = candidates;
            let c = candidates.remove(i);
            assert(c == orig[i as int]);
            return Some(c);
        }
        i = i + 1;
    }
    None
}

} // verus!

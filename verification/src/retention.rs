//! Per-account snapshot retention. The newest `keep` snapshots that pass
//! their integrity check are kept, together with everything newer than the
//! oldest of them; only finalized snapshot folders directly under
//! `<dest>/snapshots/` and older than every kept snapshot are ever deleted.

use vstd::prelude::*;

use crate::paths::{PathStyle, joined, parent_is, parent_is_as};
use crate::snapshot::{Snapshot, snapshots_dir_as};

verus! {

/// How many intact snapshots are kept: at least one.
pub open spec fn kept(keep: usize) -> nat {
    if keep < 1 {
        1
    } else {
        keep as nat
    }
}

/// How many of the flags are set.
pub open spec fn intact_count(v: Seq<bool>) -> nat
    decreases v.len(),
{
    if v.len() == 0 {
        0
    } else {
        intact_count(v.drop_last()) + if v.last() {
            1nat
        } else {
            0nat
        }
    }
}

/// Where the kept snapshots begin, in a listing oldest to newest whose
/// integrity flags are `intact`: the position of the `k`-th newest intact
/// snapshot, or 0 (keep everything) when there are fewer than `k`.
pub open spec fn keep_from(intact: Seq<bool>, k: nat) -> int
    decreases intact.len(),
{
    if k == 0 {
        intact.len() as int
    } else if intact.len() == 0 {
        0
    } else if intact.last() {
        keep_from(intact.drop_last(), (k - 1) as nat)
    } else {
        keep_from(intact.drop_last(), k)
    }
}

/// A snapshot folder that sits directly under `<dest>/snapshots`.
pub open spec fn managed(st: PathStyle, dest: Seq<char>, s: Snapshot) -> bool {
    parent_is(st, s.dir@, joined(st, dest, "snapshots"@))
}

/// The snapshots retention deletes, given the account's snapshots listed
/// oldest to newest and whether each passed its integrity check: those
/// older than the newest `keep` (at least one) intact ones, skipping any
/// folder that is not directly under `<dest>/snapshots`.
pub open spec fn retention_victims(
    st: PathStyle,
    dest: Seq<char>,
    listed: Seq<Snapshot>,
    intact: Seq<bool>,
    keep: usize,
) -> Seq<Snapshot> {
    listed.take(keep_from(intact, kept(keep))).filter(|s: Snapshot| managed(st, dest, s))
}

/// Where the kept snapshots begin, computed from the newest end.
fn keep_from_exec(intact: &[bool], keep: usize) -> (r: usize)
    ensures
        r == keep_from(intact@, kept(keep)),
{
    let mut remaining: usize = if keep < 1 {
        1
    } else {
        keep
    };
    let mut i: usize = intact.len();
    assert(intact@.take(i as int) =~= intact@);
    while i > 0 && remaining > 0
        invariant
            i <= intact@.len(),
            keep_from(intact@, kept(keep)) == keep_from(intact@.take(i as int), remaining as nat),
        decreases i,
    {
        assert(intact@.take(i as int).drop_last() =~= intact@.take(i - 1));
        assert(intact@.take(i as int).last() == intact@[i - 1]);
        if intact[i - 1] {
            remaining = remaining - 1;
        }
        i = i - 1;
    }
    assert(intact@.take(0) =~= Seq::<bool>::empty());
    i
}

/// Picks the snapshots to delete, oldest first, from the account's
/// snapshots listed oldest to newest and whether each one's archive matches
/// its metadata. The caller deletes each and reports those it removed.
pub fn retention_plan(
    st: PathStyle,
    dest: &str,
    listed: Vec<Snapshot>,
    intact: &[bool],
    keep: usize,
) -> (r: Vec<Snapshot>)
    requires
        intact@.len() == listed@.len(),
    ensures
        r@ == retention_victims(st, dest@, listed@, intact@, keep),
        (forall|i: int| 0 <= i < intact@.len() ==> #[trigger] intact@[i]) && (listed@.len() <= keep
            || listed@.len() <= 1) ==> r@.len() == 0,
        intact_count(intact@) < keep || intact_count(intact@) == 0 ==> r@.len() == 0,
{
    let cut = keep_from_exec(intact, keep);
    proof {
        lemma_keep_from(intact@, kept(keep));
        lemma_retention_keeps_k(st, dest@, listed@, intact@, keep);
    }
    let n = listed.len();
    let ghost orig = listed@;
    let ghost pred = |s: Snapshot| managed(st, dest@, s);
    let snaps_dir = snapshots_dir_as(st, dest);
    let mut rest = listed;
    let mut out: Vec<Snapshot> = Vec::new();
    let mut i: usize = 0;
    proof {
        assert(orig.take(0) =~= Seq::<Snapshot>::empty());
        reveal_with_fuel(Seq::<_>::filter, 1);
        assert(orig.take(0).filter(pred) =~= Seq::<Snapshot>::empty());
    }
    while i < cut
        invariant
            cut <= n,
            n == orig.len(),
            i <= cut,
            rest@ == orig.subrange(i as int, n as int),
            snaps_dir@ == joined(st, dest@, "snapshots"@),
            pred == (|s: Snapshot| managed(st, dest@, s)),
            out@ == orig.take(i as int).filter(pred),
        decreases cut - i,
    {
        let s = rest.remove(0);
        assert(s == orig[i as int]);
        proof {
            reveal_with_fuel(Seq::<_>::filter, 1);
            assert(orig.take(i + 1).drop_last() =~= orig.take(i as int));
            assert(orig.take(i + 1).last() == s);
        }
        if parent_is_as(st, s.dir.as_str(), snaps_dir.as_str()) {
            out.push(s);
        }
        i = i + 1;
    }
    out
}

/// Where the kept snapshots begin: within the listing, with exactly as many
/// intact snapshots from there on as are kept (all of them when there are
/// fewer), and, when anything is cut, an intact snapshot first.
pub proof fn lemma_keep_from(intact: Seq<bool>, k: nat)
    ensures
        0 <= keep_from(intact, k) <= intact.len(),
        k > 0 && intact.len() > 0 ==> keep_from(intact, k) < intact.len(),
        intact_count(intact.skip(keep_from(intact, k))) == if intact_count(intact) < k {
            intact_count(intact)
        } else {
            k
        },
        k > 0 && keep_from(intact, k) > 0 ==> intact[keep_from(intact, k)],
        intact_count(intact) < k ==> keep_from(intact, k) == 0,
    decreases intact.len(),
{
    let c = keep_from(intact, k);
    if k == 0 {
        assert(intact.skip(intact.len() as int) =~= Seq::<bool>::empty());
    } else if intact.len() == 0 {
        assert(intact.skip(0) =~= intact);
    } else {
        let d = intact.drop_last();
        let k2: nat = if intact.last() {
            (k - 1) as nat
        } else {
            k
        };
        lemma_keep_from(d, k2);
        assert(c == keep_from(d, k2));
        assert(intact.skip(c).drop_last() =~= d.skip(c));
        assert(intact.skip(c).last() == intact.last());
        assert(intact.skip(c).len() > 0);
        if c > 0 {
            if k2 == 0 {
                assert(c == d.len());
                assert(intact[c] == intact.last());
            } else {
                assert(c < d.len());
                assert(intact[c] == d[c]);
            }
        }
    }
}

/// Counting the intact snapshots of a listing piece by piece.
proof fn lemma_count_split(v: Seq<bool>, j: int)
    requires
        0 <= j <= v.len(),
    ensures
        intact_count(v) == intact_count(v.take(j)) + intact_count(v.skip(j)),
    decreases v.len(),
{
    if j == v.len() {
        assert(v.take(j) =~= v);
        assert(v.skip(j) =~= Seq::<bool>::empty());
    } else {
        let d = v.drop_last();
        lemma_count_split(d, j);
        assert(d.take(j) =~= v.take(j));
        assert(v.skip(j).drop_last() =~= d.skip(j));
        assert(v.skip(j).last() == v.last());
    }
}

/// A listing whose first snapshot is intact counts it.
proof fn lemma_count_first(v: Seq<bool>)
    requires
        v.len() > 0,
        v[0],
    ensures
        intact_count(v) >= 1 + intact_count(v.skip(1)),
{
    lemma_count_split(v, 1);
    assert(v.take(1).drop_last() =~= Seq::<bool>::empty());
    assert(v.take(1).last() == v[0]);
}

/// Retention keeps as many intact snapshots as asked (at least one), in
/// terms of `keep` itself: with `k = max(keep, 1)`, nothing is deleted
/// while at most `k` snapshots are listed and all are intact, or while fewer
/// than `k` are intact; and every snapshot deleted is older than at least
/// `k` intact snapshots of the listing.
pub proof fn lemma_retention_keeps_k(
    st: PathStyle,
    dest: Seq<char>,
    listed: Seq<Snapshot>,
    intact: Seq<bool>,
    keep: usize,
)
    requires
        intact.len() == listed.len(),
    ensures
        ({
            let k: nat = if keep == 0 {
                1
            } else {
                keep as nat
            };
            let v = retention_victims(st, dest, listed, intact, keep);
            &&& (forall|i: int| 0 <= i < intact.len() ==> #[trigger] intact[i]) && listed.len() <= k
                ==> v.len() == 0
            &&& intact_count(intact) < k ==> v.len() == 0
            &&& forall|j: int| 0 <= j < v.len() ==> older_than_intact(listed, intact, #[trigger] v[j], k)
        }),
{
    broadcast use vstd::seq_lib::group_filter_ensures;

    let k = kept(keep);
    lemma_keep_from(intact, k);
    lemma_retention_keeps_newest_intact(st, dest, listed, intact, keep);
    let c = keep_from(intact, k);
    let v = retention_victims(st, dest, listed, intact, keep);
    if (forall|i: int| 0 <= i < intact.len() ==> #[trigger] intact[i]) && listed.len() <= k {
        if c > 0 {
            lemma_count_split(intact, c);
            assert(intact.skip(c) =~= intact.skip(c));
            lemma_count_first(intact.take(c));
            assert(intact.take(c)[0] == intact[0]);
            lemma_count_bound(intact);
            assert(false);
        }
        let t = listed.take(c);
        assert(t =~= Seq::<Snapshot>::empty());
        reveal_with_fuel(Seq::<_>::filter, 1);
        assert(v =~= Seq::<Snapshot>::empty());
    }
    assert forall|j: int| 0 <= j < v.len() implies older_than_intact(listed, intact, #[trigger] v[j], k) by {
        let p = choose|i: int| 0 <= i < c && listed[i] == v[j];
        assert(c > 0);
        assert(intact_count(intact) >= k);
        assert(intact_count(intact.skip(c)) == k);
        let x = intact.skip(p + 1);
        lemma_count_split(x, c - p - 1);
        assert(x.skip(c - p - 1) =~= intact.skip(c));
        assert(intact_count(intact.skip(p + 1)) >= k);
    }
    assert(intact_count(intact) < k ==> v.len() == 0);
    assert((forall|i: int| 0 <= i < intact.len() ==> #[trigger] intact[i]) && listed.len() <= k
        ==> v.len() == 0);
}

/// Snapshot `s` is listed at a place with at least `k` intact snapshots
/// after it, that is newer than it.
pub open spec fn older_than_intact(listed: Seq<Snapshot>, intact: Seq<bool>, s: Snapshot, k: nat) -> bool {
    exists|p: int| 0 <= p < listed.len() && listed[p] == s && intact_count(#[trigger] intact.skip(p + 1)) >= k
}

/// A listing counts no more intact snapshots than it has.
proof fn lemma_count_bound(v: Seq<bool>)
    ensures
        intact_count(v) <= v.len(),
    decreases v.len(),
{
    if v.len() > 0 {
        lemma_count_bound(v.drop_last());
    }
}

/// Retention's law, over a listing oldest to newest and the integrity flag
/// of each snapshot: everything from the cut on survives, and it holds the
/// newest `keep` (at least one) intact snapshots, each of them at or after
/// the cut, or every intact one when there are fewer, in which case nothing
/// is deleted; every victim is taken from the listing before the cut, so it
/// is older than every kept snapshot, and sits directly under
/// `<dest>/snapshots`.
pub proof fn lemma_retention_keeps_newest_intact(
    st: PathStyle,
    dest: Seq<char>,
    listed: Seq<Snapshot>,
    intact: Seq<bool>,
    keep: usize,
)
    requires
        intact.len() == listed.len(),
    ensures
        ({
            let c = keep_from(intact, kept(keep));
            &&& 0 <= c <= listed.len()
            &&& intact_count(intact.skip(c)) == if intact_count(intact) < kept(keep) {
                intact_count(intact)
            } else {
                kept(keep)
            }
            &&& c > 0 ==> intact[c]
            &&& forall|i: int|
                0 <= i < listed.len() && #[trigger] intact[i] && intact_count(intact.skip(i))
                    <= kept(keep) ==> c <= i
            &&& intact_count(intact) < kept(keep) ==> retention_victims(
                st,
                dest,
                listed,
                intact,
                keep,
            ).len() == 0
            &&& forall|j: int|
                0 <= j < retention_victims(st, dest, listed, intact, keep).len() ==> {
                    &&& managed(st, dest, #[trigger] retention_victims(st, dest, listed, intact, keep)[j])
                    &&& exists|i: int|
                        0 <= i < c && listed[i] == retention_victims(st, dest, listed, intact, keep)[j]
                }
        }),
{
    broadcast use vstd::seq_lib::group_filter_ensures;

    let k = kept(keep);
    lemma_keep_from(intact, k);
    let c = keep_from(intact, k);
    let pred = |s: Snapshot| managed(st, dest, s);
    let t = listed.take(c);
    let v = retention_victims(st, dest, listed, intact, keep);
    if intact_count(intact) < k {
        assert(t =~= Seq::<Snapshot>::empty());
        reveal_with_fuel(Seq::<_>::filter, 1);
        assert(t.filter(pred) =~= Seq::<Snapshot>::empty());
    }
    assert forall|i: int|
        0 <= i < listed.len() && #[trigger] intact[i] && intact_count(intact.skip(i)) <= k implies c
        <= i by {
        if i < c {
            let x = intact.skip(i);
            lemma_count_split(x, c - i);
            assert(x.skip(c - i) =~= intact.skip(c));
            lemma_count_first(x.take(c - i));
            assert(x.take(c - i)[0] == intact[i]);
        }
    }
    assert forall|j: int| 0 <= j < v.len() implies {
        &&& managed(st, dest, #[trigger] v[j])
        &&& exists|i: int| 0 <= i < c && listed[i] == v[j]
    } by {
        assert(v.contains(v[j]));
        t.lemma_filter_contains_rev(pred, v[j]);
        let i = choose|i: int| 0 <= i < t.len() && t[i] == v[j];
        assert(listed[i] == t[i]);
    }
}

} // verus!

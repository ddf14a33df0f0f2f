//! Stable sorting by an integer key: elements end up ordered by key, and
//! elements with equal keys keep their original relative order, as std's
//! `sort_by_key` leaves them.

use vstd::prelude::*;
use vstd::relations::{sorted_by, total_ordering};
use vstd::seq_lib::lemma_sorted_unique;

verus! {

/// Lexicographic order on (key, position) pairs.
pub open spec fn key_pos_leq(a: (int, int), b: (int, int)) -> bool {
    a.0 < b.0 || (a.0 == b.0 && a.1 <= b.1)
}

pub proof fn lemma_key_pos_total()
    ensures
        total_ordering(|a: (int, int), b: (int, int)| key_pos_leq(a, b)),
{
}

/// Each key paired with its position.
pub open spec fn keyed(keys: Seq<int>) -> Seq<(int, int)> {
    Seq::new(keys.len(), |i: int| (keys[i], i))
}

/// The positions of the elements in stable key order.
pub open spec fn stable_order(keys: Seq<int>) -> Seq<(int, int)> {
    keyed(keys).sort_by(|a: (int, int), b: (int, int)| key_pos_leq(a, b))
}

/// `items` stably sorted by `keys`: ordered by key, ties in original order.
pub open spec fn stable_sorted<T>(items: Seq<T>, keys: Seq<int>) -> Seq<T> {
    stable_order(keys).map_values(|p: (int, int)| items[p.1])
}

pub open spec fn keys_of(keys: Seq<i128>) -> Seq<int> {
    keys.map_values(|k: i128| k as int)
}

/// Facts about the stable order: it is a sorted permutation of the keyed
/// positions.
pub proof fn lemma_stable_order(keys: Seq<int>)
    ensures
        stable_order(keys).len() == keys.len(),
        sorted_by(stable_order(keys), |a: (int, int), b: (int, int)| key_pos_leq(a, b)),
        stable_order(keys).to_multiset() == keyed(keys).to_multiset(),
        forall|j: int|
            0 <= j < keys.len() ==> 0 <= #[trigger] stable_order(keys)[j].1 < keys.len()
                && stable_order(keys)[j].0 == keys[stable_order(keys)[j].1],
{
    let leq = |a: (int, int), b: (int, int)| key_pos_leq(a, b);
    lemma_key_pos_total();
    keyed(keys).lemma_sort_by_ensures(leq);
    let so = stable_order(keys);
    so.to_multiset_ensures();
    keyed(keys).to_multiset_ensures();
    assert forall|j: int| 0 <= j < keys.len() implies 0 <= #[trigger] so[j].1 < keys.len()
        && so[j].0 == keys[so[j].1] by {
        assert(so.to_multiset().count(so[j]) > 0);
        assert(keyed(keys).to_multiset().count(so[j]) > 0);
        assert(keyed(keys).contains(so[j]));
    }
}

/// Sorts `items` stably by `keys` (one key per item).
pub fn sort_stable_by_key<T>(items: Vec<T>, keys: Vec<i128>) -> (r: Vec<T>)
    requires
        items@.len() == keys@.len(),
    ensures
        r@ == stable_sorted(items@, keys_of(keys@)),
{
    let ghost leq = |a: (int, int), b: (int, int)| key_pos_leq(a, b);
    let ghost ks = keys_of(keys@);
    let ghost orig = items@;
    let n = items.len();
    let mut rest = items;
    let mut out: Vec<T> = Vec::new();
    let mut out_keys: Vec<i128> = Vec::new();
    let ghost mut p: Seq<(int, int)> = Seq::empty();
    let mut i: usize = 0;
    proof {
        broadcast use vstd::seq_lib::group_to_multiset_ensures;
        assert(keyed(ks).take(0) =~= Seq::<(int, int)>::empty());
    }
    while i < n
        invariant
            n == orig.len(),
            ks == keys_of(keys@),
            ks.len() == n,
            i <= n,
            rest@ == orig.subrange(i as int, n as int),
            out@.len() == i,
            out_keys@.len() == i,
            p.len() == i,
            sorted_by(p, leq),
            p.to_multiset() == keyed(ks).take(i as int).to_multiset(),
            forall|j: int| 0 <= j < i ==> 0 <= #[trigger] p[j].1 < i,
            forall|j: int| 0 <= j < i ==> out@[j] == orig[#[trigger] p[j].1] && out_keys@[j]
                == p[j].0 && p[j].0 == ks[p[j].1],
            leq == (|a: (int, int), b: (int, int)| key_pos_leq(a, b)),
        decreases n - i,
    {
        broadcast use vstd::seq_lib::group_to_multiset_ensures;

        let x = rest.remove(0);
        assert(x == orig[i as int]);
        let k = keys[i];
        let mut pos: usize = 0;
        while pos < out_keys.len() && out_keys[pos] <= k
            invariant
                pos <= out_keys@.len(),
                out_keys@.len() == i,
                forall|j: int| 0 <= j < pos ==> out_keys@[j] <= k,
            decreases out_keys@.len() - pos,
        {
            pos = pos + 1;
        }
        let ghost elem = (k as int, i as int);
        let ghost old_p = p;
        let ghost old_keys = out_keys@;
        assert(pos < old_keys.len() ==> old_keys[pos as int] > k);
        out.insert(pos, x);
        out_keys.insert(pos, k);
        proof {
            p = p.insert(pos as int, elem);
            assert(keyed(ks).take(i + 1) =~= keyed(ks).take(i as int).push(elem));
            assert(p.to_multiset() =~= old_p.to_multiset().insert(elem));
            assert(keyed(ks).take(i + 1).to_multiset() =~= keyed(ks).take(i as int).to_multiset().insert(
                elem,
            ));
            assert forall|a: int, b: int| 0 <= a < b < p.len() implies #[trigger] leq(
                p[a],
                p[b],
            ) by {
                if b < pos {
                    assert(leq(old_p[a], old_p[b]));
                } else if a > pos {
                    assert(leq(old_p[a - 1], old_p[b - 1]));
                } else if a == pos {
                    // Every element from `pos` on has a larger key.
                    assert(old_keys[pos as int] > k);
                    if b - 1 > pos {
                        assert(leq(old_p[pos as int], old_p[b - 1]));
                    }
                } else if b == pos {
                    assert(0 <= old_p[a].1 < i);
                    assert(old_p[a].0 == old_keys[a]);
                    assert(old_p[a].0 <= k);
                    assert(old_p[a].1 < i);
                } else {
                    assert(leq(old_p[a], old_p[b - 1]));
                }
            }
            assert forall|j: int| 0 <= j < i + 1 implies out@[j] == orig[#[trigger] p[j].1]
                && out_keys@[j] == p[j].0 && p[j].0 == ks[p[j].1] by {
                if j < pos {
                    assert(0 <= old_p[j].1 < i);
                } else if j > pos {
                    assert(p[j] == old_p[j - 1]);
                    assert(0 <= old_p[j - 1].1 < i);
                } else {
                    assert(ks[i as int] == keys@[i as int] as int);
                }
            }
        }
        i = i + 1;
    }
    proof {
        broadcast use vstd::seq_lib::group_to_multiset_ensures;

        assert(keyed(ks).take(n as int) =~= keyed(ks));
        lemma_stable_order(ks);
        lemma_key_pos_total();
        lemma_sorted_unique(p, stable_order(ks), leq);
        assert(out@ =~= stable_sorted(orig, ks));
    }
    out
}

} // verus!

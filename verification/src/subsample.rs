//! Picks evenly spaced items out of a sequence.

use vstd::prelude::*;
use crate::parallel::par_map_range;

verus! {

/// The place of the `i`-th of `keep` evenly spaced items in a sequence of
/// `len` items: `i * len / keep`, rounded down.
pub open spec fn spaced_index(i: int, len: nat, keep: nat) -> int {
    (i * len) / (keep as int)
}

/// The items that are kept: all of them where no number is given or the
/// number is not below the length, else `keep` evenly spaced ones.
pub open spec fn spaced_items<I>(items: Seq<I>, keep: Option<usize>) -> Seq<I> {
    match keep {
        None => items,
        Some(k) => if k >= items.len() {
            items
        } else {
            Seq::new(k as nat, |i: int| items[spaced_index(i, items.len(), k as nat)])
        },
    }
}

/// Where fewer items are kept than there are, the places of the kept items
/// lie inside the sequence, start at 0 and rise strictly.
pub proof fn lemma_spaced_index(i: int, len: nat, keep: nat)
    requires
        0 < keep < len,
        0 <= i < keep,
    ensures
        0 <= spaced_index(i, len, keep) < len,
        spaced_index(0, len, keep) == 0,
        spaced_index(i, len, keep) < spaced_index(i + 1, len, keep),
{
    let k = keep as int;
    let n = len as int;
    assert(0 * n == 0) by (nonlinear_arith);
    assert(0int / k == 0) by (nonlinear_arith)
        requires
            k > 0,
    ;
    assert(0 <= (i * n) / k < n) by (nonlinear_arith)
        requires
            0 <= i < k,
            0 < k,
            0 < n,
    {
        assert(i * n >= 0);
        assert(i * n < k * n);
        assert(i * n == k * ((i * n) / k) + (i * n) % k);
        assert(0 <= (i * n) % k < k);
    }
    assert((i * n) / k < ((i + 1) * n) / k) by (nonlinear_arith)
        requires
            0 <= i < k,
            0 < k < n,
    {
        let a = i * n;
        let b = (i + 1) * n;
        assert(b == a + n);
        assert(a == k * (a / k) + a % k);
        assert(b == k * (b / k) + b % k);
        assert(0 <= a % k < k);
        assert(0 <= b % k < k);
        // b is at least a + k, so its quotient is at least one more
        if b / k <= a / k {
            assert(k * (b / k) <= k * (a / k));
            assert(b % k >= a % k + k);
            assert(false);
        }
    }
}

/// The place of the `i`-th of `keep` evenly spaced items among `len`.
pub fn spaced_index_of(i: usize, len: usize, keep: usize) -> (at: usize)
    requires
        0 < keep < len,
        i < keep,
    ensures
        at == spaced_index(i as int, len as nat, keep as nat),
        at < len,
{
    proof {
        lemma_spaced_index(i as int, len as nat, keep as nat);
        assert(i * len <= usize::MAX * usize::MAX) by (nonlinear_arith)
            requires
                0 <= i <= usize::MAX,
                0 <= len <= usize::MAX,
        ;
        assert(usize::MAX * usize::MAX <= u128::MAX) by (nonlinear_arith)
            requires
                usize::MAX <= 0xffff_ffff_ffff_ffff,
        ;
    }
    let product: u128 = (i as u128) * (len as u128);
    (product / (keep as u128)) as usize
}

/// Places that rise strictly and stay below `len`.
pub open spec fn rising_below(places: Seq<usize>, len: nat) -> bool {
    &&& forall|i: int| 0 <= i < places.len() ==> (#[trigger] places[i]) < len
    &&& forall|i: int, j: int|
        0 <= i < j < places.len() ==> (#[trigger] places[i]) < (#[trigger] places[j])
}

/// The places of `keep` evenly spaced items among `len`.
pub open spec fn spaced_places(len: nat, keep: nat) -> Seq<usize> {
    Seq::new(keep, |i: int| spaced_index(i, len, keep) as usize)
}

/// Evenly spaced places rise strictly and stay inside the sequence.
pub proof fn lemma_spaced_places_rise(len: nat, keep: nat)
    requires
        0 < keep < len <= usize::MAX,
    ensures
        rising_below(spaced_places(len, keep), len),
{
    let places = spaced_places(len, keep);
    assert forall|i: int| 0 <= i < places.len() implies (#[trigger] places[i]) < len by {
        lemma_spaced_index(i, len, keep);
    }
    assert forall|i: int, j: int| 0 <= i < j < places.len() implies (#[trigger] places[i]) < (
    #[trigger] places[j]) by {
        lemma_rise_between(i, j, len, keep);
        lemma_spaced_index(i, len, keep);
        lemma_spaced_index(j, len, keep);
    }
}

/// A later place lies beyond an earlier one.
proof fn lemma_rise_between(i: int, j: int, len: nat, keep: nat)
    requires
        0 < keep < len,
        0 <= i < j < keep,
    ensures
        spaced_index(i, len, keep) < spaced_index(j, len, keep),
    decreases j - i,
{
    lemma_spaced_index(j - 1, len, keep);
    if i < j - 1 {
        lemma_rise_between(i, j - 1, len, keep);
    }
}

/// Computes the places one after the other.
pub fn spaced_places_sequential(len: usize, keep: usize) -> (places: Vec<usize>)
    requires
        0 < keep < len,
    ensures
        places@ == spaced_places(len as nat, keep as nat),
{
    let mut places: Vec<usize> = Vec::new();
    let mut i: usize = 0;
    while i < keep
        invariant
            0 < keep < len,
            i <= keep,
            places.len() == i,
            forall|t: int|
                0 <= t < i ==> #[trigger] places[t] == spaced_index(t, len as nat, keep as nat),
        decreases keep - i,
    {
        places.push(spaced_index_of(i, len, keep));
        i = i + 1;
    }
    assert(places@ =~= spaced_places(len as nat, keep as nat));
    places
}

/// Computes the places on the thread pool.
pub fn spaced_places_parallel(len: usize, keep: usize) -> (places: Vec<usize>)
    requires
        0 < keep < len,
    ensures
        places@ == spaced_places(len as nat, keep as nat),
{
    let place = |i: usize| -> (at: usize)
        requires
            i < keep,
        ensures
            at == spaced_index(i as int, len as nat, keep as nat),
        {
            let at: usize = spaced_index_of(i, len, keep);
            at
        };
    let places: Vec<usize> = par_map_range(keep, place);
    assert forall|t: int| 0 <= t < keep implies #[trigger] places[t] == spaced_index(
        t,
        len as nat,
        keep as nat,
    ) by {
        let i = t as usize;
        assert(places[i as int] == places[t]);
    }
    assert(places@ =~= spaced_places(len as nat, keep as nat));
    places
}

/// Takes the items at the given places out of a sequence, in order. No item
/// is copied.
pub fn pick<I>(items: Vec<I>, places: &Vec<usize>) -> (out: Vec<I>)
    requires
        rising_below(places@, items.len() as nat),
    ensures
        out.len() == places.len(),
        forall|t: int| 0 <= t < places.len() ==> #[trigger] out[t] == items[places[t] as int],
{
    let ghost all = items@;
    let keep: usize = places.len();
    let mut items = items;
    let mut back: Vec<I> = Vec::new();
    let mut left: usize = keep;
    while items.len() > 0
        invariant
            rising_below(places@, all.len()),
            keep == places.len(),
            left <= keep,
            items@ == all.take(items.len() as int),
            items.len() <= all.len(),
            back.len() == keep - left,
            forall|t: int| 0 <= t < left ==> (#[trigger] places[t]) < items.len(),
            forall|t: int|
                0 <= t < back.len() ==> #[trigger] back[t] == all[places[keep - 1 - t] as int],
        decreases items.len(),
    {
        let at: usize = items.len() - 1;
        let item = items.pop().unwrap();
        assert(items@ =~= all.take(at as int));
        if left > 0 && places[left - 1] == at {
            back.push(item);
            left = left - 1;
        }
    }
    assert(left == 0) by {
        if left > 0 {
            assert(places[0] < items.len());
        }
    }
    let mut out: Vec<I> = Vec::new();
    let ghost kept = back@;
    while back.len() > 0
        invariant
            kept.len() == keep,
            back@ == kept.take(back.len() as int),
            back.len() <= keep,
            out.len() == keep - back.len(),
            forall|t: int| 0 <= t < out.len() ==> #[trigger] out[t] == kept[keep - 1 - t],
        decreases back.len(),
    {
        let ghost n = back.len();
        let item = back.pop().unwrap();
        assert(back@ =~= kept.take(n - 1));
        out.push(item);
    }
    out
}

/// Keeps `n_frames_to_keep` evenly spaced items of a sequence, or all of
/// them where no number is given or the number is not below the length.
pub fn seq_select_spaced_items<I>(iter: Vec<I>, n_frames_to_keep: Option<usize>) -> (out: Vec<I>)
    ensures
        out@ == spaced_items(iter@, n_frames_to_keep),
{
    let len: usize = iter.len();
    match n_frames_to_keep {
        None => iter,
        Some(keep) => {
            if keep >= len {
                iter
            } else if keep == 0 {
                let out: Vec<I> = Vec::new();
                assert(out@ =~= spaced_items(iter@, n_frames_to_keep));
                out
            } else {
                let places: Vec<usize> = spaced_places_sequential(len, keep);
                proof {
                    lemma_spaced_places_rise(len as nat, keep as nat);
                }
                let ghost all = iter@;
                let out: Vec<I> = pick(iter, &places);
                proof {
                    assert forall|t: int| 0 <= t < keep implies out[t] == all[spaced_index(
                        t,
                        len as nat,
                        keep as nat,
                    )] by {
                        lemma_spaced_index(t, len as nat, keep as nat);
                        assert(places[t] == spaced_index(t, len as nat, keep as nat));
                    }
                    assert(out@ =~= spaced_items(all, n_frames_to_keep));
                }
                out
            }
        },
    }
}

/// Keeps `n_frames_to_keep` evenly spaced items of a sequence as
/// `seq_select_spaced_items` does, the places being computed on the thread
/// pool.
pub fn par_select_spaced_items<I>(iter: Vec<I>, n_frames_to_keep: Option<usize>) -> (out: Vec<I>)
    ensures
        out@ == spaced_items(iter@, n_frames_to_keep),
{
    let len: usize = iter.len();
    match n_frames_to_keep {
        None => iter,
        Some(keep) => {
            if keep >= len {
                iter
            } else if keep == 0 {
                let out: Vec<I> = Vec::new();
                assert(out@ =~= spaced_items(iter@, n_frames_to_keep));
                out
            } else {
                let places: Vec<usize> = spaced_places_parallel(len, keep);
                proof {
                    lemma_spaced_places_rise(len as nat, keep as nat);
                }
                let ghost all = iter@;
                let out: Vec<I> = pick(iter, &places);
                proof {
                    assert forall|t: int| 0 <= t < keep implies out[t] == all[spaced_index(
                        t,
                        len as nat,
                        keep as nat,
                    )] by {
                        lemma_spaced_index(t, len as nat, keep as nat);
                        assert(places[t] == spaced_index(t, len as nat, keep as nat));
                    }
                    assert(out@ =~= spaced_items(all, n_frames_to_keep));
                }
                out
            }
        },
    }
}

/// Subsampling gives the sequence back where at least its length is asked
/// for; else it gives exactly the number of items asked for, the first of
/// them the first of the sequence, taken from strictly rising places.
pub proof fn lemma_spaced_items<I>(items: Seq<I>, keep: usize)
    requires
        items.len() <= usize::MAX,
    ensures
        spaced_items(items, None) == items,
        keep >= items.len() ==> spaced_items(items, Some(keep)) == items,
        keep < items.len() ==> spaced_items(items, Some(keep)).len() == keep,
        0 < keep < items.len() ==> spaced_items(items, Some(keep))[0] == items[0],
        0 < keep < items.len() ==> rising_below(
            spaced_places(items.len(), keep as nat),
            items.len(),
        ),
        0 < keep < items.len() ==> forall|i: int|
            0 <= i < keep ==> #[trigger] spaced_items(items, Some(keep))[i] == items[spaced_places(
                items.len(),
                keep as nat,
            )[i] as int],
{
    if 0 < keep < items.len() {
        lemma_spaced_index(0, items.len(), keep as nat);
        lemma_spaced_places_rise(items.len(), keep as nat);
        assert forall|i: int| 0 <= i < keep implies #[trigger] spaced_items(
            items,
            Some(keep),
        )[i] == items[spaced_places(items.len(), keep as nat)[i] as int] by {
            lemma_spaced_index(i, items.len(), keep as nat);
        }
    }
}

} // verus!

//! The data-parallel building blocks, run on the rayon thread pool.

use vstd::prelude::*;
use rayon::iter::{IntoParallelIterator, ParallelIterator};
use crate::block::{block_tally, lemma_block_count_in_matrix, lemma_rows_add_up, row_sum, row_tally, tallies, tally_sum, BlockSum};
use crate::color::Pixel;
use crate::flat_matrix::FlatMatrix;

verus! {

/// Calls rayon's `into_par_iter().map(f).collect()` on the range `0..n`.
///
/// Not proved: that rayon calls `f` once for every index of the range and
/// for nothing else, and that collecting an indexed parallel iterator into a
/// vector keeps the order of the indices, so that the item at place `i` is
/// what `f` returned for `i`.
#[verifier::external_body]
pub(crate) fn par_map_range<T: Send, F: Fn(usize) -> T + Sync + Send>(n: usize, f: F) -> (out: Vec<T>)
    requires
        forall|i: usize| i < n ==> call_requires(f, (i,)),
    ensures
        out.len() == n,
        forall|i: usize| i < n ==> call_ensures(f, (i,), #[trigger] out[i as int]),
{
    (0..n).into_par_iter().map(f).collect()
}

/// Calls rayon's `reduce` on the parts, with the empty sums as the identity
/// and `BlockSum::merge` as the operation.
///
/// Not proved: that rayon combines every part exactly once, in some
/// bracketing of its own choice and with identities put in where it likes.
/// Merging is associative and the empty sums are its identity, so every such
/// bracketing gives the sum of the parts, and no merge on the way exceeds
/// that sum.
#[verifier::external_body]
fn par_reduce(parts: Vec<BlockSum>) -> (total: BlockSum)
    requires
        tally_sum(tallies(parts@)).fits(),
    ensures
        total@ == tally_sum(tallies(parts@)),
{
    parts.into_par_iter().reduce(|| BlockSum::zero(), |a, b| a.merge(b))
}

/// Adds up a block of a matrix with its rows handed out to the thread pool
/// and the row sums reduced in parallel.
pub fn block_sum_parallel(
    pixels: &FlatMatrix<Pixel>,
    r0: usize,
    r1: usize,
    c0: usize,
    c1: usize,
    grayscale: bool,
) -> (s: BlockSum)
    requires
        pixels.wf(),
        r0 <= r1 <= pixels@.rows,
        c0 <= c1 <= pixels@.columns,
    ensures
        s@ == block_tally(pixels@, r0 as int, r1 as int, c0 as int, c1 as int, grayscale),
{
    let n: usize = r1 - r0;
    let one_row = |i: usize| -> (part: BlockSum)
            requires
                i < n,
            ensures
                part@ == row_tally(pixels@, r0 + i, c0 as int, c1 as int, grayscale),
        {
            let part: BlockSum = row_sum(pixels, r0 + i, c0, c1, grayscale);
            part
        };
    let parts: Vec<BlockSum> = par_map_range(n, one_row);
    proof {
        pixels.lemma_view_fits();
        lemma_rows_add_up(
            pixels@,
            tallies(parts@),
            r0 as int,
            r1 as int,
            c0 as int,
            c1 as int,
            grayscale,
        );
        lemma_block_count_in_matrix(
            pixels@,
            r0 as int,
            r1 as int,
            c0 as int,
            c1 as int,
            grayscale,
        );
    }
    par_reduce(parts)
}

} // verus!

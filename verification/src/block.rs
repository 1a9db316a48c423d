//! Sums over a rectangular block of source pixels.

use vstd::prelude::*;
use vstd::arithmetic::mul::lemma_mul_upper_bound;
use crate::brightness::{brightness, grayscale_calc, lemma_brightness_range, Penalty};
use crate::color::Pixel;
use crate::colored_char::pixel_color;
use crate::flat_matrix::{FlatMatrix, Grid};

verus! {

/// What a set of pixels adds up to: the sums of the three colour channels
/// and of the brightness, and the number of pixels.
pub struct Tally {
    pub red: nat,
    pub green: nat,
    pub blue: nat,
    pub density: nat,
    pub count: nat,
}

impl Tally {
    /// The tally of no pixel.
    pub open spec fn zero() -> Tally {
        Tally { red: 0, green: 0, blue: 0, density: 0, count: 0 }
    }

    /// The tally of one pixel, with the colour it is drawn in.
    pub open spec fn of_pixel(p: Pixel, grayscale: bool) -> Tally {
        let c = pixel_color(p, grayscale);
        Tally {
            red: c.r as nat,
            green: c.g as nat,
            blue: c.b as nat,
            density: brightness(p),
            count: 1,
        }
    }

    /// The tally of two sets taken together.
    pub open spec fn plus(self, other: Tally) -> Tally {
        Tally {
            red: self.red + other.red,
            green: self.green + other.green,
            blue: self.blue + other.blue,
            density: self.density + other.density,
            count: self.count + other.count,
        }
    }

    /// No sum is more than 255 for each pixel counted.
    pub open spec fn bounded(self) -> bool {
        &&& self.red <= 255 * self.count
        &&& self.green <= 255 * self.count
        &&& self.blue <= 255 * self.count
        &&& self.density <= 255 * self.count
    }

    /// Every field fits the accumulators.
    pub open spec fn fits(self) -> bool {
        &&& self.red <= u128::MAX
        &&& self.green <= u128::MAX
        &&& self.blue <= u128::MAX
        &&& self.density <= u128::MAX
        &&& self.count <= u128::MAX
    }
}

/// Taking tallies together is commutative and associative, and the empty
/// tally changes nothing: the order in which the parts of a block are added
/// up has no bearing on the sum.
pub proof fn lemma_plus_laws(a: Tally, b: Tally, c: Tally)
    ensures
        a.plus(b) == b.plus(a),
        a.plus(b).plus(c) == a.plus(b.plus(c)),
        a.plus(Tally::zero()) == a,
        Tally::zero().plus(a) == a,
{
}

/// The tally of the pixels of row `row` in the columns from `c0` up to, not
/// including, `c1`.
pub open spec fn row_tally(g: Grid<Pixel>, row: int, c0: int, c1: int, grayscale: bool) -> Tally
    decreases c1 - c0,
{
    if c1 <= c0 {
        Tally::zero()
    } else {
        row_tally(g, row, c0, c1 - 1, grayscale).plus(
            Tally::of_pixel(g.at(row, c1 - 1), grayscale),
        )
    }
}

/// The tally of the pixels in the rows from `r0` up to `r1` and the columns
/// from `c0` up to `c1`, the upper bounds not included.
pub open spec fn block_tally(
    g: Grid<Pixel>,
    r0: int,
    r1: int,
    c0: int,
    c1: int,
    grayscale: bool,
) -> Tally
    decreases r1 - r0,
{
    if r1 <= r0 {
        Tally::zero()
    } else {
        block_tally(g, r0, r1 - 1, c0, c1, grayscale).plus(
            row_tally(g, r1 - 1, c0, c1, grayscale),
        )
    }
}

/// The tallies of a sequence of parts taken together.
pub open spec fn tally_sum(parts: Seq<Tally>) -> Tally
    decreases parts.len(),
{
    if parts.len() == 0 {
        Tally::zero()
    } else {
        tally_sum(parts.drop_last()).plus(parts.last())
    }
}

/// A part of a row counts one pixel for each column and is bounded.
pub proof fn lemma_row_tally_bounds(g: Grid<Pixel>, row: int, c0: int, c1: int, grayscale: bool)
    requires
        c0 <= c1,
    ensures
        row_tally(g, row, c0, c1, grayscale).count == c1 - c0,
        row_tally(g, row, c0, c1, grayscale).bounded(),
    decreases c1 - c0,
{
    if c1 > c0 {
        lemma_row_tally_bounds(g, row, c0, c1 - 1, grayscale);
        lemma_brightness_range(g.at(row, c1 - 1));
    }
}

/// A block counts one pixel for each of its positions and is bounded.
pub proof fn lemma_block_tally_bounds(
    g: Grid<Pixel>,
    r0: int,
    r1: int,
    c0: int,
    c1: int,
    grayscale: bool,
)
    requires
        r0 <= r1,
        c0 <= c1,
    ensures
        block_tally(g, r0, r1, c0, c1, grayscale).count == (r1 - r0) * (c1 - c0),
        block_tally(g, r0, r1, c0, c1, grayscale).bounded(),
    decreases r1 - r0,
{
    if r1 > r0 {
        lemma_block_tally_bounds(g, r0, r1 - 1, c0, c1, grayscale);
        lemma_row_tally_bounds(g, r1 - 1, c0, c1, grayscale);
        assert((r1 - r0) * (c1 - c0) == (r1 - 1 - r0) * (c1 - c0) + (c1 - c0))
            by (nonlinear_arith);
    } else {
        assert((r1 - r0) * (c1 - c0) == 0) by (nonlinear_arith)
            requires
                r1 - r0 == 0,
        ;
    }
}

/// A block inside a matrix holds no more pixels than the matrix has cells.
pub proof fn lemma_block_count_in_matrix(
    g: Grid<Pixel>,
    r0: int,
    r1: int,
    c0: int,
    c1: int,
    grayscale: bool,
)
    requires
        g.wf(),
        0 <= r0 <= r1 <= g.rows,
        0 <= c0 <= c1 <= g.columns,
    ensures
        block_tally(g, r0, r1, c0, c1, grayscale).count <= g.cells.len(),
        block_tally(g, r0, r1, c0, c1, grayscale).bounded(),
{
    lemma_block_tally_bounds(g, r0, r1, c0, c1, grayscale);
    lemma_mul_upper_bound(r1 - r0, g.rows as int, c1 - c0, g.columns as int);
}

/// In grayscale the three colour sums of a part of a row are one.
pub proof fn lemma_gray_row_tally(g: Grid<Pixel>, row: int, c0: int, c1: int)
    ensures
        row_tally(g, row, c0, c1, true).red == row_tally(g, row, c0, c1, true).green,
        row_tally(g, row, c0, c1, true).green == row_tally(g, row, c0, c1, true).blue,
    decreases c1 - c0,
{
    if c1 > c0 {
        lemma_gray_row_tally(g, row, c0, c1 - 1);
    }
}

/// In grayscale the three colour sums of a block are one.
pub proof fn lemma_gray_block_tally(g: Grid<Pixel>, r0: int, r1: int, c0: int, c1: int)
    ensures
        block_tally(g, r0, r1, c0, c1, true).red == block_tally(g, r0, r1, c0, c1, true).green,
        block_tally(g, r0, r1, c0, c1, true).green == block_tally(g, r0, r1, c0, c1, true).blue,
    decreases r1 - r0,
{
    if r1 > r0 {
        lemma_gray_block_tally(g, r0, r1 - 1, c0, c1);
        lemma_gray_row_tally(g, r1 - 1, c0, c1);
    }
}

/// The rows of a block, each added up by itself, add up to the block.
pub proof fn lemma_rows_add_up(
    g: Grid<Pixel>,
    parts: Seq<Tally>,
    r0: int,
    r1: int,
    c0: int,
    c1: int,
    grayscale: bool,
)
    requires
        r0 <= r1,
        parts.len() == r1 - r0,
        forall|i: int|
            0 <= i < parts.len() ==> #[trigger] parts[i] == row_tally(
                g,
                r0 + i,
                c0,
                c1,
                grayscale,
            ),
    ensures
        tally_sum(parts) == block_tally(g, r0, r1, c0, c1, grayscale),
    decreases r1 - r0,
{
    if r1 > r0 {
        lemma_rows_add_up(g, parts.drop_last(), r0, r1 - 1, c0, c1, grayscale);
    }
}

/// The running sums of a block.
#[derive(Clone, Copy, Debug)]
pub struct BlockSum {
    pub red: u128,
    pub green: u128,
    pub blue: u128,
    pub density: u128,
    pub count: u128,
}

impl View for BlockSum {
    type V = Tally;

    open spec fn view(&self) -> Tally {
        Tally {
            red: self.red as nat,
            green: self.green as nat,
            blue: self.blue as nat,
            density: self.density as nat,
            count: self.count as nat,
        }
    }
}

/// The tallies that a sequence of running sums stands for.
pub open spec fn tallies(parts: Seq<BlockSum>) -> Seq<Tally> {
    parts.map_values(|p: BlockSum| p@)
}

impl BlockSum {
    /// The sums of no pixel.
    pub fn zero() -> (s: BlockSum)
        ensures
            s@ == Tally::zero(),
    {
        BlockSum { red: 0, green: 0, blue: 0, density: 0, count: 0 }
    }

    /// The sums of one pixel.
    pub fn of_pixel(p: Pixel, grayscale: bool) -> (s: BlockSum)
        ensures
            s@ == Tally::of_pixel(p, grayscale),
    {
        let density: u8 = p.calc_penalty();
        if grayscale {
            let gray: u8 = grayscale_calc(p.r, p.g, p.b);
            BlockSum {
                red: gray as u128,
                green: gray as u128,
                blue: gray as u128,
                density: density as u128,
                count: 1,
            }
        } else {
            BlockSum {
                red: p.r as u128,
                green: p.g as u128,
                blue: p.b as u128,
                density: density as u128,
                count: 1,
            }
        }
    }

    /// The sums of two sets of pixels taken together.
    pub fn merge(self, other: BlockSum) -> (s: BlockSum)
        requires
            self@.plus(other@).fits(),
        ensures
            s@ == self@.plus(other@),
    {
        BlockSum {
            red: self.red + other.red,
            green: self.green + other.green,
            blue: self.blue + other.blue,
            density: self.density + other.density,
            count: self.count + other.count,
        }
    }
}

/// Adds up a part of a row of a matrix, from left to right.
pub fn row_sum(
    pixels: &FlatMatrix<Pixel>,
    row: usize,
    c0: usize,
    c1: usize,
    grayscale: bool,
) -> (s: BlockSum)
    requires
        pixels.wf(),
        row < pixels@.rows,
        c0 <= c1 <= pixels@.columns,
    ensures
        s@ == row_tally(pixels@, row as int, c0 as int, c1 as int, grayscale),
{
    let mut s: BlockSum = BlockSum::zero();
    let mut c: usize = c0;
    while c < c1
        invariant
            pixels.wf(),
            row < pixels@.rows,
            c0 <= c <= c1 <= pixels@.columns,
            s@ == row_tally(pixels@, row as int, c0 as int, c as int, grayscale),
        decreases c1 - c,
    {
        proof {
            lemma_row_tally_bounds(pixels@, row as int, c0 as int, c as int + 1, grayscale);
        }
        let p: Pixel = *pixels.index(row, c);
        s = s.merge(BlockSum::of_pixel(p, grayscale));
        c = c + 1;
    }
    s
}

/// Adds up a block of a matrix row after row, strictly in order.
pub fn block_sum_sequential(
    pixels: &FlatMatrix<Pixel>,
    r0: usize,
    r1: usize,
    c0: usize,
    c1: usize,
    grayscale: bool,
) -> (s: BlockSum)
    requires
        pixels.wf(),
        r0 <= r1 <= pixels@.rows,
        c0 <= c1 <= pixels@.columns,
    ensures
        s@ == block_tally(pixels@, r0 as int, r1 as int, c0 as int, c1 as int, grayscale),
{
    let mut s: BlockSum = BlockSum::zero();
    let mut r: usize = r0;
    while r < r1
        invariant
            pixels.wf(),
            r0 <= r <= r1 <= pixels@.rows,
            c0 <= c1 <= pixels@.columns,
            s@ == block_tally(pixels@, r0 as int, r as int, c0 as int, c1 as int, grayscale),
        decreases r1 - r,
    {
        proof {
            pixels.lemma_view_fits();
            lemma_block_count_in_matrix(
                pixels@,
                r0 as int,
                r as int + 1,
                c0 as int,
                c1 as int,
                grayscale,
            );
        }
        let part: BlockSum = row_sum(pixels, r, c0, c1, grayscale);
        s = s.merge(part);
        r = r + 1;
    }
    s
}

} // verus!

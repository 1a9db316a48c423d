//! The block resampler: a source grid of pixels averaged down to a grid of
//! glyphs, one block of pixels to a glyph.

use vstd::prelude::*;
use crate::block::{
    block_sum_sequential, block_tally, lemma_block_count_in_matrix, lemma_gray_block_tally, BlockSum,
    Tally,
};
use crate::brightness::{mean, mean_of};
use crate::color::{Pixel, Rgb};
use crate::colored_char::{glyph_of, ColoredChar};
use crate::error::Error;
use crate::flat_matrix::{lemma_position, FlatMatrix, Grid};
use crate::parallel::{block_sum_parallel, par_map_range};

verus! {

/// How many source rows (or columns) go into one target row (or column): the
/// quotient of the two sizes rounded up, and at least 1.
pub open spec fn scale(src: nat, target: nat) -> nat {
    if target == 0 {
        1
    } else {
        let up = src / target + if src % target == 0 {
            0nat
        } else {
            1nat
        };
        if up < 1 {
            1
        } else {
            up
        }
    }
}

/// `x`, or `limit` where `x` lies beyond it.
pub open spec fn clip(x: int, limit: nat) -> int {
    if x < limit {
        x
    } else {
        limit as int
    }
}

/// The glyph that a tally of pixels averages to: the blank white cell where
/// no pixel was counted, else the glyph of the mean brightness in the mean
/// colour.
pub open spec fn cell_of(t: Tally, invert: bool, uniform: bool) -> ColoredChar {
    if t.count == 0 {
        ColoredChar::blank_cell()
    } else {
        glyph_of(
            mean(t.density, t.count) as u8,
            Rgb {
                r: mean(t.red, t.count) as u8,
                g: mean(t.green, t.count) as u8,
                b: mean(t.blue, t.count) as u8,
            },
            invert,
            uniform,
        )
    }
}

/// The tally of the block of source pixels behind the target cell in row `th`
/// and column `tw`. Positions of the block outside the source count for
/// nothing.
pub open spec fn cell_tally(
    g: Grid<Pixel>,
    th: int,
    tw: int,
    scale_y: nat,
    scale_x: nat,
    grayscale: bool,
) -> Tally {
    block_tally(
        g,
        clip(th * scale_y, g.rows),
        clip(th * scale_y + scale_y, g.rows),
        clip(tw * scale_x, g.columns),
        clip(tw * scale_x + scale_x, g.columns),
        grayscale,
    )
}

/// The glyph of the target cell in row `th` and column `tw`, for blocks of
/// `scale_y` rows and `scale_x` columns.
pub open spec fn cell_at(
    g: Grid<Pixel>,
    th: int,
    tw: int,
    scale_y: nat,
    scale_x: nat,
    grayscale: bool,
    invert: bool,
    uniform: bool,
) -> ColoredChar {
    cell_of(cell_tally(g, th, tw, scale_y, scale_x, grayscale), invert, uniform)
}

/// The source resampled to `height` rows of `width` glyphs.
pub open spec fn resampled(
    g: Grid<Pixel>,
    height: nat,
    width: nat,
    grayscale: bool,
    invert: bool,
    uniform: bool,
) -> Grid<ColoredChar> {
    Grid {
        rows: height,
        columns: width,
        cells: Seq::new(
            height * width,
            |k: int|
                cell_at(
                    g,
                    k / (width as int),
                    k % (width as int),
                    scale(g.rows, height),
                    scale(g.columns, width),
                    grayscale,
                    invert,
                    uniform,
                ),
        ),
    }
}

/// What a request to resample is answered with: the error for an empty
/// source, then the error for an empty target, else the resampled grid.
pub open spec fn resample_outcome(
    g: Grid<Pixel>,
    height: nat,
    width: nat,
    invert: bool,
    grayscale: bool,
    uniform: bool,
) -> Result<Grid<ColoredChar>, Error> {
    if g.rows == 0 || g.columns == 0 {
        Err(Error::EmptySource)
    } else if height == 0 || width == 0 {
        Err(Error::InvalidTargetDimensions)
    } else {
        Ok(resampled(g, height, width, grayscale, invert, uniform))
    }
}

/// How many source rows (or columns) go into one target row (or column).
pub fn scale_factor(src: usize, target: usize) -> (s: usize)
    ensures
        s == scale(src as nat, target as nat),
        s >= 1,
{
    if target == 0 {
        1
    } else {
        let q: usize = src / target;
        let up: usize = if src % target == 0 {
            q
        } else {
            proof {
                // with a remainder the quotient is below the source size
                assert(q < src) by (nonlinear_arith)
                    requires
                        q == src / target,
                        src % target != 0,
                        target > 0,
                        src >= 0,
                {
                    assert(src == target * (src / target) + src % target);
                }
            }
            q + 1
        };
        if up < 1 {
            1
        } else {
            up
        }
    }
}

/// The rows (or columns) of the source that lie behind target index `index`:
/// from the first up to, not including, the second.
pub fn block_bounds(index: usize, scale: usize, limit: usize) -> (b: (usize, usize))
    requires
        scale >= 1,
    ensures
        b.0 == clip(index * scale, limit as nat),
        b.1 == clip(index * scale + scale, limit as nat),
        b.0 <= b.1 <= limit,
{
    match index.checked_mul(scale) {
        Some(start) => {
            if start < limit {
                if scale >= limit - start {
                    (start, limit)
                } else {
                    (start, start + scale)
                }
            } else {
                (limit, limit)
            }
        },
        None => (limit, limit),
    }
}

/// Turns the sums of a block into its glyph.
pub fn cell_from_sum(s: BlockSum, invert: bool, uniform: bool) -> (c: ColoredChar)
    requires
        s@.bounded(),
    ensures
        c == cell_of(s@, invert, uniform),
{
    if s.count == 0 {
        ColoredChar::blank()
    } else {
        let density: u8 = mean_of(s.density, s.count);
        let r: u8 = mean_of(s.red, s.count);
        let g: u8 = mean_of(s.green, s.count);
        let b: u8 = mean_of(s.blue, s.count);
        ColoredChar::from_everything(density, (r, g, b), true, invert, uniform)
    }
}

/// The glyph of one target cell. `parallel` chooses how the block is added
/// up and has no bearing on the glyph.
pub fn resample_cell(
    pixels: &FlatMatrix<Pixel>,
    th: usize,
    tw: usize,
    scale_y: usize,
    scale_x: usize,
    grayscale: bool,
    invert: bool,
    uniform: bool,
    parallel: bool,
) -> (c: ColoredChar)
    requires
        pixels.wf(),
        scale_y >= 1,
        scale_x >= 1,
    ensures
        c == cell_at(
            pixels@,
            th as int,
            tw as int,
            scale_y as nat,
            scale_x as nat,
            grayscale,
            invert,
            uniform,
        ),
{
    let (r0, r1) = block_bounds(th, scale_y, pixels.rows());
    let (c0, c1) = block_bounds(tw, scale_x, pixels.columns());
    let s: BlockSum = if parallel {
        block_sum_parallel(pixels, r0, r1, c0, c1, grayscale)
    } else {
        block_sum_sequential(pixels, r0, r1, c0, c1, grayscale)
    };
    proof {
        lemma_block_count_in_matrix(
            pixels@,
            r0 as int,
            r1 as int,
            c0 as int,
            c1 as int,
            grayscale,
        );
    }
    cell_from_sum(s, invert, uniform)
}

/// One row of the target, cell after cell.
pub fn resample_row_sequential(
    pixels: &FlatMatrix<Pixel>,
    th: usize,
    width: usize,
    scale_y: usize,
    scale_x: usize,
    grayscale: bool,
    invert: bool,
    uniform: bool,
) -> (row: Vec<ColoredChar>)
    requires
        pixels.wf(),
        scale_y >= 1,
        scale_x >= 1,
    ensures
        row.len() == width,
        forall|tw: int|
            0 <= tw < width ==> #[trigger] row[tw] == cell_at(
                pixels@,
                th as int,
                tw,
                scale_y as nat,
                scale_x as nat,
                grayscale,
                invert,
                uniform,
            ),
{
    let mut row: Vec<ColoredChar> = Vec::new();
    let mut tw: usize = 0;
    while tw < width
        invariant
            pixels.wf(),
            scale_y >= 1,
            scale_x >= 1,
            tw <= width,
            row.len() == tw,
            forall|j: int|
                0 <= j < tw ==> #[trigger] row[j] == cell_at(
                    pixels@,
                    th as int,
                    j,
                    scale_y as nat,
                    scale_x as nat,
                    grayscale,
                    invert,
                    uniform,
                ),
        decreases width - tw,
    {
        row.push(
            resample_cell(pixels, th, tw, scale_y, scale_x, grayscale, invert, uniform, false),
        );
        tw = tw + 1;
    }
    row
}

/// One row of the target, its cells handed out to the thread pool.
pub fn resample_row_parallel(
    pixels: &FlatMatrix<Pixel>,
    th: usize,
    width: usize,
    scale_y: usize,
    scale_x: usize,
    grayscale: bool,
    invert: bool,
    uniform: bool,
) -> (row: Vec<ColoredChar>)
    requires
        pixels.wf(),
        scale_y >= 1,
        scale_x >= 1,
    ensures
        row.len() == width,
        forall|tw: int|
            0 <= tw < width ==> #[trigger] row[tw] == cell_at(
                pixels@,
                th as int,
                tw,
                scale_y as nat,
                scale_x as nat,
                grayscale,
                invert,
                uniform,
            ),
{
    let cell = |tw: usize| -> (c: ColoredChar)
            ensures
                c == cell_at(
                    pixels@,
                    th as int,
                    tw as int,
                    scale_y as nat,
                    scale_x as nat,
                    grayscale,
                    invert,
                    uniform,
                ),
        {
            let c: ColoredChar = resample_cell(
                pixels,
                th,
                tw,
                scale_y,
                scale_x,
                grayscale,
                invert,
                uniform,
                true,
            );
            c
        };
    let row: Vec<ColoredChar> = par_map_range(width, cell);
    assert forall|tw: int| 0 <= tw < width implies #[trigger] row[tw] == cell_at(
        pixels@,
        th as int,
        tw,
        scale_y as nat,
        scale_x as nat,
        grayscale,
        invert,
        uniform,
    ) by {
        let i = tw as usize;
        assert(row[i as int] == row[tw]);
    }
    row
}

/// Rows of cells that hold, at every position, the glyph of that target cell.
pub open spec fn rows_hold_cells(
    rows: Seq<Vec<ColoredChar>>,
    g: Grid<Pixel>,
    width: nat,
    scale_y: nat,
    scale_x: nat,
    grayscale: bool,
    invert: bool,
    uniform: bool,
) -> bool {
    forall|th: int|
        0 <= th < rows.len() ==> {
            &&& (#[trigger] rows[th]).len() == width
            &&& forall|tw: int|
                0 <= tw < width ==> #[trigger] rows[th][tw] == cell_at(
                    g,
                    th,
                    tw,
                    scale_y,
                    scale_x,
                    grayscale,
                    invert,
                    uniform,
                )
        }
}

/// Lays rows of cells, of which there is at least one, out as a matrix.
fn assemble(
    rows: Vec<Vec<ColoredChar>>,
    Ghost(g): Ghost<Grid<Pixel>>,
    width: usize,
    grayscale: bool,
    invert: bool,
    uniform: bool,
) -> (m: FlatMatrix<ColoredChar>)
    requires
        rows.len() > 0,
        rows_hold_cells(
            rows@,
            g,
            width as nat,
            scale(g.rows, rows.len() as nat),
            scale(g.columns, width as nat),
            grayscale,
            invert,
            uniform,
        ),
    ensures
        m.wf(),
        m@ == resampled(g, rows.len() as nat, width as nat, grayscale, invert, uniform),
{
    let ghost height = rows.len() as nat;
    assert(rows[0].len() == width);
    let r = FlatMatrix::from_rows(rows);
    let m = r.unwrap();
    proof {
        let want = resampled(g, height, width as nat, grayscale, invert, uniform);
        assert(m@.cells.len() == want.cells.len());
        assert forall|k: int| 0 <= k < m@.cells.len() implies m@.cells[k] == want.cells[k] by {
            lemma_position(height, width as nat, k);
            let th = k / (width as int);
            let tw = k % (width as int);
            assert(m@.at(th, tw) == rows[th][tw]);
        }
        assert(m@.cells =~= want.cells);
    }
    m
}

/// Fills a target of at least one row, one cell after the other.
fn fill_sequential(
    pixels: &FlatMatrix<Pixel>,
    target_height: usize,
    target_width: usize,
    grayscale: bool,
    uniform: bool,
    invert: bool,
) -> (m: FlatMatrix<ColoredChar>)
    requires
        pixels.wf(),
        target_height > 0,
    ensures
        m.wf(),
        m@ == resampled(
            pixels@,
            target_height as nat,
            target_width as nat,
            grayscale,
            invert,
            uniform,
        ),
{
    let scale_y: usize = scale_factor(pixels.rows(), target_height);
    let scale_x: usize = scale_factor(pixels.columns(), target_width);
    let mut rows: Vec<Vec<ColoredChar>> = Vec::new();
    let mut th: usize = 0;
    while th < target_height
        invariant
            pixels.wf(),
            scale_y >= 1,
            scale_x >= 1,
            th <= target_height,
            rows.len() == th,
            rows_hold_cells(
                rows@,
                pixels@,
                target_width as nat,
                scale_y as nat,
                scale_x as nat,
                grayscale,
                invert,
                uniform,
            ),
        decreases target_height - th,
    {
        let row = resample_row_sequential(
            pixels,
            th,
            target_width,
            scale_y,
            scale_x,
            grayscale,
            invert,
            uniform,
        );
        rows.push(row);
        th = th + 1;
    }
    assemble(rows, Ghost(pixels@), target_width, grayscale, invert, uniform)
}

/// Fills a target of at least one row on the thread pool: rows, the cells of
/// a row and the rows of a block are each handed out, and the block sums are
/// reduced in parallel.
fn fill_parallel(
    pixels: &FlatMatrix<Pixel>,
    target_height: usize,
    target_width: usize,
    grayscale: bool,
    uniform: bool,
    invert: bool,
) -> (m: FlatMatrix<ColoredChar>)
    requires
        pixels.wf(),
        target_height > 0,
    ensures
        m.wf(),
        m@ == resampled(
            pixels@,
            target_height as nat,
            target_width as nat,
            grayscale,
            invert,
            uniform,
        ),
{
    let scale_y: usize = scale_factor(pixels.rows(), target_height);
    let scale_x: usize = scale_factor(pixels.columns(), target_width);
    let one_row = |th: usize| -> (row: Vec<ColoredChar>)
            ensures
                row.len() == target_width,
                forall|tw: int|
                    0 <= tw < target_width ==> #[trigger] row[tw] == cell_at(
                        pixels@,
                        th as int,
                        tw,
                        scale_y as nat,
                        scale_x as nat,
                        grayscale,
                        invert,
                        uniform,
                    ),
        {
            let row: Vec<ColoredChar> = resample_row_parallel(
                pixels,
                th,
                target_width,
                scale_y,
                scale_x,
                grayscale,
                invert,
                uniform,
            );
            row
        };
    let rows: Vec<Vec<ColoredChar>> = par_map_range(target_height, one_row);
    proof {
        assert forall|th: int| 0 <= th < rows.len() implies {
            &&& (#[trigger] rows[th]).len() == target_width
            &&& forall|tw: int|
                0 <= tw < target_width ==> #[trigger] rows[th][tw] == cell_at(
                    pixels@,
                    th,
                    tw,
                    scale_y as nat,
                    scale_x as nat,
                    grayscale,
                    invert,
                    uniform,
                )
        } by {
            let i = th as usize;
            assert(rows[i as int] == rows[th]);
        }
    }
    assemble(rows, Ghost(pixels@), target_width, grayscale, invert, uniform)
}

/// Resamples a source grid to `target_height` rows of `target_width` glyphs,
/// one cell after the other. A source without rows or columns and a target
/// without rows or columns are refused before any work is done.
pub fn algo_sequential(
    pixels: &FlatMatrix<Pixel>,
    target_height: usize,
    target_width: usize,
    grayscale: bool,
    uniform: bool,
    invert: bool,
) -> (r: Result<FlatMatrix<ColoredChar>, Error>)
    requires
        pixels.wf(),
    ensures
        r is Ok <==> resample_outcome(
            pixels@,
            target_height as nat,
            target_width as nat,
            invert,
            grayscale,
            uniform,
        ) is Ok,
        r matches Ok(m) ==> m.wf() && Ok::<Grid<ColoredChar>, Error>(m@) == resample_outcome(
            pixels@,
            target_height as nat,
            target_width as nat,
            invert,
            grayscale,
            uniform,
        ),
        r matches Err(e) ==> Err::<Grid<ColoredChar>, Error>(e) == resample_outcome(
            pixels@,
            target_height as nat,
            target_width as nat,
            invert,
            grayscale,
            uniform,
        ),
{
    if pixels.rows() == 0 || pixels.columns() == 0 {
        Err(Error::EmptySource)
    } else if target_height == 0 || target_width == 0 {
        Err(Error::InvalidTargetDimensions)
    } else {
        Ok(fill_sequential(pixels, target_height, target_width, grayscale, uniform, invert))
    }
}

/// Resamples a source grid to `target_height` rows of `target_width` glyphs
/// on the thread pool: rows, the cells of a row and the rows of a block are
/// each handed out, and the block sums are reduced in parallel. A source
/// without rows or columns and a target without rows or columns are refused
/// before any work is done.
pub fn algo_parallel(
    pixels: &FlatMatrix<Pixel>,
    target_height: usize,
    target_width: usize,
    grayscale: bool,
    uniform: bool,
    invert: bool,
) -> (r: Result<FlatMatrix<ColoredChar>, Error>)
    requires
        pixels.wf(),
    ensures
        r is Ok <==> resample_outcome(
            pixels@,
            target_height as nat,
            target_width as nat,
            invert,
            grayscale,
            uniform,
        ) is Ok,
        r matches Ok(m) ==> m.wf() && Ok::<Grid<ColoredChar>, Error>(m@) == resample_outcome(
            pixels@,
            target_height as nat,
            target_width as nat,
            invert,
            grayscale,
            uniform,
        ),
        r matches Err(e) ==> Err::<Grid<ColoredChar>, Error>(e) == resample_outcome(
            pixels@,
            target_height as nat,
            target_width as nat,
            invert,
            grayscale,
            uniform,
        ),
{
    if pixels.rows() == 0 || pixels.columns() == 0 {
        Err(Error::EmptySource)
    } else if target_height == 0 || target_width == 0 {
        Err(Error::InvalidTargetDimensions)
    } else {
        Ok(fill_parallel(pixels, target_height, target_width, grayscale, uniform, invert))
    }
}

/// Resamples a source grid of pixels to a grid of `target_h` by `target_w`
/// glyphs. An empty source and an empty target are refused before any work
/// is done. `parallel` chooses between the thread pool and plain iteration
/// and has no bearing on the result.
pub fn resample(
    pixels: &FlatMatrix<Pixel>,
    target_h: usize,
    target_w: usize,
    invert: bool,
    grayscale: bool,
    uniform: bool,
    parallel: bool,
) -> (r: Result<FlatMatrix<ColoredChar>, Error>)
    requires
        pixels.wf(),
    ensures
        r is Ok <==> resample_outcome(
            pixels@,
            target_h as nat,
            target_w as nat,
            invert,
            grayscale,
            uniform,
        ) is Ok,
        r matches Ok(m) ==> m.wf() && Ok::<Grid<ColoredChar>, Error>(m@) == resample_outcome(
            pixels@,
            target_h as nat,
            target_w as nat,
            invert,
            grayscale,
            uniform,
        ),
        r matches Err(e) ==> Err::<Grid<ColoredChar>, Error>(e) == resample_outcome(
            pixels@,
            target_h as nat,
            target_w as nat,
            invert,
            grayscale,
            uniform,
        ),
{
    if parallel {
        algo_parallel(pixels, target_h, target_w, grayscale, uniform, invert)
    } else {
        algo_sequential(pixels, target_h, target_w, grayscale, uniform, invert)
    }
}

/// Every cell of a resampled grid is well formed: where it is invisible, its
/// glyph is the blank one.
pub proof fn lemma_resampled_cells_wf(
    g: Grid<Pixel>,
    height: nat,
    width: nat,
    grayscale: bool,
    invert: bool,
    uniform: bool,
)
    ensures
        resampled(g, height, width, grayscale, invert, uniform).wf(),
        forall|k: int|
            0 <= k < height * width ==> (#[trigger] resampled(
                g,
                height,
                width,
                grayscale,
                invert,
                uniform,
            ).cells[k]).wf(),
{
    let out = resampled(g, height, width, grayscale, invert, uniform);
    assert forall|k: int| 0 <= k < height * width implies (#[trigger] out.cells[k]).wf() by {
        let t = cell_tally(
            g,
            k / (width as int),
            k % (width as int),
            scale(g.rows, height),
            scale(g.columns, width),
            grayscale,
        );
        if t.count != 0 {
            crate::colored_char::lemma_visible_iff_not_blank(
                mean(t.density, t.count) as u8,
                Rgb {
                    r: mean(t.red, t.count) as u8,
                    g: mean(t.green, t.count) as u8,
                    b: mean(t.blue, t.count) as u8,
                },
                invert,
                uniform,
            );
        }
    }
}

/// In grayscale every cell of a resampled grid has a gray for its colour.
pub proof fn lemma_grayscale_cells_are_gray(
    g: Grid<Pixel>,
    height: nat,
    width: nat,
    invert: bool,
    uniform: bool,
)
    ensures
        forall|k: int|
            0 <= k < height * width ==> {
                let c = (#[trigger] resampled(g, height, width, true, invert, uniform).cells[k]).color;
                c.r == c.g && c.g == c.b
            },
{
    let out = resampled(g, height, width, true, invert, uniform);
    assert forall|k: int| 0 <= k < height * width implies {
        let c = (#[trigger] out.cells[k]).color;
        c.r == c.g && c.g == c.b
    } by {
        let th = k / (width as int);
        let tw = k % (width as int);
        let sy = scale(g.rows, height);
        let sx = scale(g.columns, width);
        lemma_gray_block_tally(
            g,
            clip(th * sy, g.rows),
            clip(th * sy + sy, g.rows),
            clip(tw * sx, g.columns),
            clip(tw * sx + sx, g.columns),
        );
    }
}

/// Whatever the thread pool gives for a request, plain iteration gives the
/// same: the same error, or the same grid.
pub proof fn lemma_parallel_equals_sequential(
    pixels: &FlatMatrix<Pixel>,
    target_height: usize,
    target_width: usize,
    grayscale: bool,
    uniform: bool,
    invert: bool,
    par: Result<FlatMatrix<ColoredChar>, Error>,
    seq: Result<FlatMatrix<ColoredChar>, Error>,
)
    requires
        pixels.wf(),
        call_ensures(
            algo_parallel,
            (pixels, target_height, target_width, grayscale, uniform, invert),
            par,
        ),
        call_ensures(
            algo_sequential,
            (pixels, target_height, target_width, grayscale, uniform, invert),
            seq,
        ),
    ensures
        par is Ok <==> seq is Ok,
        par is Ok ==> par->Ok_0@ == seq->Ok_0@,
        par is Err ==> par->Err_0 == seq->Err_0,
{
}

/// A request is answered alike with the thread pool and without it: with the
/// same error, or with the same grid.
pub proof fn lemma_resample_ignores_strategy(
    pixels: &FlatMatrix<Pixel>,
    target_h: usize,
    target_w: usize,
    invert: bool,
    grayscale: bool,
    uniform: bool,
    par: Result<FlatMatrix<ColoredChar>, Error>,
    seq: Result<FlatMatrix<ColoredChar>, Error>,
)
    requires
        pixels.wf(),
        call_ensures(resample, (pixels, target_h, target_w, invert, grayscale, uniform, true), par),
        call_ensures(
            resample,
            (pixels, target_h, target_w, invert, grayscale, uniform, false),
            seq,
        ),
    ensures
        par is Ok <==> seq is Ok,
        par is Ok ==> par->Ok_0@ == seq->Ok_0@,
        par is Err ==> par->Err_0 == seq->Err_0,
{
}

} // verus!

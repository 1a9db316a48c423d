//! A raster image as a grid of coloured glyphs.

use vstd::prelude::*;
use crate::algo::{
    lemma_grayscale_cells_are_gray, lemma_resampled_cells_wf, resample, resample_outcome, resampled,
};
use crate::color::Pixel;
use crate::colored_char::ColoredChar;
use crate::error::Error;
use crate::flat_matrix::{lemma_flat_index, lemma_row, FlatMatrix, Grid};
use crate::render::{
    is_grid_rendering, is_plain, is_plain_grid, is_plain_row, plain_grid, render_grid,
};

verus! {

/// An image as a grid of coloured glyphs.
pub struct AsciiImg(pub FlatMatrix<ColoredChar>);

/// What the text of an image may be, for a request that is or is not
/// answered with a grid: a rendering of the grid.
pub open spec fn is_text_of(outcome: Result<Grid<ColoredChar>, Error>, s: Seq<char>) -> bool {
    outcome matches Ok(g) && is_grid_rendering(g.row_seqs(), s)
}

impl AsciiImg {
    /// The image of decoded pixels at the given size, resampled on the
    /// thread pool.
    pub fn new_parallel(
        pixels: &FlatMatrix<Pixel>,
        target_height: usize,
        target_width: usize,
        invert: bool,
        grayscale: bool,
        uniform: bool,
    ) -> (r: Result<Self, Error>)
        requires
            pixels.wf(),
        ensures
            r matches Ok(img) ==> img.0.wf() && Ok::<Grid<ColoredChar>, Error>(img.0@)
                == resample_outcome(
                pixels@,
                target_height as nat,
                target_width as nat,
                invert,
                grayscale,
                uniform,
            ),
            r matches Err(e) ==> Err::<Grid<ColoredChar>, Error>(e) == resample_outcome(
                pixels@,
                target_height as nat,
                target_width as nat,
                invert,
                grayscale,
                uniform,
            ),
    {
        match resample(pixels, target_height, target_width, invert, grayscale, uniform, true) {
            Ok(m) => Ok(AsciiImg(m)),
            Err(e) => Err(e),
        }
    }

    /// The image of decoded pixels at the given size, resampled cell after
    /// cell.
    pub fn new_sequential(
        pixels: &FlatMatrix<Pixel>,
        target_height: usize,
        target_width: usize,
        invert: bool,
        grayscale: bool,
        uniform: bool,
    ) -> (r: Result<Self, Error>)
        requires
            pixels.wf(),
        ensures
            r matches Ok(img) ==> img.0.wf() && Ok::<Grid<ColoredChar>, Error>(img.0@)
                == resample_outcome(
                pixels@,
                target_height as nat,
                target_width as nat,
                invert,
                grayscale,
                uniform,
            ),
            r matches Err(e) ==> Err::<Grid<ColoredChar>, Error>(e) == resample_outcome(
                pixels@,
                target_height as nat,
                target_width as nat,
                invert,
                grayscale,
                uniform,
            ),
    {
        match resample(pixels, target_height, target_width, invert, grayscale, uniform, false) {
            Ok(m) => Ok(AsciiImg(m)),
            Err(e) => Err(e),
        }
    }

    /// The image as text: its rows, with a line feed between each two.
    pub fn to_string(&self) -> (s: String)
        requires
            self.0.wf(),
        ensures
            is_grid_rendering(self.0@.row_seqs(), s@),
            is_plain_grid(self.0@.row_seqs()) ==> s@ == plain_grid(self.0@.row_seqs()),
    {
        render_grid(&self.0)
    }
}

/// A resampled grid in grayscale has no cell with a colour.
pub proof fn lemma_grayscale_grid_is_plain(
    g: Grid<Pixel>,
    height: nat,
    width: nat,
    invert: bool,
    uniform: bool,
)
    ensures
        is_plain_grid(resampled(g, height, width, true, invert, uniform).row_seqs()),
{
    let out = resampled(g, height, width, true, invert, uniform);
    lemma_grayscale_cells_are_gray(g, height, width, invert, uniform);
    lemma_resampled_cells_wf(g, height, width, true, invert, uniform);
    assert forall|i: int| 0 <= i < out.row_seqs().len() implies is_plain_row(
        #[trigger] out.row_seqs()[i],
    ) by {
        let row = out.row_seqs()[i];
        lemma_row(out, i);
        assert forall|j: int| 0 <= j < row.len() implies is_plain(#[trigger] row[j]) by {
            lemma_flat_index(out.rows, out.columns, i, j);
            assert(row[j] == out.at(i, j));
        }
    }
}

/// Resamples decoded pixels to the given size and writes the glyphs out as
/// text. In grayscale the text is the same wherever it is written.
pub fn convert(
    pixels: &FlatMatrix<Pixel>,
    target_height: usize,
    target_width: usize,
    invert: bool,
    grayscale: bool,
    uniform: bool,
) -> (r: Result<String, Error>)
    requires
        pixels.wf(),
    ensures
        r matches Ok(s) ==> is_text_of(
            resample_outcome(
                pixels@,
                target_height as nat,
                target_width as nat,
                invert,
                grayscale,
                uniform,
            ),
            s@,
        ),
        r matches Err(e) ==> Err::<Grid<ColoredChar>, Error>(e) == resample_outcome(
            pixels@,
            target_height as nat,
            target_width as nat,
            invert,
            grayscale,
            uniform,
        ),
        grayscale ==> (r matches Ok(s) ==> s@ == plain_grid(
            resampled(
                pixels@,
                target_height as nat,
                target_width as nat,
                true,
                invert,
                uniform,
            ).row_seqs(),
        )),
{
    proof {
        lemma_grayscale_grid_is_plain(
            pixels@,
            target_height as nat,
            target_width as nat,
            invert,
            uniform,
        );
    }
    match AsciiImg::new_sequential(
        pixels,
        target_height,
        target_width,
        invert,
        grayscale,
        uniform,
    ) {
        Ok(img) => Ok(img.to_string()),
        Err(e) => Err(e),
    }
}

} // verus!

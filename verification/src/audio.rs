//! Audio samples drawn as a waveform: one column of glyphs for each sample,
//! a run of cells upward from the middle for a positive sample and downward
//! for a negative one.

use vstd::prelude::*;
use crate::chars::quantized;
use crate::chars::standard_glyphs;
use crate::colored_char::ColoredChar;
use crate::error::Error;
use crate::flat_matrix::{lemma_flat_index, lemma_position, lemma_transposed_at, FlatMatrix, Grid};
use crate::parallel::par_map_range;
use crate::rounding::{div_round_half_even, round_half_even};
use crate::text::{joined, GenAscii};

verus! {

/// The glyph that stands for a quiet cell where the quantiser gives the
/// blank one.
pub const QUIET: char = '.';

/// The last row of the upper half of a column of `2 * max_height` cells.
pub open spec fn midpoint(max_height: nat) -> nat {
    ((2 * max_height - 1) / 2) as nat
}

/// A magnitude scaled to the half column: `magnitude / 255` of the midpoint,
/// rounded half to even and never beyond the midpoint.
pub open spec fn scaled_magnitude(magnitude: u16, max_height: nat) -> nat {
    let scaled = round_half_even(magnitude as nat * midpoint(max_height), 255);
    if scaled > midpoint(max_height) {
        midpoint(max_height)
    } else {
        scaled
    }
}

/// The brightness that a run of `scaled` cells is drawn with.
pub open spec fn run_brightness(scaled: nat) -> u8 {
    if scaled > 255 {
        255
    } else {
        scaled as u8
    }
}

/// The glyph that a run of `scaled` cells is drawn with: the glyph of its
/// brightness, the quiet glyph standing in for the blank one.
pub open spec fn wave_glyph(scaled: nat, invert: bool, uniform: bool) -> char {
    let glyph = quantized(standard_glyphs(), run_brightness(scaled), invert, uniform).0;
    if glyph == ' ' {
        QUIET
    } else {
        glyph
    }
}

/// Whether row `row` of the column of a sample is painted. The run of a
/// positive sample ends at the midpoint, the run of a negative one begins
/// below it.
pub open spec fn painted(sample: (u16, bool), max_height: nat, row: int) -> bool {
    let mid = midpoint(max_height) as int;
    let run = scaled_magnitude(sample.0, max_height) as int;
    if sample.1 {
        mid - run < row <= mid
    } else {
        mid < row <= mid + run
    }
}

/// What row `row` of the column of a sample holds.
pub open spec fn wave_cell(
    sample: (u16, bool),
    max_height: nat,
    row: int,
    invert: bool,
    uniform: bool,
) -> char {
    if painted(sample, max_height, row) {
        wave_glyph(scaled_magnitude(sample.0, max_height), invert, uniform)
    } else {
        ' '
    }
}

/// The column of a sample, top to bottom.
pub open spec fn wave_column(
    sample: (u16, bool),
    max_height: nat,
    invert: bool,
    uniform: bool,
) -> Seq<char> {
    Seq::new(2 * max_height, |row: int| wave_cell(sample, max_height, row, invert, uniform))
}

/// The columns of all samples, one to a row of the grid.
pub open spec fn wave_columns(
    samples: Seq<(u16, bool)>,
    max_height: nat,
    invert: bool,
    uniform: bool,
) -> Grid<char> {
    Grid {
        rows: samples.len(),
        columns: 2 * max_height,
        cells: Seq::new(
            samples.len() * (2 * max_height),
            |k: int|
                wave_cell(
                    samples[k / (2 * max_height as int)],
                    max_height,
                    k % (2 * max_height as int),
                    invert,
                    uniform,
                ),
        ),
    }
}

/// The waveform of the samples: time runs along the rows, amplitude along
/// the columns.
pub open spec fn waveform(
    samples: Seq<(u16, bool)>,
    max_height: nat,
    invert: bool,
    uniform: bool,
) -> Grid<char> {
    wave_columns(samples, max_height, invert, uniform).transposed()
}

/// In the waveform, the cell in row `row` of the column of sample `i` is the
/// cell of that sample's column.
pub proof fn lemma_waveform_at(
    samples: Seq<(u16, bool)>,
    max_height: nat,
    invert: bool,
    uniform: bool,
    row: int,
    i: int,
)
    requires
        max_height > 0,
        0 <= i < samples.len(),
        0 <= row < 2 * max_height,
    ensures
        waveform(samples, max_height, invert, uniform).rows == 2 * max_height,
        waveform(samples, max_height, invert, uniform).columns == samples.len(),
        waveform(samples, max_height, invert, uniform).wf(),
        waveform(samples, max_height, invert, uniform).at(row, i) == wave_cell(
            samples[i],
            max_height,
            row,
            invert,
            uniform,
        ),
{
    let g = wave_columns(samples, max_height, invert, uniform);
    lemma_flat_index(samples.len(), 2 * max_height, i, row);
    lemma_transposed_at(g, i, row);
}

/// A sample as its magnitude and its sign, zero counting as positive.
pub open spec fn split_sample(sample: i16) -> (u16, bool) {
    if sample >= 0 {
        (sample as u16, true)
    } else {
        ((-(sample as int)) as u16, false)
    }
}

/// The samples as magnitudes and signs.
pub open spec fn split_samples(samples: Seq<i16>) -> Seq<(u16, bool)> {
    samples.map_values(|s: i16| split_sample(s))
}

/// Splits a sample into its magnitude and its sign.
pub fn magnitude_and_sign(sample: i16) -> (out: (u16, bool))
    ensures
        out == split_sample(sample),
{
    let wide: i32 = sample as i32;
    if wide >= 0 {
        (wide as u16, true)
    } else {
        ((0 - wide) as u16, false)
    }
}

/// Scales a magnitude to the half column.
pub fn scale_magnitude(magnitude: u16, max_height: usize) -> (scaled: usize)
    requires
        max_height >= 1,
        2 * max_height <= usize::MAX,
    ensures
        scaled == scaled_magnitude(magnitude, max_height as nat),
        scaled <= midpoint(max_height as nat),
        midpoint(max_height as nat) == max_height - 1,
{
    let mid: usize = (2 * max_height - 1) / 2;
    proof {
        assert(magnitude as nat * mid as nat <= 0xffff * usize::MAX) by (nonlinear_arith)
            requires
                magnitude <= 0xffff,
                mid <= usize::MAX,
        ;
    }
    let product: u128 = (magnitude as u128) * (mid as u128);
    let scaled: u128 = div_round_half_even(product, 255);
    if scaled > mid as u128 {
        mid
    } else {
        scaled as usize
    }
}

/// The glyph that a run is drawn with.
pub fn run_glyph(scaled: usize, invert: bool, uniform: bool) -> (glyph: char)
    ensures
        glyph == wave_glyph(scaled as nat, invert, uniform),
{
    let density: u8 = if scaled > 255 {
        255
    } else {
        scaled as u8
    };
    let cell = ColoredChar::from_everything(density, (255, 255, 255), true, invert, uniform);
    if cell.ch == ' ' {
        QUIET
    } else {
        cell.ch
    }
}

/// Draws the column of one sample.
pub fn draw_column(sample: (u16, bool), max_height: usize, invert: bool, uniform: bool) -> (column:
    Vec<char>)
    requires
        max_height >= 1,
        2 * max_height <= usize::MAX,
    ensures
        column@ == wave_column(sample, max_height as nat, invert, uniform),
{
    let height: usize = 2 * max_height;
    let mid: usize = max_height - 1;
    let run: usize = scale_magnitude(sample.0, max_height);
    let glyph: char = run_glyph(run, invert, uniform);
    let mut column: Vec<char> = Vec::with_capacity(height);
    let mut row: usize = 0;
    while row < height
        invariant
            max_height >= 1,
            height == 2 * max_height,
            mid == midpoint(max_height as nat),
            run == scaled_magnitude(sample.0, max_height as nat),
            run <= mid,
            glyph == wave_glyph(run as nat, invert, uniform),
            row <= height,
            column.len() == row,
            forall|r: int|
                0 <= r < row ==> #[trigger] column[r] == wave_cell(
                    sample,
                    max_height as nat,
                    r,
                    invert,
                    uniform,
                ),
        decreases height - row,
    {
        let is_painted: bool = if sample.1 {
            row <= mid && row + run > mid
        } else {
            row > mid && row - mid <= run
        };
        if is_painted {
            column.push(glyph);
        } else {
            column.push(' ');
        }
        row = row + 1;
    }
    assert(column@ =~= wave_column(sample, max_height as nat, invert, uniform));
    column
}

/// Columns that hold, each, the column of its sample.
pub open spec fn columns_hold_samples(
    columns: Seq<Vec<char>>,
    samples: Seq<(u16, bool)>,
    max_height: nat,
    invert: bool,
    uniform: bool,
) -> bool {
    &&& columns.len() == samples.len()
    &&& forall|i: int|
        0 <= i < columns.len() ==> (#[trigger] columns[i])@ == wave_column(
            samples[i],
            max_height,
            invert,
            uniform,
        )
}

/// Lays the columns out as a matrix and turns it, so that time runs along
/// the rows.
fn assemble(
    columns: Vec<Vec<char>>,
    Ghost(samples): Ghost<Seq<(u16, bool)>>,
    max_height: usize,
    invert: bool,
    uniform: bool,
) -> (m: FlatMatrix<char>)
    requires
        max_height >= 1,
        2 * max_height <= usize::MAX,
        columns_hold_samples(columns@, samples, max_height as nat, invert, uniform),
    ensures
        m.wf(),
        m@ == waveform(samples, max_height as nat, invert, uniform),
{
    if columns.len() == 0 {
        // no sample, no column: every row of the waveform is empty
        let none = FlatMatrix::new_fill(2 * max_height, 0, ' ');
        proof {
            let want = waveform(samples, max_height as nat, invert, uniform);
            assert(samples.len() * (2 * max_height) == 0) by (nonlinear_arith)
                requires
                    samples.len() == 0,
            ;
            assert((2 * max_height) * 0 == 0) by (nonlinear_arith);
            assert(none@.cells =~= want.cells);
        }
        return none;
    }
    assert(columns[0]@.len() == 2 * max_height);
    let flat = FlatMatrix::from_rows(columns).unwrap();
    proof {
        let want = wave_columns(samples, max_height as nat, invert, uniform);
        let height = 2 * max_height as nat;
        assert(flat@.cells.len() == want.cells.len());
        assert forall|k: int| 0 <= k < flat@.cells.len() implies flat@.cells[k]
            == want.cells[k] by {
            lemma_position(samples.len(), height, k);
            let i = k / (height as int);
            let row = k % (height as int);
            assert(flat@.at(i, row) == columns[i][row]);
        }
        assert(flat@.cells =~= want.cells);
    }
    flat.transpose()
}

/// Draws the waveform of samples given as magnitude and sign, in columns of
/// `2 * max_height` cells. `parallel` chooses between the thread pool and
/// plain iteration and has no bearing on the result.
pub fn render_waveform(
    samples: &Vec<(u16, bool)>,
    max_height: usize,
    invert: bool,
    uniform: bool,
    parallel: bool,
) -> (r: Result<FlatMatrix<char>, Error>)
    requires
        2 * max_height <= usize::MAX,
    ensures
        r is Ok <==> max_height > 0,
        r matches Ok(m) ==> m.wf() && m@ == waveform(
            samples@,
            max_height as nat,
            invert,
            uniform,
        ),
        r matches Err(e) ==> e == Error::InvalidTargetDimensions,
{
    if max_height == 0 {
        return Err(Error::InvalidTargetDimensions);
    }
    let n: usize = samples.len();
    let columns: Vec<Vec<char>> = if parallel {
        let one_column = |i: usize| -> (column: Vec<char>)
            requires
                i < n,
            ensures
                column@ == wave_column(samples[i as int], max_height as nat, invert, uniform),
            {
                let column: Vec<char> = draw_column(samples[i], max_height, invert, uniform);
                column
            };
        let columns: Vec<Vec<char>> = par_map_range(n, one_column);
        assert forall|i: int| 0 <= i < columns.len() implies (#[trigger] columns[i])@
            == wave_column(samples[i], max_height as nat, invert, uniform) by {
            let t = i as usize;
            assert(columns[t as int] == columns[i]);
        }
        columns
    } else {
        let mut columns: Vec<Vec<char>> = Vec::with_capacity(n);
        let mut i: usize = 0;
        while i < n
            invariant
                n == samples.len(),
                max_height >= 1,
                2 * max_height <= usize::MAX,
                i <= n,
                columns.len() == i,
                forall|t: int|
                    0 <= t < i ==> (#[trigger] columns[t])@ == wave_column(
                        samples[t],
                        max_height as nat,
                        invert,
                        uniform,
                    ),
            decreases n - i,
        {
            columns.push(draw_column(samples[i], max_height, invert, uniform));
            i = i + 1;
        }
        columns
    };
    Ok(assemble(columns, Ghost(samples@), max_height, invert, uniform))
}

/// The waveform of an audio track as a grid of glyphs.
pub struct AsciiAudio(pub FlatMatrix<char>);

impl AsciiAudio {
    /// Splits the samples into magnitudes and signs.
    pub fn split(samples: &Vec<i16>) -> (out: Vec<(u16, bool)>)
        ensures
            out@ == split_samples(samples@),
    {
        let mut out: Vec<(u16, bool)> = Vec::with_capacity(samples.len());
        let mut i: usize = 0;
        while i < samples.len()
            invariant
                i <= samples.len(),
                out.len() == i,
                forall|t: int| 0 <= t < i ==> #[trigger] out[t] == split_sample(samples[t]),
            decreases samples.len() - i,
        {
            out.push(magnitude_and_sign(samples[i]));
            i = i + 1;
        }
        assert(out@ =~= split_samples(samples@));
        out
    }

    /// Splits the samples into magnitudes and signs on the thread pool.
    pub fn split_parallel(samples: &Vec<i16>) -> (out: Vec<(u16, bool)>)
        ensures
            out@ == split_samples(samples@),
    {
        let n: usize = samples.len();
        let one_sample = |i: usize| -> (pair: (u16, bool))
            requires
                i < n,
            ensures
                pair == split_sample(samples[i as int]),
            {
                let pair: (u16, bool) = magnitude_and_sign(samples[i]);
                pair
            };
        let out: Vec<(u16, bool)> = par_map_range(n, one_sample);
        assert forall|t: int| 0 <= t < n implies #[trigger] out[t] == split_sample(
            samples[t],
        ) by {
            let i = t as usize;
            assert(out[i as int] == out[t]);
        }
        assert(out@ =~= split_samples(samples@));
        out
    }

    /// The waveform of decoded samples, drawn on the thread pool.
    pub fn new_parallel(samples: &Vec<i16>, max_height: usize, uniform: bool, invert: bool) -> (r:
        Result<Self, Error>)
        requires
            2 * max_height <= usize::MAX,
        ensures
            r is Ok <==> max_height > 0,
            r matches Ok(a) ==> a.0.wf() && a.0@ == waveform(
                split_samples(samples@),
                max_height as nat,
                invert,
                uniform,
            ),
            r matches Err(e) ==> e == Error::InvalidTargetDimensions,
    {
        let split = Self::split_parallel(samples);
        match render_waveform(&split, max_height, invert, uniform, true) {
            Ok(m) => Ok(AsciiAudio(m)),
            Err(e) => Err(e),
        }
    }

    /// The waveform of decoded samples, drawn sample after sample.
    pub fn new_sequential(
        samples: &Vec<i16>,
        max_height: usize,
        uniform: bool,
        invert: bool,
    ) -> (r: Result<Self, Error>)
        requires
            2 * max_height <= usize::MAX,
        ensures
            r is Ok <==> max_height > 0,
            r matches Ok(a) ==> a.0.wf() && a.0@ == waveform(
                split_samples(samples@),
                max_height as nat,
                invert,
                uniform,
            ),
            r matches Err(e) ==> e == Error::InvalidTargetDimensions,
    {
        let split = Self::split(samples);
        match render_waveform(&split, max_height, invert, uniform, false) {
            Ok(m) => Ok(AsciiAudio(m)),
            Err(e) => Err(e),
        }
    }

    /// The waveform as text: its rows, with a line feed between each two.
    pub open spec fn text(&self) -> Seq<char> {
        joined(self.0@.row_seqs(), seq!['\n'])
    }

    /// The waveform as text.
    pub fn to_string(&self) -> (s: String)
        requires
            self.0.wf(),
        ensures
            s@ == self.text(),
    {
        let rows: Vec<Vec<char>> = self.0.into_iter_vecs();
        assert(crate::text::rows_of_chars(rows@) =~= self.0@.row_seqs());
        let s: String = rows.gen_ascii();
        s
    }
}

/// Draws the waveform of decoded samples and writes it out as text.
pub fn convert_audio(
    samples: &Vec<i16>,
    max_height: usize,
    uniform: bool,
    invert: bool,
    paralleled: bool,
) -> (r: Result<String, Error>)
    requires
        2 * max_height <= usize::MAX,
    ensures
        r is Ok <==> max_height > 0,
        r matches Ok(s) ==> s@ == joined(
            waveform(split_samples(samples@), max_height as nat, invert, uniform).row_seqs(),
            seq!['\n'],
        ),
        r matches Err(e) ==> e == Error::InvalidTargetDimensions,
{
    let drawn = if paralleled {
        AsciiAudio::new_parallel(samples, max_height, uniform, invert)
    } else {
        AsciiAudio::new_sequential(samples, max_height, uniform, invert)
    };
    match drawn {
        Ok(audio) => Ok(audio.to_string()),
        Err(e) => Err(e),
    }
}

} // verus!

use anything_to_ascii::algo::{
    algo_parallel, algo_sequential, block_bounds, cell_from_sum, resample, resample_cell,
    scale_factor,
};
use anything_to_ascii::block::{block_sum_sequential, row_sum, BlockSum};
use anything_to_ascii::color::{Pixel, Rgb};
use anything_to_ascii::colored_char::ColoredChar;
use anything_to_ascii::error::Error;
use anything_to_ascii::flat_matrix::FlatMatrix;
use anything_to_ascii::parallel::block_sum_parallel;

fn gradient(height: usize, width: usize) -> FlatMatrix<Pixel> {
    let mut rows = Vec::new();
    for y in 0..height {
        let mut row = Vec::new();
        for x in 0..width {
            let r = ((x * 37 + y * 11) % 256) as u8;
            let g = ((x * 5 + y * 53) % 256) as u8;
            let b = ((x * 101 + y * 7) % 256) as u8;
            let a = if (x + y) % 5 == 0 { 200 } else { 255 };
            row.push(Pixel::new(r, g, b, a));
        }
        rows.push(row);
    }
    FlatMatrix::from_rows(rows).unwrap()
}

fn sums(s: BlockSum) -> (u128, u128, u128, u128, u128) {
    (s.red, s.green, s.blue, s.density, s.count)
}

#[test]
fn black_source_gives_invisible_cells() {
    let pixels = FlatMatrix::new_fill(4, 4, Pixel::new(0, 0, 0, 255));
    for parallel in [false, true] {
        let out = resample(&pixels, 2, 2, false, true, false, parallel).unwrap();
        assert_eq!((out.rows(), out.columns()), (2, 2));
        for row in out.into_iter_vecs() {
            for cell in row {
                assert!(!cell.display);
                assert_eq!(cell.ch, ' ');
                assert_eq!(cell.density, 0);
                assert_eq!(cell.color, Rgb::new(0, 0, 0));
            }
        }
    }
}

#[test]
fn zero_target_height_is_refused() {
    let pixels = FlatMatrix::new_fill(4, 4, Pixel::new(0, 0, 0, 255));
    for parallel in [false, true] {
        let r = resample(&pixels, 0, 2, false, true, false, parallel);
        assert_eq!(r.err(), Some(Error::InvalidTargetDimensions));
    }
}

#[test]
fn zero_target_width_is_refused() {
    let pixels = FlatMatrix::new_fill(4, 4, Pixel::new(0, 0, 0, 255));
    let r = resample(&pixels, 2, 0, false, false, false, false);
    assert_eq!(r.err(), Some(Error::InvalidTargetDimensions));
}

#[test]
fn empty_source_is_refused() {
    let no_rows: FlatMatrix<Pixel> = FlatMatrix::new_fill(0, 4, Pixel::new(0, 0, 0, 255));
    let no_columns: FlatMatrix<Pixel> = FlatMatrix::new_fill(4, 0, Pixel::new(0, 0, 0, 255));
    for parallel in [false, true] {
        assert_eq!(
            resample(&no_rows, 2, 2, false, false, false, parallel).err(),
            Some(Error::EmptySource)
        );
        assert_eq!(
            resample(&no_columns, 2, 2, false, false, false, parallel).err(),
            Some(Error::EmptySource)
        );
        // an empty source is named before an empty target
        assert_eq!(
            resample(&no_rows, 0, 0, false, false, false, parallel).err(),
            Some(Error::EmptySource)
        );
    }
}

#[test]
fn parallel_and_sequential_agree() {
    let sources = [gradient(7, 9), gradient(1, 1), gradient(16, 16), gradient(5, 3)];
    let targets = [(1, 1), (2, 3), (4, 4), (5, 7), (9, 20)];
    for pixels in sources.iter() {
        for (h, w) in targets {
            for flags in 0..8 {
                let invert = flags & 1 != 0;
                let grayscale = flags & 2 != 0;
                let uniform = flags & 4 != 0;
                let par = resample(pixels, h, w, invert, grayscale, uniform, true).unwrap();
                let seq = resample(pixels, h, w, invert, grayscale, uniform, false).unwrap();
                assert_eq!((par.rows(), par.columns()), (h, w));
                assert_eq!((seq.rows(), seq.columns()), (h, w));
                assert_eq!(par.into_iter_vecs(), seq.into_iter_vecs());
                let a = algo_parallel(pixels, h, w, grayscale, uniform, invert).unwrap();
                let b = algo_sequential(pixels, h, w, grayscale, uniform, invert).unwrap();
                assert_eq!(a.into_iter_vecs(), b.into_iter_vecs());
                assert_eq!(a.into_iter_vecs(), par.into_iter_vecs());
            }
        }
    }
}

#[test]
fn a_block_is_averaged() {
    // one block of two by two: brightness 10, 20, 30 and 41
    let pixels = FlatMatrix::from_rows(vec![
        vec![Pixel::new(10, 10, 10, 255), Pixel::new(20, 20, 20, 255)],
        vec![Pixel::new(30, 30, 30, 255), Pixel::new(41, 41, 41, 255)],
    ])
    .unwrap();
    for parallel in [false, true] {
        let out = resample(&pixels, 1, 1, false, false, false, parallel).unwrap();
        // 101 / 4 = 25.25
        assert_eq!(
            out.into_iter_vecs(),
            vec![vec![ColoredChar {
                color: Rgb::new(25, 25, 25),
                ch: '-',
                density: 25,
                display: true
            }]]
        );
    }
}

#[test]
fn colors_are_averaged_by_channel() {
    let pixels = FlatMatrix::from_rows(vec![vec![
        Pixel::new(255, 0, 0, 255),
        Pixel::new(0, 255, 0, 255),
    ]])
    .unwrap();
    for parallel in [false, true] {
        let out = resample(&pixels, 1, 1, false, false, false, parallel).unwrap();
        // brightness (76 + 150) / 2 = 113, channels 127.5 -> 128
        assert_eq!(
            out.into_iter_vecs(),
            vec![vec![ColoredChar {
                color: Rgb::new(128, 128, 0),
                ch: 'T',
                density: 113,
                display: true
            }]]
        );
        let gray = resample(&pixels, 1, 1, false, true, false, parallel).unwrap();
        assert_eq!(
            gray.into_iter_vecs(),
            vec![vec![ColoredChar {
                color: Rgb::new(113, 113, 113),
                ch: 'T',
                density: 113,
                display: true
            }]]
        );
    }
}

#[test]
fn pixels_beyond_the_source_are_skipped() {
    // three by three to two by two: blocks of two, the last ones cut
    let mut rows = Vec::new();
    for y in 0..3u8 {
        let mut row = Vec::new();
        for x in 0..3u8 {
            let v = 10 * (3 * y + x + 1);
            row.push(Pixel::new(v, v, v, 255));
        }
        rows.push(row);
    }
    let pixels = FlatMatrix::from_rows(rows).unwrap();
    for parallel in [false, true] {
        let out = resample(&pixels, 2, 2, false, false, false, parallel).unwrap();
        let cells = out.into_iter_vecs();
        // (10 + 20 + 40 + 50) / 4, (30 + 60) / 2, (70 + 80) / 2, 90
        assert_eq!(cells[0][0].density, 30);
        assert_eq!(cells[0][1].density, 45);
        assert_eq!(cells[1][0].density, 75);
        assert_eq!(cells[1][1].density, 90);
        assert_eq!(cells[1][1].color, Rgb::new(90, 90, 90));
        assert_eq!(cells[1][1].ch, 'L');
    }
}

#[test]
fn a_block_wholly_beyond_the_source_is_blank() {
    // five rows to four: blocks of two rows, the fourth lies beyond the source
    let pixels = FlatMatrix::new_fill(5, 1, Pixel::new(200, 200, 200, 255));
    for parallel in [false, true] {
        let out = resample(&pixels, 4, 1, false, false, false, parallel).unwrap();
        let cells = out.into_iter_vecs();
        assert_eq!(cells.len(), 4);
        for row in 0..3 {
            assert_eq!(
                cells[row][0],
                ColoredChar { color: Rgb::new(200, 200, 200), ch: 'K', density: 200, display: true }
            );
        }
        assert_eq!(
            cells[3][0],
            ColoredChar { color: Rgb::new(255, 255, 255), ch: ' ', density: 0, display: false }
        );
    }
}

#[test]
fn a_larger_target_keeps_scale_one() {
    let pixels = gradient(2, 2);
    for parallel in [false, true] {
        let out = resample(&pixels, 3, 4, false, false, false, parallel).unwrap();
        let cells = out.into_iter_vecs();
        for y in 0..3 {
            for x in 0..4 {
                if y < 2 && x < 2 {
                    let want =
                        ColoredChar::from_color(*pixels.index(y, x), false, false, false);
                    assert_eq!(cells[y][x], want);
                } else {
                    assert_eq!(cells[y][x], ColoredChar::blank());
                }
            }
        }
    }
}

#[test]
fn one_by_one_and_extreme_ratios() {
    let one = FlatMatrix::new_fill(1, 1, Pixel::new(255, 255, 255, 255));
    let out = resample(&one, 1, 1, false, false, false, true).unwrap();
    assert_eq!(out.into_iter_vecs()[0][0].ch, '@');
    let wide = FlatMatrix::new_fill(1, 1000, Pixel::new(100, 100, 100, 255));
    for parallel in [false, true] {
        let out = resample(&wide, 1, 1, false, false, false, parallel).unwrap();
        assert_eq!(out.into_iter_vecs()[0][0].density, 100);
        let out = resample(&wide, 3, 7, true, false, false, parallel).unwrap();
        assert_eq!((out.rows(), out.columns()), (3, 7));
    }
}

#[test]
fn inverted_and_uniform_modes() {
    let pixels = FlatMatrix::new_fill(2, 2, Pixel::new(255, 255, 255, 255));
    for parallel in [false, true] {
        let inverted = resample(&pixels, 1, 1, true, false, false, parallel).unwrap();
        let cell = inverted.into_iter_vecs()[0][0];
        assert_eq!((cell.ch, cell.display, cell.density), (' ', false, 255));
        let uniform = resample(&pixels, 1, 1, false, false, true, parallel).unwrap();
        let cell = uniform.into_iter_vecs()[0][0];
        assert_eq!((cell.ch, cell.display), ('@', true));
        let both = resample(&pixels, 1, 1, true, false, true, parallel).unwrap();
        let cell = both.into_iter_vecs()[0][0];
        assert_eq!((cell.ch, cell.display), (' ', false));
    }
    let dark = FlatMatrix::new_fill(2, 2, Pixel::new(0, 0, 0, 255));
    let uniform = resample(&dark, 1, 1, false, false, true, false).unwrap();
    assert_eq!(uniform.into_iter_vecs()[0][0].ch, '@');
    let inverted = resample(&dark, 1, 1, true, false, false, false).unwrap();
    assert_eq!(inverted.into_iter_vecs()[0][0].ch, '@');
}

#[test]
fn algo_without_a_target() {
    let pixels = gradient(3, 3);
    let none = algo_sequential(&pixels, 0, 5, false, false, false);
    assert_eq!(none.err(), Some(Error::InvalidTargetDimensions));
    let none = algo_parallel(&pixels, 0, 5, false, false, false);
    assert_eq!(none.err(), Some(Error::InvalidTargetDimensions));
    let thin = algo_sequential(&pixels, 2, 0, false, false, false);
    assert_eq!(thin.err(), Some(Error::InvalidTargetDimensions));
    let thin = algo_parallel(&pixels, 2, 0, false, false, false);
    assert_eq!(thin.err(), Some(Error::InvalidTargetDimensions));
}

#[test]
fn algo_without_a_source() {
    let no_rows: FlatMatrix<Pixel> = FlatMatrix::new_fill(0, 4, Pixel::new(9, 9, 9, 255));
    let no_columns: FlatMatrix<Pixel> = FlatMatrix::new_fill(4, 0, Pixel::new(9, 9, 9, 255));
    for source in [&no_rows, &no_columns] {
        assert_eq!(
            algo_sequential(source, 2, 2, false, false, false).err(),
            Some(Error::EmptySource)
        );
        assert_eq!(
            algo_parallel(source, 2, 2, false, false, false).err(),
            Some(Error::EmptySource)
        );
        // an empty source is named before an empty target
        assert_eq!(
            algo_sequential(source, 0, 2, false, false, false).err(),
            Some(Error::EmptySource)
        );
        assert_eq!(
            algo_parallel(source, 2, 0, false, false, false).err(),
            Some(Error::EmptySource)
        );
    }
}

#[test]
fn algo_gives_what_resample_gives() {
    let pixels = gradient(6, 4);
    let seq = algo_sequential(&pixels, 3, 2, true, false, true).unwrap();
    let par = algo_parallel(&pixels, 3, 2, true, false, true).unwrap();
    let both = resample(&pixels, 3, 2, true, true, false, false).unwrap();
    assert_eq!((seq.rows(), seq.columns()), (3, 2));
    assert_eq!(seq.into_iter_vecs(), both.into_iter_vecs());
    assert_eq!(par.into_iter_vecs(), both.into_iter_vecs());
}

#[test]
fn scale_rounds_up() {
    assert_eq!(scale_factor(4, 2), 2);
    assert_eq!(scale_factor(5, 2), 3);
    assert_eq!(scale_factor(5, 4), 2);
    assert_eq!(scale_factor(2, 5), 1);
    assert_eq!(scale_factor(0, 5), 1);
    assert_eq!(scale_factor(5, 0), 1);
    assert_eq!(scale_factor(5, 5), 1);
    assert_eq!(scale_factor(usize::MAX, 1), usize::MAX);
    assert_eq!(scale_factor(usize::MAX, 2), usize::MAX / 2 + 1);
    assert_eq!(scale_factor(usize::MAX, usize::MAX), 1);
}

#[test]
fn block_bounds_are_cut_at_the_source() {
    assert_eq!(block_bounds(0, 2, 5), (0, 2));
    assert_eq!(block_bounds(1, 2, 5), (2, 4));
    assert_eq!(block_bounds(2, 2, 5), (4, 5));
    assert_eq!(block_bounds(3, 2, 5), (5, 5));
    assert_eq!(block_bounds(usize::MAX, 2, 5), (5, 5));
    assert_eq!(block_bounds(usize::MAX, usize::MAX, usize::MAX), (usize::MAX, usize::MAX));
    assert_eq!(block_bounds(0, usize::MAX, 5), (0, 5));
    assert_eq!(block_bounds(1, 1, 5), (1, 2));
}

#[test]
fn sums_of_rows_and_blocks() {
    let pixels = gradient(6, 5);
    let row = row_sum(&pixels, 2, 1, 4, false);
    let mut want = (0u128, 0u128, 0u128, 0u128, 0u128);
    for x in 1..4 {
        let p = *pixels.index(2, x);
        let c = ColoredChar::from_color(p, false, false, false);
        want = (
            want.0 + p.r as u128,
            want.1 + p.g as u128,
            want.2 + p.b as u128,
            want.3 + c.density as u128,
            want.4 + 1,
        );
    }
    assert_eq!(sums(row), want);
    assert_eq!(sums(row_sum(&pixels, 2, 3, 3, false)), (0, 0, 0, 0, 0));
    let seq = block_sum_sequential(&pixels, 1, 5, 0, 4, true);
    let par = block_sum_parallel(&pixels, 1, 5, 0, 4, true);
    assert_eq!(sums(seq), sums(par));
    assert_eq!(seq.count, 16);
    assert_eq!(seq.red, seq.green);
    assert_eq!(seq.red, seq.blue);
    let none = block_sum_parallel(&pixels, 3, 3, 0, 4, true);
    assert_eq!(sums(none), (0, 0, 0, 0, 0));
    let merged = BlockSum::zero().merge(row).merge(row);
    assert_eq!(merged.count, 6);
    assert_eq!(merged.red, 2 * row.red);
}

#[test]
fn a_cell_from_its_sums() {
    let none = cell_from_sum(BlockSum::zero(), false, false);
    assert_eq!(none, ColoredChar::blank());
    let s = BlockSum { red: 30, green: 60, blue: 91, density: 50, count: 4 };
    // 7.5, 15, 22.75 and 12.5
    assert_eq!(
        cell_from_sum(s, false, false),
        ColoredChar { color: Rgb::new(8, 15, 23), ch: '.', density: 12, display: true }
    );
    let pixels = gradient(4, 4);
    let a = resample_cell(&pixels, 1, 1, 2, 2, false, false, false, false);
    let b = resample_cell(&pixels, 1, 1, 2, 2, false, false, false, true);
    assert_eq!(a, b);
    assert_eq!(resample_cell(&pixels, 2, 0, 2, 2, false, false, false, true), ColoredChar::blank());
}

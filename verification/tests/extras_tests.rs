use anything_to_ascii::brightness::Average;
use anything_to_ascii::color::Rgb;
use anything_to_ascii::dimensions::{get_png_dimension, read_big_endian};
use anything_to_ascii::flat_matrix::transpose;
use anything_to_ascii::render::ColorChar;

#[test]
fn pairs_are_averaged_part_by_part() {
    let pairs = vec![(10u8, Rgb::new(0, 0, 0)), (21u8, Rgb::new(255, 1, 3))];
    // 15.5, 127.5, 0.5 and 1.5
    assert_eq!(pairs.average(), (16, Rgb::new(128, 0, 2)));
    assert_eq!(Vec::<(u8, Rgb)>::new().average(), (0, Rgb::new(0, 0, 0)));
}

#[test]
fn triples_are_visible_where_one_is() {
    let hidden = vec![(10u8, Rgb::new(1, 1, 1), false), (20u8, Rgb::new(3, 3, 3), false)];
    assert_eq!(hidden.average(), (15, Rgb::new(2, 2, 2), false));
    let mixed = vec![(10u8, Rgb::new(1, 1, 1), false), (20u8, Rgb::new(3, 3, 3), true)];
    assert_eq!(mixed.average(), (15, Rgb::new(2, 2, 2), true));
    let first = vec![(9u8, Rgb::new(1, 1, 1), true), (9u8, Rgb::new(1, 1, 1), false)];
    assert_eq!(first.average(), (9, Rgb::new(1, 1, 1), true));
    assert_eq!(Vec::<(u8, Rgb, bool)>::new().average(), (0, Rgb::new(0, 0, 0), false));
}

#[test]
fn rows_of_vectors_are_mirrored() {
    assert_eq!(
        transpose(vec![vec![1, 2, 3], vec![4, 5, 6]]),
        vec![vec![1, 4], vec![2, 5], vec![3, 6]]
    );
    assert_eq!(transpose(Vec::<Vec<u8>>::new()), Vec::<Vec<u8>>::new());
    assert_eq!(transpose(vec![Vec::<u8>::new(), Vec::new()]), Vec::<Vec<u8>>::new());
    assert_eq!(transpose(vec![vec!['a']]), vec![vec!['a']]);
    // what lies beyond the first row's length is left out
    assert_eq!(transpose(vec![vec![1], vec![2, 3]]), vec![vec![1, 2]]);
}

#[test]
fn a_glyph_and_its_colour() {
    let white = ColorChar::new('x', Rgb::new(255, 255, 255));
    assert_eq!(white.to_string(), "x");
    assert_eq!(white, ColorChar { ch: 'x', color: Rgb::new(255, 255, 255) });
    colored::control::set_override(true);
    let red = ColorChar::new('x', Rgb::new(255, 0, 0));
    let text = red.to_string();
    assert!(text.starts_with("\u{1b}["));
    assert!(text.ends_with("mx\u{1b}[0m"));
    colored::control::set_override(false);
    assert_eq!(red.to_string(), "x");
}

#[test]
fn the_size_of_a_png() {
    let mut header = vec![0x89, b'P', b'N', b'G', b'\r', b'\n', 0x1a, b'\n'];
    header.extend([0, 0, 0, 13, b'I', b'H', b'D', b'R']);
    header.extend([0, 0, 2, 128, 0, 0, 1, 224]);
    assert_eq!(get_png_dimension(&header), Some((640, 480)));
    let mut longer = header.clone();
    longer.extend([8, 6, 0, 0, 0]);
    assert_eq!(get_png_dimension(&longer), Some((640, 480)));
    assert_eq!(get_png_dimension(&header[..23]), None);
    assert_eq!(get_png_dimension(&[]), None);
    let mut other = header.clone();
    other[1] = b'J';
    assert_eq!(get_png_dimension(&other), None);
    let mut last = header.clone();
    last[7] = b'\r';
    assert_eq!(get_png_dimension(&last), None);
    let mut large = header.clone();
    large[16..24].copy_from_slice(&[255, 255, 255, 255, 1, 2, 3, 4]);
    assert_eq!(get_png_dimension(&large), Some((u32::MAX, 0x0102_0304)));
    assert_eq!(read_big_endian(0, 0, 1, 0), 256);
    assert_eq!(read_big_endian(1, 0, 0, 0), 16_777_216);
}

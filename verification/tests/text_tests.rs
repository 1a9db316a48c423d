use anything_to_ascii::clock::{time_of_day, timestamp};
use anything_to_ascii::color::{Pixel, Rgb};
use anything_to_ascii::colored_char::ColoredChar;
use anything_to_ascii::error::Error;
use anything_to_ascii::flat_matrix::FlatMatrix;
use anything_to_ascii::image::{convert, AsciiImg};
use anything_to_ascii::render::{render_grid, Concat};
use anything_to_ascii::text::{join_lines, line_of, GenAscii, JoinColored};
use anything_to_ascii::video::{convert_video, AsciiVid};

#[test]
fn rows_of_characters_as_text() {
    let rows = vec![vec!['a', 'b'], vec!['c'], vec![], vec!['d', 'e', 'f']];
    assert_eq!(rows.gen_ascii(), "ab\nc\n\ndef");
    assert_eq!(Vec::<Vec<char>>::new().gen_ascii(), "");
    assert_eq!(vec![vec!['x']].gen_ascii(), "x");
    assert_eq!(vec![Vec::<char>::new(), Vec::new()].gen_ascii(), "\n");
    assert_eq!(line_of(&vec!['h', 'i', '\u{e9}']), "hi\u{e9}");
    assert_eq!(join_lines(&vec![String::from("a"), String::from("b")]), "a\nb");
}

#[test]
fn strings_joined_with_a_separator_before_each() {
    let parts = vec![String::from("a"), String::from("b"), String::from("c")];
    assert_eq!(parts.custom_join(", "), ", a, b, c");
    assert_eq!(parts.custom_join(""), "abc");
    assert_eq!(Vec::<String>::new().custom_join("-"), "");
}

#[test]
fn errors_as_text() {
    assert_eq!(Error::EmptySource.to_string(), "error: the source grid is empty");
    assert_eq!(
        Error::InvalidTargetDimensions.to_string(),
        "error: target dimensions must be greater than zero"
    );
    assert_eq!(Error::ShapeMismatch.to_string(), "error: inconsistent row lengths");
    assert_eq!(Error::IndexOutOfRange.to_string(), "error: index out of range");
}

#[test]
fn gray_cells_are_written_without_colour() {
    let shown = ColoredChar { color: Rgb::new(9, 9, 9), ch: 'x', density: 9, display: true };
    let hidden = ColoredChar { color: Rgb::new(9, 9, 9), ch: ' ', density: 0, display: false };
    assert_eq!(shown.to_string(), "x");
    assert_eq!(hidden.to_string(), "");
    assert_eq!(vec![shown, hidden, shown].concat(), "xx");
    assert_eq!(Vec::<ColoredChar>::new().concat(), "");
}

// The switch for colours belongs to the whole process, so one test alone
// flips it.
#[test]
fn coloured_cells_follow_the_switch() {
    let red = ColoredChar { color: Rgb::new(255, 0, 0), ch: 'x', density: 9, display: true };
    let hidden = ColoredChar { color: Rgb::new(255, 0, 0), ch: 'x', density: 9, display: false };

    colored::control::set_override(true);
    let text = red.to_string();
    assert!(text.starts_with("\u{1b}["));
    assert!(text.ends_with("mx\u{1b}[0m"));
    assert_ne!(text, "x");
    assert_eq!(hidden.to_string(), "");
    let row = vec![red, red].concat();
    assert_eq!(row, format!("{}{}", text, text));

    colored::control::set_override(false);
    assert_eq!(red.to_string(), "x");
    assert_eq!(hidden.to_string(), "");
    assert_eq!(vec![red, red].concat(), "xx");
}

#[test]
fn an_image_as_text() {
    let pixels = FlatMatrix::from_rows(vec![
        vec![Pixel::new(255, 255, 255, 255), Pixel::new(0, 0, 0, 255)],
        vec![Pixel::new(100, 100, 100, 255), Pixel::new(20, 20, 20, 255)],
    ])
    .unwrap();
    // the black cell is not displayed and leaves no character
    assert_eq!(convert(&pixels, 2, 2, false, true, false), Ok(String::from("@\nL-")));
    assert_eq!(convert(&pixels, 2, 2, true, true, false), Ok(String::from("@\nYQ")));
    // (255 + 0 + 100 + 20) / 4 = 93.75
    assert_eq!(convert(&pixels, 1, 1, false, true, false), Ok(String::from("L")));
    assert_eq!(convert(&pixels, 0, 1, false, true, false), Err(Error::InvalidTargetDimensions));
    let empty: FlatMatrix<Pixel> = FlatMatrix::new_fill(0, 0, Pixel::new(0, 0, 0, 0));
    assert_eq!(convert(&empty, 1, 1, false, true, false), Err(Error::EmptySource));
    let par = AsciiImg::new_parallel(&pixels, 2, 2, false, true, false).unwrap();
    let seq = AsciiImg::new_sequential(&pixels, 2, 2, false, true, false).unwrap();
    assert_eq!(par.to_string(), "@\nL-");
    assert_eq!(seq.to_string(), "@\nL-");
    assert_eq!(render_grid(&par.0), "@\nL-");
    assert!(AsciiImg::new_parallel(&pixels, 2, 0, false, true, false).is_err());
}

fn frame(v: u8) -> FlatMatrix<Pixel> {
    FlatMatrix::new_fill(2, 2, Pixel::new(v, v, v, 255))
}

#[test]
fn a_video_frame_by_frame() {
    let frames = || vec![frame(0), frame(50), frame(100), frame(150), frame(200), frame(250)];
    let all = AsciiVid::new_sequential(frames(), None, 1, 1, false, true, false).unwrap();
    let texts: Vec<String> = all.0.iter().map(|img| img.to_string()).collect();
    assert_eq!(texts, vec!["", "=", "L", "y", "K", "@"]);
    let some = AsciiVid::new_sequential(frames(), Some(3), 1, 1, false, true, false).unwrap();
    let texts: Vec<String> = some.0.iter().map(|img| img.to_string()).collect();
    assert_eq!(texts, vec!["", "L", "K"]);
    let par = AsciiVid::new_paralleled(frames(), Some(4), 1, 1, false, true, false).unwrap();
    let texts: Vec<String> = par.0.iter().map(|img| img.to_string()).collect();
    assert_eq!(texts, vec!["", "=", "y", "K"]);
    let par = AsciiVid::new_paralleled(frames(), None, 1, 1, true, true, false).unwrap();
    let texts: Vec<String> = par.0.iter().map(|img| img.to_string()).collect();
    assert_eq!(texts, vec!["@", "8", "Y", "T", "r", "."]);
}

#[test]
fn a_video_as_text() {
    let frames = || vec![frame(0), frame(50), frame(100), frame(150), frame(200), frame(250)];
    for paralleled in [false, true] {
        assert_eq!(
            convert_video(frames(), None, 1, 1, false, true, false, paralleled),
            Ok(["", "=", "L", "y", "K", "@"].iter().map(|t| t.to_string()).collect::<Vec<_>>())
        );
        assert_eq!(
            convert_video(frames(), Some(3), 2, 2, false, true, false, paralleled),
            Ok(["\n", "LL\nLL", "KK\nKK"].iter().map(|t| t.to_string()).collect::<Vec<_>>())
        );
        assert_eq!(
            convert_video(frames(), Some(2), 1, 1, true, true, false, paralleled),
            Ok(["@", "T"].iter().map(|t| t.to_string()).collect::<Vec<_>>())
        );
        assert_eq!(
            convert_video(frames(), None, 0, 1, false, true, false, paralleled),
            Err(Error::InvalidTargetDimensions)
        );
        assert_eq!(
            convert_video(vec![frame(1), FlatMatrix::new_fill(0, 0, Pixel::new(0, 0, 0, 0))],
                None, 1, 1, false, true, false, paralleled),
            Err(Error::EmptySource)
        );
        assert_eq!(
            convert_video(vec![], Some(4), 0, 0, false, true, false, paralleled),
            Ok(Vec::new())
        );
    }
}

#[test]
fn a_video_that_is_refused() {
    let empty = || FlatMatrix::new_fill(0, 2, Pixel::new(0, 0, 0, 255));
    let r = AsciiVid::new_sequential(vec![frame(1), frame(2)], None, 0, 1, false, true, false);
    assert_eq!(r.err(), Some(Error::InvalidTargetDimensions));
    let r = AsciiVid::new_paralleled(vec![frame(1), frame(2)], None, 1, 0, false, true, false);
    assert_eq!(r.err(), Some(Error::InvalidTargetDimensions));
    let r = AsciiVid::new_sequential(vec![frame(1), empty()], None, 1, 1, false, true, false);
    assert_eq!(r.err(), Some(Error::EmptySource));
    let r = AsciiVid::new_paralleled(vec![empty(), frame(1)], None, 0, 1, false, true, false);
    assert_eq!(r.err(), Some(Error::EmptySource));
    let r = AsciiVid::new_paralleled(vec![frame(1), empty()], None, 0, 1, false, true, false);
    assert_eq!(r.err(), Some(Error::InvalidTargetDimensions));
    // a refused frame that is not kept does no harm
    let r = AsciiVid::new_paralleled(vec![frame(1), empty()], Some(1), 1, 1, false, true, false);
    assert_eq!(r.unwrap().0.len(), 1);
    let none = AsciiVid::new_sequential(vec![], Some(3), 0, 0, false, true, false).unwrap();
    assert_eq!(none.0.len(), 0);
}

#[test]
fn the_time_of_day() {
    assert_eq!(time_of_day(0, 0), (0, 0, 0, 0));
    assert_eq!(time_of_day(3661, 3_661_042), (1, 1, 1, 42));
    assert_eq!(time_of_day(86_399, 86_399_999), (23, 59, 59, 999));
    assert_eq!(time_of_day(86_400, 86_400_000), (0, 0, 0, 0));
    assert_eq!(time_of_day(1_700_000_000, 1_700_000_000_123), (22, 13, 20, 123));
    assert_eq!(time_of_day(u64::MAX, u128::MAX), (7, 0, 15, 455));
    let (hours, minutes, seconds, millis) = timestamp();
    assert!(hours < 24 && minutes < 60 && seconds < 60 && millis < 1000);
}

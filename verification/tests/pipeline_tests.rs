use anything_to_ascii::audio::{convert_audio, AsciiAudio};
use anything_to_ascii::color::Pixel;
use anything_to_ascii::flat_matrix::FlatMatrix;
use anything_to_ascii::frames::{frame_number, frame_sort, is_frame_name};
use anything_to_ascii::image::AsciiImg;
use anything_to_ascii::video::AsciiVid;

/// A short beep: a sine of 440 Hz at 8 kHz that fades out.
fn beep() -> Vec<i16> {
    (0..400)
        .map(|i| {
            let t = i as f64 / 8000.0;
            let fade = 1.0 - i as f64 / 400.0;
            ((t * 440.0 * std::f64::consts::TAU).sin() * fade * 255.0) as i16
        })
        .collect()
}

/// A picture of coloured stripes with a transparent corner.
fn picture(height: usize, width: usize) -> FlatMatrix<Pixel> {
    let mut cells = Vec::with_capacity(height * width);
    for y in 0..height {
        for x in 0..width {
            let alpha = if x < width / 4 && y < height / 4 { 0 } else { 255 };
            cells.push(Pixel::new((x * 255 / width) as u8, (y * 255 / height) as u8, 128, alpha));
        }
    }
    FlatMatrix::from_vec(height, width, cells).unwrap()
}

#[test]
fn audio_to_ascii_test() {
    let ascii_wave = AsciiAudio::new_sequential(&beep(), 255, false, false).unwrap();

    println!("{}", ascii_wave.to_string());
    assert_eq!((ascii_wave.0.rows(), ascii_wave.0.columns()), (510, 400));
    let parallel = AsciiAudio::new_parallel(&beep(), 255, false, false).unwrap();
    assert_eq!(parallel.to_string(), ascii_wave.to_string());
}

#[test]
fn ascii_waveform_test() {
    let x = convert_audio(&beep(), 500, false, false, false);
    let text = x.unwrap();
    assert_eq!(text.lines().count(), 1000);
    assert!(text.lines().all(|line| line.chars().count() == 400));
    assert_eq!(convert_audio(&beep(), 500, false, false, true).unwrap(), text);
    // the first sample is silent: its column stays blank
    assert!(text.lines().all(|line| line.starts_with(' ')));
    let cell = |row: usize, column: usize| text.lines().nth(row).unwrap().chars().nth(column);
    // sample 5 is 248: a run of 485 cells up from row 499
    assert_eq!(cell(499, 5), Some('@'));
    assert_eq!(cell(15, 5), Some('@'));
    assert_eq!(cell(14, 5), Some(' '));
    assert_eq!(cell(500, 5), Some(' '));
    // sample 13 is -240: a run of 470 cells down from row 500
    assert_eq!(cell(499, 13), Some(' '));
    assert_eq!(cell(500, 13), Some('@'));
    assert_eq!(cell(969, 13), Some('@'));
    assert_eq!(cell(970, 13), Some(' '));
}

#[test]
fn image_to_ascii_test() {
    let pixels = picture(300, 200);
    let image = AsciiImg::new_parallel(&pixels, 100, 133, false, false, false).unwrap();
    println!("{}", image.to_string());
    assert_eq!((image.0.rows(), image.0.columns()), (100, 133));
    let sequential = AsciiImg::new_sequential(&pixels, 100, 133, false, false, false).unwrap();
    assert_eq!(image.0.into_iter_vecs(), sequential.0.into_iter_vecs());
    // the transparent corner is not displayed
    assert!(!image.0.index(0, 0).display);
    assert!(image.0.index(50, 50).display);
}

#[test]
fn ascii_video_test() {
    let frames = || (0..12).map(|i| picture(40 + i, 60)).collect::<Vec<_>>();
    let video = AsciiVid::new_paralleled(frames(), None, 200, 60, false, false, false).unwrap();
    assert_eq!(video.0.len(), 12);
    for frame in video.0.iter() {
        assert_eq!((frame.0.rows(), frame.0.columns()), (200, 60));
    }
    let fewer = AsciiVid::new_sequential(frames(), Some(5), 20, 30, false, true, false).unwrap();
    assert_eq!(fewer.0.len(), 5);
    let kept = [0usize, 2, 4, 7, 9];
    for (frame, at) in fewer.0.iter().zip(kept) {
        let alone =
            AsciiImg::new_sequential(&picture(40 + at, 60), 20, 30, false, true, false).unwrap();
        assert_eq!(frame.0.into_iter_vecs(), alone.0.into_iter_vecs());
    }
}

#[test]
fn read_test() {
    let listing = [
        "gender-bender-gender_frame10.txt",
        "notes.txt",
        "gender-bender-gender_frame2.txt",
        "gender-bender-gender_frame0.txt",
        "gender-bender-gender_frame1.txt",
        "gender-bender-gender_framex.txt",
    ];
    let mut names: Vec<String> =
        listing.iter().filter(|name| is_frame_name(name)).map(|name| name.to_string()).collect();
    assert_eq!(names.len(), 4);
    assert!(names.iter().all(|name| frame_number(name).is_some()));
    frame_sort(&mut names);
    assert_eq!(
        names,
        vec![
            "gender-bender-gender_frame0.txt",
            "gender-bender-gender_frame1.txt",
            "gender-bender-gender_frame2.txt",
            "gender-bender-gender_frame10.txt",
        ]
    );
}

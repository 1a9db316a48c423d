use anything_to_ascii::color::Rgb;
use anything_to_ascii::frames::{
    chars_of, digits_only, find, frame_number, frame_sort, is_frame_name, number_bounds,
    stands_at,
};
use anything_to_ascii::render::{render_color_row, ColorChar};
use anything_to_ascii::text::GenAscii;

fn chars(s: &str) -> Vec<char> {
    s.chars().collect()
}

#[test]
fn names_of_frames() {
    assert!(is_frame_name("video_frame0.txt"));
    assert!(is_frame_name("video_frame12.txt"));
    assert!(is_frame_name("_frame7"));
    assert!(is_frame_name("a_frame12_frame.txt"));
    assert!(is_frame_name("a.b_frame3.c.d"));
    // nothing stands for the number: no character is no digit
    assert!(is_frame_name("video_frame.txt"));
    assert!(is_frame_name("video_frame"));
    assert!(is_frame_name("video_frame_frame"));
    assert!(!is_frame_name("video_frame12a.txt"));
    assert!(!is_frame_name("video_frame-1.txt"));
    assert!(!is_frame_name("video_frame+1.txt"));
    assert!(!is_frame_name("video_frame 1.txt"));
    assert!(!is_frame_name("video_fram12.txt"));
    assert!(!is_frame_name("video.txt"));
    assert!(!is_frame_name(""));
    assert!(!is_frame_name("_fram"));
    assert!(!is_frame_name("x_framex1_frame2.txt"));
    assert!(!is_frame_name("video_frame\u{663}.txt"));
}

#[test]
fn numbers_of_frames() {
    assert_eq!(frame_number("video_frame0.txt"), Some(0));
    assert_eq!(frame_number("video_frame12.txt"), Some(12));
    assert_eq!(frame_number("video_frame007.txt"), Some(7));
    assert_eq!(frame_number("_frame7"), Some(7));
    assert_eq!(frame_number("a_frame12_frame.txt"), Some(12));
    assert_eq!(frame_number("a_frame12_frame34.txt"), Some(12));
    assert_eq!(frame_number("v_frame4294967295.txt"), Some(u32::MAX));
    assert_eq!(frame_number("v_frame4294967296.txt"), None);
    assert_eq!(frame_number("v_frame99999999999999999999999999.txt"), None);
    assert_eq!(frame_number("v_frame00000000000000000000000001.txt"), Some(1));
    assert_eq!(frame_number("video_frame.txt"), None);
    assert_eq!(frame_number("video_frame"), None);
    assert_eq!(frame_number("video_frame1x.txt"), None);
    assert_eq!(frame_number("video.txt"), None);
    assert_eq!(frame_number("\u{e9}t\u{e9}_frame5.txt"), Some(5));
}

#[test]
fn frames_are_put_in_order() {
    let mut names: Vec<String> = ["v_frame10.txt", "v_frame2.txt", "v_frame1.txt", "v_frame0.txt"]
        .iter()
        .map(|n| n.to_string())
        .collect();
    frame_sort(&mut names);
    assert_eq!(names, vec!["v_frame0.txt", "v_frame1.txt", "v_frame2.txt", "v_frame10.txt"]);
    let mut none: Vec<String> = Vec::new();
    frame_sort(&mut none);
    assert_eq!(none, Vec::<String>::new());
    let mut one = vec![String::from("_frame5")];
    frame_sort(&mut one);
    assert_eq!(one, vec!["_frame5"]);
}

#[test]
fn frames_with_one_number_keep_their_order() {
    let mut names: Vec<String> =
        ["b_frame1.txt", "a_frame01.txt", "z_frame0.txt", "c_frame1.txt", "y_frame00.txt"]
            .iter()
            .map(|n| n.to_string())
            .collect();
    frame_sort(&mut names);
    assert_eq!(
        names,
        vec!["z_frame0.txt", "y_frame00.txt", "b_frame1.txt", "a_frame01.txt", "c_frame1.txt"]
    );
}

#[test]
fn many_frames_are_put_in_order() {
    let mut names: Vec<String> =
        (0..200u32).map(|i| format!("clip_frame{}.txt", (i * 73) % 200)).collect();
    frame_sort(&mut names);
    for (i, name) in names.iter().enumerate() {
        assert_eq!(*name, format!("clip_frame{}.txt", i));
    }
}

#[test]
fn search_in_characters() {
    let hay = chars("a_frame_frame1");
    let tag = chars("_frame");
    assert_eq!(find(&hay, &tag, 0), Some(1));
    assert_eq!(find(&hay, &tag, 1), Some(1));
    assert_eq!(find(&hay, &tag, 2), Some(7));
    assert_eq!(find(&hay, &tag, 8), None);
    assert_eq!(find(&hay, &tag, 100), None);
    assert_eq!(find(&hay, &chars(""), 3), Some(3));
    assert_eq!(find(&hay, &chars(""), 14), Some(14));
    assert_eq!(find(&hay, &chars(""), 15), None);
    assert_eq!(find(&chars(""), &tag, 0), None);
    assert_eq!(find(&hay, &chars("a_frame_frame1x"), 0), None);
    assert_eq!(find(&hay, &hay, 0), Some(0));
    assert!(stands_at(&hay, &tag, 7));
    assert!(!stands_at(&hay, &tag, 8));
    assert!(!stands_at(&hay, &tag, 9));
    assert!(!stands_at(&hay, &tag, usize::MAX));
    assert_eq!(chars_of("h\u{e9}!"), vec!['h', '\u{e9}', '!']);
    assert_eq!(chars_of(""), Vec::<char>::new());
}

#[test]
fn where_the_number_stands() {
    assert_eq!(number_bounds(&chars("v_frame12.txt")), Some((7, 9)));
    assert_eq!(number_bounds(&chars("v_frame12")), Some((7, 9)));
    assert_eq!(number_bounds(&chars("v_frame")), Some((7, 7)));
    assert_eq!(number_bounds(&chars("v_frame1_frame2")), Some((7, 8)));
    assert_eq!(number_bounds(&chars("v_frame1_fram2.x")), Some((7, 14)));
    assert_eq!(number_bounds(&chars("v.txt")), None);
    assert!(digits_only(&chars("ab123c"), 2, 5));
    assert!(digits_only(&chars("ab123c"), 2, 2));
    assert!(!digits_only(&chars("ab123c"), 1, 5));
    assert!(!digits_only(&chars("ab123c"), 2, 6));
    assert!(!digits_only(&chars("/:"), 0, 1));
    assert!(!digits_only(&chars("/:"), 1, 2));
    assert!(digits_only(&chars("09"), 0, 2));
}

#[test]
fn rows_of_glyphs_with_colours() {
    colored::control::set_override(false);
    let white = Rgb::new(255, 255, 255);
    let black = Rgb::new(0, 0, 0);
    let rows = vec![
        vec![ColorChar::new('a', white), ColorChar::new(' ', black), ColorChar::new('b', black)],
        vec![],
        vec![ColorChar::new('c', Rgb::new(1, 2, 3))],
    ];
    assert_eq!(rows.gen_ascii(), "a b\n\nc");
    assert_eq!(render_color_row(&rows[0]), "a b");
    assert_eq!(Vec::<Vec<ColorChar>>::new().gen_ascii(), "");
    colored::control::set_override(true);
    let painted = rows.gen_ascii();
    assert!(painted.starts_with("a\u{1b}["));
    assert!(painted.ends_with("mc\u{1b}[0m"));
    assert_eq!(painted.matches('\n').count(), 2);
    // a white glyph is never painted
    assert_eq!(vec![vec![ColorChar::new('w', white)]].gen_ascii(), "w");
}

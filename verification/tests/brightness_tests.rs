use anything_to_ascii::brightness::{grayscale_calc, mean_of, Average, Penalty};
use anything_to_ascii::color::{Pixel, Rgb};
use anything_to_ascii::rounding::div_round_half_even;
use colored::Colorize;

#[test]
fn something() {
    let red_text = "Red".red();
    let green_text = "Green".green();
    let blue_text = "Blue".blue();

    // Concatenate while preserving colors
    let concatenated = format!("{} {} {}", red_text, green_text, blue_text);

    println!("{}", concatenated);
}

#[test]
fn rounding_goes_to_the_nearest() {
    assert_eq!(div_round_half_even(7, 2), 4);
    assert_eq!(div_round_half_even(5, 2), 2);
    assert_eq!(div_round_half_even(1, 2), 0);
    assert_eq!(div_round_half_even(3, 2), 2);
    assert_eq!(div_round_half_even(10, 4), 2);
    assert_eq!(div_round_half_even(14, 4), 4);
    assert_eq!(div_round_half_even(11, 4), 3);
    assert_eq!(div_round_half_even(9, 4), 2);
    assert_eq!(div_round_half_even(0, 9), 0);
    assert_eq!(div_round_half_even(12, 1), 12);
    assert_eq!(div_round_half_even(u128::MAX, 1), u128::MAX);
    assert_eq!(div_round_half_even(u128::MAX, u128::MAX), 1);
    assert_eq!(div_round_half_even(u128::MAX - 1, u128::MAX), 1);
    assert_eq!(div_round_half_even(1, u128::MAX), 0);
}

#[test]
fn luma_of_primaries() {
    assert_eq!(grayscale_calc(0, 0, 0), 0);
    assert_eq!(grayscale_calc(255, 255, 255), 255);
    // 76.245, 149.685 and 29.07
    assert_eq!(grayscale_calc(255, 0, 0), 76);
    assert_eq!(grayscale_calc(0, 255, 0), 150);
    assert_eq!(grayscale_calc(0, 0, 255), 29);
}

#[test]
fn luma_breaks_ties_to_even() {
    // 0.114 * 250 = 28.5
    assert_eq!(grayscale_calc(0, 0, 250), 28);
    // 0.299 * 50 + 0.587 * 50 + 0.114 * 250 = 72.8; 0.114 * 125 = 14.25
    assert_eq!(grayscale_calc(50, 50, 250), 73);
    assert_eq!(grayscale_calc(0, 0, 125), 14);
    // 0.299 * 250 + 0.587 * 250 = 221.5
    assert_eq!(grayscale_calc(250, 250, 0), 222);
}

#[test]
fn luma_of_gray_is_the_gray() {
    for v in 0..=255u8 {
        assert_eq!(grayscale_calc(v, v, v), v);
    }
}

#[test]
fn brightness_pays_for_transparency() {
    assert_eq!(Pixel::new(255, 255, 255, 255).calc_penalty(), 255);
    assert_eq!(Pixel::new(255, 255, 255, 0).calc_penalty(), 0);
    assert_eq!(Pixel::new(255, 255, 255, 128).calc_penalty(), 128);
    assert_eq!(Pixel::new(255, 0, 0, 255).calc_penalty(), 76);
    assert_eq!(Pixel::new(255, 0, 0, 200).calc_penalty(), 21);
    assert_eq!(Pixel::new(255, 0, 0, 100).calc_penalty(), 0);
    assert_eq!(Pixel::new(0, 0, 0, 255).calc_penalty(), 0);
}

#[test]
fn penalty_of_a_value_and_its_alpha() {
    assert_eq!((200u8, 255u8).calc_penalty(), 200);
    assert_eq!((200u8, 155u8).calc_penalty(), 100);
    assert_eq!((200u8, 55u8).calc_penalty(), 0);
    assert_eq!((200u8, 54u8).calc_penalty(), 0);
    assert_eq!((0u8, 0u8).calc_penalty(), 0);
}

#[test]
fn average_of_copies_is_the_value() {
    for v in [0u8, 1, 17, 128, 254, 255] {
        for n in [1usize, 2, 3, 7, 100] {
            assert_eq!(vec![v; n].average(), v);
        }
    }
}

#[test]
fn average_rounds_half_to_even() {
    assert_eq!(vec![1u8, 2].average(), 2);
    assert_eq!(vec![2u8, 3].average(), 2);
    assert_eq!(vec![0u8, 1].average(), 0);
    assert_eq!(vec![0u8, 0, 1].average(), 0);
    assert_eq!(vec![0u8, 1, 1].average(), 1);
    assert_eq!(vec![255u8, 254].average(), 254);
    assert_eq!(vec![10u8, 20, 30, 41].average(), 25);
}

#[test]
fn average_of_nothing_is_zero() {
    assert_eq!(Vec::<u8>::new().average(), 0);
    assert_eq!(Vec::<Rgb>::new().average(), Rgb::new(0, 0, 0));
}

#[test]
fn average_of_colors_goes_by_channel() {
    let colors = vec![Rgb::new(0, 10, 255), Rgb::new(1, 20, 255), Rgb::new(0, 30, 254)];
    // 1/3, 20 and 254.67
    assert_eq!(colors.average(), Rgb::new(0, 20, 255));
    let two = vec![Rgb::new(1, 3, 5), Rgb::new(2, 4, 6)];
    // 1.5, 3.5 and 5.5
    assert_eq!(two.average(), Rgb::new(2, 4, 6));
    assert_eq!(vec![Rgb::new(9, 8, 7); 5].average(), Rgb::new(9, 8, 7));
}

#[test]
fn mean_of_a_sum() {
    assert_eq!(mean_of(0, 0), 0);
    assert_eq!(mean_of(255, 1), 255);
    assert_eq!(mean_of(5, 2), 2);
    assert_eq!(mean_of(7, 2), 4);
    assert_eq!(mean_of(510, 2), 255);
}

use dot_image::bitmap::Bitmap;
use dot_image::color::{color_escape, initial_row_32, print_color_dot, render_color};
use dot_image::geometry::RenderError;

fn filled(width: u32, height: u32, red: u8, green: u8, blue: u8) -> Bitmap {
    let mut data = Vec::new();
    for _ in 0..(width as usize) * (height as usize) {
        data.push(red);
        data.push(green);
        data.push(blue);
    }
    Bitmap::from_rgb(width, height, data).unwrap()
}

#[test]
fn escape_sequence_holds_the_values_in_decimal() {
    assert_eq!(color_escape(255, 0, 0), "\x1B[38;2;255;0;0m");
    assert_eq!(color_escape(0, 0, 0), "\x1B[38;2;0;0;0m");
    assert_eq!(color_escape(7, 42, 100), "\x1B[38;2;7;42;100m");
    assert_eq!(color_escape(10, 99, 109), "\x1B[38;2;10;99;109m");
}

#[test]
fn escape_sequence_agrees_with_decimal_formatting() {
    for value in 0..=255u8 {
        let expected = format!("\x1B[38;2;{};{};{}m", value, 255 - value, value / 2);
        assert_eq!(color_escape(value, 255 - value, value / 2), expected);
    }
}

#[test]
fn uniform_red_block_averages_to_red() {
    let text = render_color(&filled(2, 4, 255, 0, 0));
    assert_eq!(text, "\x1B[38;2;255;0;0m\u{28FF}");
}

#[test]
fn uniform_red_averages_to_red_at_any_row_count() {
    for height in 1..=9u32 {
        let text = render_color(&filled(2, height, 255, 0, 0));
        let bands = (height + 3) / 4;
        let mut expected = String::new();
        for band in 0..bands {
            if band > 0 {
                expected.push_str("\n");
            }
            expected.push_str("\x1B[38;2;255;0;0m\u{28FF}");
        }
        assert_eq!(text, expected);
    }
}

#[test]
fn average_is_rounded_down() {
    let samples: Vec<u8> = vec![1, 10, 100, 2, 20, 101];
    let grid = Bitmap::from_rgb(2, 1, samples).unwrap();
    assert_eq!(render_color(&grid), "\x1B[38;2;1;15;100m\u{28FF}");
}

#[test]
fn average_runs_over_all_eight_pixels() {
    let mut samples: Vec<u8> = Vec::new();
    for pixel in 0..8u8 {
        samples.push(pixel * 10);
        samples.push(255);
        samples.push(if pixel == 7 { 8 } else { 0 });
    }
    let grid = Bitmap::from_rgb(2, 4, samples).unwrap();
    assert_eq!(render_color(&grid), "\x1B[38;2;35;255;1m\u{28FF}");
}

#[test]
fn last_cell_of_an_odd_width_is_black() {
    let text = render_color(&filled(3, 2, 9, 8, 7));
    assert_eq!(text, "\x1B[38;2;9;8;7m\u{28FF}\x1B[38;2;0;0;0m\u{28FF}");
}

#[test]
fn colour_grid_without_rows_is_empty_text() {
    assert_eq!(render_color(&filled(4, 0, 0, 0, 0)), "");
}

#[test]
fn bands_are_averaged_apart() {
    let mut samples: Vec<u8> = Vec::new();
    for row in 0..5u8 {
        for _ in 0..2 {
            samples.push(if row < 4 { 40 } else { 200 });
            samples.push(0);
            samples.push(0);
        }
    }
    let grid = Bitmap::from_rgb(2, 5, samples).unwrap();
    assert_eq!(render_color(&grid), "\x1B[38;2;40;0;0m\u{28FF}\n\x1B[38;2;200;0;0m\u{28FF}");
}

#[test]
fn coloured_picture_is_scaled_to_the_grid() {
    let text = print_color_dot(filled(2, 2, 255, 0, 0), 4, 4).unwrap();
    assert_eq!(text, "\x1B[38;2;255;0;0m\u{28FF}\x1B[38;2;255;0;0m\u{28FF}");
}

#[test]
fn coloured_picture_keeps_its_proportions() {
    let text = print_color_dot(filled(8, 4, 1, 2, 3), 0, 1).unwrap();
    assert_eq!(text, "\x1B[38;2;1;2;3m\u{28FF}");
}

#[test]
fn short_red_band_is_red() {
    let text = print_color_dot(filled(2, 3, 255, 0, 0), 2, 3).unwrap();
    assert_eq!(text, "\x1b[38;2;255;0;0m\u{28FF}");
}

#[test]
fn black_and_white_columns_average_to_gray() {
    let mut samples: Vec<u8> = Vec::new();
    for _ in 0..4 {
        samples.extend_from_slice(&[0, 0, 0, 255, 255, 255]);
    }
    let image = Bitmap::from_rgb(2, 4, samples).unwrap();
    let text = print_color_dot(image, 2, 4).unwrap();
    assert_eq!(text, "\x1b[38;2;127;127;127m\u{28FF}");
}

#[test]
fn red_band_above_blue_band() {
    let mut samples: Vec<u8> = Vec::new();
    for row in 0..8 {
        for _ in 0..2 {
            if row < 4 {
                samples.extend_from_slice(&[255, 0, 0]);
            } else {
                samples.extend_from_slice(&[0, 0, 255]);
            }
        }
    }
    let image = Bitmap::from_rgb(2, 8, samples).unwrap();
    let text = print_color_dot(image, 2, 8).unwrap();
    assert_eq!(text, "\x1b[38;2;255;0;0m\u{28FF}\n\x1b[38;2;0;0;255m\u{28FF}");
}

#[test]
fn colour_grid_without_columns_has_empty_lines() {
    assert_eq!(render_color(&filled(0, 9, 0, 0, 0)), "\n\n");
}

#[test]
fn coloured_source_without_columns_is_black() {
    let no_columns = Bitmap::from_rgb(0, 5, Vec::new()).unwrap();
    assert_eq!(print_color_dot(no_columns, 2, 4), Ok("\x1b[38;2;0;0;0m\u{28FF}".to_string()));
}

#[test]
fn colour_without_dimensions_is_an_error() {
    assert_eq!(print_color_dot(filled(2, 2, 0, 0, 0), 0, 0), Err(RenderError::NoDimensions));
}

#[test]
fn colour_refuses_a_grid_that_cannot_be_allocated() {
    let image = filled(1, 1, 0, 0, 0);
    assert_eq!(print_color_dot(image, u32::MAX, u32::MAX), Err(RenderError::TooLarge));
}

#[test]
fn initial_row_32_clears_the_leading_sums() {
    let mut row: Vec<u32> = vec![700, 800, 900];
    initial_row_32(&mut row, 2);
    assert_eq!(row, vec![0u32, 0, 900]);
}

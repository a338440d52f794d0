use dot_image::bitmap::Bitmap;
use dot_image::geometry::RenderError;
use dot_image::mono::{draw, draw_scaled, initial_row, render_dots};

fn uniform(width: u32, height: u32, red: u8, green: u8, blue: u8) -> Bitmap {
    let mut data = Vec::new();
    for _ in 0..(width as usize) * (height as usize) {
        data.push(red);
        data.push(green);
        data.push(blue);
    }
    Bitmap::from_rgb(width, height, data).unwrap()
}

fn gray(width: u32, height: u32, levels: &[u8]) -> Bitmap {
    let mut data = Vec::new();
    for level in levels {
        data.push(*level);
        data.push(*level);
        data.push(*level);
    }
    Bitmap::from_rgb(width, height, data).unwrap()
}

#[test]
fn dark_block_has_no_dots() {
    let text = draw_scaled(uniform(2, 4, 0, 0, 0), 0, 128);
    assert_eq!(text, "\u{2800}");
}

#[test]
fn dark_block_inverted_has_all_dots() {
    let text = draw_scaled(uniform(2, 4, 0, 0, 0), 1, 128);
    assert_eq!(text, "\u{28FF}");
}

#[test]
fn single_dot_in_the_right_column_of_the_third_row() {
    let levels = [0, 0, 0, 0, 0, 255, 0, 0];
    let text = draw_scaled(gray(2, 4, &levels), 0, 128);
    assert_eq!(text, "\u{2820}");
    assert_eq!(text.chars().next().unwrap() as u32 - 10240, 32);
}

#[test]
fn every_dot_has_its_weight() {
    let weights: [u32; 8] = [1, 8, 2, 16, 4, 32, 64, 128];
    for (at, weight) in weights.iter().enumerate() {
        let mut levels = [0u8; 8];
        levels[at] = 255;
        let text = draw_scaled(gray(2, 4, &levels), 0, 128);
        let mut chars = text.chars();
        assert_eq!(chars.next().unwrap() as u32, 10240 + weight);
        assert_eq!(chars.next(), None);
    }
}

#[test]
fn bright_picture_has_all_dots() {
    let text = draw(uniform(4, 4, 255, 255, 255), 4, 4, 0, 128).unwrap();
    assert_eq!(text, "\u{28FF}\u{28FF}");
}

#[test]
fn dark_picture_has_no_dots() {
    let text = draw(uniform(4, 4, 0, 0, 0), 4, 4, 0, 128).unwrap();
    assert_eq!(text, "\u{2800}\u{2800}");
}

#[test]
fn dark_picture_inverted_has_all_dots() {
    let text = draw(uniform(4, 4, 0, 0, 0), 4, 4, 1, 128).unwrap();
    assert_eq!(text, "\u{28FF}\u{28FF}");
}

#[test]
fn picture_scaled_to_one_cell_is_one_glyph() {
    let text = draw(uniform(4, 4, 0, 0, 0), 2, 4, 1, 128).unwrap();
    assert_eq!(text, "\u{28FF}");
    let text = draw(uniform(4, 4, 0, 0, 0), 2, 4, 0, 128).unwrap();
    assert_eq!(text, "\u{2800}");
}

#[test]
fn picture_is_scaled_up_to_the_grid() {
    let text = draw(uniform(2, 2, 255, 255, 255), 4, 8, 0, 128).unwrap();
    assert_eq!(text, "\u{28FF}\u{28FF}\n\u{28FF}\u{28FF}");
}

#[test]
fn missing_height_keeps_the_proportions() {
    let text = draw(uniform(2, 4, 255, 255, 255), 4, 0, 0, 128).unwrap();
    assert_eq!(text, "\u{28FF}\u{28FF}\n\u{28FF}\u{28FF}");
}

#[test]
fn missing_width_keeps_the_proportions() {
    let text = draw(uniform(4, 2, 255, 255, 255), 0, 4, 0, 128).unwrap();
    assert_eq!(text, "\u{28FF}\u{28FF}\u{28FF}\u{28FF}");
}

#[test]
fn brightness_decides_not_the_red_sample() {
    let text = draw(uniform(2, 4, 255, 0, 0), 2, 4, 0, 128).unwrap();
    assert_eq!(text, "\u{2800}");
    let text = draw(uniform(2, 4, 0, 255, 0), 2, 4, 0, 128).unwrap();
    assert_eq!(text, "\u{28FF}");
}

#[test]
fn brightness_is_the_weighted_mean_rounded_down() {
    let text = draw_scaled(uniform(2, 4, 255, 0, 0), 0, 54);
    assert_eq!(text, "\u{28FF}");
    let text = draw_scaled(uniform(2, 4, 255, 0, 0), 0, 55);
    assert_eq!(text, "\u{2800}");
    let text = draw_scaled(uniform(2, 4, 10, 200, 30), 0, 147);
    assert_eq!(text, "\u{28FF}");
    let text = draw_scaled(uniform(2, 4, 10, 200, 30), 0, 148);
    assert_eq!(text, "\u{2800}");
}

#[test]
fn threshold_itself_counts_as_bright() {
    let text = draw_scaled(gray(2, 1, &[128, 127]), 0, 128);
    assert_eq!(text, "\u{2801}");
}

#[test]
fn short_last_band_is_drawn() {
    let text = draw_scaled(uniform(2, 6, 255, 255, 255), 0, 128);
    assert_eq!(text, "\u{28FF}\n\u{281B}");
}

#[test]
fn last_cell_of_an_odd_width_stays_empty() {
    let text = draw_scaled(uniform(3, 4, 255, 255, 255), 0, 128);
    assert_eq!(text, "\u{28FF}\u{2800}");
    let text = draw_scaled(uniform(1, 4, 255, 255, 255), 0, 128);
    assert_eq!(text, "\u{2800}");
}

#[test]
fn grid_without_rows_is_empty_text() {
    let text = draw_scaled(uniform(4, 0, 0, 0, 0), 0, 128);
    assert_eq!(text, "");
}

#[test]
fn render_dots_reads_a_two_valued_grid() {
    let samples: Vec<u8> = vec![1, 1, 1, 0, 0, 0, 0, 0, 0, 1, 1, 1];
    let grid = Bitmap::from_rgb(2, 2, samples).unwrap();
    assert_eq!(render_dots(&grid), "\u{2811}");
}

#[test]
fn draw_without_dimensions_is_an_error() {
    assert_eq!(draw(uniform(4, 4, 0, 0, 0), 0, 0, 0, 128), Err(RenderError::NoDimensions));
}

#[test]
fn draw_of_an_empty_source_cannot_derive_a_side() {
    let empty = Bitmap::from_rgb(0, 0, Vec::new()).unwrap();
    assert_eq!(draw(empty, 4, 0, 0, 128), Err(RenderError::EmptySource));
}

#[test]
fn draw_of_an_empty_source_at_given_dimensions_is_dark() {
    let empty = Bitmap::from_rgb(0, 0, Vec::new()).unwrap();
    assert_eq!(draw(empty, 2, 4, 0, 128), Ok("\u{2800}".to_string()));
}

#[test]
fn draw_refuses_a_grid_that_cannot_be_allocated() {
    let image = uniform(1, 1, 0, 0, 0);
    assert_eq!(draw(image, u32::MAX, u32::MAX, 0, 128), Err(RenderError::TooLarge));
}

#[test]
fn draw_refuses_a_side_past_the_longest() {
    assert_eq!(draw(uniform(1, 1, 0, 0, 0), 4_194_305, 1, 0, 128), Err(RenderError::TooLarge));
    assert_eq!(draw(uniform(1, 1, 0, 0, 0), 1, 4_194_305, 0, 128), Err(RenderError::TooLarge));
    assert_eq!(draw(uniform(1, 1, 0, 0, 0), 4_194_305, 0, 0, 128), Err(RenderError::TooLarge));
    assert_eq!(draw(uniform(4_194_305, 1, 0, 0, 0), 4, 1, 0, 128), Err(RenderError::TooLarge));
}

#[test]
fn draw_reaches_the_longest_side() {
    let text = draw(uniform(1, 1, 255, 255, 255), 4_194_304, 1, 0, 128).unwrap();
    assert_eq!(text.chars().count(), 2_097_152);
    assert!(text.chars().all(|c| c == '\u{2809}'));
}

#[test]
fn draw_scales_a_long_source_up_to_the_longest_side() {
    let text = draw(uniform(4_194_302, 1, 255, 255, 255), 4_194_304, 1, 0, 128).unwrap();
    assert_eq!(text.chars().count(), 2_097_152);
    assert!(text.chars().all(|c| c == '\u{2809}'));
}

#[test]
fn draw_scales_the_longest_source_down() {
    let text = draw(uniform(4_194_304, 1, 255, 255, 255), 4_194_303, 1, 0, 128).unwrap();
    assert_eq!(text.chars().count(), 2_097_152);
    assert!(text.chars().take(2_097_151).all(|c| c == '\u{2809}'));
    assert!(text.ends_with('\u{2800}'));
}

#[test]
fn draw_scales_a_strip_of_two_million_pixels() {
    let text = draw(uniform(2_000_000, 1, 255, 255, 255), 4, 1, 0, 128).unwrap();
    assert_eq!(text, "\u{2809}\u{2809}");
}

#[test]
fn rows_are_joined_by_line_feeds() {
    let text = draw_scaled(uniform(2, 12, 255, 255, 255), 0, 128);
    assert_eq!(text, "\u{28FF}\n\u{28FF}\n\u{28FF}");
    assert_eq!(draw_scaled(uniform(0, 9, 0, 0, 0), 0, 128), "\n\n");
}

#[test]
fn single_dot_in_the_right_column_of_the_first_row() {
    let levels = [0, 255, 0, 0, 0, 0, 0, 0];
    let text = draw(gray(2, 4, &levels), 2, 4, 0, 128).unwrap();
    assert_eq!(text, "\u{2808}");
}

#[test]
fn dark_block_drawn_at_its_own_size() {
    assert_eq!(draw(uniform(2, 4, 0, 0, 0), 2, 4, 0, 128).unwrap(), "\u{2800}");
    assert_eq!(draw(uniform(2, 4, 0, 0, 0), 2, 4, 1, 128).unwrap(), "\u{28FF}");
}

#[test]
fn picture_drawn_at_its_own_size_is_not_resampled() {
    let levels = [0, 255, 255, 0, 0, 0, 255, 255];
    let text = draw(gray(2, 4, &levels), 2, 4, 0, 128).unwrap();
    assert_eq!(text, "\u{28CA}");
}

#[test]
fn source_without_columns_or_rows_is_drawn_dark() {
    let no_columns = Bitmap::from_rgb(0, 5, Vec::new()).unwrap();
    assert_eq!(draw(no_columns, 2, 4, 0, 128), Ok("\u{2800}".to_string()));
    let no_rows = Bitmap::from_rgb(5, 0, Vec::new()).unwrap();
    assert_eq!(draw(no_rows, 2, 4, 1, 128), Ok("\u{28FF}".to_string()));
}

#[test]
fn grid_without_columns_has_empty_lines() {
    assert_eq!(draw_scaled(uniform(0, 1, 0, 0, 0), 0, 128), "");
    assert_eq!(draw_scaled(uniform(0, 4, 0, 0, 0), 1, 128), "");
    assert_eq!(draw_scaled(uniform(0, 5, 0, 0, 0), 1, 128), "\n");
}

#[test]
fn draw_refuses_a_collapsed_side() {
    assert_eq!(draw(uniform(100, 1, 0, 0, 0), 1, 0, 0, 128), Err(RenderError::Collapsed));
}

#[test]
fn initial_row_clears_the_leading_cells() {
    let mut row: Vec<u8> = vec![7, 8, 9, 10];
    initial_row(&mut row, 3);
    assert_eq!(row, vec![0u8, 0, 0, 10]);
    initial_row(&mut row, 0);
    assert_eq!(row, vec![0u8, 0, 0, 10]);
}

use infographics::color::{parse_hex_color, text_color, Rgba};
use infographics::compose::{blend, blend_pixel};
use infographics::raster::Image;
use infographics::transform::{expand_centered, fit_dimensions, place_rotated, resize_exact, resize_fit};

fn rgba(r: u8, g: u8, b: u8, a: u8) -> Rgba {
    Rgba { r, g, b, a }
}

#[test]
fn parses_six_digit_color() {
    assert_eq!(parse_hex_color("#ff8000"), rgba(255, 128, 0, 255));
}

#[test]
fn parses_eight_digit_color() {
    assert_eq!(parse_hex_color("#11223344"), rgba(0x11, 0x22, 0x33, 0x44));
}

#[test]
fn parses_upper_case_and_no_hash() {
    assert_eq!(parse_hex_color("ABCDEF"), rgba(0xab, 0xcd, 0xef, 255));
}

#[test]
fn short_color_is_opaque_white() {
    assert_eq!(parse_hex_color("#fff"), rgba(255, 255, 255, 255));
    assert_eq!(parse_hex_color(""), rgba(255, 255, 255, 255));
}

#[test]
fn non_hex_digit_gives_white() {
    assert_eq!(parse_hex_color("#GG0000"), rgba(255, 255, 255, 255));
    assert_eq!(parse_hex_color("#000000zz"), rgba(255, 255, 255, 255));
    assert_eq!(parse_hex_color("+f0000"), rgba(255, 255, 255, 255));
}

#[test]
fn only_six_or_eight_digits_are_a_color() {
    assert_eq!(parse_hex_color("#1234567"), rgba(255, 255, 255, 255));
    assert_eq!(parse_hex_color("#123456789"), rgba(255, 255, 255, 255));
    assert_eq!(parse_hex_color("#12345"), rgba(255, 255, 255, 255));
    assert_eq!(parse_hex_color("#000000"), rgba(0, 0, 0, 255));
}

#[test]
fn every_leading_hash_is_ignored() {
    assert_eq!(parse_hex_color("##102030"), rgba(0x10, 0x20, 0x30, 255));
}

#[test]
fn text_color_defaults_to_black() {
    assert_eq!(text_color(None), rgba(0, 0, 0, 255));
    assert_eq!(text_color(Some("#00ff00")), rgba(0, 255, 0, 255));
}

#[test]
fn malformed_text_fill_is_black() {
    assert_eq!(text_color(Some("not-a-color")), rgba(0, 0, 0, 255));
    assert_eq!(text_color(Some("#fff")), rgba(0, 0, 0, 255));
}

#[test]
fn full_opacity_opaque_source_replaces_destination() {
    let dst = rgba(10, 20, 30, 40);
    let src = rgba(200, 100, 50, 255);
    assert_eq!(blend_pixel(dst, src, 255), src);
}

#[test]
fn zero_opacity_keeps_destination() {
    let dst = rgba(10, 20, 30, 40);
    let src = rgba(200, 100, 50, 255);
    assert_eq!(blend_pixel(dst, src, 0), dst);
}

#[test]
fn half_opacity_mixes_with_truncation() {
    let dst = rgba(255, 255, 255, 255);
    let src = rgba(0, 0, 0, 255);
    assert_eq!(blend_pixel(dst, src, 128), rgba(127, 127, 127, 255));
}

#[test]
fn faint_source_alpha_takes_the_larger_alpha() {
    let dst = rgba(0, 0, 0, 0);
    let src = rgba(255, 255, 255, 100);
    assert_eq!(blend_pixel(dst, src, 255), rgba(100, 100, 100, 100));
}

#[test]
fn transparent_source_is_skipped() {
    let dst = rgba(1, 2, 3, 4);
    assert_eq!(blend_pixel(dst, rgba(255, 255, 255, 0), 255), dst);
    assert_eq!(blend_pixel(dst, rgba(255, 255, 255, 1), 200), dst);
}

#[test]
fn blend_drops_pixels_outside_the_canvas() {
    let mut canvas = Image::filled(4, 3, rgba(255, 255, 255, 255));
    let layer = Image::filled(3, 3, rgba(0, 0, 255, 255));
    blend(&mut canvas, &layer, -1, 2, 255);
    assert_eq!(canvas.width(), 4);
    assert_eq!(canvas.height(), 3);
    assert_eq!(canvas.get_pixel(0, 2), rgba(0, 0, 255, 255));
    assert_eq!(canvas.get_pixel(1, 2), rgba(0, 0, 255, 255));
    assert_eq!(canvas.get_pixel(2, 2), rgba(255, 255, 255, 255));
    assert_eq!(canvas.get_pixel(0, 1), rgba(255, 255, 255, 255));
}

#[test]
fn blend_far_away_changes_nothing() {
    let mut canvas = Image::filled(2, 2, rgba(9, 9, 9, 255));
    let layer = Image::filled(2, 2, rgba(0, 0, 0, 255));
    blend(&mut canvas, &layer, i64::MAX, i64::MIN, 255);
    assert_eq!(canvas.get_pixel(1, 1), rgba(9, 9, 9, 255));
}

#[test]
fn bytes_round_trip() {
    let bytes = vec![1u8, 2, 3, 4, 5, 6, 7, 8];
    let img = Image::from_rgba_bytes(2, 1, &bytes).unwrap();
    assert_eq!(img.get_pixel(1, 0), rgba(5, 6, 7, 8));
    assert_eq!(img.to_rgba_bytes(), bytes);
    assert!(Image::from_rgba_bytes(2, 2, &bytes).is_none());
}

#[test]
fn fit_to_width_for_wide_picture() {
    assert_eq!(fit_dimensions(200, 100, 100, 100), (100, 50));
    assert_eq!(fit_dimensions(300, 100, 100, 100), (100, 33));
}

#[test]
fn fit_to_height_for_tall_picture() {
    assert_eq!(fit_dimensions(100, 200, 100, 100), (50, 100));
}

#[test]
fn fit_with_equal_ratio_fills_the_box() {
    assert_eq!(fit_dimensions(200, 100, 100, 50), (100, 50));
}

#[test]
fn resize_exact_resamples_to_the_target() {
    let src = Image::filled(1, 1, rgba(250, 0, 0, 255));
    let out = resize_exact(&src, 3, 2);
    assert_eq!(out.width(), 3);
    assert_eq!(out.height(), 2);
    let p = out.get_pixel(2, 1);
    assert!(p.r > 200 && p.g < 20 && p.a > 200);
}

#[test]
fn resize_exact_to_empty_is_empty() {
    let src = Image::filled(2, 2, rgba(250, 0, 0, 255));
    let out = resize_exact(&src, 0, 5);
    assert_eq!(out.width(), 0);
    assert_eq!(out.height(), 5);
}

#[test]
fn resize_fit_anchors_top_left() {
    let src = Image::filled(4, 2, rgba(0, 200, 0, 255));
    let out = resize_fit(&src, 8, 8);
    assert_eq!(out.width(), 8);
    assert_eq!(out.height(), 8);
    assert!(out.get_pixel(0, 0).a > 200);
    assert!(out.get_pixel(7, 3).a > 200);
    assert_eq!(out.get_pixel(0, 4), rgba(0, 0, 0, 0));
    assert_eq!(out.get_pixel(7, 7), rgba(0, 0, 0, 0));
}

#[test]
fn expansion_centers_and_keeps_every_pixel() {
    let mut src = Image::filled(2, 2, rgba(1, 1, 1, 255));
    src.set_pixel(1, 1, rgba(9, 8, 7, 255));
    let out = expand_centered(&src, 4, 6);
    assert_eq!(out.width(), 4);
    assert_eq!(out.height(), 6);
    assert_eq!(out.get_pixel(1, 2), rgba(1, 1, 1, 255));
    assert_eq!(out.get_pixel(2, 3), rgba(9, 8, 7, 255));
    assert_eq!(out.get_pixel(0, 0), rgba(0, 0, 0, 0));
    assert_eq!(out.get_pixel(3, 5), rgba(0, 0, 0, 0));
}

#[test]
fn rotated_buffer_is_centered_on_the_box() {
    assert_eq!(place_rotated(10, 100, 142), -11);
    assert_eq!(place_rotated(0, 50, 50), 0);
    assert_eq!(place_rotated(i64::MAX, 10, 0), i64::MAX);
}

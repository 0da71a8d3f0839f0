use image_core::ascii::{ascii_art, luminance_char, ramp_index, RAMP_LEN};
use image_core::raster::RawImage;

#[test]
fn ramp_index_matches_floating_point_scaling_for_every_level() {
    for level in 0..=255u8 {
        let normalized = level as f64 / 255.0;
        let expected = ((RAMP_LEN - 1) as f64 * normalized).floor() as usize;
        assert_eq!(ramp_index(level), expected, "level {}", level);
    }
}

#[test]
fn ramp_runs_from_blank_to_at_sign() {
    assert_eq!(luminance_char(0), ' ');
    assert_eq!(luminance_char(255), '@');
    assert_eq!(luminance_char(85), '-');
    assert_eq!(luminance_char(128), '=');
}

#[test]
fn art_has_one_line_per_row() {
    let img = RawImage { data: vec![0u8, 255, 128, 30, 60, 200], x_size: 3, y_size: 2, channels: 1 };
    assert_eq!(ascii_art(&img), " @=\n.:#\n");
}

#[test]
fn empty_image_gives_empty_art() {
    let img = RawImage { data: Vec::<u8>::new(), x_size: 0, y_size: 3, channels: 1 };
    assert_eq!(ascii_art(&img), "\n\n\n");
}

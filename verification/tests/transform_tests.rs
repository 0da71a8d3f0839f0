use image_core::raster::RawImage;
use image_core::transform::{make_grasyscale, rotate180, rotate270, rotate90, rotate_image};

/// 3 wide, 2 tall, gray: samples are 1..=6 row-major.
fn gray_3x2() -> RawImage<u8> {
    RawImage { data: vec![1, 2, 3, 4, 5, 6], x_size: 3, y_size: 2, channels: 1 }
}

/// 2 wide, 1 tall, RGB.
fn rgb_2x1() -> RawImage<u8> {
    RawImage { data: vec![10, 11, 12, 20, 21, 22], x_size: 2, y_size: 1, channels: 3 }
}

#[test]
fn quarter_turn_clockwise_moves_left_column_to_top_row() {
    // 1 2 3        4 1
    // 4 5 6   ->   5 2
    //              6 3
    let r = rotate90(&gray_3x2());
    assert_eq!((r.x_size, r.y_size, r.channels), (2, 3, 1));
    assert_eq!(r.data, vec![4, 1, 5, 2, 6, 3]);
}

#[test]
fn half_turn_reverses_pixel_order() {
    let r = rotate180(&gray_3x2());
    assert_eq!((r.x_size, r.y_size), (3, 2));
    assert_eq!(r.data, vec![6, 5, 4, 3, 2, 1]);
}

#[test]
fn three_quarter_turn_moves_right_column_to_top_row() {
    // 1 2 3        3 6
    // 4 5 6   ->   2 5
    //              1 4
    let r = rotate270(&gray_3x2());
    assert_eq!((r.x_size, r.y_size), (2, 3));
    assert_eq!(r.data, vec![3, 6, 2, 5, 1, 4]);
}

#[test]
fn rgb_pixels_move_as_whole_triples() {
    let r = rotate90(&rgb_2x1());
    assert_eq!((r.x_size, r.y_size, r.channels), (1, 2, 3));
    assert_eq!(r.data, vec![10, 11, 12, 20, 21, 22]);
    let h = rotate180(&rgb_2x1());
    assert_eq!(h.data, vec![20, 21, 22, 10, 11, 12]);
}

#[test]
fn four_quarter_turns_give_the_image_back() {
    let img = gray_3x2();
    let r = rotate90(&rotate90(&rotate90(&rotate90(&img))));
    assert_eq!(r, img);
    let c = RawImage { data: (0u8..36).collect(), x_size: 4, y_size: 3, channels: 3 };
    assert_eq!(rotate90(&rotate90(&rotate90(&rotate90(&c)))), c);
}

#[test]
fn quarter_turn_then_counter_turn_gives_the_image_back() {
    let img = RawImage { data: (0u8..36).collect(), x_size: 4, y_size: 3, channels: 3 };
    assert_eq!(rotate270(&rotate90(&img)), img);
    assert_eq!(rotate90(&rotate270(&img)), img);
}

#[test]
fn two_quarter_turns_are_a_half_turn() {
    let img = RawImage { data: (0u8..12).collect(), x_size: 4, y_size: 3, channels: 1 };
    assert_eq!(rotate90(&rotate90(&img)), rotate180(&img));
    assert_eq!(rotate90(&rotate90(&rotate90(&img))), rotate270(&img));
    assert_eq!(rotate180(&rotate180(&img)), img);
}

#[test]
fn quarter_turn_of_unsupported_layout_is_empty() {
    let img = RawImage { data: vec![1u8, 2, 3, 4, 5, 6, 7, 8], x_size: 2, y_size: 1, channels: 4 };
    let r = rotate90(&img);
    assert_eq!((r.x_size, r.y_size, r.channels), (1, 2, 4));
    assert!(r.data.is_empty());
}

#[test]
fn rotate_image_dispatches_on_angle() {
    let img = gray_3x2();
    assert_eq!(rotate_image(&img, 0).unwrap(), img);
    assert_eq!(rotate_image(&img, 90).unwrap(), rotate90(&img));
    assert_eq!(rotate_image(&img, 180).unwrap(), rotate180(&img));
    assert_eq!(rotate_image(&img, 270).unwrap(), rotate270(&img));
}

#[test]
fn rotate_image_refuses_other_angles() {
    let img = gray_3x2();
    assert_eq!(rotate_image(&img, 45).unwrap_err(), "Invalid angle: 45");
    assert_eq!(rotate_image(&img, 360).unwrap_err(), "Invalid angle: 360");
    assert_eq!(rotate_image(&img, 4294967295).unwrap_err(), "Invalid angle: 4294967295");
    assert_eq!(rotate_image(&img, 1).unwrap_err(), "Invalid angle: 1");
}

#[test]
fn grayscale_averages_each_triple() {
    let mut img = RawImage {
        data: vec![0.3f32, 0.6, 0.9, 0.0, 0.0, 0.3, 1.0, 1.0, 1.0, 0.5, 0.25, 0.75],
        x_size: 2,
        y_size: 2,
        channels: 3,
    };
    let before = img.clone();
    let gray = make_grasyscale(&mut img, |r: f32, g: f32, b: f32| (r + g + b) / 3.0);
    assert_eq!(img, before);
    assert_eq!((gray.x_size, gray.y_size, gray.channels), (2, 2, 1));
    assert_eq!(gray.data.len(), 4);
    let expected: Vec<f32> = before.data.chunks(3).map(|c| (c[0] + c[1] + c[2]) / 3.0).collect();
    assert_eq!(gray.data, expected);
    assert!((gray.data[0] - 0.6).abs() < 1e-6);
    assert_eq!(gray.data[2], 1.0);
}

use image_core::raster::{
    access_pixel_at_coord, change_pixel_at_coord, clone_image, combine_images, is_valid_coord,
    Pixel, RawImage,
};

fn rgb_2x2() -> RawImage<f32> {
    RawImage {
        data: vec![
            0.1, 0.2, 0.3, 0.4, 0.5, 0.6, //
            0.7, 0.8, 0.9, 1.0, 0.0, 0.25,
        ],
        x_size: 2,
        y_size: 2,
        channels: 3,
    }
}

#[test]
fn access_reads_rgb_pixel_with_full_opacity() {
    let img = rgb_2x2();
    let p = access_pixel_at_coord(&img, 1, 1, 0.0, 1.0);
    assert_eq!(p, Pixel { r: 1.0, g: 0.0, b: 0.25, a: 1.0 });
    let q = access_pixel_at_coord(&img, 0, 1, 0.0, 1.0);
    assert_eq!(q, Pixel { r: 0.7, g: 0.8, b: 0.9, a: 1.0 });
}

#[test]
fn access_reads_gray_pixel_into_all_three_components() {
    let img = RawImage { data: vec![0.0f32, 0.5, 0.75, 1.0], x_size: 2, y_size: 2, channels: 1 };
    let p = access_pixel_at_coord(&img, 0, 1, 0.0, 1.0);
    assert_eq!(p, Pixel { r: 0.75, g: 0.75, b: 0.75, a: 1.0 });
}

#[test]
fn access_on_unsupported_layout_is_blank() {
    let img = RawImage { data: vec![1u8, 2, 3, 4, 5, 6, 7, 8], x_size: 2, y_size: 1, channels: 4 };
    let p = access_pixel_at_coord(&img, 1, 0, 0, 255);
    assert_eq!(p, Pixel { r: 0, g: 0, b: 0, a: 0 });
}

#[test]
fn change_then_access_reads_back_written_pixel() {
    let mut img = rgb_2x2();
    change_pixel_at_coord(&mut img, 1, 0, Pixel { r: 0.9, g: 0.8, b: 0.7, a: 0.0 });
    let p = access_pixel_at_coord(&img, 1, 0, 0.0, 1.0);
    assert_eq!(p, Pixel { r: 0.9, g: 0.8, b: 0.7, a: 1.0 });
    // the other pixels are untouched
    assert_eq!(access_pixel_at_coord(&img, 0, 0, 0.0, 1.0), Pixel { r: 0.1, g: 0.2, b: 0.3, a: 1.0 });
    assert_eq!(img.data[6..], rgb_2x2().data[6..]);
}

#[test]
fn change_on_gray_image_stores_red_component() {
    let mut img = RawImage { data: vec![0u8; 6], x_size: 3, y_size: 2, channels: 1 };
    change_pixel_at_coord(&mut img, 2, 1, Pixel { r: 7, g: 8, b: 9, a: 10 });
    assert_eq!(img.data, vec![0, 0, 0, 0, 0, 7]);
    assert_eq!(access_pixel_at_coord(&img, 2, 1, 0, 255), Pixel { r: 7, g: 7, b: 7, a: 255 });
}

#[test]
fn change_on_unsupported_layout_changes_nothing() {
    let mut img = RawImage { data: vec![1u8, 2, 3, 4], x_size: 1, y_size: 1, channels: 4 };
    change_pixel_at_coord(&mut img, 0, 0, Pixel { r: 9, g: 9, b: 9, a: 9 });
    assert_eq!(img.data, vec![1, 2, 3, 4]);
}

#[test]
fn valid_coordinates_lie_inside_the_image() {
    let img = rgb_2x2();
    assert!(is_valid_coord(&img, 0, 0));
    assert!(is_valid_coord(&img, 1, 1));
    assert!(!is_valid_coord(&img, 2, 0));
    assert!(!is_valid_coord(&img, 0, 2));
}

#[test]
fn clone_keeps_every_sample() {
    let img = rgb_2x2();
    let copy = clone_image(&img);
    assert_eq!(copy, img);
    let copy2 = img.clone();
    assert_eq!(copy2, img);
}

#[test]
fn combine_adds_and_subtracts_sample_by_sample() {
    let a = RawImage { data: vec![0.5f32, 0.25, 1.0], x_size: 3, y_size: 1, channels: 1 };
    let b = RawImage { data: vec![0.25f32, 0.25, 0.5], x_size: 3, y_size: 1, channels: 1 };
    let sum = combine_images(a.clone(), b.clone(), |x: f32, y: f32| x + y);
    assert_eq!(sum.data, vec![0.75, 0.5, 1.5]);
    let diff = combine_images(a, b, |x: f32, y: f32| x - y);
    assert_eq!(diff.data, vec![0.25, 0.0, 0.5]);
    assert_eq!((diff.x_size, diff.y_size, diff.channels), (3, 1, 1));
}

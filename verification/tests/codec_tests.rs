use image_core::codec::{
    color_layout, load_image_from_bytes, png_from_encoded, raster_from_decoded, save_image_to_png,
    ColorLayout,
};
use image_core::raster::RawImage;

#[test]
fn png_round_trip_keeps_rgb_samples() {
    let img = RawImage { data: vec![10u8, 20, 30, 40, 50, 60], x_size: 2, y_size: 1, channels: 3 };
    let png = save_image_to_png(&img).unwrap();
    assert_eq!(&png[1..4], b"PNG");
    let back = load_image_from_bytes(&png).unwrap();
    assert_eq!(back, img);
}

#[test]
fn gray_png_decodes_to_replicated_rgb() {
    let img = RawImage { data: vec![0u8, 128, 255, 7], x_size: 2, y_size: 2, channels: 1 };
    let png = save_image_to_png(&img).unwrap();
    let back = load_image_from_bytes(&png).unwrap();
    assert_eq!((back.x_size, back.y_size, back.channels), (2, 2, 3));
    assert_eq!(back.data, vec![0, 0, 0, 128, 128, 128, 255, 255, 255, 7, 7, 7]);
}

#[test]
fn unsupported_channel_counts_are_refused() {
    let img = RawImage { data: vec![0u8; 8], x_size: 2, y_size: 2, channels: 2 };
    assert_eq!(save_image_to_png(&img).unwrap_err(), "Unsupported channels: 2");
    let img4 = RawImage { data: vec![0u8; 4], x_size: 1, y_size: 1, channels: 4 };
    assert_eq!(save_image_to_png(&img4).unwrap_err(), "Unsupported channels: 4");
}

#[test]
fn garbage_bytes_fail_to_load() {
    let e = load_image_from_bytes(b"not an image").unwrap_err();
    assert!(e.starts_with("Failed to load: "), "{}", e);
    assert!(e.len() > "Failed to load: ".len());
}

#[test]
fn decoded_parts_become_an_rgb_image() {
    let r = raster_from_decoded(Ok((1, 2, vec![1, 2, 3, 4, 5, 6]))).unwrap();
    assert_eq!(r, RawImage { data: vec![1, 2, 3, 4, 5, 6], x_size: 1, y_size: 2, channels: 3 });
    assert_eq!(raster_from_decoded(Err("bad".to_string())).unwrap_err(), "Failed to load: bad");
}

#[test]
fn encoder_errors_are_prefixed() {
    assert_eq!(png_from_encoded(Err("disk".to_string())).unwrap_err(), "Failed to encode: disk");
    assert_eq!(png_from_encoded(Ok(vec![1, 2])).unwrap(), vec![1, 2]);
}

#[test]
fn layouts_follow_channel_counts() {
    assert_eq!(color_layout(1), Some(ColorLayout::Gray8));
    assert_eq!(color_layout(3), Some(ColorLayout::Rgb8));
    assert_eq!(color_layout(0), None);
    assert_eq!(color_layout(4), None);
}

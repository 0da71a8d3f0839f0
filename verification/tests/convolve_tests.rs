use image_core::convolve::apply_kernel;
use image_core::raster::RawImage;

fn apply(image: &RawImage<f32>, kernel: &[Vec<f32>]) -> RawImage<f32> {
    apply_kernel(
        image,
        kernel,
        0.0,
        |acc: f32, sample: f32, weight: f32| acc + sample * weight,
        |acc: f32| acc.clamp(0.0, 1.0),
    )
}

#[test]
fn identity_kernel_keeps_samples() {
    let img = RawImage { data: vec![0.1f32, 0.2, 0.3, 0.4, 0.5, 0.6], x_size: 3, y_size: 2, channels: 1 };
    let k = vec![vec![0.0f32, 0.0, 0.0], vec![0.0, 1.0, 0.0], vec![0.0, 0.0, 0.0]];
    let out = apply(&img, &k);
    assert_eq!((out.x_size, out.y_size, out.channels), (3, 2, 1));
    assert_eq!(out.data, img.data);
}

#[test]
fn box_kernel_skips_taps_outside_the_image() {
    // all ones, 3x3 image; weights 0.1: corner sees 4 taps, edge 6, centre 9
    let img = RawImage { data: vec![1.0f32; 9], x_size: 3, y_size: 3, channels: 1 };
    let k = vec![vec![0.1f32; 3]; 3];
    let out = apply(&img, &k);
    let expect = [0.4f32, 0.6, 0.4, 0.6, 0.9, 0.6, 0.4, 0.6, 0.4];
    for (a, b) in out.data.iter().zip(expect.iter()) {
        assert!((a - b).abs() < 1e-6, "{} vs {}", a, b);
    }
}

#[test]
fn results_are_clamped_by_finish() {
    let img = RawImage { data: vec![1.0f32, 1.0, 1.0, 1.0], x_size: 2, y_size: 2, channels: 1 };
    let k = vec![vec![1.0f32, 1.0], vec![1.0, 1.0]];
    let out = apply(&img, &k);
    assert_eq!(out.data, vec![1.0, 1.0, 1.0, 1.0]);
    let neg = vec![vec![-1.0f32]];
    assert_eq!(apply(&img, &neg).data, vec![0.0, 0.0, 0.0, 0.0]);
}

#[test]
fn even_kernel_is_offset_by_half_its_size() {
    // kernel of size 2: half = 1, taps at offsets -1 and 0
    let img = RawImage { data: vec![0.1f32, 0.2, 0.3], x_size: 3, y_size: 1, channels: 1 };
    let k = vec![vec![1.0f32, 0.0], vec![0.0, 0.0]];
    // only tap (ky=0,kx=0) weighs; it lands on (x-1, y-1), outside for y = 0
    let out = apply(&img, &k);
    assert_eq!(out.data, vec![0.0, 0.0, 0.0]);
    let k2 = vec![vec![0.0f32, 0.0], vec![1.0, 0.0]];
    // tap (ky=1,kx=0): (x-1, y)
    assert_eq!(apply(&img, &k2).data, vec![0.0, 0.1, 0.2]);
}

#[test]
fn empty_kernel_gives_finished_start_value() {
    let img = RawImage { data: vec![0.5f32, 0.5], x_size: 2, y_size: 1, channels: 1 };
    let k: Vec<Vec<f32>> = vec![];
    assert_eq!(apply(&img, &k).data, vec![0.0, 0.0]);
}

#[test]
fn empty_image_gives_empty_output() {
    let img: RawImage<f32> = RawImage { data: vec![], x_size: 0, y_size: 4, channels: 1 };
    let k = vec![vec![1.0f32]];
    let out = apply(&img, &k);
    assert!(out.data.is_empty());
    assert_eq!((out.x_size, out.y_size), (0, 4));
}

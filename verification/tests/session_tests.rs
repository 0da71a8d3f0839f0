use image_core::raster::RawImage;
use image_core::session::{is_editable, push_history, EditError, GrayscaleOutcome, Session, MAX_HISTORY};
use image_core::transform::rotate90;

fn rgb(seed: u8) -> RawImage<u8> {
    RawImage { data: vec![seed, seed, seed, 30, 60, 90], x_size: 2, y_size: 1, channels: 3 }
}

fn average(r: u8, g: u8, b: u8) -> u8 {
    ((r as u32 + g as u32 + b as u32) / 3) as u8
}

#[test]
fn empty_session_refuses_edits() {
    let mut s: Session<u8> = Session::new();
    assert!(s.current().is_none());
    assert_eq!(s.rotate(90), Err(EditError::NoImage));
    assert_eq!(s.grayscale(average), Err(EditError::NoImage));
    assert_eq!(s.undo(), Err(EditError::NothingToUndo));
    assert!(!s.can_undo());
    assert!(s.single_channel(average).is_none());
}

#[test]
fn upload_sets_image_and_clears_history() {
    let mut s: Session<u8> = Session::new();
    s.upload(rgb(1));
    s.rotate(90).unwrap();
    assert!(s.can_undo());
    s.upload(rgb(2));
    assert!(!s.can_undo());
    assert_eq!(s.current(), Some(&rgb(2)));
}

#[test]
fn rotate_then_undo_restores_previous_image() {
    let mut s: Session<u8> = Session::new();
    s.upload(rgb(5));
    s.rotate(90).unwrap();
    assert_eq!(s.current(), Some(&rotate90(&rgb(5))));
    assert_eq!(s.undo(), Ok(()));
    assert_eq!(s.current(), Some(&rgb(5)));
    assert!(!s.can_undo());
}

#[test]
fn refused_angle_changes_nothing() {
    let mut s: Session<u8> = Session::new();
    s.upload(rgb(5));
    assert_eq!(s.rotate(45), Err(EditError::InvalidAngle("Invalid angle: 45".to_string())));
    assert!(!s.can_undo());
    assert_eq!(s.current(), Some(&rgb(5)));
}

#[test]
fn grayscale_applies_once() {
    let mut s: Session<u8> = Session::new();
    s.upload(rgb(9));
    assert_eq!(s.grayscale(average), Ok(GrayscaleOutcome::Applied));
    let gray = s.current().unwrap();
    assert_eq!((gray.channels, gray.data.clone()), (1, vec![9, 60]));
    assert_eq!(s.grayscale(average), Ok(GrayscaleOutcome::AlreadyGrayscale));
    assert_eq!(s.undo(), Ok(()));
    assert_eq!(s.current(), Some(&rgb(9)));
}

#[test]
fn history_keeps_the_latest_snapshots() {
    let mut s: Session<u8> = Session::new();
    s.upload(rgb(0));
    for i in 1..=(MAX_HISTORY as u8 + 5) {
        s.commit(rgb(i));
    }
    let mut undone = 0;
    while s.undo().is_ok() {
        undone += 1;
    }
    assert_eq!(undone, MAX_HISTORY);
    // the oldest snapshots were dropped: the earliest reachable image is number 5
    assert_eq!(s.current(), Some(&rgb(5)));
}

#[test]
fn single_channel_view_reduces_rgb_and_copies_gray() {
    let mut s: Session<u8> = Session::new();
    s.upload(rgb(3));
    let g = s.single_channel(average).unwrap();
    assert_eq!((g.channels, g.data), (1, vec![3, 60]));
    let gray = RawImage { data: vec![7u8, 8], x_size: 2, y_size: 1, channels: 1 };
    s.upload(gray.clone());
    assert_eq!(s.single_channel(average), Some(gray));
}

#[test]
fn push_history_snapshots_and_drops_the_oldest() {
    let mut current = Some(rgb(42));
    let mut history: Vec<RawImage<u8>> = (0..MAX_HISTORY as u8).map(rgb).collect();
    push_history(&mut current, &mut history);
    assert_eq!(history.len(), MAX_HISTORY);
    assert_eq!(history[0], rgb(1));
    assert_eq!(history[MAX_HISTORY - 1], rgb(42));
    assert_eq!(current, Some(rgb(42)));
    let mut none: Option<RawImage<u8>> = None;
    let mut h2 = vec![rgb(1)];
    push_history(&mut none, &mut h2);
    assert_eq!(h2, vec![rgb(1)]);
}

#[test]
fn editable_images_are_gray_or_rgb_with_exact_buffers() {
    assert!(is_editable(&rgb(1)));
    assert!(!is_editable(&RawImage { data: vec![1u8, 2], x_size: 2, y_size: 1, channels: 2 }));
    assert!(!is_editable(&RawImage { data: vec![1u8, 2, 3], x_size: 2, y_size: 1, channels: 1 }));
    assert!(!is_editable(&RawImage { data: Vec::<u8>::new(), x_size: 70000, y_size: 70000, channels: 1 }));
}

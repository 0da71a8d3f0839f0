use image_core::histogram::count_buckets;

#[test]
fn counts_each_bucket() {
    let h = count_buckets(&[0, 255, 3, 3, 0, 3]);
    assert_eq!(h.len(), 3);
    assert_eq!(h[&0], 2);
    assert_eq!(h[&3], 3);
    assert_eq!(h[&255], 1);
    assert!(!h.contains_key(&1));
}

#[test]
fn empty_input_gives_empty_histogram() {
    assert!(count_buckets(&[]).is_empty());
}

#[test]
fn bucket_counts_add_up_to_the_number_of_samples() {
    let samples: Vec<u8> = (0..1000u32).map(|i| (i * 37 % 256) as u8).collect();
    let h = count_buckets(&samples);
    let total: u32 = h.values().sum();
    assert_eq!(total as usize, samples.len());
}

#[test]
fn entries_by_bucket_list_every_entry_in_bucket_order() {
    let h = count_buckets(&[9, 2, 9, 200, 2, 2]);
    let entries = image_core::histogram::entries_by_bucket(&h);
    assert_eq!(entries, vec![(2, 3), (9, 2), (200, 1)]);
}

#[test]
fn entries_by_count_list_every_entry_by_increasing_count() {
    let h = count_buckets(&[9, 2, 9, 200, 2, 2, 50, 50, 50, 50]);
    let entries = image_core::histogram::entries_by_count(&h);
    assert_eq!(entries, vec![(200, 1), (9, 2), (2, 3), (50, 4)]);
    let empty = count_buckets(&[]);
    assert!(image_core::histogram::entries_by_count(&empty).is_empty());
}

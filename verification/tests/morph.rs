use t_display_s3_amoled::morph::{lit_pixels, pair_cyclic};
use t_display_s3_amoled::timing::micros_to_millis;

#[test]
fn lit_pixels_row_major_positions() {
    // a 3-wide frame, two rows
    let frame = [0u16, 5, 0, 7, 0, 0xFFFF];
    assert_eq!(lit_pixels(&frame, 3), vec![(1, 0), (0, 1), (2, 1)]);
}

#[test]
fn lit_pixels_of_black_frame_is_empty() {
    assert!(lit_pixels(&[0u16; 12], 4).is_empty());
    assert!(lit_pixels(&[], 4).is_empty());
}

#[test]
fn pair_cyclic_wraps_shorter_list() {
    let a = [(1, 1), (2, 2), (3, 3)];
    let b = [(9, 9)];
    assert_eq!(
        pair_cyclic(&a, &b),
        vec![((1, 1), (9, 9)), ((2, 2), (9, 9)), ((3, 3), (9, 9))]
    );
    let c = [(5, 0), (6, 0)];
    assert_eq!(
        pair_cyclic(&a, &c),
        vec![((1, 1), (5, 0)), ((2, 2), (6, 0)), ((3, 3), (5, 0))]
    );
}

#[test]
fn pair_cyclic_of_empty_lists_is_empty() {
    assert!(pair_cyclic(&[], &[]).is_empty());
}

#[test]
fn micros_to_millis_truncates() {
    assert_eq!(micros_to_millis(0), 0);
    assert_eq!(micros_to_millis(1_999), 1);
    assert_eq!(micros_to_millis(2_000), 2);
    assert_eq!(micros_to_millis(u64::MAX / 1000), u64::MAX / 1000 / 1000);
}

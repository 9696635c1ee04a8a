use rust_ffs::bitmap::{
    bitmap_all_set, bitmap_clear, bitmap_count_free, bitmap_find_free, bitmap_find_free_in,
    bitmap_set, bitmap_set_prefix, bitmap_test,
};
use rust_ffs::error::FsError;

#[test]
fn set_then_test_reads_true_for_every_bit() {
    for bit in 0..64u32 {
        let mut bitmap = vec![0u8; 8];
        assert_eq!(bitmap_set(&mut bitmap, bit), Ok(()));
        assert!(bitmap_test(&bitmap, bit));
        for other in 0..64u32 {
            if other != bit {
                assert!(!bitmap_test(&bitmap, other));
            }
        }
    }
}

#[test]
fn clear_then_test_reads_false_for_every_bit() {
    for bit in 0..64u32 {
        let mut bitmap = vec![0xffu8; 8];
        assert_eq!(bitmap_clear(&mut bitmap, bit), Ok(()));
        assert!(!bitmap_test(&bitmap, bit));
        for other in 0..64u32 {
            if other != bit {
                assert!(bitmap_test(&bitmap, other));
            }
        }
    }
}

#[test]
fn bits_are_stored_least_significant_first() {
    let mut bitmap = vec![0u8; 2];
    bitmap_set(&mut bitmap, 0).unwrap();
    assert_eq!(bitmap, vec![0x01, 0x00]);
    bitmap_set(&mut bitmap, 7).unwrap();
    assert_eq!(bitmap, vec![0x81, 0x00]);
    bitmap_set(&mut bitmap, 8).unwrap();
    assert_eq!(bitmap, vec![0x81, 0x01]);
    bitmap_set(&mut bitmap, 10).unwrap();
    assert_eq!(bitmap, vec![0x81, 0x05]);
    bitmap_clear(&mut bitmap, 7).unwrap();
    assert_eq!(bitmap, vec![0x01, 0x05]);
    bitmap_clear(&mut bitmap, 8).unwrap();
    assert_eq!(bitmap, vec![0x01, 0x04]);
}

#[test]
fn setting_a_set_bit_changes_nothing() {
    let mut bitmap = vec![0b0010_0100u8];
    assert_eq!(bitmap_set(&mut bitmap, 2), Ok(()));
    assert_eq!(bitmap, vec![0b0010_0100u8]);
    assert_eq!(bitmap_clear(&mut bitmap, 0), Ok(()));
    assert_eq!(bitmap, vec![0b0010_0100u8]);
}

#[test]
fn set_out_of_range_is_refused() {
    let mut bitmap = vec![0x5au8; 4];
    assert_eq!(bitmap_set(&mut bitmap, 32), Err(FsError::OutOfRange));
    assert_eq!(bitmap_set(&mut bitmap, u32::MAX), Err(FsError::OutOfRange));
    assert_eq!(bitmap, vec![0x5au8; 4]);
    assert_eq!(bitmap_set(&mut bitmap, 31), Ok(()));
    assert_eq!(bitmap, vec![0x5a, 0x5a, 0x5a, 0xda]);
}

#[test]
fn clear_out_of_range_is_refused() {
    let mut bitmap = vec![0xffu8; 4];
    assert_eq!(bitmap_clear(&mut bitmap, 32), Err(FsError::OutOfRange));
    assert_eq!(bitmap, vec![0xffu8; 4]);
    let mut empty: Vec<u8> = Vec::new();
    assert_eq!(bitmap_clear(&mut empty, 0), Err(FsError::OutOfRange));
    assert_eq!(bitmap_set(&mut empty, 0), Err(FsError::OutOfRange));
}

#[test]
fn find_free_on_zero_bitmap_is_zero() {
    let bitmap = vec![0u8; 16];
    assert_eq!(bitmap_find_free(&bitmap, 128), Some(0));
    assert_eq!(bitmap_find_free(&bitmap, 1), Some(0));
}

#[test]
fn find_free_after_setting_a_prefix_is_its_length() {
    for k in 0..40u32 {
        let mut bitmap = vec![0u8; 5];
        for bit in 0..k {
            bitmap_set(&mut bitmap, bit).unwrap();
        }
        assert_eq!(bitmap_find_free(&bitmap, 40), Some(k));
    }
}

#[test]
fn find_free_on_full_bitmap_is_none() {
    let bitmap = vec![0xffu8; 5];
    assert_eq!(bitmap_find_free(&bitmap, 40), None);
    assert_eq!(bitmap_find_free(&bitmap, 0), None);
}

#[test]
fn find_free_returns_the_lowest_clear_bit() {
    let bitmap = vec![0xff, 0b1110_1011, 0x00];
    assert_eq!(bitmap_find_free(&bitmap, 24), Some(10));
    assert_eq!(bitmap_find_free(&bitmap, 11), Some(10));
    assert_eq!(bitmap_find_free(&bitmap, 10), None);
}

#[test]
fn find_free_stops_before_the_end_of_the_buffer() {
    let bitmap = vec![0x0fu8];
    assert_eq!(bitmap_find_free(&bitmap, 1000), Some(4));
}

#[test]
fn find_free_in_scans_from_the_start_given() {
    let bitmap = vec![0b0000_0101u8, 0xff, 0b0000_0001];
    assert_eq!(bitmap_find_free_in(&bitmap, 0, 24), Some(1));
    assert_eq!(bitmap_find_free_in(&bitmap, 2, 24), Some(3));
    assert_eq!(bitmap_find_free_in(&bitmap, 8, 24), Some(17));
    assert_eq!(bitmap_find_free_in(&bitmap, 8, 16), None);
    assert_eq!(bitmap_find_free_in(&bitmap, 16, 8), None);
}

#[test]
fn set_prefix_marks_exactly_the_first_bits() {
    let mut bitmap = vec![0u8; 3];
    assert_eq!(bitmap_set_prefix(&mut bitmap, 11), Ok(()));
    assert_eq!(bitmap, vec![0xff, 0x07, 0x00]);
    assert_eq!(bitmap_set_prefix(&mut bitmap, 0), Ok(()));
    assert_eq!(bitmap, vec![0xff, 0x07, 0x00]);
    assert_eq!(bitmap_set_prefix(&mut bitmap, 24), Ok(()));
    assert_eq!(bitmap, vec![0xff, 0xff, 0xff]);
}

#[test]
fn set_prefix_beyond_the_buffer_is_refused() {
    let mut bitmap = vec![0u8; 3];
    assert_eq!(bitmap_set_prefix(&mut bitmap, 25), Err(FsError::OutOfRange));
    assert_eq!(bitmap, vec![0u8; 3]);
}

#[test]
fn clear_bits_of_a_range_are_counted() {
    let bitmap = vec![0b0000_0101u8, 0xff, 0b0000_0001];
    assert_eq!(bitmap_count_free(&bitmap, 0, 24), 13);
    assert_eq!(bitmap_count_free(&bitmap, 0, 8), 6);
    assert_eq!(bitmap_count_free(&bitmap, 8, 16), 0);
    assert_eq!(bitmap_count_free(&bitmap, 2, 4), 1);
    assert_eq!(bitmap_count_free(&bitmap, 5, 5), 0);
    assert_eq!(bitmap_count_free(&bitmap, 9, 3), 0);
    assert_eq!(bitmap_count_free(&vec![0u8; 100], 0, 800), 800);
}

#[test]
fn ranges_of_set_bits_are_recognised() {
    let bitmap = vec![0b1111_0101u8, 0xff, 0b0000_0001];
    assert!(bitmap_all_set(&bitmap, 4, 17));
    assert!(!bitmap_all_set(&bitmap, 3, 17));
    assert!(!bitmap_all_set(&bitmap, 4, 18));
    assert!(bitmap_all_set(&bitmap, 0, 1));
    assert!(bitmap_all_set(&bitmap, 3, 3));
    assert!(bitmap_all_set(&bitmap, 20, 3));
}

use rust_ffs::disk::{
    block_offset, block_within_image, image_size, last_byte_offset, transfer_offset,
};
use rust_ffs::error::FsError;

#[test]
fn image_of_size_zero_is_refused() {
    assert_eq!(last_byte_offset(0), Err(FsError::InvalidArgument));
}

#[test]
fn last_byte_of_an_image() {
    assert_eq!(image_size(4096, 5000), 20_480_000);
    assert_eq!(last_byte_offset(image_size(4096, 5000)), Ok(20_479_999));
    assert_eq!(last_byte_offset(1), Ok(0));
    assert_eq!(last_byte_offset(u64::MAX), Ok(u64::MAX - 1));
}

#[test]
fn image_size_is_the_product_of_its_geometry() {
    assert_eq!(image_size(0, 5000), 0);
    assert_eq!(image_size(8192, 0), 0);
    assert_eq!(image_size(8192, 5000), 40_960_000);
    assert_eq!(image_size(u32::MAX, u32::MAX), 18_446_744_065_119_617_025);
}

#[test]
fn block_offset_is_a_multiple_of_the_block_size() {
    assert_eq!(block_offset(4096, 0), 0);
    assert_eq!(block_offset(4096, 1), 4096);
    assert_eq!(block_offset(4096, 2), 8192);
    assert_eq!(block_offset(4096, 4999), 20_475_904);
    assert_eq!(block_offset(u32::MAX, u32::MAX), 18_446_744_065_119_617_025);
}

#[test]
fn transfer_needs_a_buffer_of_one_block() {
    assert_eq!(transfer_offset(4096, 4096, 3), Ok(12_288));
    assert_eq!(transfer_offset(4095, 4096, 3), Err(FsError::InvalidArgument));
    assert_eq!(transfer_offset(4097, 4096, 3), Err(FsError::InvalidArgument));
    assert_eq!(transfer_offset(248, 4096, 0), Err(FsError::InvalidArgument));
    assert_eq!(transfer_offset(0, 0, 7), Ok(0));
}

#[test]
fn blocks_beyond_the_end_of_the_image_are_outside() {
    let len = image_size(4096, 5000);
    assert!(block_within_image(4096, 0, len));
    assert!(block_within_image(4096, 4999, len));
    assert!(!block_within_image(4096, 5000, len));
    assert!(!block_within_image(4096, 4999, len - 1));
    assert!(!block_within_image(4096, 0, 4095));
    assert!(block_within_image(0, 7, 0));
    assert!(block_within_image(u32::MAX, u32::MAX, u64::MAX));
    assert!(!block_within_image(u32::MAX, u32::MAX, 18_446_744_065_119_617_025));
    assert!(block_within_image(u32::MAX, u32::MAX - 1, 18_446_744_065_119_617_025));
    assert!(!block_within_image(u32::MAX, u32::MAX - 1, 18_446_744_065_119_617_024));
}

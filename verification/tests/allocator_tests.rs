use rust_ffs::allocator::{
    allocate_block, allocate_block_at, allocate_inode, allocate_inode_at, block_bitmap_consistent,
    free_block, free_block_at, free_inode, free_inode_at, inode_bitmap_consistent,
};
use rust_ffs::clock::current_time;
use rust_ffs::bitmap::{bitmap_set, bitmap_test};
use rust_ffs::error::FsError;
use rust_ffs::superblock::Superblock;
use rust_ffs::volume::format_volume_at;

fn small_volume() -> (Superblock, Vec<u8>, Vec<u8>) {
    let v = format_volume_at(4096, 60, 1_700_000_000).unwrap();
    (v.superblock, v.block_bitmap, v.inode_bitmap)
}

#[test]
fn blocks_are_handed_out_in_increasing_order_until_none_is_left() {
    let (mut sb, mut bitmap, _) = small_volume();
    let free = sb.free_blocks;
    assert_eq!(free, 49);
    let mut handed_out = Vec::new();
    for k in 0..free {
        let block = allocate_block(&mut bitmap, &mut sb).unwrap().unwrap();
        assert_eq!(block, 11 + k);
        assert_eq!(sb.free_blocks, free - k - 1);
        handed_out.push(block);
    }
    assert_eq!(sb.free_blocks, 0);
    assert_eq!(allocate_block(&mut bitmap, &mut sb), Ok(None));
    assert_eq!(allocate_block(&mut bitmap, &mut sb), Ok(None));
    assert_eq!(sb.free_blocks, 0);
    for bit in 0..(4096 * 8) as u32 {
        let expected = bit < 11 || handed_out.contains(&bit);
        assert_eq!(bitmap_test(&bitmap, bit), expected);
    }
}

#[test]
fn allocation_skips_blocks_that_are_in_use() {
    let (mut sb, mut bitmap, _) = small_volume();
    bitmap_set(&mut bitmap, 11).unwrap();
    bitmap_set(&mut bitmap, 12).unwrap();
    bitmap_set(&mut bitmap, 14).unwrap();
    sb.free_blocks -= 3;
    assert_eq!(allocate_block(&mut bitmap, &mut sb), Ok(Some(13)));
    assert_eq!(allocate_block(&mut bitmap, &mut sb), Ok(Some(15)));
    assert_eq!(sb.free_blocks, 44);
}

#[test]
fn allocation_changes_the_counter_the_write_time_and_one_bit() {
    let (mut sb, mut bitmap, _) = small_volume();
    let before = sb;
    let bitmap_before = bitmap.clone();
    assert_eq!(allocate_block_at(&mut bitmap, &mut sb, 1_800_000_000), Ok(Some(11)));
    let mut expected = before;
    expected.free_blocks = 48;
    expected.last_write_time = 1_800_000_000;
    assert_eq!(sb, expected);
    let mut expected_bitmap = bitmap_before;
    expected_bitmap[1] |= 0b0000_1000;
    assert_eq!(bitmap, expected_bitmap);
}

#[test]
fn every_change_notes_the_time_of_the_write() {
    let (mut sb, mut blocks, mut inodes) = small_volume();
    let formatted = sb;
    assert_eq!(allocate_inode_at(&mut inodes, &mut sb, 10), Ok(Some(2)));
    let mut expected = formatted;
    expected.free_inodes = 318;
    expected.last_write_time = 10;
    assert_eq!(sb, expected);
    assert_eq!(allocate_block_at(&mut blocks, &mut sb, 20), Ok(Some(11)));
    expected.free_blocks = 48;
    expected.last_write_time = 20;
    assert_eq!(sb, expected);
    assert_eq!(free_inode_at(&mut inodes, &mut sb, 2, 30), Ok(()));
    expected.free_inodes = 319;
    expected.last_write_time = 30;
    assert_eq!(sb, expected);
    assert_eq!(free_block_at(&mut blocks, &mut sb, 11, -40), Ok(()));
    expected.free_blocks = 49;
    expected.last_write_time = -40;
    assert_eq!(sb, expected);
    assert_eq!(free_block_at(&mut blocks, &mut sb, 11, 50), Err(FsError::DoubleFree));
    assert_eq!(free_inode_at(&mut inodes, &mut sb, 1, 50), Err(FsError::OutOfRange));
    assert_eq!(sb, expected);
}

#[test]
fn changes_without_a_given_time_are_stamped_with_the_clock() {
    let (mut sb, mut blocks, mut inodes) = small_volume();
    sb.last_write_time = 0;
    let before = current_time();
    assert_eq!(allocate_block(&mut blocks, &mut sb), Ok(Some(11)));
    assert!(before <= sb.last_write_time && sb.last_write_time <= current_time());
    sb.last_write_time = 0;
    assert_eq!(allocate_inode(&mut inodes, &mut sb), Ok(Some(2)));
    assert!(before <= sb.last_write_time && sb.last_write_time <= current_time());
    sb.last_write_time = 0;
    assert_eq!(free_block(&mut blocks, &mut sb, 11), Ok(()));
    assert!(before <= sb.last_write_time && sb.last_write_time <= current_time());
    sb.last_write_time = 0;
    assert_eq!(free_inode(&mut inodes, &mut sb, 2), Ok(()));
    assert!(before <= sb.last_write_time && sb.last_write_time <= current_time());
    let mut expected = small_volume().0;
    expected.last_write_time = sb.last_write_time;
    assert_eq!(sb, expected);
}

#[test]
fn first_blocks_of_a_large_volume() {
    let v = format_volume_at(4096, 5000, 0).unwrap();
    let mut sb = v.superblock;
    let mut bitmap = v.block_bitmap;
    assert_eq!(allocate_block(&mut bitmap, &mut sb), Ok(Some(11)));
    assert_eq!(allocate_block(&mut bitmap, &mut sb), Ok(Some(12)));
    assert_eq!(allocate_block(&mut bitmap, &mut sb), Ok(Some(13)));
    assert_eq!(sb.free_blocks, 4986);
}

#[test]
fn bitmap_of_the_wrong_length_is_refused() {
    let (mut sb, bitmap, inode_bitmap) = small_volume();
    let before = sb;
    let mut short = bitmap[..4095].to_vec();
    assert_eq!(allocate_block(&mut short, &mut sb), Err(FsError::InvalidArgument));
    assert_eq!(free_block(&mut short, &mut sb, 11), Err(FsError::InvalidArgument));
    let mut long = inode_bitmap.clone();
    long.push(0);
    assert_eq!(allocate_inode(&mut long, &mut sb), Err(FsError::InvalidArgument));
    assert_eq!(free_inode(&mut long, &mut sb, 2), Err(FsError::InvalidArgument));
    assert_eq!(sb, before);
    assert_eq!(short, bitmap[..4095].to_vec());
}

#[test]
fn volume_larger_than_its_bitmap_is_refused() {
    let mut sb = Superblock::new_at(4096, 4096 * 8 + 1, 0).unwrap();
    let mut bitmap = vec![0u8; 4096];
    assert_eq!(allocate_block(&mut bitmap, &mut sb), Err(FsError::InvalidArgument));
    assert_eq!(free_block(&mut bitmap, &mut sb, 11), Err(FsError::InvalidArgument));
    sb = Superblock::new_at(4096, 4096 * 8, 0).unwrap();
    assert_eq!(allocate_block(&mut bitmap, &mut sb), Ok(Some(11)));
    sb.first_data_block = sb.total_blocks + 1;
    assert_eq!(allocate_block(&mut bitmap, &mut sb), Err(FsError::InvalidArgument));
}

#[test]
fn counter_at_zero_with_a_free_block_is_a_mismatch() {
    let (mut sb, mut bitmap, _) = small_volume();
    sb.free_blocks = 0;
    let before = sb;
    let bitmap_before = bitmap.clone();
    assert_eq!(allocate_block(&mut bitmap, &mut sb), Err(FsError::CounterMismatch));
    assert_eq!(sb, before);
    assert_eq!(bitmap, bitmap_before);
}

#[test]
fn counter_above_zero_with_no_free_block_is_a_mismatch() {
    let (mut sb, mut bitmap, _) = small_volume();
    for bit in 11..60 {
        bitmap_set(&mut bitmap, bit).unwrap();
    }
    sb.free_blocks = 1;
    assert_eq!(allocate_block(&mut bitmap, &mut sb), Err(FsError::CounterMismatch));
    assert_eq!(sb.free_blocks, 1);
    sb.free_blocks = 0;
    assert_eq!(allocate_block(&mut bitmap, &mut sb), Ok(None));
}

#[test]
fn freed_block_is_handed_out_again() {
    let (mut sb, mut bitmap, _) = small_volume();
    for _ in 0..5 {
        allocate_block_at(&mut bitmap, &mut sb, 7).unwrap();
    }
    let after_five = (sb, bitmap.clone());
    assert_eq!(free_block_at(&mut bitmap, &mut sb, 12, 7), Ok(()));
    assert_eq!(sb.free_blocks, 45);
    assert!(!bitmap_test(&bitmap, 12));
    assert!(bitmap_test(&bitmap, 11) && bitmap_test(&bitmap, 13));
    assert_eq!(allocate_block_at(&mut bitmap, &mut sb, 7), Ok(Some(12)));
    assert_eq!((sb, bitmap.clone()), after_five);
    assert_eq!(allocate_block_at(&mut bitmap, &mut sb, 7), Ok(Some(16)));
}

#[test]
fn freeing_a_free_block_is_a_double_free() {
    let (mut sb, mut bitmap, _) = small_volume();
    allocate_block(&mut bitmap, &mut sb).unwrap();
    assert_eq!(free_block(&mut bitmap, &mut sb, 11), Ok(()));
    let before = (sb, bitmap.clone());
    assert_eq!(free_block(&mut bitmap, &mut sb, 11), Err(FsError::DoubleFree));
    assert_eq!(free_block(&mut bitmap, &mut sb, 59), Err(FsError::DoubleFree));
    assert_eq!((sb, bitmap), before);
}

#[test]
fn freeing_a_block_outside_the_data_area_is_refused() {
    let (mut sb, mut bitmap, _) = small_volume();
    let before = (sb, bitmap.clone());
    assert_eq!(free_block(&mut bitmap, &mut sb, 0), Err(FsError::OutOfRange));
    assert_eq!(free_block(&mut bitmap, &mut sb, 10), Err(FsError::OutOfRange));
    assert_eq!(free_block(&mut bitmap, &mut sb, 60), Err(FsError::OutOfRange));
    assert_eq!(free_block(&mut bitmap, &mut sb, u32::MAX), Err(FsError::OutOfRange));
    assert_eq!((sb, bitmap), before);
}

#[test]
fn freeing_with_a_full_counter_is_a_mismatch() {
    let (mut sb, mut bitmap, _) = small_volume();
    bitmap_set(&mut bitmap, 20).unwrap();
    let before = (sb, bitmap.clone());
    assert_eq!(sb.free_blocks, 49);
    assert_eq!(free_block(&mut bitmap, &mut sb, 20), Err(FsError::CounterMismatch));
    assert_eq!((sb, bitmap), before);
}

#[test]
fn inodes_are_handed_out_in_increasing_order_until_none_is_left() {
    let (mut sb, _, mut bitmap) = small_volume();
    assert_eq!(sb.free_inodes, 319);
    for k in 0..318u32 {
        assert_eq!(allocate_inode(&mut bitmap, &mut sb), Ok(Some(2 + k)));
        assert_eq!(sb.free_inodes, 318 - k);
    }
    assert_eq!(sb.free_inodes, 1);
    assert_eq!(allocate_inode(&mut bitmap, &mut sb), Ok(None));
    assert_eq!(sb.free_inodes, 1);
    for bit in 0..(4096 * 8) as u32 {
        assert_eq!(bitmap_test(&bitmap, bit), bit < 320);
    }
}

#[test]
fn last_counted_inode_is_handed_out() {
    let (mut sb, _, mut bitmap) = small_volume();
    sb.free_inodes = 1;
    assert_eq!(allocate_inode(&mut bitmap, &mut sb), Ok(Some(2)));
    assert_eq!(sb.free_inodes, 0);
    assert!(bitmap_test(&bitmap, 2));
}

#[test]
fn inode_counter_at_zero_with_a_free_inode_is_a_mismatch() {
    let (mut sb, _, mut bitmap) = small_volume();
    sb.free_inodes = 0;
    let before = (sb, bitmap.clone());
    assert_eq!(allocate_inode(&mut bitmap, &mut sb), Err(FsError::CounterMismatch));
    assert_eq!((sb, bitmap), before);
}

#[test]
fn no_free_inode_gives_none_whatever_the_counter_shows() {
    let (mut sb, _, mut bitmap) = small_volume();
    for bit in 2..320 {
        bitmap_set(&mut bitmap, bit).unwrap();
    }
    for counter in [0u32, 1, 2, 319, 320, u32::MAX] {
        sb.free_inodes = counter;
        let before = (sb, bitmap.clone());
        assert_eq!(allocate_inode(&mut bitmap, &mut sb), Ok(None));
        assert_eq!((sb, bitmap.clone()), before);
    }
}

#[test]
fn inode_bits_beyond_the_count_are_never_looked_at() {
    let (mut sb, _, mut bitmap) = small_volume();
    for bit in 2..320 {
        bitmap_set(&mut bitmap, bit).unwrap();
    }
    assert!(!bitmap_test(&bitmap, 320));
    assert_eq!(allocate_inode(&mut bitmap, &mut sb), Ok(None));
    assert!(!bitmap_test(&bitmap, 320));
}

#[test]
fn freed_inode_is_handed_out_again() {
    let (mut sb, _, mut bitmap) = small_volume();
    for _ in 0..4 {
        allocate_inode(&mut bitmap, &mut sb).unwrap();
    }
    assert_eq!(sb.free_inodes, 315);
    assert_eq!(free_inode(&mut bitmap, &mut sb, 3), Ok(()));
    assert_eq!(sb.free_inodes, 316);
    assert!(!bitmap_test(&bitmap, 3));
    assert_eq!(free_inode(&mut bitmap, &mut sb, 3), Err(FsError::DoubleFree));
    assert_eq!(allocate_inode(&mut bitmap, &mut sb), Ok(Some(3)));
    assert_eq!(allocate_inode(&mut bitmap, &mut sb), Ok(Some(6)));
}

#[test]
fn inode_zero_and_the_root_are_never_freed() {
    let (mut sb, _, mut bitmap) = small_volume();
    let before = (sb, bitmap.clone());
    assert_eq!(free_inode(&mut bitmap, &mut sb, 0), Err(FsError::OutOfRange));
    assert_eq!(free_inode(&mut bitmap, &mut sb, 1), Err(FsError::OutOfRange));
    assert_eq!(free_inode(&mut bitmap, &mut sb, 320), Err(FsError::OutOfRange));
    assert_eq!(free_inode(&mut bitmap, &mut sb, 2), Err(FsError::DoubleFree));
    assert_eq!((sb, bitmap), before);
}

#[test]
fn inode_is_taken_back_at_any_counter_below_the_inode_count() {
    for counter in [0u32, 1, 318, 319] {
        let (mut sb, _, mut bitmap) = small_volume();
        bitmap_set(&mut bitmap, 5).unwrap();
        sb.free_inodes = counter;
        assert_eq!(free_inode(&mut bitmap, &mut sb, 5), Ok(()));
        assert_eq!(sb.free_inodes, counter + 1);
        assert!(!bitmap_test(&bitmap, 5));
    }
}

#[test]
fn freeing_an_inode_with_a_full_counter_is_a_mismatch() {
    let (mut sb, _, mut bitmap) = small_volume();
    bitmap_set(&mut bitmap, 5).unwrap();
    sb.free_inodes = 320;
    let before = (sb, bitmap.clone());
    assert_eq!(free_inode(&mut bitmap, &mut sb, 5), Err(FsError::CounterMismatch));
    sb.free_inodes = u32::MAX;
    assert_eq!(free_inode(&mut bitmap, &mut sb, 5), Err(FsError::CounterMismatch));
    sb.free_inodes = 320;
    assert_eq!((sb, bitmap), before);
}

#[test]
fn formatted_volume_is_consistent_and_stays_so() {
    let (mut sb, mut blocks, mut inodes) = small_volume();
    assert!(block_bitmap_consistent(&blocks, &sb));
    assert!(inode_bitmap_consistent(&inodes, &sb));
    for _ in 0..20 {
        allocate_block(&mut blocks, &mut sb).unwrap();
        allocate_inode(&mut inodes, &mut sb).unwrap();
    }
    free_block(&mut blocks, &mut sb, 15).unwrap();
    free_inode(&mut inodes, &mut sb, 9).unwrap();
    assert!(block_bitmap_consistent(&blocks, &sb));
    assert!(inode_bitmap_consistent(&inodes, &sb));
    while allocate_block(&mut blocks, &mut sb).unwrap().is_some() {}
    while allocate_inode(&mut inodes, &mut sb).unwrap().is_some() {}
    assert!(block_bitmap_consistent(&blocks, &sb));
    assert!(inode_bitmap_consistent(&inodes, &sb));
    assert_eq!((sb.free_blocks, sb.free_inodes), (0, 1));
}

#[test]
fn disagreement_between_bitmap_and_counter_is_found() {
    let (sb, blocks, inodes) = small_volume();
    let mut off = sb;
    off.free_blocks = 48;
    assert!(!block_bitmap_consistent(&blocks, &off));
    off = sb;
    off.free_inodes = 318;
    assert!(!inode_bitmap_consistent(&inodes, &off));
    let mut marked = blocks.clone();
    bitmap_set(&mut marked, 30).unwrap();
    assert!(!block_bitmap_consistent(&marked, &sb));
    let mut unmarked = inodes.clone();
    unmarked[0] = 0b0000_0001;
    assert!(!inode_bitmap_consistent(&unmarked, &sb));
    off = sb;
    off.free_inodes = 320;
    assert!(!inode_bitmap_consistent(&unmarked, &off));
    assert!(!block_bitmap_consistent(&blocks[..100], &sb));
    assert!(!inode_bitmap_consistent(&inodes[..100], &sb));
}

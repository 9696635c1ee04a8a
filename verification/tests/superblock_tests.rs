use rust_ffs::clock::{current_time, timestamp_from_reading, timestamp_from_secs};
use rust_ffs::error::FsError;
use rust_ffs::layout::{
    BLOCK_BITMAP_BLOCK, FIRST_DATA_BLOCK, FIRST_INODE_BLOCK, FS_MAGIC, FS_VERSION,
    INODE_BITMAP_BLOCK, INODE_BLOCKS, INODE_COUNT, RESERVED_BLOCKS, ROOT_INODE, SUPERBLOCK_BLOCK,
    SUPERBLOCK_RECORD_SIZE,
};
use rust_ffs::superblock::{inode_table_fits, Superblock};

fn sample() -> Superblock {
    let mut sb = Superblock::new_at(4096, 5000, 1_700_000_000).unwrap();
    sb.free_blocks = 4000;
    sb.free_inodes = 300;
    sb.last_mount_time = 1_700_000_100;
    sb.last_write_time = -5;
    sb.mount_count = 3;
    sb.state = 1;
    sb.backup_superblock = [1, -2, 3, i32::MIN, i32::MAX];
    for i in 0..128 {
        sb.reserved[i] = (i as i8).wrapping_sub(64);
    }
    sb
}

#[test]
fn layout_constants_have_their_fixed_values() {
    assert_eq!(FS_MAGIC, 0xF0F03410);
    assert_eq!(SUPERBLOCK_BLOCK, 0);
    assert_eq!(BLOCK_BITMAP_BLOCK, 1);
    assert_eq!(INODE_BITMAP_BLOCK, 2);
    assert_eq!(FIRST_INODE_BLOCK, 3);
    assert_eq!(INODE_BLOCKS, 8);
    assert_eq!(FIRST_DATA_BLOCK, 11);
    assert_eq!(RESERVED_BLOCKS, 11);
    assert_eq!(INODE_COUNT, 320);
    assert_eq!(ROOT_INODE, 1);
}

#[test]
fn new_superblock_has_the_derived_geometry() {
    let sb = Superblock::new_at(4096, 5000, 1_700_000_000).unwrap();
    assert_eq!(sb.magic_number, 0xF0F03410);
    assert_eq!(sb.version, FS_VERSION);
    assert_eq!(sb.block_size, 4096);
    assert_eq!(sb.total_blocks, 5000);
    assert_eq!(sb.fs_size, 20_480_000);
    assert_eq!(sb.inode_count, 320);
    assert_eq!(sb.free_inodes, 320);
    assert_eq!(sb.first_inode_block, 3);
    assert_eq!(sb.inode_blocks, 8);
    assert_eq!(sb.inode_bitmap_block, 2);
    assert_eq!(sb.free_blocks, 4989);
    assert_eq!(sb.first_data_block, 11);
    assert_eq!(sb.bitmap_block, 1);
    assert_eq!(sb.root_inode, 1);
    assert_eq!(sb.created_time, 1_700_000_000);
    assert_eq!(sb.last_mount_time, 1_700_000_000);
    assert_eq!(sb.last_write_time, 1_700_000_000);
    assert_eq!(sb.mount_count, 0);
    assert_eq!(sb.state, 0);
    assert_eq!(sb.backup_superblock, [0i32; 5]);
    assert_eq!(sb.reserved, [0i8; 128]);
    assert!(sb.is_well_formed());
}

#[test]
fn new_superblock_is_stamped_with_the_clock() {
    let before = current_time();
    let sb = Superblock::new(4096, 5000).unwrap();
    let after = current_time();
    assert!(before <= sb.created_time && sb.created_time <= after);
    assert!(sb.created_time > 1_600_000_000);
    assert_eq!(sb.last_mount_time, sb.created_time);
    assert_eq!(sb.last_write_time, sb.created_time);
    assert_eq!(sb.free_blocks, 4989);
    let same = Superblock::new_at(4096, 5000, sb.created_time).unwrap();
    assert_eq!(sb, same);
}

#[test]
fn timestamps_saturate_at_the_largest_value() {
    assert_eq!(timestamp_from_secs(0), 0);
    assert_eq!(timestamp_from_secs(1_700_000_000), 1_700_000_000);
    assert_eq!(timestamp_from_secs(i64::MAX as u64), i64::MAX);
    assert_eq!(timestamp_from_secs(i64::MAX as u64 + 1), i64::MAX);
    assert_eq!(timestamp_from_secs(u64::MAX), i64::MAX);
}

#[test]
fn clock_before_the_epoch_reads_as_zero() {
    assert_eq!(timestamp_from_reading(None), 0);
    assert_eq!(timestamp_from_reading(Some(0)), 0);
    assert_eq!(timestamp_from_reading(Some(1_700_000_000)), 1_700_000_000);
    assert_eq!(timestamp_from_reading(Some(i64::MAX as u64)), i64::MAX);
    assert_eq!(timestamp_from_reading(Some(i64::MAX as u64 + 1)), i64::MAX);
    assert_eq!(timestamp_from_reading(Some(u64::MAX)), i64::MAX);
}

#[test]
fn too_few_blocks_are_refused() {
    assert_eq!(Superblock::new_at(4096, 11, 0), Err(FsError::InvalidArgument));
    assert_eq!(Superblock::new_at(4096, 0, 0), Err(FsError::InvalidArgument));
    assert_eq!(Superblock::new(4096, 11), Err(FsError::InvalidArgument));
    let smallest = Superblock::new(4096, 12).unwrap();
    assert_eq!(smallest.free_blocks, 1);
    assert_eq!(smallest.first_data_block, 11);
    assert_eq!(smallest.total_blocks, 12);
    assert_eq!(smallest.fs_size, 49_152);
}

#[test]
fn blocks_too_small_for_the_inode_table_are_refused() {
    assert!(inode_table_fits(4096));
    assert!(inode_table_fits(4080));
    assert!(!inode_table_fits(4079));
    assert!(!inode_table_fits(0));
    assert!(inode_table_fits(u32::MAX));
    assert_eq!(Superblock::new_at(4079, 5000, 0), Err(FsError::InvalidArgument));
    assert_eq!(Superblock::new_at(2048, 5000, 0), Err(FsError::InvalidArgument));
    assert_eq!(Superblock::new(0, 5000), Err(FsError::InvalidArgument));
    assert!(Superblock::new_at(4080, 5000, 0).is_ok());
    assert!(Superblock::new_at(4096, 5000, 0).is_ok());
}

#[test]
fn largest_geometry_does_not_overflow() {
    let sb = Superblock::new_at(u32::MAX, u32::MAX, i64::MIN).unwrap();
    assert_eq!(sb.fs_size, (u32::MAX as u64) * (u32::MAX as u64));
    assert_eq!(sb.free_blocks, u32::MAX - 11);
    assert_eq!(sb.created_time, i64::MIN);
}

#[test]
fn record_has_every_field_at_its_offset() {
    let sb = sample();
    let bytes = sb.encode();
    assert_eq!(bytes.len(), SUPERBLOCK_RECORD_SIZE);
    assert_eq!(bytes.len(), 248);
    assert_eq!(&bytes[0..4], &[0x10, 0x34, 0xF0, 0xF0]);
    assert_eq!(&bytes[4..8], &1u32.to_le_bytes());
    assert_eq!(&bytes[8..12], &4096u32.to_le_bytes());
    assert_eq!(&bytes[12..16], &5000u32.to_le_bytes());
    assert_eq!(&bytes[16..24], &20_480_000u64.to_le_bytes());
    assert_eq!(&bytes[24..28], &320u32.to_le_bytes());
    assert_eq!(&bytes[28..32], &300u32.to_le_bytes());
    assert_eq!(&bytes[32..36], &3u32.to_le_bytes());
    assert_eq!(&bytes[36..40], &8u32.to_le_bytes());
    assert_eq!(&bytes[40..44], &2u32.to_le_bytes());
    assert_eq!(&bytes[44..48], &4000u32.to_le_bytes());
    assert_eq!(&bytes[48..52], &11u32.to_le_bytes());
    assert_eq!(&bytes[52..56], &1u32.to_le_bytes());
    assert_eq!(&bytes[56..60], &1u32.to_le_bytes());
    assert_eq!(&bytes[60..64], &[0u8; 4]);
    assert_eq!(&bytes[64..72], &1_700_000_000i64.to_le_bytes());
    assert_eq!(&bytes[72..80], &1_700_000_100i64.to_le_bytes());
    assert_eq!(&bytes[80..88], &(-5i64).to_le_bytes());
    assert_eq!(&bytes[88..92], &3u32.to_le_bytes());
    assert_eq!(&bytes[92..96], &1u32.to_le_bytes());
    assert_eq!(&bytes[96..100], &1i32.to_le_bytes());
    assert_eq!(&bytes[100..104], &(-2i32).to_le_bytes());
    assert_eq!(&bytes[104..108], &3i32.to_le_bytes());
    assert_eq!(&bytes[108..112], &i32::MIN.to_le_bytes());
    assert_eq!(&bytes[112..116], &i32::MAX.to_le_bytes());
    for i in 0..128usize {
        assert_eq!(bytes[116 + i], (i as u8).wrapping_sub(64));
    }
    assert_eq!(&bytes[244..248], &[0u8; 4]);
}

#[test]
fn superblock_round_trip_is_byte_identical() {
    for sb in [sample(), Superblock::new_at(4080, 12, -1).unwrap()] {
        let written = sb.encode();
        let back = Superblock::decode(&written).unwrap();
        assert_eq!(back, sb);
        assert_eq!(back.encode(), written);
    }
}

#[test]
fn superblock_round_trip_through_a_whole_block() {
    let sb = sample();
    let block = sb.to_block().unwrap();
    assert_eq!(block.len(), 4096);
    assert_eq!(&block[0..248], &sb.encode()[..]);
    assert!(block[248..].iter().all(|&b| b == 0));
    assert_eq!(Superblock::decode(&block), Ok(sb));
}

#[test]
fn block_shorter_than_the_record_is_refused() {
    let mut sb = sample();
    sb.block_size = 247;
    assert_eq!(sb.to_block(), Err(FsError::InvalidArgument));
    sb.block_size = 248;
    assert_eq!(sb.to_block().unwrap(), sb.encode());
}

#[test]
fn padding_is_ignored_when_reading() {
    let sb = sample();
    let mut bytes = sb.encode();
    bytes[60] = 0xaa;
    bytes[63] = 0xbb;
    bytes[244] = 0xcc;
    bytes[247] = 0xdd;
    assert_eq!(Superblock::decode(&bytes), Ok(sb));
}

#[test]
fn wrong_magic_is_reported() {
    let mut bytes = sample().encode();
    bytes[0] ^= 1;
    assert_eq!(Superblock::decode(&bytes), Err(FsError::BadMagic));
    assert_eq!(Superblock::decode(&vec![0u8; 4096]), Err(FsError::BadMagic));
    assert_eq!(Superblock::decode(&[]), Err(FsError::BadMagic));
    assert_eq!(Superblock::decode(&[0x10, 0x34, 0xF0]), Err(FsError::BadMagic));
}

#[test]
fn short_record_is_reported_as_corrupt() {
    let bytes = sample().encode();
    assert_eq!(Superblock::decode(&bytes[..247]), Err(FsError::CorruptSuperblock));
    assert_eq!(Superblock::decode(&bytes[..4]), Err(FsError::CorruptSuperblock));
}

#[test]
fn contradicting_fields_are_reported_as_corrupt() {
    let good = sample();
    let mut cases: Vec<Superblock> = Vec::new();
    let mut sb = good;
    sb.version = 2;
    cases.push(sb);
    sb = good;
    sb.fs_size += 1;
    cases.push(sb);
    sb = good;
    sb.free_blocks = 4990;
    cases.push(sb);
    sb = good;
    sb.free_inodes = 321;
    cases.push(sb);
    sb = good;
    sb.inode_count = 319;
    cases.push(sb);
    sb = good;
    sb.first_data_block = 12;
    cases.push(sb);
    sb = good;
    sb.bitmap_block = 2;
    cases.push(sb);
    sb = good;
    sb.inode_bitmap_block = 1;
    cases.push(sb);
    sb = good;
    sb.first_inode_block = 4;
    cases.push(sb);
    sb = good;
    sb.inode_blocks = 7;
    cases.push(sb);
    sb = good;
    sb.root_inode = 2;
    cases.push(sb);
    sb = good;
    sb.block_size = 4079;
    sb.fs_size = 4079 * 5000;
    cases.push(sb);
    sb = good;
    sb.total_blocks = 11;
    sb.fs_size = 4096 * 11;
    sb.free_blocks = 0;
    cases.push(sb);
    for bad in cases {
        assert!(!bad.is_well_formed());
        assert_eq!(Superblock::decode(&bad.encode()), Err(FsError::CorruptSuperblock));
    }
    assert!(good.is_well_formed());
    let mut full = good;
    full.free_blocks = 4989;
    full.free_inodes = 320;
    assert!(full.is_well_formed());
}

#[test]
fn mount_is_counted_and_stamped() {
    let mut sb = sample();
    let before = sb;
    sb.record_mount(1_800_000_000);
    assert_eq!(sb.mount_count, 4);
    assert_eq!(sb.last_mount_time, 1_800_000_000);
    let mut expected = before;
    expected.mount_count = 4;
    expected.last_mount_time = 1_800_000_000;
    assert_eq!(sb, expected);
    sb.mount_count = u32::MAX;
    sb.record_mount(7);
    assert_eq!(sb.mount_count, u32::MAX);
    assert_eq!(sb.last_mount_time, 7);
}

#[test]
fn mounting_reads_the_record_and_notes_the_mount() {
    let sb = sample();
    let block = sb.to_block().unwrap();
    let mut expected = sb;
    expected.mount_count = 4;
    expected.last_mount_time = 1_900_000_000;
    assert_eq!(Superblock::mount_at(&block, 1_900_000_000), Ok(expected));
    let before = current_time();
    let mounted = Superblock::mount(&block).unwrap();
    assert!(before <= mounted.last_mount_time && mounted.last_mount_time <= current_time());
    expected.last_mount_time = mounted.last_mount_time;
    assert_eq!(mounted, expected);
}

#[test]
fn mounting_refuses_what_decoding_refuses() {
    let mut bytes = sample().encode();
    assert_eq!(Superblock::mount_at(&bytes[..247], 0), Err(FsError::CorruptSuperblock));
    bytes[4] = 9;
    assert_eq!(Superblock::mount_at(&bytes, 0), Err(FsError::CorruptSuperblock));
    assert_eq!(Superblock::mount(&bytes), Err(FsError::CorruptSuperblock));
    bytes[0] ^= 1;
    assert_eq!(Superblock::mount_at(&bytes, 0), Err(FsError::BadMagic));
    assert_eq!(Superblock::mount(&[]), Err(FsError::BadMagic));
}

#[test]
fn write_is_stamped() {
    let mut sb = sample();
    let mut expected = sb;
    sb.record_write(42);
    expected.last_write_time = 42;
    assert_eq!(sb, expected);
}

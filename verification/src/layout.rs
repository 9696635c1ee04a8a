//! The fixed geometry of a volume: which blocks hold what, and the sizes of
//! the on-disk records.
//!
//! | Block            | Content                         |
//! |------------------|---------------------------------|
//! | 0                | superblock record               |
//! | 1                | block bitmap, one bit per block |
//! | 2                | inode bitmap, one bit per inode |
//! | 3..=10           | inode table                     |
//! | 11..total_blocks | data blocks                     |

use vstd::prelude::*;

verus! {

/// File type of a regular file.
pub const FILETYPE_FILE: u32 = 1;

/// File type of a directory.
pub const FILETYPE_DIR: u32 = 2;

/// The first four bytes of every volume, as a little-endian number.
pub const FS_MAGIC: u32 = 0xF0F03410;

/// The format version written by this crate.
pub const FS_VERSION: u32 = 1;

/// Number of blocks in the inode table.
pub const INODE_BLOCKS: u32 = 8;

/// The first block that the allocator may hand out.
pub const FIRST_DATA_BLOCK: u32 = 11;

/// Number of blocks reserved for metadata: blocks 0 to 10 inclusive.
pub const RESERVED_BLOCKS: u32 = 11;

/// Block of the superblock record.
pub const SUPERBLOCK_BLOCK: u32 = 0;

/// Block of the block bitmap.
pub const BLOCK_BITMAP_BLOCK: u32 = 1;

/// Block of the inode bitmap.
pub const INODE_BITMAP_BLOCK: u32 = 2;

/// First block of the inode table.
pub const FIRST_INODE_BLOCK: u32 = 3;

/// Number of inodes on a volume.
pub const INODE_COUNT: u32 = 320;

/// Inode number of the root directory.
pub const ROOT_INODE: u32 = 1;

/// Permission bits of the root directory.
pub const ROOT_PERMISSIONS: u32 = 0o755;

/// Size in bytes of a serialized inode.
pub const INODE_RECORD_SIZE: usize = 102;

/// Size in bytes of a serialized superblock.
pub const SUPERBLOCK_RECORD_SIZE: usize = 248;

} // verus!

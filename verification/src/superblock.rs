//! The superblock: the volume's geometry and free-space counters, and the
//! record that holds them in block 0.
//!
//! The record is 248 bytes long. Integers are little-endian, signed ones in
//! two's complement:
//!
//! | Offset | Width | Field                      |
//! |--------|-------|----------------------------|
//! | 0      | 4     | `magic_number`             |
//! | 4      | 4     | `version`                  |
//! | 8      | 4     | `block_size`               |
//! | 12     | 4     | `total_blocks`             |
//! | 16     | 8     | `fs_size`                  |
//! | 24     | 4     | `inode_count`              |
//! | 28     | 4     | `free_inodes`              |
//! | 32     | 4     | `first_inode_block`        |
//! | 36     | 4     | `inode_blocks`             |
//! | 40     | 4     | `inode_bitmap_block`       |
//! | 44     | 4     | `free_blocks`              |
//! | 48     | 4     | `first_data_block`         |
//! | 52     | 4     | `bitmap_block`             |
//! | 56     | 4     | `root_inode`               |
//! | 60     | 4     | padding, written as zero   |
//! | 64     | 8     | `created_time`             |
//! | 72     | 8     | `last_mount_time`          |
//! | 80     | 8     | `last_write_time`          |
//! | 88     | 4     | `mount_count`              |
//! | 92     | 4     | `state`                    |
//! | 96     | 5 x 4 | `backup_superblock`        |
//! | 116    | 128   | `reserved`                 |
//! | 244    | 4     | padding, written as zero   |
//!
//! Padding is ignored when a record is read.

use vstd::prelude::*;
use crate::clock::current_time;
use crate::codec::{
    byte_to_i8, from_twos_i8, get_i32, get_i64, get_u32, get_u64, holds_at, i32_at, i64_at,
    i8_to_byte, le_bytes_i32, le_bytes_i64, le_bytes_u32, le_bytes_u64, lemma_section_i32,
    lemma_section_i64, lemma_section_u32, lemma_section_u64, lemma_twos_i8, put_i32, put_i64,
    put_u32, put_u64, put_zeros, twos_i8, u32_at, u64_at, zeros,
};
use crate::disk::image_size;
use crate::error::FsError;
use crate::layout::{
    BLOCK_BITMAP_BLOCK, FIRST_DATA_BLOCK, FIRST_INODE_BLOCK, FS_MAGIC, FS_VERSION,
    INODE_BITMAP_BLOCK, INODE_BLOCKS, INODE_COUNT, INODE_RECORD_SIZE, RESERVED_BLOCKS, ROOT_INODE,
    SUPERBLOCK_RECORD_SIZE,
};

verus! {

/// The root metadata record of a volume.
#[derive(Debug, Clone, Copy, PartialEq, Eq)]
pub struct Superblock {
    pub magic_number: u32,
    pub version: u32,
    pub block_size: u32,
    pub total_blocks: u32,
    pub fs_size: u64,
    pub inode_count: u32,
    pub free_inodes: u32,
    pub first_inode_block: u32,
    pub inode_blocks: u32,
    pub inode_bitmap_block: u32,
    pub free_blocks: u32,
    pub first_data_block: u32,
    pub bitmap_block: u32,
    pub root_inode: u32,
    pub created_time: i64,
    pub last_mount_time: i64,
    pub last_write_time: i64,
    pub mount_count: u32,
    pub state: u32,
    pub backup_superblock: [i32; 5],
    pub reserved: [i8; 128],
}

/// A volume of `total_blocks` blocks of `block_size` bytes has room for its
/// metadata: at least one block lies beyond the reserved ones, and the inode
/// table's blocks hold a record for every inode.
pub open spec fn geometry_fits(block_size: u32, total_blocks: u32) -> bool {
    &&& total_blocks > RESERVED_BLOCKS
    &&& INODE_COUNT * INODE_RECORD_SIZE <= INODE_BLOCKS * block_size
}

/// The bytes begin with the filesystem's magic number.
pub open spec fn begins_with_magic(bytes: Seq<u8>) -> bool {
    bytes.len() >= 4 && u32_at(bytes, 0) == FS_MAGIC
}

/// Whether the inode table's blocks hold a record for every inode when a
/// block has `block_size` bytes.
pub fn inode_table_fits(block_size: u32) -> (fits: bool)
    ensures
        fits == (INODE_COUNT * INODE_RECORD_SIZE <= INODE_BLOCKS * block_size),
{
    assert(INODE_COUNT == 320 && INODE_RECORD_SIZE == 102 && INODE_BLOCKS == 8);
    let needed: u64 = INODE_COUNT as u64 * INODE_RECORD_SIZE as u64;
    let table_bytes: u64 = INODE_BLOCKS as u64 * block_size as u64;
    needed <= table_bytes
}

impl Superblock {
    /// The fields that the layout fixes for a volume of `total_blocks` blocks
    /// of `block_size` bytes.
    pub open spec fn has_geometry(&self, block_size: u32, total_blocks: u32) -> bool {
        &&& self.magic_number == FS_MAGIC
        &&& self.version == FS_VERSION
        &&& self.block_size == block_size
        &&& self.total_blocks == total_blocks
        &&& self.fs_size == block_size * total_blocks
        &&& self.inode_count == INODE_COUNT
        &&& self.first_inode_block == FIRST_INODE_BLOCK
        &&& self.inode_blocks == INODE_BLOCKS
        &&& self.inode_bitmap_block == INODE_BITMAP_BLOCK
        &&& self.first_data_block == FIRST_DATA_BLOCK
        &&& self.bitmap_block == BLOCK_BITMAP_BLOCK
        &&& self.root_inode == ROOT_INODE
    }

    /// The superblock of a volume that was laid out at time `now` and on which
    /// `free_inodes` inodes are free: every data block is free, the three
    /// timestamps are `now`, and the volume was never mounted.
    pub open spec fn is_fresh(
        &self,
        block_size: u32,
        total_blocks: u32,
        now: i64,
        free_inodes: u32,
    ) -> bool {
        &&& self.has_geometry(block_size, total_blocks)
        &&& self.free_inodes == free_inodes
        &&& self.free_blocks == total_blocks - RESERVED_BLOCKS
        &&& self.created_time == now
        &&& self.last_mount_time == now
        &&& self.last_write_time == now
        &&& self.mount_count == 0
        &&& self.state == 0
        &&& forall|i: int| 0 <= i < 5 ==> self.backup_superblock[i] == 0
        &&& forall|i: int| 0 <= i < 128 ==> self.reserved[i] == 0
    }

    /// What `new` builds at time `now`.
    pub open spec fn is_initial(&self, block_size: u32, total_blocks: u32, now: i64) -> bool {
        self.is_fresh(block_size, total_blocks, now, INODE_COUNT)
    }

    /// The record's fields agree with one another: the geometry is the one
    /// that the layout fixes for the record's block size and block count, it
    /// fits, and neither free counter exceeds what it counts.
    pub open spec fn wf(&self) -> bool {
        &&& self.has_geometry(self.block_size, self.total_blocks)
        &&& geometry_fits(self.block_size, self.total_blocks)
        &&& self.free_inodes <= self.inode_count
        &&& self.free_blocks <= self.total_blocks - self.first_data_block
    }

    /// Bytes 0 to 23 of the record: what kind of volume this is and how large.
    pub open spec fn geometry_bytes(&self) -> Seq<u8> {
        le_bytes_u32(self.magic_number) + le_bytes_u32(self.version) + le_bytes_u32(
            self.block_size,
        ) + le_bytes_u32(self.total_blocks) + le_bytes_u64(self.fs_size)
    }

    /// Bytes 24 to 43 of the record: the inodes and where they are kept.
    pub open spec fn inode_area_bytes(&self) -> Seq<u8> {
        le_bytes_u32(self.inode_count) + le_bytes_u32(self.free_inodes) + le_bytes_u32(
            self.first_inode_block,
        ) + le_bytes_u32(self.inode_blocks) + le_bytes_u32(self.inode_bitmap_block)
    }

    /// Bytes 44 to 63 of the record: the data blocks, the root, and padding.
    pub open spec fn block_area_bytes(&self) -> Seq<u8> {
        le_bytes_u32(self.free_blocks) + le_bytes_u32(self.first_data_block) + le_bytes_u32(
            self.bitmap_block,
        ) + le_bytes_u32(self.root_inode) + zeros(4)
    }

    /// Bytes 64 to 95 of the record: timestamps, mount count and state.
    pub open spec fn time_bytes(&self) -> Seq<u8> {
        le_bytes_i64(self.created_time) + le_bytes_i64(self.last_mount_time) + le_bytes_i64(
            self.last_write_time,
        ) + le_bytes_u32(self.mount_count) + le_bytes_u32(self.state)
    }

    /// Bytes 96 to 115 of the record: the backup pointers.
    pub open spec fn backup_bytes(&self) -> Seq<u8> {
        le_bytes_i32(self.backup_superblock[0]) + le_bytes_i32(self.backup_superblock[1])
            + le_bytes_i32(self.backup_superblock[2]) + le_bytes_i32(self.backup_superblock[3])
            + le_bytes_i32(self.backup_superblock[4])
    }

    /// Bytes 116 to 247 of the record: the reserved bytes and padding.
    pub open spec fn reserved_bytes(&self) -> Seq<u8> {
        Seq::new(128, |i: int| twos_i8(self.reserved[i])) + zeros(4)
    }

    /// The record as it is written to disk.
    pub open spec fn encoding(&self) -> Seq<u8> {
        self.geometry_bytes() + self.inode_area_bytes() + self.block_area_bytes()
            + self.time_bytes() + self.backup_bytes() + self.reserved_bytes()
    }

    /// The bytes `bytes` begin with a record that holds the fields of `self`.
    pub open spec fn stored_in(&self, bytes: Seq<u8>) -> bool {
        &&& bytes.len() >= SUPERBLOCK_RECORD_SIZE
        &&& self.magic_number == u32_at(bytes, 0)
        &&& self.version == u32_at(bytes, 4)
        &&& self.block_size == u32_at(bytes, 8)
        &&& self.total_blocks == u32_at(bytes, 12)
        &&& self.fs_size == u64_at(bytes, 16)
        &&& self.inode_count == u32_at(bytes, 24)
        &&& self.free_inodes == u32_at(bytes, 28)
        &&& self.first_inode_block == u32_at(bytes, 32)
        &&& self.inode_blocks == u32_at(bytes, 36)
        &&& self.inode_bitmap_block == u32_at(bytes, 40)
        &&& self.free_blocks == u32_at(bytes, 44)
        &&& self.first_data_block == u32_at(bytes, 48)
        &&& self.bitmap_block == u32_at(bytes, 52)
        &&& self.root_inode == u32_at(bytes, 56)
        &&& self.created_time == i64_at(bytes, 64)
        &&& self.last_mount_time == i64_at(bytes, 72)
        &&& self.last_write_time == i64_at(bytes, 80)
        &&& self.mount_count == u32_at(bytes, 88)
        &&& self.state == u32_at(bytes, 92)
        &&& forall|i: int| 0 <= i < 5 ==> self.backup_superblock[i] == i32_at(bytes, 96 + 4 * i)
        &&& forall|i: int| 0 <= i < 128 ==> self.reserved[i] == from_twos_i8(bytes[116 + i])
    }

    /// Builds the superblock of a new volume at time `now`. Fails with
    /// `InvalidArgument` when the geometry does not fit.
    pub fn new_at(block_size: u32, total_blocks: u32, now: i64) -> (r: Result<Superblock, FsError>)
        ensures
            r is Ok <==> geometry_fits(block_size, total_blocks),
            r matches Err(e) ==> e == FsError::InvalidArgument,
            r matches Ok(sb) ==> sb.is_initial(block_size, total_blocks, now) && sb.wf(),
    {
        if total_blocks <= RESERVED_BLOCKS {
            return Err(FsError::InvalidArgument);
        }
        if !inode_table_fits(block_size) {
            return Err(FsError::InvalidArgument);
        }
        Ok(
            Superblock {
                magic_number: FS_MAGIC,
                version: FS_VERSION,
                block_size,
                total_blocks,
                fs_size: image_size(block_size, total_blocks),
                inode_count: INODE_COUNT,
                free_inodes: INODE_COUNT,
                first_inode_block: FIRST_INODE_BLOCK,
                inode_blocks: INODE_BLOCKS,
                inode_bitmap_block: INODE_BITMAP_BLOCK,
                free_blocks: total_blocks - RESERVED_BLOCKS,
                first_data_block: FIRST_DATA_BLOCK,
                bitmap_block: BLOCK_BITMAP_BLOCK,
                root_inode: ROOT_INODE,
                created_time: now,
                last_mount_time: now,
                last_write_time: now,
                mount_count: 0,
                state: 0,
                backup_superblock: [0;5],
                reserved: [0;128],
            },
        )
    }

    /// Builds the superblock of a new volume, stamped with the current time.
    /// Fails with `InvalidArgument` when the geometry does not fit.
    pub fn new(block_size: u32, total_blocks: u32) -> (r: Result<Superblock, FsError>)
        ensures
            r is Ok <==> geometry_fits(block_size, total_blocks),
            r matches Err(e) ==> e == FsError::InvalidArgument,
            r matches Ok(sb) ==> sb.is_initial(block_size, total_blocks, sb.created_time)
                && sb.created_time >= 0 && sb.wf(),
    {
        let now = current_time();
        Superblock::new_at(block_size, total_blocks, now)
    }

    /// Whether the record's fields agree with one another.
    pub fn is_well_formed(&self) -> (ok: bool)
        ensures
            ok == self.wf(),
    {
        self.magic_number == FS_MAGIC && self.version == FS_VERSION && self.fs_size == image_size(
            self.block_size,
            self.total_blocks,
        ) && self.inode_count == INODE_COUNT
            && self.first_inode_block == FIRST_INODE_BLOCK && self.inode_blocks == INODE_BLOCKS
            && self.inode_bitmap_block == INODE_BITMAP_BLOCK && self.first_data_block
            == FIRST_DATA_BLOCK && self.bitmap_block == BLOCK_BITMAP_BLOCK && self.root_inode
            == ROOT_INODE && self.total_blocks > RESERVED_BLOCKS && inode_table_fits(
            self.block_size,
        ) && self.free_inodes <= self.inode_count && self.free_blocks <= self.total_blocks
            - self.first_data_block
    }

    fn put_geometry(&self, out: &mut Vec<u8>)
        ensures
            final(out)@ == old(out)@ + self.geometry_bytes(),
    {
        put_u32(out, self.magic_number);
        put_u32(out, self.version);
        put_u32(out, self.block_size);
        put_u32(out, self.total_blocks);
        put_u64(out, self.fs_size);
        assert(out@ =~= old(out)@ + self.geometry_bytes());
    }

    fn put_inode_area(&self, out: &mut Vec<u8>)
        ensures
            final(out)@ == old(out)@ + self.inode_area_bytes(),
    {
        put_u32(out, self.inode_count);
        put_u32(out, self.free_inodes);
        put_u32(out, self.first_inode_block);
        put_u32(out, self.inode_blocks);
        put_u32(out, self.inode_bitmap_block);
        assert(out@ =~= old(out)@ + self.inode_area_bytes());
    }

    fn put_block_area(&self, out: &mut Vec<u8>)
        ensures
            final(out)@ == old(out)@ + self.block_area_bytes(),
    {
        put_u32(out, self.free_blocks);
        put_u32(out, self.first_data_block);
        put_u32(out, self.bitmap_block);
        put_u32(out, self.root_inode);
        put_zeros(out, 4);
        assert(out@ =~= old(out)@ + self.block_area_bytes());
    }

    fn put_times(&self, out: &mut Vec<u8>)
        ensures
            final(out)@ == old(out)@ + self.time_bytes(),
    {
        put_i64(out, self.created_time);
        put_i64(out, self.last_mount_time);
        put_i64(out, self.last_write_time);
        put_u32(out, self.mount_count);
        put_u32(out, self.state);
        assert(out@ =~= old(out)@ + self.time_bytes());
    }

    fn put_backup(&self, out: &mut Vec<u8>)
        ensures
            final(out)@ == old(out)@ + self.backup_bytes(),
    {
        put_i32(out, self.backup_superblock[0]);
        put_i32(out, self.backup_superblock[1]);
        put_i32(out, self.backup_superblock[2]);
        put_i32(out, self.backup_superblock[3]);
        put_i32(out, self.backup_superblock[4]);
        assert(out@ =~= old(out)@ + self.backup_bytes());
    }

    fn put_reserved(&self, out: &mut Vec<u8>)
        ensures
            final(out)@ == old(out)@ + self.reserved_bytes(),
    {
        let mut i: usize = 0;
        while i < 128
            invariant
                i <= 128,
                out@ == old(out)@ + Seq::new(i as nat, |k: int| twos_i8(self.reserved[k])),
            decreases 128 - i,
        {
            out.push(i8_to_byte(self.reserved[i]));
            i = i + 1;
            assert(out@ =~= old(out)@ + Seq::new(i as nat, |k: int| twos_i8(self.reserved[k])));
        }
        put_zeros(out, 4);
        assert(out@ =~= old(out)@ + self.reserved_bytes());
    }

    /// Writes the record: 248 bytes that hold every field at its offset, with
    /// zero padding.
    pub fn encode(&self) -> (out: Vec<u8>)
        ensures
            out@ == self.encoding(),
            out@.len() == SUPERBLOCK_RECORD_SIZE,
            self.stored_in(out@),
    {
        let mut out: Vec<u8> = Vec::new();
        self.put_geometry(&mut out);
        self.put_inode_area(&mut out);
        self.put_block_area(&mut out);
        self.put_times(&mut out);
        self.put_backup(&mut out);
        self.put_reserved(&mut out);
        proof {
            assert(out@ =~= self.encoding());
            self.lemma_encoding_stored();
        }
        out
    }

    proof fn lemma_sections(&self)
        ensures
            self.encoding().len() == SUPERBLOCK_RECORD_SIZE,
            holds_at(self.encoding(), 0, self.geometry_bytes()),
            holds_at(self.encoding(), 24, self.inode_area_bytes()),
            holds_at(self.encoding(), 44, self.block_area_bytes()),
            holds_at(self.encoding(), 64, self.time_bytes()),
            holds_at(self.encoding(), 96, self.backup_bytes()),
            holds_at(self.encoding(), 116, self.reserved_bytes()),
    {
        assert(self.geometry_bytes().len() == 24);
        assert(self.inode_area_bytes().len() == 20);
        assert(self.block_area_bytes().len() == 20);
        assert(self.time_bytes().len() == 32);
        assert(self.backup_bytes().len() == 20);
        assert(self.reserved_bytes().len() == 132);
    }

    proof fn lemma_geometry_stored(&self, bytes: Seq<u8>)
        requires
            holds_at(bytes, 0, self.geometry_bytes()),
        ensures
            self.magic_number == u32_at(bytes, 0),
            self.version == u32_at(bytes, 4),
            self.block_size == u32_at(bytes, 8),
            self.total_blocks == u32_at(bytes, 12),
            self.fs_size == u64_at(bytes, 16),
    {
        let g = self.geometry_bytes();
        lemma_section_u32(bytes, 0, g, 0, self.magic_number);
        lemma_section_u32(bytes, 0, g, 4, self.version);
        lemma_section_u32(bytes, 0, g, 8, self.block_size);
        lemma_section_u32(bytes, 0, g, 12, self.total_blocks);
        lemma_section_u64(bytes, 0, g, 16, self.fs_size);
    }

    proof fn lemma_inode_area_stored(&self, bytes: Seq<u8>)
        requires
            holds_at(bytes, 24, self.inode_area_bytes()),
        ensures
            self.inode_count == u32_at(bytes, 24),
            self.free_inodes == u32_at(bytes, 28),
            self.first_inode_block == u32_at(bytes, 32),
            self.inode_blocks == u32_at(bytes, 36),
            self.inode_bitmap_block == u32_at(bytes, 40),
    {
        let n = self.inode_area_bytes();
        lemma_section_u32(bytes, 24, n, 0, self.inode_count);
        lemma_section_u32(bytes, 24, n, 4, self.free_inodes);
        lemma_section_u32(bytes, 24, n, 8, self.first_inode_block);
        lemma_section_u32(bytes, 24, n, 12, self.inode_blocks);
        lemma_section_u32(bytes, 24, n, 16, self.inode_bitmap_block);
    }

    proof fn lemma_block_area_stored(&self, bytes: Seq<u8>)
        requires
            holds_at(bytes, 44, self.block_area_bytes()),
        ensures
            self.free_blocks == u32_at(bytes, 44),
            self.first_data_block == u32_at(bytes, 48),
            self.bitmap_block == u32_at(bytes, 52),
            self.root_inode == u32_at(bytes, 56),
    {
        let b = self.block_area_bytes();
        lemma_section_u32(bytes, 44, b, 0, self.free_blocks);
        lemma_section_u32(bytes, 44, b, 4, self.first_data_block);
        lemma_section_u32(bytes, 44, b, 8, self.bitmap_block);
        lemma_section_u32(bytes, 44, b, 12, self.root_inode);
    }

    proof fn lemma_times_stored(&self, bytes: Seq<u8>)
        requires
            holds_at(bytes, 64, self.time_bytes()),
        ensures
            self.created_time == i64_at(bytes, 64),
            self.last_mount_time == i64_at(bytes, 72),
            self.last_write_time == i64_at(bytes, 80),
            self.mount_count == u32_at(bytes, 88),
            self.state == u32_at(bytes, 92),
    {
        let t = self.time_bytes();
        lemma_section_i64(bytes, 64, t, 0, self.created_time);
        lemma_section_i64(bytes, 64, t, 8, self.last_mount_time);
        lemma_section_i64(bytes, 64, t, 16, self.last_write_time);
        lemma_section_u32(bytes, 64, t, 24, self.mount_count);
        lemma_section_u32(bytes, 64, t, 28, self.state);
    }

    proof fn lemma_backup_stored(&self, bytes: Seq<u8>)
        requires
            holds_at(bytes, 96, self.backup_bytes()),
        ensures
            forall|i: int| 0 <= i < 5 ==> self.backup_superblock[i] == i32_at(bytes, 96 + 4 * i),
    {
        let k = self.backup_bytes();
        lemma_section_i32(bytes, 96, k, 0, self.backup_superblock[0]);
        lemma_section_i32(bytes, 96, k, 4, self.backup_superblock[1]);
        lemma_section_i32(bytes, 96, k, 8, self.backup_superblock[2]);
        lemma_section_i32(bytes, 96, k, 12, self.backup_superblock[3]);
        lemma_section_i32(bytes, 96, k, 16, self.backup_superblock[4]);
        assert forall|i: int| 0 <= i < 5 implies self.backup_superblock[i] == i32_at(
            bytes,
            96 + 4 * i,
        ) by {
            assert(i == 0 || i == 1 || i == 2 || i == 3 || i == 4);
        }
    }

    proof fn lemma_reserved_stored(&self, bytes: Seq<u8>)
        requires
            holds_at(bytes, 116, self.reserved_bytes()),
        ensures
            forall|i: int| 0 <= i < 128 ==> self.reserved[i] == from_twos_i8(bytes[116 + i]),
    {
        let r = self.reserved_bytes();
        assert forall|i: int| 0 <= i < 128 implies self.reserved[i] == from_twos_i8(
            bytes[116 + i],
        ) by {
            assert(r[i] == twos_i8(self.reserved[i]));
            assert(bytes[116 + i] == r[i]);
            lemma_twos_i8(self.reserved[i], 0);
        }
    }

    /// The record written for a superblock holds that superblock's fields.
    pub proof fn lemma_encoding_stored(&self)
        ensures
            self.encoding().len() == SUPERBLOCK_RECORD_SIZE,
            self.stored_in(self.encoding()),
    {
        let e = self.encoding();
        self.lemma_sections();
        self.lemma_geometry_stored(e);
        self.lemma_inode_area_stored(e);
        self.lemma_block_area_stored(e);
        self.lemma_times_stored(e);
        self.lemma_backup_stored(e);
        self.lemma_reserved_stored(e);
    }

    /// Two superblocks that the same bytes hold are the same superblock.
    pub proof fn lemma_stored_unique(&self, other: Superblock, bytes: Seq<u8>)
        requires
            self.stored_in(bytes),
            other.stored_in(bytes),
        ensures
            *self == other,
    {
        assert(self.backup_superblock =~= other.backup_superblock);
        assert(self.reserved =~= other.reserved);
    }

    /// Reading back the record written for a superblock gives that
    /// superblock: whatever the written record holds is `self`.
    pub proof fn lemma_round_trip(&self, back: Superblock)
        requires
            back.stored_in(self.encoding()),
        ensures
            back == *self,
            back.encoding() == self.encoding(),
    {
        self.lemma_encoding_stored();
        self.lemma_stored_unique(back, self.encoding());
    }

    /// Reads a record. Fails with `BadMagic` when the bytes do not begin with
    /// the magic number, and with `CorruptSuperblock` when they are fewer than
    /// a record or hold fields that contradict one another.
    pub fn decode(bytes: &[u8]) -> (r: Result<Superblock, FsError>)
        ensures
            r matches Ok(sb) ==> sb.stored_in(bytes@) && sb.wf(),
            r is Ok <==> exists|sb: Superblock| #[trigger] sb.stored_in(bytes@) && sb.wf(),
            r matches Err(e) ==> (e == FsError::BadMagic || e == FsError::CorruptSuperblock) && (e
                == FsError::BadMagic <==> !begins_with_magic(bytes@)),
    {
        if bytes.len() < 4 || get_u32(bytes, 0) != FS_MAGIC {
            return Err(FsError::BadMagic);
        }
        if bytes.len() < SUPERBLOCK_RECORD_SIZE {
            return Err(FsError::CorruptSuperblock);
        }
        let mut backup_superblock: [i32; 5] = [0;5];
        let mut i: usize = 0;
        while i < 5
            invariant
                i <= 5,
                bytes@.len() >= 248,
                forall|k: int| 0 <= k < i ==> backup_superblock[k] == i32_at(bytes@, 96 + 4 * k),
            decreases 5 - i,
        {
            backup_superblock[i] = get_i32(bytes, 96 + 4 * i);
            i = i + 1;
        }
        let mut reserved: [i8; 128] = [0;128];
        let mut j: usize = 0;
        while j < 128
            invariant
                j <= 128,
                bytes@.len() >= 248,
                forall|k: int| 0 <= k < j ==> reserved[k] == from_twos_i8(bytes@[116 + k]),
            decreases 128 - j,
        {
            reserved[j] = byte_to_i8(bytes[116 + j]);
            j = j + 1;
        }
        let sb = Superblock {
            magic_number: get_u32(bytes, 0),
            version: get_u32(bytes, 4),
            block_size: get_u32(bytes, 8),
            total_blocks: get_u32(bytes, 12),
            fs_size: get_u64(bytes, 16),
            inode_count: get_u32(bytes, 24),
            free_inodes: get_u32(bytes, 28),
            first_inode_block: get_u32(bytes, 32),
            inode_blocks: get_u32(bytes, 36),
            inode_bitmap_block: get_u32(bytes, 40),
            free_blocks: get_u32(bytes, 44),
            first_data_block: get_u32(bytes, 48),
            bitmap_block: get_u32(bytes, 52),
            root_inode: get_u32(bytes, 56),
            created_time: get_i64(bytes, 64),
            last_mount_time: get_i64(bytes, 72),
            last_write_time: get_i64(bytes, 80),
            mount_count: get_u32(bytes, 88),
            state: get_u32(bytes, 92),
            backup_superblock,
            reserved,
        };
        assert(sb.stored_in(bytes@));
        if sb.is_well_formed() {
            Ok(sb)
        } else {
            proof {
                assert forall|other: Superblock| #[trigger]
                    other.stored_in(bytes@) implies !other.wf() by {
                    sb.lemma_stored_unique(other, bytes@);
                }
            }
            Err(FsError::CorruptSuperblock)
        }
    }

    /// The superblock after a mount at time `now`: the mount count is up by
    /// one, stopping at `u32::MAX`, and the time of the last mount is `now`.
    pub open spec fn mounted(self, now: i64) -> Superblock {
        Superblock {
            mount_count: if self.mount_count < u32::MAX {
                (self.mount_count + 1) as u32
            } else {
                u32::MAX
            },
            last_mount_time: now,
            ..self
        }
    }

    /// Notes a mount at time `now`: the mount count goes up by one, stopping
    /// at `u32::MAX`, and the time of the last mount becomes `now`.
    pub fn record_mount(&mut self, now: i64)
        ensures
            *final(self) == old(self).mounted(now),
    {
        if self.mount_count < u32::MAX {
            self.mount_count = self.mount_count + 1;
        }
        self.last_mount_time = now;
    }

    /// Mounts the volume whose block 0 begins with `bytes` at time `now`:
    /// reads and checks the record as `decode` does and notes the mount.
    pub fn mount_at(bytes: &[u8], now: i64) -> (r: Result<Superblock, FsError>)
        ensures
            r is Ok <==> exists|sb: Superblock| #[trigger] sb.stored_in(bytes@) && sb.wf(),
            r matches Ok(m) ==> m.wf() && forall|sb: Superblock| #[trigger]
                sb.stored_in(bytes@) ==> m == sb.mounted(now),
            r matches Err(e) ==> (e == FsError::BadMagic || e == FsError::CorruptSuperblock) && (e
                == FsError::BadMagic <==> !begins_with_magic(bytes@)),
    {
        match Superblock::decode(bytes) {
            Ok(stored) => {
                let mut m = stored;
                m.record_mount(now);
                proof {
                    assert forall|sb: Superblock| #[trigger] sb.stored_in(bytes@) implies m
                        == sb.mounted(now) by {
                        stored.lemma_stored_unique(sb, bytes@);
                    }
                }
                Ok(m)
            },
            Err(e) => Err(e),
        }
    }

    /// Mounts the volume whose block 0 begins with `bytes`, as `mount_at`
    /// does at the current time.
    pub fn mount(bytes: &[u8]) -> (r: Result<Superblock, FsError>)
        ensures
            r is Ok <==> exists|sb: Superblock| #[trigger] sb.stored_in(bytes@) && sb.wf(),
            r matches Ok(m) ==> m.wf() && m.last_mount_time >= 0 && forall|sb: Superblock|
                #[trigger] sb.stored_in(bytes@) ==> m == sb.mounted(m.last_mount_time),
            r matches Err(e) ==> (e == FsError::BadMagic || e == FsError::CorruptSuperblock) && (e
                == FsError::BadMagic <==> !begins_with_magic(bytes@)),
    {
        let now = current_time();
        Superblock::mount_at(bytes, now)
    }

    /// Notes a write at time `now`: the time of the last write becomes `now`.
    pub fn record_write(&mut self, now: i64)
        ensures
            *final(self) == (Superblock { last_write_time: now, ..*old(self) }),
    {
        self.last_write_time = now;
    }

    /// The content of block 0: the record, followed by zeros up to the block
    /// size. Fails with `InvalidArgument` when a block is shorter than the
    /// record.
    pub fn to_block(&self) -> (r: Result<Vec<u8>, FsError>)
        ensures
            r is Ok <==> self.block_size >= SUPERBLOCK_RECORD_SIZE,
            r matches Err(e) ==> e == FsError::InvalidArgument,
            r matches Ok(block) ==> block@ == self.encoding() + zeros(
                (self.block_size - SUPERBLOCK_RECORD_SIZE) as nat,
            ) && block@.len() == self.block_size && self.stored_in(block@),
    {
        if (self.block_size as usize) < SUPERBLOCK_RECORD_SIZE {
            return Err(FsError::InvalidArgument);
        }
        let mut block = self.encode();
        put_zeros(&mut block, self.block_size as usize - SUPERBLOCK_RECORD_SIZE);
        proof {
            let e = self.encoding();
            assert(block@.len() == self.block_size);
            assert forall|i: int| 0 <= i < 248 implies block@[i] == e[i] by {}
            self.lemma_stored_in_prefix(e, block@);
        }
        Ok(block)
    }

    /// Whether `self` is stored in some bytes depends on the first 248 of
    /// them only.
    pub proof fn lemma_stored_in_prefix(&self, a: Seq<u8>, b: Seq<u8>)
        requires
            self.stored_in(a),
            b.len() >= SUPERBLOCK_RECORD_SIZE,
            forall|i: int| 0 <= i < SUPERBLOCK_RECORD_SIZE ==> a[i] == b[i],
        ensures
            self.stored_in(b),
    {
        assert forall|i: int| 0 <= i < 5 implies self.backup_superblock[i] == i32_at(
            b,
            96 + 4 * i,
        ) by {
            assert(i32_at(a, 96 + 4 * i) == i32_at(b, 96 + 4 * i));
        }
        assert forall|i: int| 0 <= i < 128 implies self.reserved[i] == from_twos_i8(
            b[116 + i],
        ) by {
            assert(a[116 + i] == b[116 + i]);
        }
    }
}

} // verus!

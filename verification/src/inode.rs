//! The inode: the metadata record of one file or directory.
//!
//! The record is 102 bytes long, so that the 320 records of a volume fit the
//! eight blocks of the inode table when a block has 4096 bytes. Integers are
//! little-endian, signed ones in two's complement:
//!
//! | Offset | Width  | Field                                             |
//! |--------|--------|---------------------------------------------------|
//! | 0      | 4      | `inode_number`                                    |
//! | 4      | 1      | `file_type`                                       |
//! | 5      | 1      | flags: `is_deleted` + 2 * `tamper_flag`           |
//! | 6      | 2      | `link_count`                                      |
//! | 8      | 4      | `size`                                            |
//! | 12     | 12 x 4 | `direct_blocks`                                   |
//! | 60     | 4      | `indirect_block`                                  |
//! | 64     | 8      | `created_time`                                    |
//! | 72     | 8      | `modified_time`                                   |
//! | 80     | 8      | `accessed_time`                                   |
//! | 88     | 8      | `deleted_time`                                    |
//! | 96     | 4      | `owner_id`                                        |
//! | 100    | 2      | `permissions`                                     |
//!
//! The record is narrower than the inode in memory in five fields. An inode
//! can be written when it fits: a file type below 256, the two flags 0 or 1,
//! and link count and permissions below 65536. The upper six bits of the
//! flags byte are written as zero and ignored when a record is read.

use vstd::prelude::*;
use crate::clock::current_time;
use crate::codec::{
    get_i64, get_u16, get_u32, holds_at, i64_at, le_bytes_i64, le_bytes_u16, le_bytes_u32,
    lemma_holds_in_section, lemma_overwritten, lemma_section_i64, lemma_section_u16,
    lemma_section_u32, overwrite, overwritten, put_i64, put_u16, put_u32, u16_at, u32_at,
};
use crate::error::FsError;
use crate::layout::INODE_RECORD_SIZE;
use crate::superblock::Superblock;

verus! {

/// The metadata of one file or directory.
#[derive(Debug, Clone, Copy, PartialEq, Eq)]
pub struct Inode {
    pub inode_number: u32,
    pub file_type: u32,
    pub size: u32,
    pub direct_blocks: [u32; 12],
    pub indirect_block: u32,
    pub created_time: i64,
    pub modified_time: i64,
    pub accessed_time: i64,
    pub deleted_time: i64,
    pub is_deleted: u32,
    pub tamper_flag: u32,
    pub owner_id: u32,
    pub permissions: u32,
    pub link_count: u32,
}

impl Inode {
    /// The inode of an empty file or directory made at time `now`: no size,
    /// no blocks, one link, not deleted, not tampered with, and the three
    /// timestamps of its life set to `now`.
    pub open spec fn is_new(
        &self,
        inode_number: u32,
        file_type: u32,
        permissions: u32,
        owner_id: u32,
        now: i64,
    ) -> bool {
        &&& self.inode_number == inode_number
        &&& self.file_type == file_type
        &&& self.size == 0
        &&& forall|i: int| 0 <= i < 12 ==> self.direct_blocks[i] == 0
        &&& self.indirect_block == 0
        &&& self.created_time == now
        &&& self.modified_time == now
        &&& self.accessed_time == now
        &&& self.deleted_time == 0
        &&& self.is_deleted == 0
        &&& self.tamper_flag == 0
        &&& self.owner_id == owner_id
        &&& self.permissions == permissions
        &&& self.link_count == 1
    }

    /// Builds the inode of an empty file or directory made at time `now`.
    pub fn new_at(inode_number: u32, file_type: u32, permissions: u32, owner_id: u32, now: i64) -> (inode:
        Inode)
        ensures
            inode.is_new(inode_number, file_type, permissions, owner_id, now),
            inode.storable() <==> file_type < 256 && permissions < 65536,
    {
        Inode {
            inode_number,
            file_type,
            size: 0,
            direct_blocks: [0;12],
            indirect_block: 0,
            created_time: now,
            modified_time: now,
            accessed_time: now,
            deleted_time: 0,
            is_deleted: 0,
            tamper_flag: 0,
            owner_id,
            permissions,
            link_count: 1,
        }
    }

    /// Builds the inode of an empty file or directory, stamped with the
    /// current time.
    pub fn new(inode_number: u32, file_type: u32, permissions: u32, owner_id: u32) -> (inode: Inode)
        ensures
            inode.is_new(inode_number, file_type, permissions, owner_id, inode.created_time),
            inode.created_time >= 0,
            inode.storable() <==> file_type < 256 && permissions < 65536,
    {
        let now = current_time();
        Inode::new_at(inode_number, file_type, permissions, owner_id, now)
    }

    /// Marks the inode as deleted at time `now`: the deletion flag is set and
    /// the time of deletion noted. The record stays in the table.
    pub fn mark_deleted(&mut self, now: i64)
        ensures
            *final(self) == (Inode { is_deleted: 1, deleted_time: now, ..*old(self) }),
    {
        self.is_deleted = 1;
        self.deleted_time = now;
    }

    /// The size in bytes of a serialized inode.
    pub fn size_on_disk() -> (size: usize)
        ensures
            size == INODE_RECORD_SIZE,
            size == 102,
    {
        INODE_RECORD_SIZE
    }

    /// The inode fits its record: the file type fits one byte, the two flags
    /// are 0 or 1, and link count and permissions fit two bytes each.
    pub open spec fn storable(&self) -> bool {
        &&& self.file_type < 256
        &&& self.is_deleted <= 1
        &&& self.tamper_flag <= 1
        &&& self.link_count < 65536
        &&& self.permissions < 65536
    }

    /// The flags byte of the record: the deletion flag in bit 0 and the
    /// tamper flag in bit 1.
    pub open spec fn flags(&self) -> u8 {
        (self.is_deleted + 2 * self.tamper_flag) as u8
    }

    /// Bytes 0 to 11 of the record: number, type, flags, links and size.
    pub open spec fn identity_bytes(&self) -> Seq<u8> {
        le_bytes_u32(self.inode_number) + seq![self.file_type as u8, self.flags()] + le_bytes_u16(
            self.link_count as u16,
        ) + le_bytes_u32(self.size)
    }

    /// Bytes 12 to 59 of the record: the direct block pointers, four bytes
    /// each.
    pub open spec fn direct_bytes(&self) -> Seq<u8> {
        Seq::new(48, |i: int| le_bytes_u32(self.direct_blocks[i / 4])[i % 4])
    }

    /// Bytes 60 to 95 of the record: the indirect pointer and the timestamps.
    pub open spec fn time_bytes(&self) -> Seq<u8> {
        le_bytes_u32(self.indirect_block) + le_bytes_i64(self.created_time) + le_bytes_i64(
            self.modified_time,
        ) + le_bytes_i64(self.accessed_time) + le_bytes_i64(self.deleted_time)
    }

    /// Bytes 96 to 101 of the record: owner and permissions.
    pub open spec fn owner_bytes(&self) -> Seq<u8> {
        le_bytes_u32(self.owner_id) + le_bytes_u16(self.permissions as u16)
    }

    /// The record as it is written to disk, for an inode that fits it.
    pub open spec fn encoding(&self) -> Seq<u8> {
        self.identity_bytes() + self.direct_bytes() + self.time_bytes() + self.owner_bytes()
    }

    /// The bytes `bytes` begin with a record that holds the fields of `self`.
    pub open spec fn stored_in(&self, bytes: Seq<u8>) -> bool {
        &&& bytes.len() >= INODE_RECORD_SIZE
        &&& self.inode_number == u32_at(bytes, 0)
        &&& self.file_type == bytes[4]
        &&& self.is_deleted == bytes[5] % 2
        &&& self.tamper_flag == bytes[5] / 2 % 2
        &&& self.link_count == u16_at(bytes, 6)
        &&& self.size == u32_at(bytes, 8)
        &&& forall|i: int| 0 <= i < 12 ==> self.direct_blocks[i] == u32_at(bytes, 12 + 4 * i)
        &&& self.indirect_block == u32_at(bytes, 60)
        &&& self.created_time == i64_at(bytes, 64)
        &&& self.modified_time == i64_at(bytes, 72)
        &&& self.accessed_time == i64_at(bytes, 80)
        &&& self.deleted_time == i64_at(bytes, 88)
        &&& self.owner_id == u32_at(bytes, 96)
        &&& self.permissions == u16_at(bytes, 100)
    }

    /// Whether the inode fits its record.
    pub fn is_storable(&self) -> (fits: bool)
        ensures
            fits == self.storable(),
    {
        self.file_type < 256 && self.is_deleted <= 1 && self.tamper_flag <= 1 && self.link_count
            < 65536 && self.permissions < 65536
    }

    fn put_identity(&self, out: &mut Vec<u8>)
        requires
            self.storable(),
        ensures
            final(out)@ == old(out)@ + self.identity_bytes(),
    {
        put_u32(out, self.inode_number);
        out.push(self.file_type as u8);
        out.push((self.is_deleted + 2 * self.tamper_flag) as u8);
        put_u16(out, self.link_count as u16);
        put_u32(out, self.size);
        assert(out@ =~= old(out)@ + self.identity_bytes());
    }

    fn put_direct(&self, out: &mut Vec<u8>)
        ensures
            final(out)@ == old(out)@ + self.direct_bytes(),
    {
        let mut k: usize = 0;
        while k < 12
            invariant
                k <= 12,
                out@ == old(out)@ + Seq::new(
                    (4 * k) as nat,
                    |i: int| le_bytes_u32(self.direct_blocks[i / 4])[i % 4],
                ),
            decreases 12 - k,
        {
            put_u32(out, self.direct_blocks[k]);
            k = k + 1;
            assert(out@ =~= old(out)@ + Seq::new(
                (4 * k) as nat,
                |i: int| le_bytes_u32(self.direct_blocks[i / 4])[i % 4],
            ));
        }
        assert(out@ =~= old(out)@ + self.direct_bytes());
    }

    fn put_times(&self, out: &mut Vec<u8>)
        ensures
            final(out)@ == old(out)@ + self.time_bytes(),
    {
        put_u32(out, self.indirect_block);
        put_i64(out, self.created_time);
        put_i64(out, self.modified_time);
        put_i64(out, self.accessed_time);
        put_i64(out, self.deleted_time);
        assert(out@ =~= old(out)@ + self.time_bytes());
    }

    fn put_owner(&self, out: &mut Vec<u8>)
        requires
            self.storable(),
        ensures
            final(out)@ == old(out)@ + self.owner_bytes(),
    {
        put_u32(out, self.owner_id);
        put_u16(out, self.permissions as u16);
        assert(out@ =~= old(out)@ + self.owner_bytes());
    }

    /// Writes the record: 102 bytes that hold every field at its offset.
    /// Fails with `InvalidArgument` for an inode that does not fit the
    /// record.
    pub fn encode(&self) -> (r: Result<Vec<u8>, FsError>)
        ensures
            r is Ok <==> self.storable(),
            r matches Err(e) ==> e == FsError::InvalidArgument,
            r matches Ok(out) ==> out@ == self.encoding() && out@.len() == INODE_RECORD_SIZE
                && self.stored_in(out@),
    {
        if !self.is_storable() {
            return Err(FsError::InvalidArgument);
        }
        let mut out: Vec<u8> = Vec::new();
        self.put_identity(&mut out);
        self.put_direct(&mut out);
        self.put_times(&mut out);
        self.put_owner(&mut out);
        proof {
            assert(out@ =~= self.encoding());
            self.lemma_encoding_stored();
        }
        Ok(out)
    }

    proof fn lemma_sections(&self)
        ensures
            self.encoding().len() == INODE_RECORD_SIZE,
            holds_at(self.encoding(), 0, self.identity_bytes()),
            holds_at(self.encoding(), 12, self.direct_bytes()),
            holds_at(self.encoding(), 60, self.time_bytes()),
            holds_at(self.encoding(), 96, self.owner_bytes()),
    {
        assert(self.identity_bytes().len() == 12);
        assert(self.direct_bytes().len() == 48);
        assert(self.time_bytes().len() == 36);
        assert(self.owner_bytes().len() == 6);
    }

    proof fn lemma_identity_stored(&self, bytes: Seq<u8>)
        requires
            self.storable(),
            holds_at(bytes, 0, self.identity_bytes()),
        ensures
            self.inode_number == u32_at(bytes, 0),
            self.file_type == bytes[4],
            self.is_deleted == bytes[5] % 2,
            self.tamper_flag == bytes[5] / 2 % 2,
            self.link_count == u16_at(bytes, 6),
            self.size == u32_at(bytes, 8),
    {
        let s = self.identity_bytes();
        lemma_section_u32(bytes, 0, s, 0, self.inode_number);
        lemma_section_u16(bytes, 0, s, 6, self.link_count as u16);
        lemma_section_u32(bytes, 0, s, 8, self.size);
        assert(s[4] == self.file_type as u8 && bytes[0int + 4] == s[4]);
        assert(s[5] == self.flags() && bytes[0int + 5] == s[5]);
    }

    proof fn lemma_direct_stored(&self, bytes: Seq<u8>)
        requires
            holds_at(bytes, 12, self.direct_bytes()),
        ensures
            forall|i: int| 0 <= i < 12 ==> self.direct_blocks[i] == u32_at(bytes, 12 + 4 * i),
    {
        let s = self.direct_bytes();
        assert forall|i: int| 0 <= i < 12 implies self.direct_blocks[i] == u32_at(
            bytes,
            12 + 4 * i,
        ) by {
            let f = le_bytes_u32(self.direct_blocks[i]);
            assert forall|j: int| 0 <= j < f.len() implies s[4 * i + j] == #[trigger] f[j] by {
                assert((4 * i + j) / 4 == i && (4 * i + j) % 4 == j);
            }
            assert(holds_at(s, 4 * i, f));
            lemma_section_u32(bytes, 12, s, 4 * i, self.direct_blocks[i]);
        }
    }

    proof fn lemma_times_stored(&self, bytes: Seq<u8>)
        requires
            holds_at(bytes, 60, self.time_bytes()),
        ensures
            self.indirect_block == u32_at(bytes, 60),
            self.created_time == i64_at(bytes, 64),
            self.modified_time == i64_at(bytes, 72),
            self.accessed_time == i64_at(bytes, 80),
            self.deleted_time == i64_at(bytes, 88),
    {
        let s = self.time_bytes();
        lemma_section_u32(bytes, 60, s, 0, self.indirect_block);
        lemma_section_i64(bytes, 60, s, 4, self.created_time);
        lemma_section_i64(bytes, 60, s, 12, self.modified_time);
        lemma_section_i64(bytes, 60, s, 20, self.accessed_time);
        lemma_section_i64(bytes, 60, s, 28, self.deleted_time);
    }

    proof fn lemma_owner_stored(&self, bytes: Seq<u8>)
        requires
            self.storable(),
            holds_at(bytes, 96, self.owner_bytes()),
        ensures
            self.owner_id == u32_at(bytes, 96),
            self.permissions == u16_at(bytes, 100),
    {
        let s = self.owner_bytes();
        lemma_section_u32(bytes, 96, s, 0, self.owner_id);
        lemma_section_u16(bytes, 96, s, 4, self.permissions as u16);
    }

    /// An inode that some bytes hold fits the record.
    pub proof fn lemma_stored_is_storable(&self, bytes: Seq<u8>)
        requires
            self.stored_in(bytes),
        ensures
            self.storable(),
    {
    }

    /// Bytes that begin with the record written for an inode hold that inode.
    pub proof fn lemma_stored_where_held(&self, bytes: Seq<u8>)
        requires
            self.storable(),
            holds_at(bytes, 0, self.encoding()),
        ensures
            self.stored_in(bytes),
    {
        self.lemma_sections();
        let e = self.encoding();
        lemma_holds_in_section(bytes, 0, e, 0, self.identity_bytes());
        lemma_holds_in_section(bytes, 0, e, 12, self.direct_bytes());
        lemma_holds_in_section(bytes, 0, e, 60, self.time_bytes());
        lemma_holds_in_section(bytes, 0, e, 96, self.owner_bytes());
        self.lemma_identity_stored(bytes);
        self.lemma_direct_stored(bytes);
        self.lemma_times_stored(bytes);
        self.lemma_owner_stored(bytes);
    }

    /// The record written for an inode that fits it holds that inode's
    /// fields.
    pub proof fn lemma_encoding_stored(&self)
        requires
            self.storable(),
        ensures
            self.encoding().len() == INODE_RECORD_SIZE,
            self.stored_in(self.encoding()),
    {
        self.lemma_sections();
        self.lemma_stored_where_held(self.encoding());
    }

    /// Two inodes that the same bytes hold are the same inode.
    pub proof fn lemma_stored_unique(&self, other: Inode, bytes: Seq<u8>)
        requires
            self.stored_in(bytes),
            other.stored_in(bytes),
        ensures
            *self == other,
    {
        assert(self.direct_blocks =~= other.direct_blocks);
    }

    /// Reading back the record written for an inode that fits it gives that
    /// inode: whatever the written record holds is `self`.
    pub proof fn lemma_round_trip(&self, back: Inode)
        requires
            self.storable(),
            back.stored_in(self.encoding()),
        ensures
            back == *self,
            back.encoding() == self.encoding(),
    {
        self.lemma_encoding_stored();
        self.lemma_stored_unique(back, self.encoding());
    }

    /// Reads the record that `bytes` begin with. Fails with `InvalidArgument`
    /// when there are fewer bytes than a record has.
    pub fn decode(bytes: &[u8]) -> (r: Result<Inode, FsError>)
        ensures
            r is Ok <==> bytes@.len() >= INODE_RECORD_SIZE,
            r matches Err(e) ==> e == FsError::InvalidArgument,
            r matches Ok(inode) ==> inode.stored_in(bytes@) && inode.storable(),
    {
        if bytes.len() < INODE_RECORD_SIZE {
            return Err(FsError::InvalidArgument);
        }
        let mut direct_blocks: [u32; 12] = [0;12];
        let mut k: usize = 0;
        while k < 12
            invariant
                k <= 12,
                bytes@.len() >= INODE_RECORD_SIZE,
                forall|i: int| 0 <= i < k ==> direct_blocks[i] == u32_at(bytes@, 12 + 4 * i),
            decreases 12 - k,
        {
            direct_blocks[k] = get_u32(bytes, 12 + 4 * k);
            k = k + 1;
        }
        let flags: u8 = bytes[5];
        Ok(
            Inode {
                inode_number: get_u32(bytes, 0),
                file_type: bytes[4] as u32,
                size: get_u32(bytes, 8),
                direct_blocks,
                indirect_block: get_u32(bytes, 60),
                created_time: get_i64(bytes, 64),
                modified_time: get_i64(bytes, 72),
                accessed_time: get_i64(bytes, 80),
                deleted_time: get_i64(bytes, 88),
                is_deleted: (flags % 2) as u32,
                tamper_flag: (flags / 2 % 2) as u32,
                owner_id: get_u32(bytes, 96),
                permissions: get_u16(bytes, 100) as u32,
                link_count: get_u16(bytes, 6) as u32,
            },
        )
    }

    /// Writes the record into a block of the inode table, from `offset`
    /// onwards. Fails with `InvalidArgument` for an inode that does not fit
    /// the record, and with `OutOfRange` when the record would reach beyond
    /// the block. On an error the block is as it was.
    pub fn write_record(&self, block: &mut [u8], offset: usize) -> (r: Result<(), FsError>)
        ensures
            r is Ok <==> self.storable() && offset + INODE_RECORD_SIZE <= old(block)@.len(),
            r is Ok ==> final(block)@ == overwritten(old(block)@, offset as int, self.encoding()),
            r matches Err(e) ==> final(block)@ == old(block)@ && (e == FsError::InvalidArgument
                <==> !self.storable()) && (e == FsError::InvalidArgument || e
                == FsError::OutOfRange),
            final(block)@.len() == old(block)@.len(),
    {
        match self.encode() {
            Ok(record) => overwrite(block, offset, record.as_slice()),
            Err(e) => Err(e),
        }
    }

    /// Reads the record that begins at `offset` in a block of the inode
    /// table. Fails with `OutOfRange` when the record would reach beyond the
    /// block.
    pub fn read_record(block: &[u8], offset: usize) -> (r: Result<Inode, FsError>)
        ensures
            r is Ok <==> offset + INODE_RECORD_SIZE <= block@.len(),
            r matches Ok(inode) ==> inode.storable() && inode.stored_in(
                block@.subrange(offset as int, block@.len() as int),
            ),
            r matches Err(e) ==> e == FsError::OutOfRange,
    {
        if offset > block.len() || block.len() - offset < INODE_RECORD_SIZE {
            return Err(FsError::OutOfRange);
        }
        match Inode::decode(vstd::slice::slice_subrange(block, offset, block.len())) {
            Ok(inode) => Ok(inode),
            Err(_) => Err(FsError::OutOfRange),
        }
    }

    /// A record that was written into a block is read back from the same
    /// place as the inode that was written.
    pub proof fn lemma_record_round_trip(&self, block: Seq<u8>, offset: int, back: Inode)
        requires
            self.storable(),
            0 <= offset,
            offset + INODE_RECORD_SIZE <= block.len(),
            back.stored_in(
                overwritten(block, offset, self.encoding()).subrange(offset, block.len() as int),
            ),
        ensures
            back == *self,
    {
        let rest = overwritten(block, offset, self.encoding()).subrange(
            offset,
            block.len() as int,
        );
        assert(self.encoding().len() == INODE_RECORD_SIZE) by {
            self.lemma_sections();
        }
        lemma_overwritten(block, offset, self.encoding());
        self.lemma_stored_where_held(rest);
        self.lemma_stored_unique(back, rest);
    }
}

/// Where an inode's record lies on the volume.
#[derive(Debug, Clone, Copy, PartialEq, Eq)]
pub struct InodeLocation {
    /// The block of the inode table that holds the record.
    pub block: u32,
    /// The offset of the record's first byte within that block.
    pub offset: u32,
}

/// How many whole inode records a block of `block_size` bytes holds.
pub open spec fn records_per_block(block_size: u32) -> int {
    block_size as int / INODE_RECORD_SIZE as int
}

/// Where the record of inode `n` lies on the volume that `sb` describes.
///
/// The inode table is the sequence of the record areas of its blocks; a
/// block's record area is as many whole records as the block holds, and what
/// is left at the end of the block is padding. Inode `n` is the table's
/// record number `n`, so a record never crosses a block boundary. Inode 0 is
/// no inode and has no record to find.
pub open spec fn inode_slot(sb: Superblock, n: u32) -> Result<InodeLocation, FsError> {
    let per_block = records_per_block(sb.block_size);
    if n == 0 || n >= sb.inode_count {
        Err(FsError::OutOfRange)
    } else if per_block == 0 || n as int / per_block >= sb.inode_blocks || sb.first_inode_block + n
        as int / per_block > u32::MAX {
        Err(FsError::InvalidArgument)
    } else {
        Ok(
            InodeLocation {
                block: (sb.first_inode_block + n as int / per_block) as u32,
                offset: ((n as int % per_block) * INODE_RECORD_SIZE) as u32,
            },
        )
    }
}

/// Finds the record of inode `inode_number`. Fails with `OutOfRange` for
/// inode 0 and for numbers that the volume does not have, and with
/// `InvalidArgument` when the superblock's inode table has no room for the
/// record.
pub fn inode_location(sb: &Superblock, inode_number: u32) -> (r: Result<InodeLocation, FsError>)
    ensures
        r == inode_slot(*sb, inode_number),
        r matches Ok(at) ==> at.offset + INODE_RECORD_SIZE <= sb.block_size && sb.first_inode_block
            <= at.block < sb.first_inode_block + sb.inode_blocks,
{
    if inode_number == 0 || inode_number >= sb.inode_count {
        return Err(FsError::OutOfRange);
    }
    let record: u32 = INODE_RECORD_SIZE as u32;
    let per_block: u32 = sb.block_size / record;
    if per_block == 0 {
        return Err(FsError::InvalidArgument);
    }
    let index: u32 = inode_number / per_block;
    let slot: u32 = inode_number % per_block;
    if index >= sb.inode_blocks || sb.first_inode_block as u64 + index as u64 > u32::MAX as u64 {
        return Err(FsError::InvalidArgument);
    }
    proof {
        lemma_slot_fits(sb.block_size, inode_number);
    }
    Ok(InodeLocation { block: sb.first_inode_block + index, offset: slot * record })
}

/// A record's slot lies wholly inside its block.
pub proof fn lemma_slot_fits(block_size: u32, n: u32)
    requires
        records_per_block(block_size) > 0,
    ensures
        0 <= n as int % records_per_block(block_size) < records_per_block(block_size),
        (n as int % records_per_block(block_size)) * INODE_RECORD_SIZE + INODE_RECORD_SIZE
            <= block_size,
{
    let per_block = records_per_block(block_size);
    let slot = n as int % per_block;
    vstd::arithmetic::div_mod::lemma_mod_bound(n as int, per_block);
    assert(per_block * 102 <= block_size);
    assert(slot * 102 + 102 <= per_block * 102) by (nonlinear_arith)
        requires
            0 <= slot < per_block,
    ;
}

/// Where the block size is a multiple of the record size, the record of inode
/// `n` begins `n` records after the first byte of the inode table.
pub proof fn lemma_slot_flat(sb: Superblock, n: u32)
    requires
        sb.block_size as int % INODE_RECORD_SIZE as int == 0,
        inode_slot(sb, n) is Ok,
    ensures
        (inode_slot(sb, n)->Ok_0.block - sb.first_inode_block) * sb.block_size + inode_slot(
            sb,
            n,
        )->Ok_0.offset == n * INODE_RECORD_SIZE,
{
    let per_block = records_per_block(sb.block_size);
    lemma_slot_fits(sb.block_size, n);
    let q = n as int / per_block;
    let r = n as int % per_block;
    vstd::arithmetic::div_mod::lemma_fundamental_div_mod(n as int, per_block);
    assert(sb.block_size == per_block * 102);
    assert(q * (per_block * 102) + r * 102 == (per_block * q + r) * 102) by (nonlinear_arith);
}

/// On a well-formed superblock every inode but inode 0 has a record.
pub proof fn lemma_slot_exists(sb: Superblock, n: u32)
    requires
        sb.wf(),
        0 < n < sb.inode_count,
    ensures
        inode_slot(sb, n) is Ok,
{
    let per_block = records_per_block(sb.block_size);
    assert(per_block >= 40);
    assert(n as int / per_block < 8) by (nonlinear_arith)
        requires
            per_block >= 40,
            0 <= n < 320,
    ;
}

/// Two inodes never share a record.
pub proof fn lemma_slots_distinct(sb: Superblock, n: u32, m: u32)
    requires
        inode_slot(sb, n) is Ok,
        inode_slot(sb, m) is Ok,
        n != m,
    ensures
        inode_slot(sb, n) != inode_slot(sb, m),
{
    let per_block = records_per_block(sb.block_size);
    vstd::arithmetic::div_mod::lemma_fundamental_div_mod(n as int, per_block);
    vstd::arithmetic::div_mod::lemma_fundamental_div_mod(m as int, per_block);
    lemma_slot_fits(sb.block_size, n);
    lemma_slot_fits(sb.block_size, m);
    let a = inode_slot(sb, n)->Ok_0;
    let b = inode_slot(sb, m)->Ok_0;
    if a == b {
        assert(n as int / per_block == m as int / per_block);
        assert((n as int % per_block) * 102 == (m as int % per_block) * 102);
        assert(false);
    }
}

} // verus!

//! Formatting: the content of a new volume's metadata blocks.
//!
//! A new volume has its superblock in block 0, a block bitmap in which the
//! reserved blocks are marked as used, an inode bitmap in which inode 0 and
//! the root directory are marked as used, and an inode table that is empty
//! but for the root directory's record. What is computed here is the content
//! of those blocks; writing them to the image is the caller's part.

use vstd::prelude::*;
use crate::allocator::{allocate_inode_at, block_pool, inode_pool};
use crate::bitmap::{
    all_clear, all_set, bit_is_set, bit_len, bitmap_set, bitmap_set_prefix,
    lemma_count_clear_bounds, lemma_first_clear_unique, lemma_set_bit, lemma_zero_bytes_all_clear,
};
use crate::clock::current_time;
use crate::codec::{overwritten, zeroed, zeros};
use crate::error::FsError;
use crate::inode::{inode_location, records_per_block, Inode};
use crate::layout::{
    FILETYPE_DIR, INODE_COUNT, INODE_RECORD_SIZE, RESERVED_BLOCKS, ROOT_INODE, ROOT_PERMISSIONS,
};
use crate::superblock::{geometry_fits, Superblock};

verus! {

/// The metadata of a volume that was just formatted.
#[derive(Debug, Clone, PartialEq, Eq)]
pub struct FreshVolume {
    /// The superblock, for block 0.
    pub superblock: Superblock,
    /// The block bitmap, one block long.
    pub block_bitmap: Vec<u8>,
    /// The inode bitmap, one block long.
    pub inode_bitmap: Vec<u8>,
    /// The root directory's inode.
    pub root: Inode,
    /// The first block of the inode table, which holds the root directory's
    /// record. The other blocks of the table are zero.
    pub inode_table: Vec<u8>,
}

/// A volume of `total_blocks` blocks of `block_size` bytes can be formatted:
/// its metadata fits, and one block of bitmap has a bit for every block.
pub open spec fn can_format(block_size: u32, total_blocks: u32) -> bool {
    geometry_fits(block_size, total_blocks) && total_blocks <= 8 * block_size
}

impl FreshVolume {
    /// What formatting a volume of `total_blocks` blocks of `block_size`
    /// bytes at time `now` gives: a superblock on which every data block is
    /// free and the root directory's inode is taken from the free inodes; a
    /// block bitmap with exactly the reserved blocks marked; an inode bitmap
    /// with exactly inode 0 and the root marked; the root directory's inode,
    /// owned by user 0; and an inode table block that is zero but for the
    /// root's record.
    pub open spec fn is_format_of(&self, block_size: u32, total_blocks: u32, now: i64) -> bool {
        &&& self.superblock.is_fresh(block_size, total_blocks, now, (INODE_COUNT - 1) as u32)
        &&& self.block_bitmap@.len() == block_size
        &&& forall|i: int|
            0 <= i < bit_len(self.block_bitmap@) ==> (#[trigger] bit_is_set(self.block_bitmap@, i)
                <==> i < RESERVED_BLOCKS)
        &&& self.inode_bitmap@.len() == block_size
        &&& forall|i: int|
            0 <= i < bit_len(self.inode_bitmap@) ==> (#[trigger] bit_is_set(self.inode_bitmap@, i)
                <==> i <= ROOT_INODE)
        &&& self.root.is_new(ROOT_INODE, FILETYPE_DIR, ROOT_PERMISSIONS, 0, now)
        &&& self.inode_table@ == overwritten(
            zeros(block_size as nat),
            ROOT_INODE * INODE_RECORD_SIZE,
            self.root.encoding(),
        )
    }

    /// On a volume that was just formatted both bitmaps agree with their
    /// counters, and every data block is free.
    pub proof fn lemma_format_consistent(&self, block_size: u32, total_blocks: u32, now: i64)
        requires
            can_format(block_size, total_blocks),
            self.is_format_of(block_size, total_blocks, now),
        ensures
            self.superblock.wf(),
            block_pool(self.block_bitmap@, self.superblock).consistent(),
            inode_pool(self.inode_bitmap@, self.superblock).consistent(),
            all_clear(self.block_bitmap@, RESERVED_BLOCKS as int, total_blocks as int),
    {
        assert(all_set(self.inode_bitmap@, 0, 2));
        assert(all_clear(self.inode_bitmap@, 2, INODE_COUNT as int));
        assert(all_set(self.block_bitmap@, 0, RESERVED_BLOCKS as int));
        assert(all_clear(self.block_bitmap@, RESERVED_BLOCKS as int, total_blocks as int));
        lemma_count_clear_bounds(self.block_bitmap@, RESERVED_BLOCKS as int, total_blocks as int);
        lemma_count_clear_bounds(self.inode_bitmap@, 2, INODE_COUNT as int);
        inode_pool(self.inode_bitmap@, self.superblock).lemma_free_units_above_floor();
    }

    /// On a volume that was just formatted, as many allocations in a row as
    /// the volume has data blocks hand out the blocks from block 11 upwards,
    /// one after the other, and the allocation after them finds nothing.
    pub proof fn lemma_format_then_allocate(
        &self,
        block_size: u32,
        total_blocks: u32,
        now: i64,
        n: nat,
    )
        requires
            can_format(block_size, total_blocks),
            self.is_format_of(block_size, total_blocks, now),
            n < total_blocks - RESERVED_BLOCKS,
        ensures
            self.superblock.free_blocks == total_blocks - RESERVED_BLOCKS,
            block_pool(self.block_bitmap@, self.superblock).after_claims(n).claim_outcome() == Ok::<
                Option<u32>,
                FsError,
            >(Some((RESERVED_BLOCKS + n) as u32)),
            block_pool(self.block_bitmap@, self.superblock).after_claims(
                (total_blocks - RESERVED_BLOCKS) as nat,
            ).claim_outcome() == Ok::<Option<u32>, FsError>(None),
    {
        self.lemma_format_consistent(block_size, total_blocks, now);
        let pool = block_pool(self.block_bitmap@, self.superblock);
        pool.lemma_claims_on_fresh(n);
        pool.lemma_claims_until_exhausted();
    }
}

/// Formats a volume of `total_blocks` blocks of `block_size` bytes at time
/// `now`. Fails with `InvalidArgument` when the volume's metadata does not
/// fit or one block of bitmap has no bit for every block.
pub fn format_volume_at(block_size: u32, total_blocks: u32, now: i64) -> (r: Result<
    FreshVolume,
    FsError,
>)
    ensures
        r is Ok <==> can_format(block_size, total_blocks),
        r matches Err(e) ==> e == FsError::InvalidArgument,
        r matches Ok(v) ==> {
            &&& v.is_format_of(block_size, total_blocks, now)
            &&& v.superblock.wf()
            &&& block_pool(v.block_bitmap@, v.superblock).consistent()
            &&& inode_pool(v.inode_bitmap@, v.superblock).consistent()
        },
{
    let mut superblock = match Superblock::new_at(block_size, total_blocks, now) {
        Ok(sb) => sb,
        Err(e) => {
            return Err(e);
        },
    };
    if total_blocks as u64 > 8 * (block_size as u64) {
        return Err(FsError::InvalidArgument);
    }
    let mut block_bitmap = zeroed(block_size as usize);
    let mut inode_bitmap = zeroed(block_size as usize);
    let mut inode_table = zeroed(block_size as usize);
    proof {
        lemma_zero_bytes_all_clear(block_bitmap@);
        lemma_zero_bytes_all_clear(inode_bitmap@);
    }
    let reserved = bitmap_set_prefix(block_bitmap.as_mut_slice(), RESERVED_BLOCKS);
    let sentinel = bitmap_set(inode_bitmap.as_mut_slice(), 0);
    assert(reserved is Ok && sentinel is Ok);
    let ghost marked = inode_bitmap@;
    proof {
        assert(bit_is_set(marked, 0) && !bit_is_set(marked, 1));
        lemma_first_clear_unique(marked, 0, INODE_COUNT as int, 1);
        lemma_set_bit(marked, 1);
    }
    let root_number = match allocate_inode_at(inode_bitmap.as_mut_slice(), &mut superblock, now) {
        Ok(Some(number)) => number,
        _ => {
            return Err(FsError::InvalidArgument);
        },
    };
    let root = Inode::new_at(root_number, FILETYPE_DIR, ROOT_PERMISSIONS, 0, now);
    let place = match inode_location(&superblock, root_number) {
        Ok(place) => place,
        Err(_) => {
            return Err(FsError::InvalidArgument);
        },
    };
    let written = root.write_record(inode_table.as_mut_slice(), place.offset as usize);
    assert(written is Ok);
    let v = FreshVolume { superblock, block_bitmap, inode_bitmap, root, inode_table };
    proof {
        assert(root_number == ROOT_INODE);
        assert(place.offset == ROOT_INODE * INODE_RECORD_SIZE) by {
            let per_block = records_per_block(block_size);
            assert(per_block >= 40);
            vstd::arithmetic::div_mod::lemma_small_mod(1, per_block as nat);
        }
        assert forall|i: int| 0 <= i < bit_len(v.inode_bitmap@) implies (#[trigger] bit_is_set(
            v.inode_bitmap@,
            i,
        ) <==> i <= ROOT_INODE) by {
            assert(bit_is_set(marked, i) <==> i == 0);
        }
        v.lemma_format_consistent(block_size, total_blocks, now);
    }
    Ok(v)
}

/// Formats a volume of `total_blocks` blocks of `block_size` bytes, stamped
/// with the current time. Fails with `InvalidArgument` when the volume's
/// metadata does not fit or one block of bitmap has no bit for every block.
pub fn format_volume(block_size: u32, total_blocks: u32) -> (r: Result<FreshVolume, FsError>)
    ensures
        r is Ok <==> can_format(block_size, total_blocks),
        r matches Err(e) ==> e == FsError::InvalidArgument,
        r matches Ok(v) ==> {
            &&& v.is_format_of(block_size, total_blocks, v.superblock.created_time)
            &&& v.superblock.created_time >= 0
            &&& v.superblock.wf()
            &&& block_pool(v.block_bitmap@, v.superblock).consistent()
            &&& inode_pool(v.inode_bitmap@, v.superblock).consistent()
        },
{
    let now = current_time();
    format_volume_at(block_size, total_blocks, now)
}

} // verus!

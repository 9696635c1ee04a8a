//! The allocator: hands out and takes back blocks and inodes, keeping each
//! bitmap and its free counter in the superblock in step.
//!
//! Both kinds of unit follow one protocol, described here as a [`Pool`]: scan
//! the bitmap upwards for the lowest clear bit, set it, take one from the
//! counter, and note the time of the change in the superblock. The functions
//! work on the bitmap block in memory; the caller reads it before the call
//! and writes it and the superblock back after it.
//!
//! The two writes are not atomic. So that a failure between them never leaves
//! a counter on disk that shows more free units than the bitmap on disk has,
//! the superblock is written before the bitmap after a claim, and the bitmap
//! before the superblock after a release.

use vstd::prelude::*;
use crate::bitmap::{
    all_clear, all_set, bit_is_set, bit_len, bitmap_all_set, bitmap_clear, bitmap_count_free,
    bitmap_find_free_in, bitmap_set, bitmap_test, clear_bit, count_clear, first_clear,
    lemma_clear_after_set, lemma_clear_bit, lemma_count_clear_after_clear,
    lemma_count_clear_after_set, lemma_count_clear_bounds, lemma_first_clear,
    lemma_first_clear_unique, lemma_set_bit, set_bit,
};
use crate::clock::current_time;
use crate::error::FsError;
use crate::superblock::Superblock;

verus! {

/// A bitmap seen as a pool of units.
pub struct Pool {
    /// The bitmap block.
    pub bits: Seq<u8>,
    /// The volume's block size, which the bitmap block must have.
    pub block_size: int,
    /// The first unit of the scan.
    pub from: int,
    /// The first unit that may be taken back.
    pub floor: int,
    /// The end of the scan: one more than the last unit.
    pub to: int,
    /// What the free counter shows.
    pub free: int,
    /// The most that the free counter may show.
    pub limit: int,
    /// How many units the counter counts although the bitmap never hands
    /// them out. Where there are such units the counter is not at zero when
    /// the last unit is handed out, and a claim does not hold it to the
    /// bitmap then.
    pub held_back: int,
}

impl Pool {
    /// The bitmap block has the block size and a bit for every unit.
    pub open spec fn addressable(self) -> bool {
        &&& self.bits.len() == self.block_size
        &&& 0 <= self.from <= self.floor <= self.to <= bit_len(self.bits)
        &&& self.to <= u32::MAX
    }

    /// The lowest free unit, or `to` when none is free.
    pub open spec fn next(self) -> int {
        first_clear(self.bits, self.from, self.to)
    }

    /// What a claim reports: the lowest free unit; nothing when no unit is
    /// free; `InvalidArgument` for a pool that is not addressable; and
    /// `CounterMismatch` when the counter is at zero while a unit is free,
    /// or, in a pool that holds nothing back, is not at zero while none is.
    pub open spec fn claim_outcome(self) -> Result<Option<u32>, FsError> {
        if !self.addressable() {
            Err(FsError::InvalidArgument)
        } else if self.next() < self.to {
            if self.free <= 0 {
                Err(FsError::CounterMismatch)
            } else {
                Ok(Some(self.next() as u32))
            }
        } else if self.held_back == 0 && self.free != 0 {
            Err(FsError::CounterMismatch)
        } else {
            Ok(None)
        }
    }

    /// The pool after a claim: with the claimed unit's bit set and one taken
    /// from the counter, or as it was when no unit was claimed.
    pub open spec fn after_claim(self) -> Pool {
        match self.claim_outcome() {
            Ok(Some(unit)) => Pool {
                bits: set_bit(self.bits, unit as int),
                free: self.free - 1,
                ..self
            },
            _ => self,
        }
    }

    /// What taking back `unit` reports: `InvalidArgument` for a pool that is
    /// not addressable; `OutOfRange` for a unit that is never handed out;
    /// `DoubleFree` for a unit whose bit is clear; and `CounterMismatch` when
    /// the counter already shows the most it may.
    pub open spec fn release_outcome(self, unit: u32) -> Result<(), FsError> {
        if !self.addressable() {
            Err(FsError::InvalidArgument)
        } else if unit < self.floor || unit >= self.to {
            Err(FsError::OutOfRange)
        } else if !bit_is_set(self.bits, unit as int) {
            Err(FsError::DoubleFree)
        } else if self.free >= self.limit {
            Err(FsError::CounterMismatch)
        } else {
            Ok(())
        }
    }

    /// The pool after `unit` was taken back: with the unit's bit clear and
    /// one added to the counter, or as it was when the unit was refused.
    pub open spec fn after_release(self, unit: u32) -> Pool {
        match self.release_outcome(unit) {
            Ok(_) => Pool { bits: clear_bit(self.bits, unit as int), free: self.free + 1, ..self },
            Err(_) => self,
        }
    }

    /// The number of units whose bit is clear.
    pub open spec fn free_units(self) -> nat {
        count_clear(self.bits, self.from, self.to)
    }

    /// Bitmap and counter agree: the pool is addressable, the counter is the
    /// number of clear bits and of the units held back, the units that are
    /// never taken back are in use, and the counter's limit leaves room for
    /// every unit.
    pub open spec fn consistent(self) -> bool {
        &&& self.addressable()
        &&& 0 <= self.held_back
        &&& self.free == self.free_units() + self.held_back
        &&& all_set(self.bits, self.from, self.floor)
        &&& self.to - self.floor + self.held_back <= self.limit
    }

    /// The pool after `n` claims in a row.
    pub open spec fn after_claims(self, n: nat) -> Pool
        decreases n,
    {
        if n == 0 {
            self
        } else {
            self.after_claims((n - 1) as nat).after_claim()
        }
    }

    /// The unit that claim number `n`, counted from 0, hands out, or `to`
    /// when no unit is left for it.
    pub open spec fn claimed(self, n: nat) -> int {
        self.after_claims(n).next()
    }

    /// `unit` is one of the units that the first `n` claims hand out.
    pub open spec fn claimed_within(self, n: nat, unit: int) -> bool
        decreases n,
    {
        n > 0 && (self.claimed((n - 1) as nat) == unit || self.claimed_within(
            (n - 1) as nat,
            unit,
        ))
    }
}

/// The data blocks of the volume that `sb` describes, with `bits` as the
/// block bitmap: the scan runs from the first data block to the last block,
/// the counter is `free_blocks`, and it counts the data blocks and nothing
/// else.
pub open spec fn block_pool(bits: Seq<u8>, sb: Superblock) -> Pool {
    Pool {
        bits,
        block_size: sb.block_size as int,
        from: sb.first_data_block as int,
        floor: sb.first_data_block as int,
        to: sb.total_blocks as int,
        free: sb.free_blocks as int,
        limit: sb.total_blocks - sb.first_data_block,
        held_back: 0,
    }
}

/// The inodes of the volume that `sb` describes, with `bits` as the inode
/// bitmap: the scan runs over all inode numbers, no inode up to the root is
/// ever taken back, and the counter is `free_inodes`, which may show as many
/// as the volume has inodes. Inode 0 is no inode: the counter counts it, but
/// its bit is set when the volume is made, so it is never handed out.
pub open spec fn inode_pool(bits: Seq<u8>, sb: Superblock) -> Pool {
    Pool {
        bits,
        block_size: sb.block_size as int,
        from: 0,
        floor: sb.root_inode + 1,
        to: sb.inode_count as int,
        free: sb.free_inodes as int,
        limit: sb.inode_count as int,
        held_back: 1,
    }
}

spec fn pool_of(
    bits: Seq<u8>,
    block_size: u32,
    from: u32,
    floor: u64,
    to: u32,
    free: u32,
    limit: i64,
    held_back: u32,
) -> Pool {
    Pool {
        bits,
        block_size: block_size as int,
        from: from as int,
        floor: floor as int,
        to: to as int,
        free: free as int,
        limit: limit as int,
        held_back: held_back as int,
    }
}

fn addressable(
    bitmap: &[u8],
    block_size: u32,
    from: u32,
    floor: u64,
    to: u32,
    free: u32,
    limit: i64,
    held_back: u32,
) -> (ok: bool)
    ensures
        ok == pool_of(bitmap@, block_size, from, floor, to, free, limit, held_back).addressable(),
{
    bitmap.len() == block_size as usize && from as u64 <= floor && floor <= to as u64 && to as u64
        <= 8 * (block_size as u64)
}

fn claim(
    bitmap: &mut [u8],
    block_size: u32,
    from: u32,
    floor: u64,
    to: u32,
    free: u32,
    limit: i64,
    held_back: u32,
) -> (r: Result<Option<u32>, FsError>)
    ensures
        r == pool_of(
            old(bitmap)@,
            block_size,
            from,
            floor,
            to,
            free,
            limit,
            held_back,
        ).claim_outcome(),
        final(bitmap)@ == pool_of(
            old(bitmap)@,
            block_size,
            from,
            floor,
            to,
            free,
            limit,
            held_back,
        ).after_claim().bits,
{
    if !addressable(bitmap, block_size, from, floor, to, free, limit, held_back) {
        return Err(FsError::InvalidArgument);
    }
    match bitmap_find_free_in(bitmap, from, to) {
        Some(unit) => {
            if free == 0 {
                Err(FsError::CounterMismatch)
            } else {
                let set = bitmap_set(bitmap, unit);
                assert(set is Ok);
                Ok(Some(unit))
            }
        },
        None => {
            if held_back == 0 && free != 0 {
                Err(FsError::CounterMismatch)
            } else {
                Ok(None)
            }
        },
    }
}

fn release(
    bitmap: &mut [u8],
    block_size: u32,
    from: u32,
    floor: u64,
    to: u32,
    free: u32,
    limit: i64,
    held_back: u32,
    unit: u32,
) -> (r: Result<(), FsError>)
    ensures
        r == pool_of(
            old(bitmap)@,
            block_size,
            from,
            floor,
            to,
            free,
            limit,
            held_back,
        ).release_outcome(unit),
        final(bitmap)@ == pool_of(
            old(bitmap)@,
            block_size,
            from,
            floor,
            to,
            free,
            limit,
            held_back,
        ).after_release(unit).bits,
{
    if !addressable(bitmap, block_size, from, floor, to, free, limit, held_back) {
        return Err(FsError::InvalidArgument);
    }
    if (unit as u64) < floor || unit >= to {
        return Err(FsError::OutOfRange);
    }
    if !bitmap_test(bitmap, unit) {
        return Err(FsError::DoubleFree);
    }
    if free as i64 >= limit {
        return Err(FsError::CounterMismatch);
    }
    let cleared = bitmap_clear(bitmap, unit);
    assert(cleared is Ok);
    Ok(())
}

fn consistent(
    bitmap: &[u8],
    block_size: u32,
    from: u32,
    floor: u64,
    to: u32,
    free: u32,
    limit: i64,
    held_back: u32,
) -> (ok: bool)
    ensures
        ok == pool_of(bitmap@, block_size, from, floor, to, free, limit, held_back).consistent(),
{
    if !addressable(bitmap, block_size, from, floor, to, free, limit, held_back) {
        return false;
    }
    bitmap_all_set(bitmap, from, floor as u32) && bitmap_count_free(bitmap, from, to) as u64
        + held_back as u64 == free as u64 && to as i64 - floor as i64 + held_back as i64 <= limit
}

/// Whether the block bitmap `bitmap` and the superblock agree: the bitmap is
/// one block long and has a bit for every block, and `free_blocks` is the
/// number of data blocks whose bit is clear.
pub fn block_bitmap_consistent(bitmap: &[u8], sb: &Superblock) -> (ok: bool)
    ensures
        ok == block_pool(bitmap@, *sb).consistent(),
{
    consistent(
        bitmap,
        sb.block_size,
        sb.first_data_block,
        sb.first_data_block as u64,
        sb.total_blocks,
        sb.free_blocks,
        sb.total_blocks as i64 - sb.first_data_block as i64,
        0,
    )
}

/// Whether the inode bitmap `bitmap` and the superblock agree as they do on
/// a volume that was formatted and then used through the allocator: the
/// bitmap is one block long and has a bit for every inode, the bits of all
/// inodes up to the root are set, and `free_inodes` is one more than the
/// number of inodes whose bit is clear, inode 0 being counted.
pub fn inode_bitmap_consistent(bitmap: &[u8], sb: &Superblock) -> (ok: bool)
    ensures
        ok == inode_pool(bitmap@, *sb).consistent(),
{
    consistent(
        bitmap,
        sb.block_size,
        0,
        sb.root_inode as u64 + 1,
        sb.inode_count,
        sb.free_inodes,
        sb.inode_count as i64,
        1,
    )
}

/// Hands out the lowest free data block at time `now`: sets its bit in the
/// block bitmap `bitmap`, takes one from `free_blocks` and notes `now` as
/// the time of the last write. Returns `None` when no block is free. On
/// `None` and on an error nothing changes.
pub fn allocate_block_at(bitmap: &mut [u8], sb: &mut Superblock, now: i64) -> (r: Result<
    Option<u32>,
    FsError,
>)
    ensures
        r == block_pool(old(bitmap)@, *old(sb)).claim_outcome(),
        block_pool(final(bitmap)@, *final(sb)) == block_pool(old(bitmap)@, *old(sb)).after_claim(),
        r matches Ok(Some(block)) ==> {
            &&& old(sb).first_data_block <= block < old(sb).total_blocks
            &&& !bit_is_set(old(bitmap)@, block as int)
            &&& all_set(old(bitmap)@, old(sb).first_data_block as int, block as int)
            &&& final(bitmap)@ == set_bit(old(bitmap)@, block as int)
            &&& *final(sb) == (Superblock {
                free_blocks: (old(sb).free_blocks - 1) as u32,
                last_write_time: now,
                ..*old(sb)
            })
        },
        !(r matches Ok(Some(_))) ==> final(bitmap)@ == old(bitmap)@ && *final(sb) == *old(sb),
{
    proof {
        if sb.first_data_block <= sb.total_blocks {
            lemma_first_clear(bitmap@, sb.first_data_block as int, sb.total_blocks as int);
        }
    }
    let r = claim(
        bitmap,
        sb.block_size,
        sb.first_data_block,
        sb.first_data_block as u64,
        sb.total_blocks,
        sb.free_blocks,
        sb.total_blocks as i64 - sb.first_data_block as i64,
        0,
    );
    if let Ok(Some(_)) = r {
        sb.free_blocks = sb.free_blocks - 1;
        sb.last_write_time = now;
    }
    r
}

/// Hands out the lowest free data block, as `allocate_block_at` does at the
/// current time.
pub fn allocate_block(bitmap: &mut [u8], sb: &mut Superblock) -> (r: Result<Option<u32>, FsError>)
    ensures
        r == block_pool(old(bitmap)@, *old(sb)).claim_outcome(),
        block_pool(final(bitmap)@, *final(sb)) == block_pool(old(bitmap)@, *old(sb)).after_claim(),
        r matches Ok(Some(block)) ==> {
            &&& old(sb).first_data_block <= block < old(sb).total_blocks
            &&& !bit_is_set(old(bitmap)@, block as int)
            &&& all_set(old(bitmap)@, old(sb).first_data_block as int, block as int)
            &&& final(bitmap)@ == set_bit(old(bitmap)@, block as int)
            &&& final(sb).last_write_time >= 0
            &&& *final(sb) == (Superblock {
                free_blocks: (old(sb).free_blocks - 1) as u32,
                last_write_time: final(sb).last_write_time,
                ..*old(sb)
            })
        },
        !(r matches Ok(Some(_))) ==> final(bitmap)@ == old(bitmap)@ && *final(sb) == *old(sb),
{
    let now = current_time();
    allocate_block_at(bitmap, sb, now)
}

/// Hands out the lowest free inode at time `now`: sets its bit in the inode
/// bitmap `bitmap`, takes one from `free_inodes` and notes `now` as the time
/// of the last write. Returns `None` when no inode is free, whatever the
/// counter shows. On `None` and on an error nothing changes.
pub fn allocate_inode_at(bitmap: &mut [u8], sb: &mut Superblock, now: i64) -> (r: Result<
    Option<u32>,
    FsError,
>)
    ensures
        r == inode_pool(old(bitmap)@, *old(sb)).claim_outcome(),
        inode_pool(final(bitmap)@, *final(sb)) == inode_pool(old(bitmap)@, *old(sb)).after_claim(),
        r matches Ok(Some(inode)) ==> {
            &&& inode < old(sb).inode_count
            &&& !bit_is_set(old(bitmap)@, inode as int)
            &&& all_set(old(bitmap)@, 0, inode as int)
            &&& final(bitmap)@ == set_bit(old(bitmap)@, inode as int)
            &&& *final(sb) == (Superblock {
                free_inodes: (old(sb).free_inodes - 1) as u32,
                last_write_time: now,
                ..*old(sb)
            })
        },
        !(r matches Ok(Some(_))) ==> final(bitmap)@ == old(bitmap)@ && *final(sb) == *old(sb),
{
    proof {
        lemma_first_clear(bitmap@, 0, sb.inode_count as int);
    }
    let r = claim(
        bitmap,
        sb.block_size,
        0,
        sb.root_inode as u64 + 1,
        sb.inode_count,
        sb.free_inodes,
        sb.inode_count as i64,
        1,
    );
    if let Ok(Some(_)) = r {
        sb.free_inodes = sb.free_inodes - 1;
        sb.last_write_time = now;
    }
    r
}

/// Hands out the lowest free inode, as `allocate_inode_at` does at the
/// current time.
pub fn allocate_inode(bitmap: &mut [u8], sb: &mut Superblock) -> (r: Result<Option<u32>, FsError>)
    ensures
        r == inode_pool(old(bitmap)@, *old(sb)).claim_outcome(),
        inode_pool(final(bitmap)@, *final(sb)) == inode_pool(old(bitmap)@, *old(sb)).after_claim(),
        r matches Ok(Some(inode)) ==> {
            &&& inode < old(sb).inode_count
            &&& !bit_is_set(old(bitmap)@, inode as int)
            &&& all_set(old(bitmap)@, 0, inode as int)
            &&& final(bitmap)@ == set_bit(old(bitmap)@, inode as int)
            &&& final(sb).last_write_time >= 0
            &&& *final(sb) == (Superblock {
                free_inodes: (old(sb).free_inodes - 1) as u32,
                last_write_time: final(sb).last_write_time,
                ..*old(sb)
            })
        },
        !(r matches Ok(Some(_))) ==> final(bitmap)@ == old(bitmap)@ && *final(sb) == *old(sb),
{
    let now = current_time();
    allocate_inode_at(bitmap, sb, now)
}

/// Takes back the data block `block_number` at time `now`: clears its bit in
/// the block bitmap `bitmap`, adds one to `free_blocks` and notes `now` as
/// the time of the last write. On an error nothing changes.
pub fn free_block_at(bitmap: &mut [u8], sb: &mut Superblock, block_number: u32, now: i64) -> (r:
    Result<(), FsError>)
    ensures
        r == block_pool(old(bitmap)@, *old(sb)).release_outcome(block_number),
        block_pool(final(bitmap)@, *final(sb)) == block_pool(
            old(bitmap)@,
            *old(sb),
        ).after_release(block_number),
        r is Ok ==> final(bitmap)@ == clear_bit(old(bitmap)@, block_number as int) && *final(sb)
            == (Superblock {
            free_blocks: (old(sb).free_blocks + 1) as u32,
            last_write_time: now,
            ..*old(sb)
        }),
        r is Err ==> final(bitmap)@ == old(bitmap)@ && *final(sb) == *old(sb),
{
    let r = release(
        bitmap,
        sb.block_size,
        sb.first_data_block,
        sb.first_data_block as u64,
        sb.total_blocks,
        sb.free_blocks,
        sb.total_blocks as i64 - sb.first_data_block as i64,
        0,
        block_number,
    );
    if r.is_ok() {
        sb.free_blocks = sb.free_blocks + 1;
        sb.last_write_time = now;
    }
    r
}

/// Takes back the data block `block_number`, as `free_block_at` does at the
/// current time.
pub fn free_block(bitmap: &mut [u8], sb: &mut Superblock, block_number: u32) -> (r: Result<
    (),
    FsError,
>)
    ensures
        r == block_pool(old(bitmap)@, *old(sb)).release_outcome(block_number),
        block_pool(final(bitmap)@, *final(sb)) == block_pool(
            old(bitmap)@,
            *old(sb),
        ).after_release(block_number),
        r is Ok ==> final(bitmap)@ == clear_bit(old(bitmap)@, block_number as int)
            && final(sb).last_write_time >= 0 && *final(sb) == (Superblock {
            free_blocks: (old(sb).free_blocks + 1) as u32,
            last_write_time: final(sb).last_write_time,
            ..*old(sb)
        }),
        r is Err ==> final(bitmap)@ == old(bitmap)@ && *final(sb) == *old(sb),
{
    let now = current_time();
    free_block_at(bitmap, sb, block_number, now)
}

/// Takes back the inode `inode_number` at time `now`: clears its bit in the
/// inode bitmap `bitmap`, adds one to `free_inodes` and notes `now` as the
/// time of the last write. Inode 0 and the root are never taken back. On an
/// error nothing changes.
pub fn free_inode_at(bitmap: &mut [u8], sb: &mut Superblock, inode_number: u32, now: i64) -> (r:
    Result<(), FsError>)
    ensures
        r == inode_pool(old(bitmap)@, *old(sb)).release_outcome(inode_number),
        inode_pool(final(bitmap)@, *final(sb)) == inode_pool(
            old(bitmap)@,
            *old(sb),
        ).after_release(inode_number),
        r is Ok ==> final(bitmap)@ == clear_bit(old(bitmap)@, inode_number as int) && *final(sb)
            == (Superblock {
            free_inodes: (old(sb).free_inodes + 1) as u32,
            last_write_time: now,
            ..*old(sb)
        }),
        r is Err ==> final(bitmap)@ == old(bitmap)@ && *final(sb) == *old(sb),
{
    let r = release(
        bitmap,
        sb.block_size,
        0,
        sb.root_inode as u64 + 1,
        sb.inode_count,
        sb.free_inodes,
        sb.inode_count as i64,
        1,
        inode_number,
    );
    if r.is_ok() {
        sb.free_inodes = sb.free_inodes + 1;
        sb.last_write_time = now;
    }
    r
}

/// Takes back the inode `inode_number`, as `free_inode_at` does at the
/// current time.
pub fn free_inode(bitmap: &mut [u8], sb: &mut Superblock, inode_number: u32) -> (r: Result<
    (),
    FsError,
>)
    ensures
        r == inode_pool(old(bitmap)@, *old(sb)).release_outcome(inode_number),
        inode_pool(final(bitmap)@, *final(sb)) == inode_pool(
            old(bitmap)@,
            *old(sb),
        ).after_release(inode_number),
        r is Ok ==> final(bitmap)@ == clear_bit(old(bitmap)@, inode_number as int)
            && final(sb).last_write_time >= 0 && *final(sb) == (Superblock {
            free_inodes: (old(sb).free_inodes + 1) as u32,
            last_write_time: final(sb).last_write_time,
            ..*old(sb)
        }),
        r is Err ==> final(bitmap)@ == old(bitmap)@ && *final(sb) == *old(sb),
{
    let now = current_time();
    free_inode_at(bitmap, sb, inode_number, now)
}

impl Pool {
    /// On a consistent pool a claim never fails: it hands out the lowest free
    /// unit while the counter is above the units held back and nothing once
    /// it has come down to them, it never hands out a unit below the floor,
    /// it leaves the pool consistent, and the next claim finds a higher unit.
    pub proof fn lemma_claim_consistent(self)
        requires
            self.consistent(),
        ensures
            self.free > self.held_back ==> self.claim_outcome() == Ok::<Option<u32>, FsError>(
                Some(self.next() as u32),
            ) && self.floor <= self.next() < self.to && !bit_is_set(self.bits, self.next()),
            self.free == self.held_back ==> self.claim_outcome() == Ok::<Option<u32>, FsError>(
                None,
            ) && self.next() == self.to,
            self.after_claim().consistent(),
            self.after_claim().free == if self.free > self.held_back {
                self.free - 1
            } else {
                self.free
            },
            self.after_claim().block_size == self.block_size,
            self.after_claim().from == self.from,
            self.after_claim().floor == self.floor,
            self.after_claim().to == self.to,
            self.after_claim().limit == self.limit,
            self.after_claim().held_back == self.held_back,
            self.after_claim().bits.len() == self.bits.len(),
            self.free > self.held_back ==> self.after_claim().next() > self.next(),
            forall|i: int|
                0 <= i < bit_len(self.bits) ==> (#[trigger] bit_is_set(self.after_claim().bits, i)
                    <==> bit_is_set(self.bits, i) || (self.free > self.held_back && i
                    == self.next())),
    {
        lemma_first_clear(self.bits, self.from, self.to);
        lemma_count_clear_bounds(self.bits, self.from, self.to);
        let unit = self.next();
        if unit < self.to {
            assert(!all_set(self.bits, self.from, self.to));
            lemma_set_bit(self.bits, unit);
            lemma_count_clear_after_set(self.bits, self.from, self.to, unit);
            let after = self.after_claim();
            assert(after.bits == set_bit(self.bits, unit));
            assert(all_set(after.bits, self.from, unit + 1));
            lemma_first_clear(after.bits, self.from, self.to);
            if after.next() <= unit {
                assert(bit_is_set(after.bits, after.next()));
            }
        }
    }

    /// On a consistent pool a unit that is in use and may be taken back is
    /// taken back, and the pool stays consistent.
    pub proof fn lemma_release_consistent(self, unit: u32)
        requires
            self.consistent(),
            self.floor <= unit < self.to,
            bit_is_set(self.bits, unit as int),
        ensures
            self.release_outcome(unit) is Ok,
            self.after_release(unit).consistent(),
            self.after_release(unit).free == self.free + 1,
            !bit_is_set(self.after_release(unit).bits, unit as int),
    {
        lemma_clear_bit(self.bits, unit as int);
        lemma_count_clear_after_clear(self.bits, self.from, self.to, unit as int);
        lemma_count_clear_after_clear(self.bits, self.floor, self.to, unit as int);
        lemma_count_clear_bounds(self.bits, self.floor, self.to);
        lemma_count_clear_bounds(clear_bit(self.bits, unit as int), self.floor, self.to);
        self.lemma_free_units_above_floor();
    }

    /// On a consistent pool, taking back the unit that a claim has just
    /// handed out leaves the pool as it was before the claim.
    pub proof fn lemma_release_undoes_claim(self, unit: u32)
        requires
            self.consistent(),
            self.claim_outcome() == Ok::<Option<u32>, FsError>(Some(unit)),
            unit >= self.floor,
        ensures
            self.after_claim().release_outcome(unit) is Ok,
            self.after_claim().after_release(unit) == self,
    {
        self.lemma_claim_consistent();
        lemma_set_bit(self.bits, unit as int);
        self.after_claim().lemma_release_consistent(unit);
        lemma_clear_after_set(self.bits, unit as int);
    }

    /// Between the two writes of a claim the disk never shows more free
    /// units than there are: with the counter written first, the new counter
    /// less the units held back is no larger than the number of clear bits of
    /// the old bitmap.
    pub proof fn lemma_claim_never_overstates(self)
        requires
            self.consistent(),
        ensures
            self.after_claim().free - self.held_back <= self.free_units(),
    {
        self.lemma_claim_consistent();
    }

    /// Between the two writes of a release the disk never shows more free
    /// units than there are: with the bitmap written first, the old counter
    /// less the units held back is no larger than the number of clear bits of
    /// the new bitmap.
    pub proof fn lemma_release_never_overstates(self, unit: u32)
        requires
            self.consistent(),
        ensures
            self.free - self.held_back <= self.after_release(unit).free_units(),
    {
        if self.release_outcome(unit) is Ok {
            self.lemma_release_consistent(unit);
        }
    }

    /// The units below the floor are in use, so every free unit lies at or
    /// above it.
    pub proof fn lemma_free_units_above_floor(self)
        requires
            self.from <= self.floor <= self.to,
            all_set(self.bits, self.from, self.floor),
        ensures
            count_clear(self.bits, self.from, self.to) == count_clear(
                self.bits,
                self.floor,
                self.to,
            ),
        decreases self.floor - self.from,
    {
        if self.from < self.floor {
            assert(bit_is_set(self.bits, self.from));
            let rest = Pool { from: self.from + 1, ..self };
            rest.lemma_free_units_above_floor();
        }
    }

    /// After `n` claims on a consistent pool with at least `n` free units,
    /// the pool is consistent, the counter is down by `n`, and the bits that
    /// are set are those that were set before and those of the units handed
    /// out.
    pub proof fn lemma_after_claims(self, n: nat)
        requires
            self.consistent(),
            n <= self.free - self.held_back,
        ensures
            self.after_claims(n).consistent(),
            self.after_claims(n).free == self.free - n,
            self.after_claims(n).block_size == self.block_size,
            self.after_claims(n).from == self.from,
            self.after_claims(n).floor == self.floor,
            self.after_claims(n).to == self.to,
            self.after_claims(n).limit == self.limit,
            self.after_claims(n).held_back == self.held_back,
            self.after_claims(n).bits.len() == self.bits.len(),
            forall|i: int|
                0 <= i < bit_len(self.bits) ==> (#[trigger] bit_is_set(self.after_claims(n).bits, i)
                    <==> bit_is_set(self.bits, i) || self.claimed_within(n, i)),
        decreases n,
    {
        if n > 0 {
            let before = self.after_claims((n - 1) as nat);
            self.lemma_after_claims((n - 1) as nat);
            before.lemma_claim_consistent();
            assert forall|i: int| 0 <= i < bit_len(self.bits) implies (#[trigger] bit_is_set(
                self.after_claims(n).bits,
                i,
            ) <==> bit_is_set(self.bits, i) || self.claimed_within(n, i)) by {
                assert(bit_is_set(before.after_claim().bits, i) <==> bit_is_set(before.bits, i)
                    || i == before.next());
            }
        }
    }

    /// Later claims hand out higher units.
    pub proof fn lemma_claims_increase(self, n: nat, m: nat)
        requires
            self.consistent(),
            n < m < self.free - self.held_back,
        ensures
            self.claimed(n) < self.claimed(m),
        decreases m,
    {
        let before = self.after_claims((m - 1) as nat);
        self.lemma_after_claims((m - 1) as nat);
        before.lemma_claim_consistent();
        if n < m - 1 {
            self.lemma_claims_increase(n, (m - 1) as nat);
        }
    }

    /// As many claims in a row as the pool has free units hand out that many
    /// units, each one free before and higher than the one before it; the
    /// claim after them finds nothing; and the bitmap then has exactly the
    /// bits set that were set before and those of the units handed out. The
    /// pool has as many free units as its counter shows above the units held
    /// back.
    pub proof fn lemma_claims_until_exhausted(self)
        requires
            self.consistent(),
        ensures
            forall|n: nat|
                n < self.free - self.held_back ==> #[trigger] self.after_claims(n).claim_outcome()
                    == Ok::<Option<u32>, FsError>(Some(self.claimed(n) as u32)) && self.from
                    <= self.claimed(n) < self.to && !bit_is_set(self.bits, self.claimed(n)),
            forall|n: nat, m: nat|
                n < m < self.free - self.held_back ==> #[trigger] self.claimed(n)
                    < #[trigger] self.claimed(m),
            self.after_claims((self.free - self.held_back) as nat).claim_outcome() == Ok::<
                Option<u32>,
                FsError,
            >(None),
            self.after_claims((self.free - self.held_back) as nat).free == self.held_back,
            forall|i: int|
                0 <= i < bit_len(self.bits) ==> (#[trigger] bit_is_set(
                    self.after_claims((self.free - self.held_back) as nat).bits,
                    i,
                ) <==> bit_is_set(self.bits, i) || self.claimed_within(
                    (self.free - self.held_back) as nat,
                    i,
                )),
            forall|i: int|
                self.from <= i < self.to ==> #[trigger] bit_is_set(
                    self.after_claims((self.free - self.held_back) as nat).bits,
                    i,
                ),
    {
        let all = (self.free - self.held_back) as nat;
        assert forall|n: nat| n < self.free - self.held_back implies #[trigger] self.after_claims(
            n,
        ).claim_outcome() == Ok::<Option<u32>, FsError>(Some(self.claimed(n) as u32)) && self.from
            <= self.claimed(n) < self.to && !bit_is_set(self.bits, self.claimed(n)) by {
            self.lemma_after_claims(n);
            self.after_claims(n).lemma_claim_consistent();
            assert(!bit_is_set(self.after_claims(n).bits, self.claimed(n)));
        }
        assert forall|n: nat, m: nat| n < m < self.free - self.held_back implies #[trigger] self.claimed(
            n,
        ) < #[trigger] self.claimed(m) by {
            self.lemma_claims_increase(n, m);
        }
        let last = self.after_claims(all);
        self.lemma_after_claims(all);
        last.lemma_claim_consistent();
        lemma_first_clear(last.bits, last.from, last.to);
    }

    /// On a pool whose units are all free, claim number `n`, counted from 0,
    /// hands out unit `from + n`, and the counter shows as many free units as
    /// the pool has units, above the units held back.
    pub proof fn lemma_claims_on_fresh(self, n: nat)
        requires
            self.consistent(),
            all_clear(self.bits, self.from, self.to),
            n < self.free - self.held_back,
        ensures
            self.free - self.held_back == self.to - self.from,
            self.claimed(n) == self.from + n,
            self.after_claims(n).claim_outcome() == Ok::<Option<u32>, FsError>(
                Some((self.from + n) as u32),
            ),
            all_set(self.after_claims(n).bits, self.from, self.from + n),
            all_clear(self.after_claims(n).bits, self.from + n, self.to),
        decreases n,
    {
        lemma_count_clear_bounds(self.bits, self.from, self.to);
        if n > 0 {
            let before = self.after_claims((n - 1) as nat);
            self.lemma_claims_on_fresh((n - 1) as nat);
            self.lemma_after_claims((n - 1) as nat);
            before.lemma_claim_consistent();
            let now = self.after_claims(n);
            assert(all_set(now.bits, self.from, self.from + n));
            assert(all_clear(now.bits, self.from + n, self.to));
        }
        lemma_first_clear_unique(self.after_claims(n).bits, self.from, self.to, self.from + n);
        self.lemma_after_claims(n);
        self.after_claims(n).lemma_claim_consistent();
    }
}

} // verus!

//! The arithmetic of the block store: where a block lies in the disk image,
//! and which requests the store refuses before it touches the image.
//!
//! The image is a flat file of `block_size * total_blocks` bytes that is
//! addressed in whole blocks only. Opening, seeking, reading and writing the
//! file is the caller's part; what is decided here is handed to it as plain
//! numbers.

use vstd::prelude::*;
use crate::error::FsError;

verus! {

/// The size in bytes of an image of `total_blocks` blocks of `block_size`
/// bytes.
pub fn image_size(block_size: u32, total_blocks: u32) -> (size: u64)
    ensures
        size == block_size * total_blocks,
{
    assert(block_size * total_blocks <= u64::MAX) by (nonlinear_arith)
        requires
            block_size <= u32::MAX,
            total_blocks <= u32::MAX,
    ;
    block_size as u64 * total_blocks as u64
}

/// The offset in the image of the first byte of block `block_number`.
pub fn block_offset(block_size: u32, block_number: u32) -> (offset: u64)
    ensures
        offset == block_size * block_number,
{
    image_size(block_size, block_number)
}

/// Checks the size asked for a new image and returns the offset of the
/// image's last byte, the one byte that is written to give a sparse file its
/// length. Fails with `InvalidArgument` for a size of zero.
pub fn last_byte_offset(size: u64) -> (r: Result<u64, FsError>)
    ensures
        r is Ok <==> size > 0,
        r matches Ok(offset) ==> offset == size - 1,
        r matches Err(e) ==> e == FsError::InvalidArgument,
{
    if size == 0 {
        Err(FsError::InvalidArgument)
    } else {
        Ok(size - 1)
    }
}

/// Checks a transfer of one block to or from a buffer of `buffer_len` bytes
/// and returns the offset in the image at which it takes place. Fails with
/// `InvalidArgument` when the buffer's length is not the block size.
pub fn transfer_offset(buffer_len: usize, block_size: u32, block_number: u32) -> (r: Result<
    u64,
    FsError,
>)
    ensures
        r is Ok <==> buffer_len == block_size,
        r matches Ok(offset) ==> offset == block_size * block_number,
        r matches Err(e) ==> e == FsError::InvalidArgument,
{
    if buffer_len != block_size as usize {
        Err(FsError::InvalidArgument)
    } else {
        Ok(block_offset(block_size, block_number))
    }
}

/// Whether block `block_number` lies wholly inside an image of `image_len`
/// bytes. A transfer of a block that does not is refused: the image never
/// grows.
pub fn block_within_image(block_size: u32, block_number: u32, image_len: u64) -> (inside: bool)
    ensures
        inside == (block_size * block_number + block_size <= image_len),
{
    let offset = block_offset(block_size, block_number);
    offset <= image_len && image_len - offset >= block_size as u64
}

/// Every block of an image lies wholly inside it, and a block ends where the
/// next one begins.
pub proof fn lemma_blocks_tile_image(block_size: u32, total_blocks: u32, block_number: u32)
    requires
        block_number < total_blocks,
    ensures
        block_size * block_number + block_size == block_size * (block_number + 1),
        block_size * (block_number + 1) <= block_size * total_blocks,
{
    assert(block_size * block_number + block_size == block_size * (block_number + 1))
        by (nonlinear_arith);
    assert(block_size * (block_number + 1) <= block_size * total_blocks) by (nonlinear_arith)
        requires
            block_number + 1 <= total_blocks,
            0 <= block_size,
    ;
}

} // verus!

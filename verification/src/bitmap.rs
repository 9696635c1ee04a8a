//! Packed bit vectors over a byte buffer.
//!
//! Bit `i` lives in byte `i / 8` at position `i % 8`, counted from the least
//! significant bit. A set bit marks a unit that is in use.

use vstd::prelude::*;
use crate::error::FsError;

verus! {

/// Whether position `k` of the byte `b` holds a one; position 0 is the least
/// significant bit.
pub open spec fn byte_has_bit(b: u8, k: u8) -> bool {
    b & (1u8 << k) != 0
}

/// Number of bits that the buffer `bytes` holds.
pub open spec fn bit_len(bytes: Seq<u8>) -> int {
    8 * (bytes.len() as int)
}

/// Whether bit `bit` of the bitmap `bytes` is set.
pub open spec fn bit_is_set(bytes: Seq<u8>, bit: int) -> bool
    recommends
        0 <= bit < bit_len(bytes),
{
    byte_has_bit(bytes[bit / 8], (bit % 8) as u8)
}

/// The bitmap `bytes` with bit `bit` set.
pub open spec fn set_bit(bytes: Seq<u8>, bit: int) -> Seq<u8>
    recommends
        0 <= bit < bit_len(bytes),
{
    bytes.update(bit / 8, bytes[bit / 8] | (1u8 << ((bit % 8) as u8)))
}

/// The bitmap `bytes` with bit `bit` cleared.
pub open spec fn clear_bit(bytes: Seq<u8>, bit: int) -> Seq<u8>
    recommends
        0 <= bit < bit_len(bytes),
{
    bytes.update(bit / 8, bytes[bit / 8] & !(1u8 << ((bit % 8) as u8)))
}

/// Every bit in `[from, to)` is set.
pub open spec fn all_set(bytes: Seq<u8>, from: int, to: int) -> bool {
    forall|i: int| from <= i < to ==> bit_is_set(bytes, i)
}

/// Every bit in `[from, to)` is clear.
pub open spec fn all_clear(bytes: Seq<u8>, from: int, to: int) -> bool {
    forall|i: int| from <= i < to ==> !bit_is_set(bytes, i)
}

/// The lowest index in `[from, to)` whose bit is clear, or `to` when every bit
/// of the range is set.
pub open spec fn first_clear(bytes: Seq<u8>, from: int, to: int) -> int
    decreases to - from,
{
    if from >= to {
        to
    } else if !bit_is_set(bytes, from) {
        from
    } else {
        first_clear(bytes, from + 1, to)
    }
}

/// What a scan of `[from, to)` for a clear bit reports: the lowest clear bit
/// of the range, or nothing when every bit of it is set.
pub open spec fn find_free_in(bytes: Seq<u8>, from: int, to: int) -> Option<u32> {
    if first_clear(bytes, from, to) < to {
        Some(first_clear(bytes, from, to) as u32)
    } else {
        None
    }
}

/// What a scan of the first `max` bits for a clear one reports.
pub open spec fn find_free(bytes: Seq<u8>, max: int) -> Option<u32> {
    find_free_in(bytes, 0, max)
}

/// The bitmap `bytes` after bits `0, 1, .., count - 1` were set one after the
/// other.
pub open spec fn set_bits_below(bytes: Seq<u8>, count: int) -> Seq<u8>
    decreases count,
{
    if count <= 0 {
        bytes
    } else {
        set_bit(set_bits_below(bytes, count - 1), count - 1)
    }
}

/// The number of clear bits in `[from, to)`.
pub open spec fn count_clear(bytes: Seq<u8>, from: int, to: int) -> nat
    decreases to - from,
{
    if from >= to {
        0
    } else if bit_is_set(bytes, from) {
        count_clear(bytes, from + 1, to)
    } else {
        1 + count_clear(bytes, from + 1, to)
    }
}

/// A scan of `[from, to)` ends inside the buffer: either the whole range lies
/// in it, or a clear bit of the range does.
pub open spec fn scan_stays_inside(bytes: Seq<u8>, from: int, to: int) -> bool {
    to <= bit_len(bytes) || exists|i: int|
        from <= i < bit_len(bytes) && i < to && !bit_is_set(bytes, i)
}

proof fn lemma_byte_set(b: u8, k: u8, j: u8)
    by (bit_vector)
    requires
        k < 8,
        j < 8,
    ensures
        byte_has_bit(b | (1u8 << k), j) <==> (j == k || byte_has_bit(b, j)),
{
}

proof fn lemma_byte_clear(b: u8, k: u8, j: u8)
    by (bit_vector)
    requires
        k < 8,
        j < 8,
    ensures
        byte_has_bit(b & !(1u8 << k), j) <==> (j != k && byte_has_bit(b, j)),
{
}

/// Setting a bit sets that bit, keeps every other bit, and keeps the length.
pub proof fn lemma_set_bit(bytes: Seq<u8>, bit: int)
    requires
        0 <= bit < bit_len(bytes),
    ensures
        set_bit(bytes, bit).len() == bytes.len(),
        forall|i: int|
            0 <= i < bit_len(bytes) ==> (#[trigger] bit_is_set(set_bit(bytes, bit), i) <==> (i
                == bit || bit_is_set(bytes, i))),
{
    assert forall|i: int| 0 <= i < bit_len(bytes) implies (#[trigger] bit_is_set(
        set_bit(bytes, bit),
        i,
    ) <==> (i == bit || bit_is_set(bytes, i))) by {
        if i / 8 == bit / 8 {
            lemma_byte_set(bytes[bit / 8], (bit % 8) as u8, (i % 8) as u8);
        }
    }
}

/// Clearing a bit clears that bit, keeps every other bit, and keeps the
/// length.
pub proof fn lemma_clear_bit(bytes: Seq<u8>, bit: int)
    requires
        0 <= bit < bit_len(bytes),
    ensures
        clear_bit(bytes, bit).len() == bytes.len(),
        forall|i: int|
            0 <= i < bit_len(bytes) ==> (#[trigger] bit_is_set(clear_bit(bytes, bit), i) <==> (i
                != bit && bit_is_set(bytes, i))),
{
    assert forall|i: int| 0 <= i < bit_len(bytes) implies (#[trigger] bit_is_set(
        clear_bit(bytes, bit),
        i,
    ) <==> (i != bit && bit_is_set(bytes, i))) by {
        if i / 8 == bit / 8 {
            lemma_byte_clear(bytes[bit / 8], (bit % 8) as u8, (i % 8) as u8);
        }
    }
}

/// Clearing a bit that was clear before it was set gives back the bitmap as
/// it was.
pub proof fn lemma_clear_after_set(bytes: Seq<u8>, bit: int)
    requires
        0 <= bit < bit_len(bytes),
        !bit_is_set(bytes, bit),
    ensures
        clear_bit(set_bit(bytes, bit), bit) == bytes,
{
    let b = bytes[bit / 8];
    let k = (bit % 8) as u8;
    assert((b | (1u8 << k)) & !(1u8 << k) == b) by (bit_vector)
        requires
            k < 8,
            b & (1u8 << k) == 0,
    ;
    assert(clear_bit(set_bit(bytes, bit), bit) =~= bytes);
}

/// `first_clear` names the lowest clear bit of the range: it lies in
/// `[from, to]`, every bit below it is set, and if it lies below `to` its own
/// bit is clear.
pub proof fn lemma_first_clear(bytes: Seq<u8>, from: int, to: int)
    requires
        from <= to,
    ensures
        from <= first_clear(bytes, from, to) <= to,
        all_set(bytes, from, first_clear(bytes, from, to)),
        first_clear(bytes, from, to) < to ==> !bit_is_set(bytes, first_clear(bytes, from, to)),
    decreases to - from,
{
    if from < to && bit_is_set(bytes, from) {
        lemma_first_clear(bytes, from + 1, to);
    }
}

/// An index with the properties of the lowest clear bit is `first_clear`.
pub proof fn lemma_first_clear_unique(bytes: Seq<u8>, from: int, to: int, at: int)
    requires
        from <= at <= to,
        all_set(bytes, from, at),
        at < to ==> !bit_is_set(bytes, at),
    ensures
        first_clear(bytes, from, to) == at,
    decreases to - from,
{
    if from < at {
        assert(bit_is_set(bytes, from));
        lemma_first_clear_unique(bytes, from + 1, to, at);
    }
}

/// Sets bit `bit`. Fails with `OutOfRange`, leaving the buffer as it was, when
/// the buffer has no such bit.
pub fn bitmap_set(bitmap: &mut [u8], bit: u32) -> (r: Result<(), FsError>)
    ensures
        r is Ok <==> bit < bit_len(old(bitmap)@),
        r matches Err(e) ==> e == FsError::OutOfRange && final(bitmap)@ == old(bitmap)@,
        r is Ok ==> final(bitmap)@ == set_bit(old(bitmap)@, bit as int),
        r is Ok ==> forall|i: int|
            0 <= i < bit_len(old(bitmap)@) ==> (#[trigger] bit_is_set(final(bitmap)@, i) <==> (i
                == bit || bit_is_set(old(bitmap)@, i))),
        final(bitmap)@.len() == old(bitmap)@.len(),
{
    let byte: usize = (bit / 8) as usize;
    if byte >= bitmap.len() {
        return Err(FsError::OutOfRange);
    }
    let offset: u8 = (bit % 8) as u8;
    proof {
        lemma_set_bit(bitmap@, bit as int);
    }
    bitmap[byte] = bitmap[byte] | (1u8 << offset);
    Ok(())
}

/// Clears bit `bit`. Fails with `OutOfRange`, leaving the buffer as it was,
/// when the buffer has no such bit.
pub fn bitmap_clear(bitmap: &mut [u8], bit: u32) -> (r: Result<(), FsError>)
    ensures
        r is Ok <==> bit < bit_len(old(bitmap)@),
        r matches Err(e) ==> e == FsError::OutOfRange && final(bitmap)@ == old(bitmap)@,
        r is Ok ==> final(bitmap)@ == clear_bit(old(bitmap)@, bit as int),
        r is Ok ==> forall|i: int|
            0 <= i < bit_len(old(bitmap)@) ==> (#[trigger] bit_is_set(final(bitmap)@, i) <==> (i
                != bit && bit_is_set(old(bitmap)@, i))),
        final(bitmap)@.len() == old(bitmap)@.len(),
{
    let byte: usize = (bit / 8) as usize;
    if byte >= bitmap.len() {
        return Err(FsError::OutOfRange);
    }
    let offset: u8 = (bit % 8) as u8;
    proof {
        lemma_clear_bit(bitmap@, bit as int);
    }
    bitmap[byte] = bitmap[byte] & !(1u8 << offset);
    Ok(())
}

/// Reads bit `bit`.
pub fn bitmap_test(bitmap: &[u8], bit: u32) -> (set: bool)
    requires
        bit < bit_len(bitmap@),
    ensures
        set == bit_is_set(bitmap@, bit as int),
{
    let byte: usize = (bit / 8) as usize;
    let offset: u8 = (bit % 8) as u8;
    (bitmap[byte] & (1u8 << offset)) != 0
}

/// Scans `[from, to)` upwards and returns the lowest clear bit, or `None` when
/// every bit of the range is set. The scan must end inside the buffer.
pub fn bitmap_find_free_in(bitmap: &[u8], from: u32, to: u32) -> (r: Option<u32>)
    requires
        scan_stays_inside(bitmap@, from as int, to as int),
    ensures
        r == find_free_in(bitmap@, from as int, to as int),
        match r {
            Some(b) => from <= b < to && !bit_is_set(bitmap@, b as int) && all_set(
                bitmap@,
                from as int,
                b as int,
            ),
            None => all_set(bitmap@, from as int, to as int),
        },
{
    let mut i: u32 = from;
    while i < to
        invariant
            from <= i,
            all_set(bitmap@, from as int, i as int),
            scan_stays_inside(bitmap@, from as int, to as int),
        decreases to - i,
    {
        if !bitmap_test(bitmap, i) {
            proof {
                lemma_first_clear_unique(bitmap@, from as int, to as int, i as int);
            }
            return Some(i);
        }
        i = i + 1;
    }
    proof {
        if from <= to {
            lemma_first_clear_unique(bitmap@, from as int, to as int, to as int);
        }
    }
    None
}

/// Scans the first `max` bits upwards and returns the lowest clear bit, or
/// `None` when all of them are set. The scan must end inside the buffer.
pub fn bitmap_find_free(bitmap: &[u8], max: u32) -> (r: Option<u32>)
    requires
        scan_stays_inside(bitmap@, 0, max as int),
    ensures
        r == find_free(bitmap@, max as int),
        match r {
            Some(b) => b < max && !bit_is_set(bitmap@, b as int) && all_set(bitmap@, 0, b as int),
            None => all_set(bitmap@, 0, max as int),
        },
{
    bitmap_find_free_in(bitmap, 0, max)
}

/// Counts the clear bits in `[from, to)`. The range must lie inside the
/// buffer.
pub fn bitmap_count_free(bitmap: &[u8], from: u32, to: u32) -> (count: u32)
    requires
        to <= bit_len(bitmap@),
    ensures
        count == count_clear(bitmap@, from as int, to as int),
{
    if from >= to {
        return 0;
    }
    let mut count: u32 = 0;
    let mut i: u32 = to;
    while i > from
        invariant
            from <= i <= to,
            to <= bit_len(bitmap@),
            count == count_clear(bitmap@, i as int, to as int),
            count <= to - i,
        decreases i - from,
    {
        i = i - 1;
        if !bitmap_test(bitmap, i) {
            count = count + 1;
        }
    }
    count
}

/// Whether every bit in `[from, to)` is set. The range must lie inside the
/// buffer.
pub fn bitmap_all_set(bitmap: &[u8], from: u32, to: u32) -> (all: bool)
    requires
        to <= bit_len(bitmap@),
    ensures
        all == all_set(bitmap@, from as int, to as int),
{
    match bitmap_find_free_in(bitmap, from, to) {
        Some(_) => false,
        None => true,
    }
}

/// Setting bits `0..count` sets exactly those bits and keeps all others.
pub proof fn lemma_set_bits_below(bytes: Seq<u8>, count: int)
    requires
        0 <= count <= bit_len(bytes),
    ensures
        set_bits_below(bytes, count).len() == bytes.len(),
        forall|i: int|
            0 <= i < bit_len(bytes) ==> (#[trigger] bit_is_set(set_bits_below(bytes, count), i)
                <==> (i < count || bit_is_set(bytes, i))),
    decreases count,
{
    if count > 0 {
        lemma_set_bits_below(bytes, count - 1);
        lemma_set_bit(set_bits_below(bytes, count - 1), count - 1);
    }
}

/// Sets bits `0..count`. Fails with `OutOfRange`, leaving the buffer as it
/// was, when the buffer has fewer than `count` bits.
pub fn bitmap_set_prefix(bitmap: &mut [u8], count: u32) -> (r: Result<(), FsError>)
    ensures
        r is Ok <==> count <= bit_len(old(bitmap)@),
        r matches Err(e) ==> e == FsError::OutOfRange && final(bitmap)@ == old(bitmap)@,
        r is Ok ==> final(bitmap)@ == set_bits_below(old(bitmap)@, count as int),
        r is Ok ==> forall|i: int|
            0 <= i < bit_len(old(bitmap)@) ==> (#[trigger] bit_is_set(final(bitmap)@, i) <==> (i
                < count || bit_is_set(old(bitmap)@, i))),
        final(bitmap)@.len() == old(bitmap)@.len(),
{
    let whole_bytes: usize = (count / 8) as usize;
    if whole_bytes > bitmap.len() || (whole_bytes == bitmap.len() && count % 8 != 0) {
        return Err(FsError::OutOfRange);
    }
    let mut i: u32 = 0;
    while i < count
        invariant
            i <= count,
            count <= bit_len(bitmap@),
            bitmap@ == set_bits_below(old(bitmap)@, i as int),
            bitmap@.len() == old(bitmap)@.len(),
        decreases count - i,
    {
        let set = bitmap_set(bitmap, i);
        assert(set is Ok);
        i = i + 1;
    }
    proof {
        lemma_set_bits_below(old(bitmap)@, count as int);
    }
    Ok(())
}

/// A bit reads as set right after it was set.
pub proof fn lemma_test_after_set(bytes: Seq<u8>, bit: int)
    requires
        0 <= bit < bit_len(bytes),
    ensures
        bit_is_set(set_bit(bytes, bit), bit),
{
    lemma_set_bit(bytes, bit);
}

/// A bit reads as clear right after it was cleared.
pub proof fn lemma_test_after_clear(bytes: Seq<u8>, bit: int)
    requires
        0 <= bit < bit_len(bytes),
    ensures
        !bit_is_set(clear_bit(bytes, bit), bit),
{
    lemma_clear_bit(bytes, bit);
}

/// In a buffer of zero bytes every bit is clear.
pub proof fn lemma_zero_bytes_all_clear(bytes: Seq<u8>)
    requires
        forall|i: int| 0 <= i < bytes.len() ==> bytes[i] == 0,
    ensures
        all_clear(bytes, 0, bit_len(bytes)),
{
    assert forall|i: int| 0 <= i < bit_len(bytes) implies !bit_is_set(bytes, i) by {
        let k = (i % 8) as u8;
        assert(0u8 & (1u8 << k) == 0) by (bit_vector);
    }
}

/// On a bitmap whose bits are all clear, a scan of at least one bit finds
/// bit 0.
pub proof fn lemma_find_free_all_clear(bytes: Seq<u8>, max: int)
    requires
        0 < max <= bit_len(bytes),
        all_clear(bytes, 0, bit_len(bytes)),
    ensures
        find_free(bytes, max) == Some(0u32),
{
    lemma_first_clear_unique(bytes, 0, max, 0);
}

/// On a bitmap whose bits were all clear before bits `0..k` were set, a scan
/// of more than `k` bits finds bit `k`.
pub proof fn lemma_find_free_after_prefix(bytes: Seq<u8>, k: int, max: int)
    requires
        0 <= k < max <= bit_len(bytes),
        max <= u32::MAX,
        all_clear(bytes, 0, bit_len(bytes)),
    ensures
        find_free(set_bits_below(bytes, k), max) == Some(k as u32),
{
    lemma_set_bits_below(bytes, k);
    lemma_first_clear_unique(set_bits_below(bytes, k), 0, max, k);
}

/// On a bitmap whose first `max` bits are all set, a scan of them finds
/// nothing.
pub proof fn lemma_find_free_all_set(bytes: Seq<u8>, max: int)
    requires
        0 <= max,
        all_set(bytes, 0, max),
    ensures
        find_free(bytes, max) is None,
{
    lemma_first_clear_unique(bytes, 0, max, max);
}

/// A range holds no more clear bits than bits; it holds none exactly when all
/// its bits are set, and as many as bits exactly when all are clear.
pub proof fn lemma_count_clear_bounds(bytes: Seq<u8>, from: int, to: int)
    requires
        from <= to,
    ensures
        count_clear(bytes, from, to) <= to - from,
        count_clear(bytes, from, to) == 0 <==> all_set(bytes, from, to),
        count_clear(bytes, from, to) == to - from <==> all_clear(bytes, from, to),
    decreases to - from,
{
    if from < to {
        lemma_count_clear_bounds(bytes, from + 1, to);
        if all_set(bytes, from, to) {
            assert(bit_is_set(bytes, from));
            assert(all_set(bytes, from + 1, to));
        }
        if all_clear(bytes, from, to) {
            assert(!bit_is_set(bytes, from));
            assert(all_clear(bytes, from + 1, to));
        }
    }
}

/// The count of clear bits depends on the bits of the range only.
pub proof fn lemma_count_clear_same(a: Seq<u8>, b: Seq<u8>, from: int, to: int)
    requires
        forall|i: int| from <= i < to ==> bit_is_set(a, i) == bit_is_set(b, i),
    ensures
        count_clear(a, from, to) == count_clear(b, from, to),
    decreases to - from,
{
    if from < to {
        lemma_count_clear_same(a, b, from + 1, to);
    }
}

/// Setting a clear bit of the range takes one from the count of clear bits.
pub proof fn lemma_count_clear_after_set(bytes: Seq<u8>, from: int, to: int, bit: int)
    requires
        0 <= from <= bit < to <= bit_len(bytes),
        !bit_is_set(bytes, bit),
    ensures
        count_clear(set_bit(bytes, bit), from, to) == count_clear(bytes, from, to) - 1,
    decreases to - from,
{
    lemma_set_bit(bytes, bit);
    if from == bit {
        lemma_count_clear_same(set_bit(bytes, bit), bytes, from + 1, to);
    } else {
        lemma_count_clear_after_set(bytes, from + 1, to, bit);
    }
}

/// Clearing a set bit of the range adds one to the count of clear bits.
pub proof fn lemma_count_clear_after_clear(bytes: Seq<u8>, from: int, to: int, bit: int)
    requires
        0 <= from <= bit < to <= bit_len(bytes),
        bit_is_set(bytes, bit),
    ensures
        count_clear(clear_bit(bytes, bit), from, to) == count_clear(bytes, from, to) + 1,
    decreases to - from,
{
    lemma_clear_bit(bytes, bit);
    if from == bit {
        lemma_count_clear_same(clear_bit(bytes, bit), bytes, from + 1, to);
    } else {
        lemma_count_clear_after_clear(bytes, from + 1, to, bit);
    }
}

} // verus!

//! Little-endian encodings of the integers that the on-disk records hold.
//!
//! Signed integers are stored in two's complement. Every encoding here is a
//! bijection between the values of the type and the byte strings of its
//! width, so a record can be read back exactly as it was written.

use vstd::prelude::*;
use crate::error::FsError;

verus! {

/// The two bytes of `x`, least significant first.
pub open spec fn le_bytes_u16(x: u16) -> Seq<u8> {
    seq![(x % 256) as u8, (x / 256) as u8]
}

/// The number whose two little-endian bytes start at `at` in `bytes`.
pub open spec fn u16_at(bytes: Seq<u8>, at: int) -> u16
    recommends
        0 <= at,
        at + 2 <= bytes.len(),
{
    (bytes[at] + 256 * bytes[at + 1]) as u16
}

/// The four bytes of `x`, least significant first.
pub open spec fn le_bytes_u32(x: u32) -> Seq<u8> {
    seq![
        (x % 256) as u8,
        (x / 256 % 256) as u8,
        (x / 65536 % 256) as u8,
        (x / 16777216) as u8,
    ]
}

/// The number whose four little-endian bytes start at `at` in `bytes`.
pub open spec fn u32_at(bytes: Seq<u8>, at: int) -> u32
    recommends
        0 <= at,
        at + 4 <= bytes.len(),
{
    (bytes[at] + 256 * bytes[at + 1] + 65536 * bytes[at + 2] + 16777216 * bytes[at + 3]) as u32
}

/// The eight bytes of `x`, least significant first.
pub open spec fn le_bytes_u64(x: u64) -> Seq<u8> {
    le_bytes_u32((x % 0x1_0000_0000) as u32) + le_bytes_u32((x / 0x1_0000_0000) as u32)
}

/// The number whose eight little-endian bytes start at `at` in `bytes`.
pub open spec fn u64_at(bytes: Seq<u8>, at: int) -> u64
    recommends
        0 <= at,
        at + 8 <= bytes.len(),
{
    (u32_at(bytes, at) + 0x1_0000_0000 * u32_at(bytes, at + 4)) as u64
}

/// The two's complement of `x` in 8 bits.
pub open spec fn twos_i8(x: i8) -> u8 {
    if x >= 0 {
        x as u8
    } else {
        (x + 0x100) as u8
    }
}

/// The signed value that `u` stands for in 8-bit two's complement.
pub open spec fn from_twos_i8(u: u8) -> i8 {
    if u < 0x80 {
        u as i8
    } else {
        (u - 0x100) as i8
    }
}

/// The two's complement of `x` in 32 bits.
pub open spec fn twos_i32(x: i32) -> u32 {
    if x >= 0 {
        x as u32
    } else {
        (x + 0x1_0000_0000) as u32
    }
}

/// The signed value that `u` stands for in 32-bit two's complement.
pub open spec fn from_twos_i32(u: u32) -> i32 {
    if u < 0x8000_0000 {
        u as i32
    } else {
        (u - 0x1_0000_0000) as i32
    }
}

/// The two's complement of `x` in 64 bits.
pub open spec fn twos_i64(x: i64) -> u64 {
    if x >= 0 {
        x as u64
    } else {
        (x + 0x1_0000_0000_0000_0000) as u64
    }
}

/// The signed value that `u` stands for in 64-bit two's complement.
pub open spec fn from_twos_i64(u: u64) -> i64 {
    if u < 0x8000_0000_0000_0000 {
        u as i64
    } else {
        (u - 0x1_0000_0000_0000_0000) as i64
    }
}

/// The four little-endian bytes of `x` in two's complement.
pub open spec fn le_bytes_i32(x: i32) -> Seq<u8> {
    le_bytes_u32(twos_i32(x))
}

/// The signed number whose four bytes start at `at` in `bytes`.
pub open spec fn i32_at(bytes: Seq<u8>, at: int) -> i32 {
    from_twos_i32(u32_at(bytes, at))
}

/// The eight little-endian bytes of `x` in two's complement.
pub open spec fn le_bytes_i64(x: i64) -> Seq<u8> {
    le_bytes_u64(twos_i64(x))
}

/// The signed number whose eight bytes start at `at` in `bytes`.
pub open spec fn i64_at(bytes: Seq<u8>, at: int) -> i64 {
    from_twos_i64(u64_at(bytes, at))
}

/// `count` zero bytes.
pub open spec fn zeros(count: nat) -> Seq<u8> {
    Seq::new(count, |i: int| 0u8)
}

/// The bytes `field` stand at `at` in `bytes`.
pub open spec fn holds_at(bytes: Seq<u8>, at: int, field: Seq<u8>) -> bool {
    &&& 0 <= at
    &&& at + field.len() <= bytes.len()
    &&& forall|i: int| 0 <= i < field.len() ==> bytes[at + i] == #[trigger] field[i]
}

/// The bytes `bytes` with `part` written over them from `at` onwards.
pub open spec fn overwritten(bytes: Seq<u8>, at: int, part: Seq<u8>) -> Seq<u8>
    recommends
        0 <= at,
        at + part.len() <= bytes.len(),
{
    bytes.subrange(0, at) + part + bytes.subrange(at + part.len(), bytes.len() as int)
}

proof fn lemma_u32_split(x: u32)
    by (bit_vector)
    ensures
        x / 16777216 < 256,
        x == x % 256 + 256 * (x / 256 % 256) + 65536 * (x / 65536 % 256) + 16777216 * (x
            / 16777216),
{
}

proof fn lemma_u32_join(b0: u8, b1: u8, b2: u8, b3: u8, x: u32)
    by (bit_vector)
    requires
        x == b0 as u32 + 256 * (b1 as u32) + 65536 * (b2 as u32) + 16777216 * (b3 as u32),
    ensures
        x % 256 == b0 as u32,
        x / 256 % 256 == b1 as u32,
        x / 65536 % 256 == b2 as u32,
        x / 16777216 == b3 as u32,
{
}

/// A `u16` is read back from its bytes, and two bytes are the encoding of
/// the number read from them.
pub proof fn lemma_u16_codec(x: u16, bytes: Seq<u8>, at: int)
    requires
        0 <= at,
        at + 2 <= bytes.len(),
    ensures
        le_bytes_u16(x).len() == 2,
        u16_at(le_bytes_u16(x), 0) == x,
        le_bytes_u16(u16_at(bytes, at)) == bytes.subrange(at, at + 2),
        bytes.subrange(at, at + 2) == le_bytes_u16(x) ==> u16_at(bytes, at) == x,
{
    let b = bytes.subrange(at, at + 2);
    assert(le_bytes_u16(u16_at(bytes, at)) =~= b);
    if b == le_bytes_u16(x) {
        assert(b[0] == bytes[at] && b[1] == bytes[at + 1]);
    }
}

/// A `u32` is read back from its bytes, and four bytes are the encoding of
/// the number read from them.
pub proof fn lemma_u32_codec(x: u32, bytes: Seq<u8>, at: int)
    requires
        0 <= at,
        at + 4 <= bytes.len(),
    ensures
        le_bytes_u32(x).len() == 4,
        u32_at(le_bytes_u32(x), 0) == x,
        le_bytes_u32(u32_at(bytes, at)) == bytes.subrange(at, at + 4),
        bytes.subrange(at, at + 4) == le_bytes_u32(x) ==> u32_at(bytes, at) == x,
{
    lemma_u32_split(x);
    let b = bytes.subrange(at, at + 4);
    let y = u32_at(bytes, at);
    lemma_u32_join(bytes[at], bytes[at + 1], bytes[at + 2], bytes[at + 3], y);
    assert(le_bytes_u32(y) =~= b);
    if b == le_bytes_u32(x) {
        assert(b[0] == bytes[at] && b[1] == bytes[at + 1] && b[2] == bytes[at + 2] && b[3]
            == bytes[at + 3]);
    }
}

/// A `u64` is read back from its bytes, and eight bytes are the encoding of
/// the number read from them.
pub proof fn lemma_u64_codec(x: u64, bytes: Seq<u8>, at: int)
    requires
        0 <= at,
        at + 8 <= bytes.len(),
    ensures
        le_bytes_u64(x).len() == 8,
        u64_at(le_bytes_u64(x), 0) == x,
        le_bytes_u64(u64_at(bytes, at)) == bytes.subrange(at, at + 8),
        bytes.subrange(at, at + 8) == le_bytes_u64(x) ==> u64_at(bytes, at) == x,
{
    lemma_u64_encoded(x);
    lemma_u64_decoded(bytes, at);
    if bytes.subrange(at, at + 8) == le_bytes_u64(x) {
        let y = u64_at(bytes, at);
        lemma_u64_encoded(y);
    }
}

proof fn lemma_u64_encoded(x: u64)
    ensures
        le_bytes_u64(x).len() == 8,
        u64_at(le_bytes_u64(x), 0) == x,
{
    let low = (x % 0x1_0000_0000) as u32;
    let high = (x / 0x1_0000_0000) as u32;
    let enc = le_bytes_u64(x);
    assert(enc.len() == 8);
    assert(u32_at(enc, 0) == low) by {
        assert(enc.subrange(0, 4) =~= le_bytes_u32(low));
        lemma_u32_codec(low, enc, 0);
    }
    assert(u32_at(enc, 4) == high) by {
        assert(enc.subrange(4, 8) =~= le_bytes_u32(high));
        lemma_u32_codec(high, enc, 4);
    }
    assert(x == low + 0x1_0000_0000 * high);
}

proof fn lemma_u64_halves(low: u32, high: u32, y: u64)
    by (bit_vector)
    requires
        y == low as u64 + 0x1_0000_0000 * (high as u64),
    ensures
        y % 0x1_0000_0000 == low as u64,
        y / 0x1_0000_0000 == high as u64,
{
}

proof fn lemma_u64_decoded(bytes: Seq<u8>, at: int)
    requires
        0 <= at,
        at + 8 <= bytes.len(),
    ensures
        le_bytes_u64(u64_at(bytes, at)) == bytes.subrange(at, at + 8),
{
    let a = u32_at(bytes, at);
    let b = u32_at(bytes, at + 4);
    let y = u64_at(bytes, at);
    assert(y == a + 0x1_0000_0000 * b);
    lemma_u64_halves(a, b, y);
    assert((y % 0x1_0000_0000) as u32 == a && (y / 0x1_0000_0000) as u32 == b);
    let low = bytes.subrange(at, at + 4);
    let high = bytes.subrange(at + 4, at + 8);
    assert(le_bytes_u32(a) == low) by {
        lemma_u32_codec(0, bytes, at);
    }
    assert(le_bytes_u32(b) == high) by {
        lemma_u32_codec(0, bytes, at + 4);
    }
    assert(le_bytes_u64(y) == low + high);
    assert(low + high =~= bytes.subrange(at, at + 8));
}

/// Two's complement in 8 bits loses nothing, in either direction.
pub proof fn lemma_twos_i8(x: i8, u: u8)
    ensures
        from_twos_i8(twos_i8(x)) == x,
        twos_i8(from_twos_i8(u)) == u,
{
}

/// Two's complement in 32 bits loses nothing, in either direction.
pub proof fn lemma_twos_i32(x: i32, u: u32)
    ensures
        from_twos_i32(twos_i32(x)) == x,
        twos_i32(from_twos_i32(u)) == u,
{
}

/// Two's complement in 64 bits loses nothing, in either direction.
pub proof fn lemma_twos_i64(x: i64, u: u64)
    ensures
        from_twos_i64(twos_i64(x)) == x,
        twos_i64(from_twos_i64(u)) == u,
{
}

/// Bytes that hold the encoding of a number at `at` read back as that number.
pub proof fn lemma_read_u16(bytes: Seq<u8>, at: int, x: u16)
    requires
        holds_at(bytes, at, le_bytes_u16(x)),
    ensures
        u16_at(bytes, at) == x,
{
    let f = le_bytes_u16(x);
    assert(bytes[at] == f[0] && bytes[at + 1] == f[1]);
    assert(bytes.subrange(at, at + 2) =~= f);
    lemma_u16_codec(x, bytes, at);
}

/// Bytes that hold the encoding of a number at `at` read back as that number.
pub proof fn lemma_read_u32(bytes: Seq<u8>, at: int, x: u32)
    requires
        holds_at(bytes, at, le_bytes_u32(x)),
    ensures
        u32_at(bytes, at) == x,
{
    let f = le_bytes_u32(x);
    assert(bytes[at] == f[0] && bytes[at + 1] == f[1] && bytes[at + 2] == f[2] && bytes[at + 3]
        == f[3]);
    assert(bytes.subrange(at, at + 4) =~= f);
    lemma_u32_codec(x, bytes, at);
}

/// Bytes that hold the encoding of a number at `at` read back as that number.
pub proof fn lemma_read_u64(bytes: Seq<u8>, at: int, x: u64)
    requires
        holds_at(bytes, at, le_bytes_u64(x)),
    ensures
        u64_at(bytes, at) == x,
{
    let f = le_bytes_u64(x);
    assert(f.len() == 8);
    assert forall|i: int| 0 <= i < 8 implies bytes[at + i] == f[i] by {
        assert(bytes[at + i] == f[i]);
    }
    assert(bytes.subrange(at, at + 8) =~= f);
    lemma_u64_codec(x, bytes, at);
}

/// Bytes that hold the encoding of a number at `at` read back as that number.
pub proof fn lemma_read_i32(bytes: Seq<u8>, at: int, x: i32)
    requires
        holds_at(bytes, at, le_bytes_i32(x)),
    ensures
        i32_at(bytes, at) == x,
{
    lemma_read_u32(bytes, at, twos_i32(x));
    lemma_twos_i32(x, 0);
}

/// Bytes that hold the encoding of a number at `at` read back as that number.
pub proof fn lemma_read_i64(bytes: Seq<u8>, at: int, x: i64)
    requires
        holds_at(bytes, at, le_bytes_i64(x)),
    ensures
        i64_at(bytes, at) == x,
{
    lemma_read_u64(bytes, at, twos_i64(x));
    lemma_twos_i64(x, 0);
}

/// A field that stands in a section stands in every byte string that holds
/// the section, further along by the section's own offset.
pub proof fn lemma_holds_in_section(
    bytes: Seq<u8>,
    start: int,
    section: Seq<u8>,
    at: int,
    field: Seq<u8>,
)
    requires
        holds_at(bytes, start, section),
        holds_at(section, at, field),
    ensures
        holds_at(bytes, start + at, field),
{
    assert forall|i: int| 0 <= i < field.len() implies bytes[start + at + i] == #[trigger] field[i] by {
        assert(section[at + i] == field[i]);
        assert(bytes[start + (at + i)] == section[at + i]);
    }
}

/// A number encoded at `at` in a section reads back from any byte string that
/// holds the section at `start`.
pub proof fn lemma_section_u16(bytes: Seq<u8>, start: int, section: Seq<u8>, at: int, x: u16)
    requires
        holds_at(bytes, start, section),
        holds_at(section, at, le_bytes_u16(x)),
    ensures
        u16_at(bytes, start + at) == x,
{
    lemma_holds_in_section(bytes, start, section, at, le_bytes_u16(x));
    lemma_read_u16(bytes, start + at, x);
}

/// A number encoded at `at` in a section reads back from any byte string that
/// holds the section at `start`.
pub proof fn lemma_section_u32(bytes: Seq<u8>, start: int, section: Seq<u8>, at: int, x: u32)
    requires
        holds_at(bytes, start, section),
        holds_at(section, at, le_bytes_u32(x)),
    ensures
        u32_at(bytes, start + at) == x,
{
    lemma_holds_in_section(bytes, start, section, at, le_bytes_u32(x));
    lemma_read_u32(bytes, start + at, x);
}

/// A number encoded at `at` in a section reads back from any byte string that
/// holds the section at `start`.
pub proof fn lemma_section_u64(bytes: Seq<u8>, start: int, section: Seq<u8>, at: int, x: u64)
    requires
        holds_at(bytes, start, section),
        holds_at(section, at, le_bytes_u64(x)),
    ensures
        u64_at(bytes, start + at) == x,
{
    lemma_holds_in_section(bytes, start, section, at, le_bytes_u64(x));
    lemma_read_u64(bytes, start + at, x);
}

/// A number encoded at `at` in a section reads back from any byte string that
/// holds the section at `start`.
pub proof fn lemma_section_i32(bytes: Seq<u8>, start: int, section: Seq<u8>, at: int, x: i32)
    requires
        holds_at(bytes, start, section),
        holds_at(section, at, le_bytes_i32(x)),
    ensures
        i32_at(bytes, start + at) == x,
{
    lemma_holds_in_section(bytes, start, section, at, le_bytes_i32(x));
    lemma_read_i32(bytes, start + at, x);
}

/// A number encoded at `at` in a section reads back from any byte string that
/// holds the section at `start`.
pub proof fn lemma_section_i64(bytes: Seq<u8>, start: int, section: Seq<u8>, at: int, x: i64)
    requires
        holds_at(bytes, start, section),
        holds_at(section, at, le_bytes_i64(x)),
    ensures
        i64_at(bytes, start + at) == x,
{
    lemma_holds_in_section(bytes, start, section, at, le_bytes_i64(x));
    lemma_read_i64(bytes, start + at, x);
}

/// The two's complement of `x` in 8 bits.
pub fn i8_to_byte(x: i8) -> (u: u8)
    ensures
        u == twos_i8(x),
{
    if x >= 0 {
        x as u8
    } else {
        255 - ((-(x + 1)) as u8)
    }
}

/// The signed value of the byte `u` in two's complement.
pub fn byte_to_i8(u: u8) -> (x: i8)
    ensures
        x == from_twos_i8(u),
{
    if u < 0x80 {
        u as i8
    } else {
        -((255 - u) as i8) - 1
    }
}

/// Appends the two little-endian bytes of `x`.
pub fn put_u16(out: &mut Vec<u8>, x: u16)
    ensures
        final(out)@ == old(out)@ + le_bytes_u16(x),
{
    out.push((x % 256) as u8);
    out.push((x / 256) as u8);
    assert(out@ =~= old(out)@ + le_bytes_u16(x));
}

/// Appends the four little-endian bytes of `x`.
pub fn put_u32(out: &mut Vec<u8>, x: u32)
    ensures
        final(out)@ == old(out)@ + le_bytes_u32(x),
{
    out.push((x % 256) as u8);
    out.push((x / 256 % 256) as u8);
    out.push((x / 65536 % 256) as u8);
    out.push((x / 16777216) as u8);
    assert(out@ =~= old(out)@ + le_bytes_u32(x));
}

/// Appends the eight little-endian bytes of `x`.
pub fn put_u64(out: &mut Vec<u8>, x: u64)
    ensures
        final(out)@ == old(out)@ + le_bytes_u64(x),
{
    put_u32(out, (x % 0x1_0000_0000) as u32);
    put_u32(out, (x / 0x1_0000_0000) as u32);
    assert(out@ =~= old(out)@ + le_bytes_u64(x));
}

/// Appends the four little-endian bytes of `x` in two's complement.
pub fn put_i32(out: &mut Vec<u8>, x: i32)
    ensures
        final(out)@ == old(out)@ + le_bytes_i32(x),
{
    let u: u32 = if x >= 0 {
        x as u32
    } else {
        u32::MAX - ((-(x + 1)) as u32)
    };
    put_u32(out, u);
}

/// Appends the eight little-endian bytes of `x` in two's complement.
pub fn put_i64(out: &mut Vec<u8>, x: i64)
    ensures
        final(out)@ == old(out)@ + le_bytes_i64(x),
{
    let u: u64 = if x >= 0 {
        x as u64
    } else {
        u64::MAX - ((-(x + 1)) as u64)
    };
    put_u64(out, u);
}

/// Appends `count` zero bytes.
pub fn put_zeros(out: &mut Vec<u8>, count: usize)
    ensures
        final(out)@ == old(out)@ + zeros(count as nat),
{
    let mut i: usize = 0;
    while i < count
        invariant
            i <= count,
            out@ == old(out)@ + zeros(i as nat),
        decreases count - i,
    {
        out.push(0);
        i = i + 1;
        assert(out@ =~= old(out)@ + zeros(i as nat));
    }
}

/// Reads the `u16` whose little-endian bytes start at `at`.
pub fn get_u16(bytes: &[u8], at: usize) -> (x: u16)
    requires
        at + 2 <= bytes.len(),
    ensures
        x == u16_at(bytes@, at as int),
{
    bytes[at] as u16 + 256 * (bytes[at + 1] as u16)
}

/// Reads the `u32` whose little-endian bytes start at `at`.
pub fn get_u32(bytes: &[u8], at: usize) -> (x: u32)
    requires
        at + 4 <= bytes.len(),
    ensures
        x == u32_at(bytes@, at as int),
{
    bytes[at] as u32 + 256 * (bytes[at + 1] as u32) + 65536 * (bytes[at + 2] as u32) + 16777216 * (
    bytes[at + 3] as u32)
}

/// Reads the `u64` whose little-endian bytes start at `at`.
pub fn get_u64(bytes: &[u8], at: usize) -> (x: u64)
    requires
        at + 8 <= bytes.len(),
    ensures
        x == u64_at(bytes@, at as int),
{
    let low: u32 = get_u32(bytes, at);
    let high: u32 = get_u32(bytes, at + 4);
    low as u64 + 0x1_0000_0000 * (high as u64)
}

/// Reads the `i32` whose two's complement bytes start at `at`.
pub fn get_i32(bytes: &[u8], at: usize) -> (x: i32)
    requires
        at + 4 <= bytes.len(),
    ensures
        x == i32_at(bytes@, at as int),
{
    let u: u32 = get_u32(bytes, at);
    if u < 0x8000_0000 {
        u as i32
    } else {
        -((u32::MAX - u) as i32) - 1
    }
}

/// Reads the `i64` whose two's complement bytes start at `at`.
pub fn get_i64(bytes: &[u8], at: usize) -> (x: i64)
    requires
        at + 8 <= bytes.len(),
    ensures
        x == i64_at(bytes@, at as int),
{
    let u: u64 = get_u64(bytes, at);
    if u < 0x8000_0000_0000_0000 {
        u as i64
    } else {
        -((u64::MAX - u) as i64) - 1
    }
}

/// What was written over some bytes stands there, and every byte outside it
/// is as before.
pub proof fn lemma_overwritten(bytes: Seq<u8>, at: int, part: Seq<u8>)
    requires
        0 <= at,
        at + part.len() <= bytes.len(),
    ensures
        overwritten(bytes, at, part).len() == bytes.len(),
        holds_at(overwritten(bytes, at, part), at, part),
        holds_at(overwritten(bytes, at, part).subrange(at, bytes.len() as int), 0, part),
        forall|i: int|
            0 <= i < bytes.len() && !(at <= i < at + part.len()) ==> overwritten(
                bytes,
                at,
                part,
            )[i] == bytes[i],
{
}

/// Copies `part` into `dest` from `at` onwards. Fails with `OutOfRange`,
/// leaving `dest` as it was, when `part` does not fit there.
pub fn overwrite(dest: &mut [u8], at: usize, part: &[u8]) -> (r: Result<(), FsError>)
    ensures
        r is Ok <==> at + part@.len() <= old(dest)@.len(),
        r is Ok ==> final(dest)@ == overwritten(old(dest)@, at as int, part@),
        r matches Err(e) ==> e == FsError::OutOfRange && final(dest)@ == old(dest)@,
        final(dest)@.len() == old(dest)@.len(),
{
    if at > dest.len() || part.len() > dest.len() - at {
        return Err(FsError::OutOfRange);
    }
    let mut i: usize = 0;
    while i < part.len()
        invariant
            i <= part.len(),
            at + part.len() <= dest.len(),
            dest@.len() == old(dest)@.len(),
            dest@ == overwritten(old(dest)@, at as int, part@.subrange(0, i as int)),
        decreases part.len() - i,
    {
        dest[at + i] = part[i];
        i = i + 1;
        assert(dest@ =~= overwritten(old(dest)@, at as int, part@.subrange(0, i as int)));
    }
    assert(part@.subrange(0, part@.len() as int) =~= part@);
    Ok(())
}

/// A buffer of `len` zero bytes.
pub fn zeroed(len: usize) -> (out: Vec<u8>)
    ensures
        out@ == zeros(len as nat),
{
    let mut out: Vec<u8> = Vec::new();
    put_zeros(&mut out, len);
    assert(out@ =~= zeros(len as nat));
    out
}

} // verus!

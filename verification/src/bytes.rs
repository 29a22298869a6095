//! Byte-string helpers shared by the codecs of this crate.
use vstd::prelude::*;

verus! {

/// The four bytes of `value`, most significant first.
pub open spec fn u32_be(value: u32) -> Seq<u8> {
    seq![
        (value / 0x100_0000) as u8,
        (value / 0x1_0000 % 0x100) as u8,
        (value / 0x100 % 0x100) as u8,
        (value % 0x100) as u8,
    ]
}

/// The number whose big-endian bytes are `bytes[at .. at + 4]`.
pub open spec fn u32_from_be(bytes: Seq<u8>, at: int) -> int
    recommends
        0 <= at,
        at + 4 <= bytes.len(),
{
    bytes[at] * 0x100_0000 + bytes[at + 1] * 0x1_0000 + bytes[at + 2] * 0x100 + bytes[at + 3]
}

/// Reading back the big-endian bytes of a number gives the number, wherever
/// in a byte string they stand.
pub proof fn lemma_u32_be_round_trip(value: u32, before: Seq<u8>, after: Seq<u8>)
    ensures
        u32_be(value).len() == 4,
        u32_from_be(before + u32_be(value) + after, before.len() as int) == value,
{
    let whole = before + u32_be(value) + after;
    let at = before.len() as int;
    assert(whole[at] == u32_be(value)[0]);
    assert(whole[at + 1] == u32_be(value)[1]);
    assert(whole[at + 2] == u32_be(value)[2]);
    assert(whole[at + 3] == u32_be(value)[3]);
}

/// The digits of a number written in base 256 are recovered by division.
proof fn lemma_base_256_digits(b0: int, b1: int, b2: int, b3: int)
    requires
        0 <= b0 < 0x100,
        0 <= b1 < 0x100,
        0 <= b2 < 0x100,
        0 <= b3 < 0x100,
    ensures
        ({
            let value = b0 * 0x100_0000 + b1 * 0x1_0000 + b2 * 0x100 + b3;
            &&& 0 <= value <= u32::MAX
            &&& value / 0x100_0000 == b0
            &&& value / 0x1_0000 % 0x100 == b1
            &&& value / 0x100 % 0x100 == b2
            &&& value % 0x100 == b3
        }),
{
    let value = b0 * 0x100_0000 + b1 * 0x1_0000 + b2 * 0x100 + b3;
    let high = b0 * 0x1_0000 + b1 * 0x100 + b2;
    assert(value == high * 0x100 + b3);
    assert(value / 0x100 == high && value % 0x100 == b3);
    let higher = b0 * 0x100 + b1;
    assert(high == higher * 0x100 + b2);
    assert(high / 0x100 == higher && high % 0x100 == b2);
    assert(higher / 0x100 == b0 && higher % 0x100 == b1);
    assert(value / 0x1_0000 == higher);
    assert(value / 0x100_0000 == b0);
}

/// Writing out the number read from four bytes gives those four bytes.
pub proof fn lemma_u32_from_be_round_trip(bytes: Seq<u8>, at: int)
    requires
        0 <= at,
        at + 4 <= bytes.len(),
    ensures
        0 <= u32_from_be(bytes, at) <= u32::MAX,
        u32_be(u32_from_be(bytes, at) as u32) == bytes.subrange(at, at + 4),
{
    lemma_base_256_digits(
        bytes[at] as int,
        bytes[at + 1] as int,
        bytes[at + 2] as int,
        bytes[at + 3] as int,
    );
    assert(u32_be(u32_from_be(bytes, at) as u32) =~= bytes.subrange(at, at + 4));
}

/// Encodes `value` as four big-endian bytes.
pub fn u32_to_be_bytes(value: u32) -> (bytes: Vec<u8>)
    ensures
        bytes@ == u32_be(value),
{
    let mut bytes: Vec<u8> = Vec::new();
    bytes.push((value / 0x100_0000) as u8);
    bytes.push((value / 0x1_0000 % 0x100) as u8);
    bytes.push((value / 0x100 % 0x100) as u8);
    bytes.push((value % 0x100) as u8);
    assert(bytes@ =~= u32_be(value));
    bytes
}

/// Reads the big-endian number stored in `bytes[at .. at + 4]`.
pub fn read_u32_be(bytes: &[u8], at: usize) -> (value: u32)
    requires
        at + 4 <= bytes@.len(),
    ensures
        value == u32_from_be(bytes@, at as int),
{
    let b0: u32 = bytes[at] as u32;
    let b1: u32 = bytes[at + 1] as u32;
    let b2: u32 = bytes[at + 2] as u32;
    let b3: u32 = bytes[at + 3] as u32;
    b0 * 0x100_0000 + b1 * 0x1_0000 + b2 * 0x100 + b3
}

/// Appends a copy of `source` to `target`.
pub fn append_bytes(target: &mut Vec<u8>, source: &[u8])
    ensures
        final(target)@ == old(target)@ + source@,
{
    let ghost start = target@;
    let mut i: usize = 0;
    while i < source.len()
        invariant
            i <= source@.len(),
            target@ == start + source@.subrange(0, i as int),
        decreases source@.len() - i,
    {
        target.push(source[i]);
        assert(target@ =~= start + source@.subrange(0, i + 1));
        i += 1;
    }
    assert(source@.subrange(0, i as int) =~= source@);
}

/// A copy of `bytes[from .. to]`.
pub fn copy_range(bytes: &[u8], from: usize, to: usize) -> (copy: Vec<u8>)
    requires
        from <= to <= bytes@.len(),
    ensures
        copy@ == bytes@.subrange(from as int, to as int),
{
    let mut copy: Vec<u8> = Vec::new();
    let mut i: usize = from;
    while i < to
        invariant
            from <= i <= to <= bytes@.len(),
            copy@ == bytes@.subrange(from as int, i as int),
        decreases to - i,
    {
        copy.push(bytes[i]);
        assert(copy@ =~= bytes@.subrange(from as int, i + 1));
        i += 1;
    }
    copy
}

/// Whether two byte strings hold the same bytes.
pub fn bytes_equal(left: &[u8], right: &[u8]) -> (same: bool)
    ensures
        same == (left@ == right@),
{
    if left.len() != right.len() {
        return false;
    }
    let mut i: usize = 0;
    while i < left.len()
        invariant
            i <= left@.len(),
            left@.len() == right@.len(),
            left@.subrange(0, i as int) == right@.subrange(0, i as int),
        decreases left@.len() - i,
    {
        if left[i] != right[i] {
            return false;
        }
        assert(left@.subrange(0, i + 1) =~= left@.subrange(0, i as int).push(left@[i as int]));
        assert(right@.subrange(0, i + 1) =~= right@.subrange(0, i as int).push(right@[i as int]));
        i += 1;
    }
    assert(left@ =~= left@.subrange(0, i as int));
    assert(right@ =~= right@.subrange(0, i as int));
    true
}

} // verus!

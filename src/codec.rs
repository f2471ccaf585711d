use vstd::prelude::*;

verus! {

/// Big-endian value of two bytes.
pub open spec fn be_u16(b0: u8, b1: u8) -> u16 {
    ((b0 as u16) << 8u16) | (b1 as u16)
}

/// Big-endian value of three bytes.
pub open spec fn be_u24(b0: u8, b1: u8, b2: u8) -> u32 {
    ((b0 as u32) << 16u32) | ((b1 as u32) << 8u32) | (b2 as u32)
}

/// Big-endian value of six bytes.
pub open spec fn be_u48(b0: u8, b1: u8, b2: u8, b3: u8, b4: u8, b5: u8) -> u64 {
    ((b0 as u64) << 40u64) | ((b1 as u64) << 32u64) | ((b2 as u64) << 24u64) | ((b3 as u64)
        << 16u64) | ((b4 as u64) << 8u64) | (b5 as u64)
}

/// The byte of `x` that starts at bit `shift`.
pub open spec fn byte_of_u16(x: u16, shift: u16) -> u8 {
    ((x >> shift) & 0xffu16) as u8
}

pub open spec fn byte_of_u32(x: u32, shift: u32) -> u8 {
    ((x >> shift) & 0xffu32) as u8
}

pub open spec fn byte_of_u64(x: u64, shift: u64) -> u8 {
    ((x >> shift) & 0xffu64) as u8
}

/// The two bytes of `x`, most significant first.
pub open spec fn u16_bytes(x: u16) -> Seq<u8> {
    seq![byte_of_u16(x, 8), byte_of_u16(x, 0)]
}

/// The three low bytes of `x`, most significant first.
pub open spec fn u24_bytes(x: u32) -> Seq<u8> {
    seq![byte_of_u32(x, 16), byte_of_u32(x, 8), byte_of_u32(x, 0)]
}

/// The six low bytes of `x`, most significant first.
pub open spec fn u48_bytes(x: u64) -> Seq<u8> {
    seq![
        byte_of_u64(x, 40),
        byte_of_u64(x, 32),
        byte_of_u64(x, 24),
        byte_of_u64(x, 16),
        byte_of_u64(x, 8),
        byte_of_u64(x, 0),
    ]
}

pub proof fn lemma_u16_encode_decode(x: u16)
    ensures
        be_u16(byte_of_u16(x, 8), byte_of_u16(x, 0)) == x,
{
    assert(((((((x >> 8u16) & 0xffu16) as u8) as u16) << 8u16) | ((((x >> 0u16) & 0xffu16) as u8)
        as u16)) == x) by (bit_vector);
}

pub proof fn lemma_u16_decode_encode(b0: u8, b1: u8)
    ensures
        byte_of_u16(be_u16(b0, b1), 8) == b0,
        byte_of_u16(be_u16(b0, b1), 0) == b1,
{
    assert(((((((b0 as u16) << 8u16) | (b1 as u16)) >> 8u16) & 0xffu16) as u8) == b0)
        by (bit_vector);
    assert(((((((b0 as u16) << 8u16) | (b1 as u16)) >> 0u16) & 0xffu16) as u8) == b1)
        by (bit_vector);
}

pub proof fn lemma_u24_encode_decode(x: u32)
    requires
        x < 0x100_0000,
    ensures
        be_u24(byte_of_u32(x, 16), byte_of_u32(x, 8), byte_of_u32(x, 0)) == x,
{
    assert(x < 0x100_0000 ==> ((((((x >> 16u32) & 0xffu32) as u8) as u32) << 16u32) | (((((x
        >> 8u32) & 0xffu32) as u8) as u32) << 8u32) | ((((x >> 0u32) & 0xffu32) as u8) as u32))
        == x) by (bit_vector);
}

pub proof fn lemma_u24_decode_encode(b0: u8, b1: u8, b2: u8)
    ensures
        be_u24(b0, b1, b2) < 0x100_0000,
        byte_of_u32(be_u24(b0, b1, b2), 16) == b0,
        byte_of_u32(be_u24(b0, b1, b2), 8) == b1,
        byte_of_u32(be_u24(b0, b1, b2), 0) == b2,
{
    let v = be_u24(b0, b1, b2);
    assert(v == ((b0 as u32) << 16u32) | ((b1 as u32) << 8u32) | (b2 as u32));
    assert((((b0 as u32) << 16u32) | ((b1 as u32) << 8u32) | (b2 as u32)) < 0x100_0000)
        by (bit_vector);
    assert((((((b0 as u32) << 16u32) | ((b1 as u32) << 8u32) | (b2 as u32)) >> 16u32) & 0xffu32)
        as u8 == b0) by (bit_vector);
    assert((((((b0 as u32) << 16u32) | ((b1 as u32) << 8u32) | (b2 as u32)) >> 8u32) & 0xffu32)
        as u8 == b1) by (bit_vector);
    assert((((((b0 as u32) << 16u32) | ((b1 as u32) << 8u32) | (b2 as u32)) >> 0u32) & 0xffu32)
        as u8 == b2) by (bit_vector);
}

pub proof fn lemma_u48_encode_decode(x: u64)
    requires
        x <= 0xffff_ffff_ffff,
    ensures
        be_u48(
            byte_of_u64(x, 40),
            byte_of_u64(x, 32),
            byte_of_u64(x, 24),
            byte_of_u64(x, 16),
            byte_of_u64(x, 8),
            byte_of_u64(x, 0),
        ) == x,
{
    assert(x <= 0xffff_ffff_ffff ==> ((((((x >> 40u64) & 0xffu64) as u8) as u64) << 40u64) | (((((
    x >> 32u64) & 0xffu64) as u8) as u64) << 32u64) | (((((x >> 24u64) & 0xffu64) as u8) as u64)
        << 24u64) | (((((x >> 16u64) & 0xffu64) as u8) as u64) << 16u64) | (((((x >> 8u64)
        & 0xffu64) as u8) as u64) << 8u64) | ((((x >> 0u64) & 0xffu64) as u8) as u64)) == x)
        by (bit_vector);
}

pub proof fn lemma_u48_decode_encode(b0: u8, b1: u8, b2: u8, b3: u8, b4: u8, b5: u8)
    ensures
        be_u48(b0, b1, b2, b3, b4, b5) <= 0xffff_ffff_ffff,
        u48_bytes(be_u48(b0, b1, b2, b3, b4, b5)) == seq![b0, b1, b2, b3, b4, b5],
{
    let v = be_u48(b0, b1, b2, b3, b4, b5);
    assert(v == ((b0 as u64) << 40u64) | ((b1 as u64) << 32u64) | ((b2 as u64) << 24u64) | ((
    b3 as u64) << 16u64) | ((b4 as u64) << 8u64) | (b5 as u64));
    assert(v <= 0xffff_ffff_ffff && byte_of_u64(v, 40) == b0 && byte_of_u64(v, 32) == b1
        && byte_of_u64(v, 24) == b2 && byte_of_u64(v, 16) == b3 && byte_of_u64(v, 8) == b4
        && byte_of_u64(v, 0) == b5) by {
        assert((((b0 as u64) << 40u64) | ((b1 as u64) << 32u64) | ((b2 as u64) << 24u64) | ((
        b3 as u64) << 16u64) | ((b4 as u64) << 8u64) | (b5 as u64)) <= 0xffff_ffff_ffff)
            by (bit_vector);
        assert(((((((b0 as u64) << 40u64) | ((b1 as u64) << 32u64) | ((b2 as u64) << 24u64) | ((
        b3 as u64) << 16u64) | ((b4 as u64) << 8u64) | (b5 as u64)) >> 40u64) & 0xffu64) as u8)
            == b0) by (bit_vector);
        assert(((((((b0 as u64) << 40u64) | ((b1 as u64) << 32u64) | ((b2 as u64) << 24u64) | ((
        b3 as u64) << 16u64) | ((b4 as u64) << 8u64) | (b5 as u64)) >> 32u64) & 0xffu64) as u8)
            == b1) by (bit_vector);
        assert(((((((b0 as u64) << 40u64) | ((b1 as u64) << 32u64) | ((b2 as u64) << 24u64) | ((
        b3 as u64) << 16u64) | ((b4 as u64) << 8u64) | (b5 as u64)) >> 24u64) & 0xffu64) as u8)
            == b2) by (bit_vector);
        assert(((((((b0 as u64) << 40u64) | ((b1 as u64) << 32u64) | ((b2 as u64) << 24u64) | ((
        b3 as u64) << 16u64) | ((b4 as u64) << 8u64) | (b5 as u64)) >> 16u64) & 0xffu64) as u8)
            == b3) by (bit_vector);
        assert(((((((b0 as u64) << 40u64) | ((b1 as u64) << 32u64) | ((b2 as u64) << 24u64) | ((
        b3 as u64) << 16u64) | ((b4 as u64) << 8u64) | (b5 as u64)) >> 8u64) & 0xffu64) as u8)
            == b4) by (bit_vector);
        assert(((((((b0 as u64) << 40u64) | ((b1 as u64) << 32u64) | ((b2 as u64) << 24u64) | ((
        b3 as u64) << 16u64) | ((b4 as u64) << 8u64) | (b5 as u64)) >> 0u64) & 0xffu64) as u8)
            == b5) by (bit_vector);
    }
    assert(u48_bytes(v) =~= seq![b0, b1, b2, b3, b4, b5]);
}

/// Appends the two big-endian bytes of `x`.
pub fn push_u16(out: &mut Vec<u8>, x: u16)
    ensures
        final(out)@ == old(out)@ + u16_bytes(x),
{
    out.push(((x >> 8u16) & 0xffu16) as u8);
    out.push((x & 0xffu16) as u8);
    assert(x == (x >> 0u16)) by (bit_vector);
    assert(final(out)@ =~= old(out)@ + u16_bytes(x));
}

/// Appends the three low big-endian bytes of `x`.
pub fn push_u24(out: &mut Vec<u8>, x: u32)
    ensures
        final(out)@ == old(out)@ + u24_bytes(x),
{
    out.push(((x >> 16u32) & 0xffu32) as u8);
    out.push(((x >> 8u32) & 0xffu32) as u8);
    out.push((x & 0xffu32) as u8);
    assert(x == (x >> 0u32)) by (bit_vector);
    assert(final(out)@ =~= old(out)@ + u24_bytes(x));
}

/// Appends the six low big-endian bytes of `x`.
pub fn push_u48(out: &mut Vec<u8>, x: u64)
    ensures
        final(out)@ == old(out)@ + u48_bytes(x),
{
    out.push(((x >> 40u64) & 0xffu64) as u8);
    out.push(((x >> 32u64) & 0xffu64) as u8);
    out.push(((x >> 24u64) & 0xffu64) as u8);
    out.push(((x >> 16u64) & 0xffu64) as u8);
    out.push(((x >> 8u64) & 0xffu64) as u8);
    out.push((x & 0xffu64) as u8);
    assert(x == (x >> 0u64)) by (bit_vector);
    assert(final(out)@ =~= old(out)@ + u48_bytes(x));
}

} // verus!

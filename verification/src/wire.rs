use vstd::prelude::*;

use endian_codec::{DecodeBE, EncodeBE};

verus! {

/// The big-endian bytes of a 16-bit value.
pub open spec fn be16(v: u16) -> Seq<u8> {
    seq![(v / 256) as u8, (v % 256) as u8]
}

/// The big-endian bytes of a 32-bit value.
pub open spec fn be32(v: u32) -> Seq<u8> {
    seq![
        (v / 0x100_0000) as u8,
        ((v / 0x1_0000) % 256) as u8,
        ((v / 256) % 256) as u8,
        (v % 256) as u8,
    ]
}

/// The 16-bit value whose big-endian bytes start `b`.
pub open spec fn from_be16(b: Seq<u8>) -> u16 {
    (b[0] * 256 + b[1]) as u16
}

/// The 32-bit value whose big-endian bytes start `b`.
pub open spec fn from_be32(b: Seq<u8>) -> u32 {
    (b[0] * 0x100_0000 + b[1] * 0x1_0000 + b[2] * 256 + b[3]) as u32
}

/// Decoding the encoding of a value gives the value back, and the encoding has its size.
pub proof fn lemma_be16_roundtrip(v: u16)
    ensures
        be16(v).len() == 2,
        from_be16(be16(v)) == v,
{
}

/// Decoding the encoding of a value gives the value back, and the encoding has its size.
pub proof fn lemma_be32_roundtrip(v: u32)
    ensures
        be32(v).len() == 4,
        from_be32(be32(v)) == v,
{
    let b = be32(v);
    assert(b[0] * 0x100_0000 + b[1] * 0x1_0000 + b[2] * 256 + b[3] == v);
}

/// Encoding the value read from two bytes gives those bytes back.
pub proof fn lemma_from_be16_roundtrip(b: Seq<u8>)
    requires
        b.len() == 2,
    ensures
        be16(from_be16(b)) == b,
{
    assert(be16(from_be16(b)) =~= b);
}

/// Encoding the value read from four bytes gives those bytes back.
pub proof fn lemma_from_be32_roundtrip(b: Seq<u8>)
    requires
        b.len() == 4,
    ensures
        be32(from_be32(b)) == b,
{
    let (b0, b1, b2, b3) = (b[0] as int, b[1] as int, b[2] as int, b[3] as int);
    let v = b0 * 0x100_0000 + b1 * 0x1_0000 + b2 * 256 + b3;
    assert(0 <= v < 0x1_0000_0000) by (nonlinear_arith)
        requires
            0 <= b0 < 256,
            0 <= b1 < 256,
            0 <= b2 < 256,
            0 <= b3 < 256,
            v == b0 * 0x100_0000 + b1 * 0x1_0000 + b2 * 256 + b3,
    ;
    assert(v / 0x100_0000 == b0 && (v / 0x1_0000) % 256 == b1 && (v / 256) % 256 == b2 && v
        % 256 == b3) by (nonlinear_arith)
        requires
            0 <= b0 < 256,
            0 <= b1 < 256,
            0 <= b2 < 256,
            0 <= b3 < 256,
            v == b0 * 0x100_0000 + b1 * 0x1_0000 + b2 * 256 + b3,
    ;
    assert(from_be32(b) == v);
    assert(be32(from_be32(b)) =~= b);
}

/// `endian_codec`'s big-endian encoder for `u16`, into a two-byte buffer.
/// Trusted: `encode_as_be_bytes` copies `to_be_bytes` into the buffer, high byte first.
#[verifier::external_body]
fn u16_to_be(v: u16) -> (r: [u8; 2])
    ensures
        r@ == be16(v),
{
    let mut b = [0u8; 2];
    EncodeBE::encode_as_be_bytes(&v, &mut b);
    b
}

/// `endian_codec`'s big-endian encoder for `u32`, into a four-byte buffer.
/// Trusted: `encode_as_be_bytes` copies `to_be_bytes` into the buffer, high byte first.
#[verifier::external_body]
fn u32_to_be(v: u32) -> (r: [u8; 4])
    ensures
        r@ == be32(v),
{
    let mut b = [0u8; 4];
    EncodeBE::encode_as_be_bytes(&v, &mut b);
    b
}

/// `endian_codec`'s big-endian decoder for `u16`.
/// Trusted: `decode_from_be_bytes` reads exactly two bytes, high byte first; it panics on
/// any other length, which `requires` rules out.
#[verifier::external_body]
fn u16_from_be(b: &[u8]) -> (r: u16)
    requires
        b@.len() == 2,
    ensures
        r == from_be16(b@),
{
    <u16 as DecodeBE>::decode_from_be_bytes(b)
}

/// `endian_codec`'s big-endian decoder for `u32`.
/// Trusted: `decode_from_be_bytes` reads exactly four bytes, high byte first; it panics on
/// any other length, which `requires` rules out.
#[verifier::external_body]
fn u32_from_be(b: &[u8]) -> (r: u32)
    requires
        b@.len() == 4,
    ensures
        r == from_be32(b@),
{
    <u32 as DecodeBE>::decode_from_be_bytes(b)
}

/// Appends the big-endian bytes of `v`.
pub fn put16(out: &mut Vec<u8>, v: u16)
    ensures
        final(out)@ == old(out)@ + be16(v),
{
    let b = u16_to_be(v);
    out.push(b[0]);
    out.push(b[1]);
    assert(final(out)@ =~= old(out)@ + be16(v));
}

/// Appends the big-endian bytes of `v`.
pub fn put32(out: &mut Vec<u8>, v: u32)
    ensures
        final(out)@ == old(out)@ + be32(v),
{
    let b = u32_to_be(v);
    out.push(b[0]);
    out.push(b[1]);
    out.push(b[2]);
    out.push(b[3]);
    assert(final(out)@ =~= old(out)@ + be32(v));
}

/// Appends sixteen raw bytes.
pub fn put_bytes16(out: &mut Vec<u8>, a: &[u8; 16])
    ensures
        final(out)@ == old(out)@ + a@,
{
    let mut i: usize = 0;
    while i < 16
        invariant
            i <= 16,
            a@.len() == 16,
            out@ == old(out)@ + a@.subrange(0, i as int),
        decreases 16 - i,
    {
        out.push(a[i]);
        i += 1;
        assert(out@ =~= old(out)@ + a@.subrange(0, i as int));
    }
    assert(a@.subrange(0, 16) =~= a@);
}

/// Reads the 16-bit big-endian value at `at`.
pub fn get16(b: &[u8], at: usize) -> (r: u16)
    requires
        at + 2 <= b@.len(),
    ensures
        r == from_be16(b@.subrange(at as int, at + 2)),
{
    // The length is a usize, so `at + 2` below cannot overflow.
    let _len = b.len();
    u16_from_be(&b[at..at + 2])
}

/// Reads the 32-bit big-endian value at `at`.
pub fn get32(b: &[u8], at: usize) -> (r: u32)
    requires
        at + 4 <= b@.len(),
    ensures
        r == from_be32(b@.subrange(at as int, at + 4)),
{
    // The length is a usize, so `at + 4` below cannot overflow.
    let _len = b.len();
    u32_from_be(&b[at..at + 4])
}

/// Reads sixteen raw bytes at `at`.
pub fn get_bytes16(b: &[u8], at: usize) -> (r: [u8; 16])
    requires
        at + 16 <= b@.len(),
    ensures
        r@ == b@.subrange(at as int, at + 16),
{
    let n = b.len();
    let mut a = [0u8; 16];
    let mut i: usize = 0;
    while i < 16
        invariant
            i <= 16,
            at + 16 <= b@.len(),
            n == b@.len(),
            a@.len() == 16,
            forall|k: int| 0 <= k < i ==> #[trigger] a@[k] == b@[at + k],
        decreases 16 - i,
    {
        a[i] = b[at + i];
        i += 1;
    }
    assert(a@ =~= b@.subrange(at as int, at + 16));
    a
}

} // verus!

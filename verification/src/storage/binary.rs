//! Big-endian numbers and checksums.

use vstd::prelude::*;

verus! {

/// The eight bytes of a number, most significant first.
#[verifier::opaque]
pub open spec fn be_bytes(v: u64) -> Seq<u8> {
    seq![
        (v >> 56u64) as u8,
        (v >> 48u64) as u8,
        (v >> 40u64) as u8,
        (v >> 32u64) as u8,
        (v >> 24u64) as u8,
        (v >> 16u64) as u8,
        (v >> 8u64) as u8,
        v as u8,
    ]
}

/// The number that eight bytes hold, most significant first.
#[verifier::opaque]
pub open spec fn be_value(b: Seq<u8>) -> u64 {
    ((b[0] as u64) << 56u64) | ((b[1] as u64) << 48u64) | ((b[2] as u64) << 40u64) | ((b[3] as u64)
        << 32u64) | ((b[4] as u64) << 24u64) | ((b[5] as u64) << 16u64) | ((b[6] as u64) << 8u64)
        | (b[7] as u64)
}

/// A number has eight bytes, and is recovered from them.
pub proof fn law_be_round_trip(v: u64)
    ensures
        be_bytes(v).len() == 8,
        be_value(be_bytes(v)) == v,
{
    reveal(be_bytes);
    reveal(be_value);
    assert((((v >> 56u64) as u8 as u64) << 56u64) | (((v >> 48u64) as u8 as u64) << 48u64) | (((v
        >> 40u64) as u8 as u64) << 40u64) | (((v >> 32u64) as u8 as u64) << 32u64) | (((v
        >> 24u64) as u8 as u64) << 24u64) | (((v >> 16u64) as u8 as u64) << 16u64) | (((v
        >> 8u64) as u8 as u64) << 8u64) | (v as u8 as u64) == v) by (bit_vector);
}

/// Numbers are written with their most significant byte first.
pub proof fn law_most_significant_byte_comes_first(v: u64)
    ensures
        ({
            let b = be_bytes(v);
            v == b[0] * 0x100_0000_0000_0000 + b[1] * 0x1_0000_0000_0000 + b[2] * 0x100_0000_0000
                + b[3] * 0x1_0000_0000 + b[4] * 0x100_0000 + b[5] * 0x1_0000 + b[6] * 0x100 + b[7]
        }),
{
    reveal(be_bytes);
    let (a, b) = ((v >> 56u64) as u8, (v >> 48u64) as u8);
    let (c, d) = ((v >> 40u64) as u8, (v >> 32u64) as u8);
    let (e, f) = ((v >> 24u64) as u8, (v >> 16u64) as u8);
    let (g, h) = ((v >> 8u64) as u8, v as u8);
    assert(v == a * 0x100_0000_0000_0000 + b * 0x1_0000_0000_0000 + c * 0x100_0000_0000 + d
        * 0x1_0000_0000 + e * 0x100_0000 + f * 0x1_0000 + g * 0x100 + h) by (bit_vector)
        requires
            a == (v >> 56u64) as u8,
            b == (v >> 48u64) as u8,
            c == (v >> 40u64) as u8,
            d == (v >> 32u64) as u8,
            e == (v >> 24u64) as u8,
            f == (v >> 16u64) as u8,
            g == (v >> 8u64) as u8,
            h == v as u8,
    ;
}

/// Appends a number.
pub fn put_be(buf: &mut Vec<u8>, v: u64)
    ensures
        final(buf)@ == old(buf)@ + be_bytes(v),
{
    buf.push((v >> 56u64) as u8);
    buf.push((v >> 48u64) as u8);
    buf.push((v >> 40u64) as u8);
    buf.push((v >> 32u64) as u8);
    buf.push((v >> 24u64) as u8);
    buf.push((v >> 16u64) as u8);
    buf.push((v >> 8u64) as u8);
    buf.push(v as u8);
    reveal(be_bytes);
    assert(buf@ =~= old(buf)@ + be_bytes(v));
}

/// The number in the first eight bytes.
pub fn read_be(bytes: &[u8]) -> (r: u64)
    requires
        bytes@.len() >= 8,
    ensures
        r == be_value(bytes@.take(8)),
{
    reveal(be_value);
    ((bytes[0] as u64) << 56u64) | ((bytes[1] as u64) << 48u64) | ((bytes[2] as u64) << 40u64) | ((
    bytes[3] as u64) << 32u64) | ((bytes[4] as u64) << 24u64) | ((bytes[5] as u64) << 16u64) | ((
    bytes[6] as u64) << 8u64) | (bytes[7] as u64)
}

/// What `crc64fast::Digest` makes of the bytes that were written to it.
pub uninterp spec fn crc64(bytes: Seq<u8>) -> u64;

/// `Digest::sum64` of a new `Digest` to which the bytes were written: the CRC-64/XZ checksum
/// of the bytes.
#[verifier::external_body]
pub(crate) fn checksum(bytes: &[u8]) -> (r: u64)
    ensures
        r == crc64(bytes@),
{
    let mut digest = crc64fast::Digest::new();
    digest.write(bytes);
    digest.sum64()
}

} // verus!

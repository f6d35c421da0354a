//! Big-endian byte order: the 16- and 32-bit fields of the DNS wire format,
//! read from and appended to byte buffers.

use vstd::prelude::*;

verus! {

/// The 16-bit value of two bytes in big-endian order.
pub open spec fn be16(hi: u8, lo: u8) -> int {
    (hi as u16) * 256 + lo as u16
}

/// The 32-bit value of four bytes in big-endian order.
pub open spec fn be32(b0: u8, b1: u8, b2: u8, b3: u8) -> int {
    (b0 as u32) * 0x1000000 + (b1 as u32) * 0x10000 + (b2 as u32) * 0x100 + (b3 as u32)
}

/// The 16-bit big-endian value found at offset `i` of a byte sequence.
pub open spec fn be16_at(s: Seq<u8>, i: int) -> int
    recommends
        0 <= i,
        i + 2 <= s.len(),
{
    be16(s[i], s[i + 1])
}

/// The 32-bit big-endian value found at offset `i` of a byte sequence.
pub open spec fn be32_at(s: Seq<u8>, i: int) -> int
    recommends
        0 <= i,
        i + 4 <= s.len(),
{
    be32(s[i], s[i + 1], s[i + 2], s[i + 3])
}

/// The two bytes of a 16-bit value in big-endian order.
pub open spec fn be16_bytes(v: u16) -> Seq<u8> {
    seq![(v / 256) as u8, (v % 256) as u8]
}

/// The four bytes of a 32-bit value in big-endian order.
pub open spec fn be32_bytes(v: u32) -> Seq<u8> {
    seq![
        (v / 0x1000000) as u8,
        ((v / 0x10000) % 256) as u8,
        ((v / 0x100) % 256) as u8,
        (v % 256) as u8,
    ]
}

/// Reading back the two bytes of a 16-bit value yields the value.
pub proof fn lemma_be16_roundtrip(v: u16)
    ensures
        be16(be16_bytes(v)[0], be16_bytes(v)[1]) == v,
{
}

/// Reading back the four bytes of a 32-bit value yields the value.
pub proof fn lemma_be32_roundtrip(v: u32)
    ensures
        be32(be32_bytes(v)[0], be32_bytes(v)[1], be32_bytes(v)[2], be32_bytes(v)[3]) == v,
{
}

/// Reads the 16-bit big-endian field at offset `i`.
pub fn read_u16_be(data: &[u8], i: usize) -> (r: u16)
    requires
        i + 2 <= data@.len(),
    ensures
        r == be16_at(data@, i as int),
{
    (data[i] as u16) * 256 + (data[i + 1] as u16)
}

/// Reads the 32-bit big-endian field at offset `i`.
pub fn read_u32_be(data: &[u8], i: usize) -> (r: u32)
    requires
        i + 4 <= data@.len(),
    ensures
        r == be32_at(data@, i as int),
{
    (data[i] as u32) * 0x1000000 + (data[i + 1] as u32) * 0x10000 + (data[i + 2] as u32) * 0x100
        + (data[i + 3] as u32)
}

/// Appends a 16-bit value in big-endian order.
pub fn push_u16_be(buf: &mut Vec<u8>, v: u16)
    ensures
        final(buf)@ == old(buf)@ + be16_bytes(v),
{
    buf.push((v / 256) as u8);
    buf.push((v % 256) as u8);
    assert(final(buf)@ =~= old(buf)@ + be16_bytes(v));
}

/// Appends a 32-bit value in big-endian order.
pub fn push_u32_be(buf: &mut Vec<u8>, v: u32)
    ensures
        final(buf)@ == old(buf)@ + be32_bytes(v),
{
    buf.push((v / 0x1000000) as u8);
    buf.push(((v / 0x10000) % 256) as u8);
    buf.push(((v / 0x100) % 256) as u8);
    buf.push((v % 256) as u8);
    assert(final(buf)@ =~= old(buf)@ + be32_bytes(v));
}

/// Writes the 16-bit big-endian field at offset `i` in place.
pub fn set_u16_be(buf: &mut Vec<u8>, i: usize, v: u16)
    requires
        i + 2 <= old(buf)@.len(),
    ensures
        final(buf)@ == old(buf)@.update(i as int, be16_bytes(v)[0]).update(
            i + 1,
            be16_bytes(v)[1],
        ),
        be16_at(final(buf)@, i as int) == v,
{
    let len = buf.len();
    assert(i + 2 <= len);
    buf.set(i, (v / 256) as u8);
    buf.set(i + 1, (v % 256) as u8);
}

} // verus!

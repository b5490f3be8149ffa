//! Big-endian integer encodings and byte-vector helpers shared by all the
//! wire formats.

use vstd::prelude::*;

verus! {

/// Big-endian encoding of a 16-bit value.
pub open spec fn be16(v: u16) -> Seq<u8> {
    seq![(v / 256) as u8, (v % 256) as u8]
}

/// Big-endian encoding of a 32-bit value.
pub open spec fn be32(v: u32) -> Seq<u8> {
    seq![(v / 0x100_0000) as u8, ((v / 0x1_0000) % 256) as u8, ((v / 256) % 256) as u8, (v % 256) as u8]
}

/// The 16-bit big-endian value stored at `pos` in `b`.
pub open spec fn u16_at(b: Seq<u8>, pos: int) -> u16 {
    (b[pos] as int * 256 + b[pos + 1] as int) as u16
}

/// The 32-bit big-endian value stored at `pos` in `b`.
pub open spec fn u32_at(b: Seq<u8>, pos: int) -> u32 {
    (b[pos] as int * 0x100_0000 + b[pos + 1] as int * 0x1_0000 + b[pos + 2] as int * 256
        + b[pos + 3] as int) as u32
}

/// A field preceded by its length as a 16-bit big-endian value.
pub open spec fn lp16(b: Seq<u8>) -> Seq<u8> {
    be16(b.len() as u16) + b
}

/// Decoding a big-endian 16-bit encoding gives the value back.
pub proof fn lemma_be16_roundtrip(v: u16)
    ensures
        be16(v).len() == 2,
        u16_at(be16(v), 0) == v,
{
}

/// Decoding a big-endian 32-bit encoding gives the value back.
pub proof fn lemma_be32_roundtrip(v: u32)
    ensures
        be32(v).len() == 4,
        u32_at(be32(v), 0) == v,
{
}

/// Re-encoding a 16-bit value read from `b` gives the bytes it was read from.
pub proof fn lemma_be16_of_u16_at(b: Seq<u8>, pos: int)
    requires
        0 <= pos,
        pos + 2 <= b.len(),
    ensures
        be16(u16_at(b, pos)) == b.subrange(pos, pos + 2),
{
    let x0 = b[pos] as int;
    let x1 = b[pos + 1] as int;
    assert((x0 * 256 + x1) / 256 == x0 && (x0 * 256 + x1) % 256 == x1) by (nonlinear_arith)
        requires
            0 <= x0 < 256,
            0 <= x1 < 256,
    ;
    assert(be16(u16_at(b, pos)) =~= b.subrange(pos, pos + 2));
}

/// Re-encoding a 32-bit value read from `b` gives the bytes it was read from.
pub proof fn lemma_be32_of_u32_at(b: Seq<u8>, pos: int)
    requires
        0 <= pos,
        pos + 4 <= b.len(),
    ensures
        be32(u32_at(b, pos)) == b.subrange(pos, pos + 4),
{
    let x0 = b[pos] as int;
    let x1 = b[pos + 1] as int;
    let x2 = b[pos + 2] as int;
    let x3 = b[pos + 3] as int;
    let v = x0 * 0x100_0000 + x1 * 0x1_0000 + x2 * 256 + x3;
    assert(v / 0x100_0000 == x0 && (v / 0x1_0000) % 256 == x1 && (v / 256) % 256 == x2 && v % 256
        == x3) by (nonlinear_arith)
        requires
            0 <= x0 < 256,
            0 <= x1 < 256,
            0 <= x2 < 256,
            0 <= x3 < 256,
            v == x0 * 0x100_0000 + x1 * 0x1_0000 + x2 * 256 + x3,
    ;
    assert(be32(u32_at(b, pos)) =~= b.subrange(pos, pos + 4));
}

/// Appends the big-endian encoding of `v`.
pub fn push_u16(out: &mut Vec<u8>, v: u16)
    ensures
        final(out)@ == old(out)@ + be16(v),
{
    out.push((v / 256) as u8);
    out.push((v % 256) as u8);
    assert(final(out)@ =~= old(out)@ + be16(v));
}

/// Appends the big-endian encoding of `v`.
pub fn push_u32(out: &mut Vec<u8>, v: u32)
    ensures
        final(out)@ == old(out)@ + be32(v),
{
    out.push((v / 0x100_0000) as u8);
    out.push(((v / 0x1_0000) % 256) as u8);
    out.push(((v / 256) % 256) as u8);
    out.push((v % 256) as u8);
    assert(final(out)@ =~= old(out)@ + be32(v));
}

/// Appends every byte of `bytes`.
pub fn push_all(out: &mut Vec<u8>, bytes: &[u8])
    ensures
        final(out)@ == old(out)@ + bytes@,
{
    let ghost start = out@;
    let mut i: usize = 0;
    while i < bytes.len()
        invariant
            i <= bytes@.len(),
            out@ == start + bytes@.subrange(0, i as int),
        decreases bytes@.len() - i,
    {
        out.push(bytes[i]);
        i = i + 1;
        assert(out@ =~= start + bytes@.subrange(0, i as int));
    }
    assert(bytes@.subrange(0, i as int) =~= bytes@);
}

/// Appends `bytes` preceded by its 16-bit length.
pub fn push_lp16(out: &mut Vec<u8>, bytes: &[u8])
    requires
        bytes@.len() <= u16::MAX,
    ensures
        final(out)@ == old(out)@ + lp16(bytes@),
{
    push_u16(out, bytes.len() as u16);
    push_all(out, bytes);
    assert(final(out)@ =~= old(out)@ + lp16(bytes@));
}

/// Byte-wise equality of two slices.
pub fn bytes_eq(a: &[u8], b: &[u8]) -> (eq: bool)
    ensures
        eq == (a@ == b@),
{
    if a.len() != b.len() {
        return false;
    }
    let mut i: usize = 0;
    while i < a.len()
        invariant
            a@.len() == b@.len(),
            i <= a@.len(),
            forall|j: int| 0 <= j < i ==> a@[j] == b@[j],
        decreases a@.len() - i,
    {
        if a[i] != b[i] {
            return false;
        }
        i = i + 1;
    }
    assert(a@ =~= b@);
    true
}

} // verus!

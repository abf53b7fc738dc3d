//! Big-endian integers.

use vstd::prelude::*;

verus! {

/// The two bytes of `v`, most significant first.
pub open spec fn be16(v: u16) -> Seq<u8> {
    seq![(v / 0x100) as u8, (v % 0x100) as u8]
}

/// The four bytes of `v`, most significant first.
pub open spec fn be32(v: u32) -> Seq<u8> {
    seq![
        (v / 0x100_0000) as u8,
        (v / 0x1_0000 % 0x100) as u8,
        (v / 0x100 % 0x100) as u8,
        (v % 0x100) as u8,
    ]
}

/// The integer that two bytes stand for, most significant first.
pub open spec fn u16_of(s: Seq<u8>) -> u16 {
    (s[0] * 0x100 + s[1]) as u16
}

/// The integer that four bytes stand for, most significant first.
pub open spec fn u32_of(s: Seq<u8>) -> u32 {
    (s[0] * 0x100_0000 + s[1] * 0x1_0000 + s[2] * 0x100 + s[3]) as u32
}

/// Taking the bytes of an integer and reading them back gives the integer.
pub proof fn lemma_u16_of_be16(v: u16)
    ensures
        u16_of(be16(v)) == v,
{
}

/// Taking the bytes of an integer and reading them back gives the integer.
pub proof fn lemma_u32_of_be32(v: u32)
    ensures
        u32_of(be32(v)) == v,
{
}

/// Reading two bytes and taking the bytes of the integer gives the two bytes.
pub proof fn lemma_be16_of_u16(s: Seq<u8>)
    requires
        s.len() == 2,
    ensures
        be16(u16_of(s)) == s,
{
    assert(be16(u16_of(s)) =~= s);
}

/// Reading four bytes and taking the bytes of the integer gives the four bytes.
pub proof fn lemma_be32_of_u32(s: Seq<u8>)
    requires
        s.len() == 4,
    ensures
        be32(u32_of(s)) == s,
{
    assert(be32(u32_of(s)) =~= s);
}

/// The integer in the two bytes from `at` on.
pub(crate) fn read_be16(buf: &[u8], at: usize) -> (v: u16)
    requires
        at + 2 <= buf@.len(),
    ensures
        v == u16_of(buf@.subrange(at as int, at + 2)),
{
    buf[at] as u16 * 0x100 + buf[at + 1] as u16
}

/// The integer in the four bytes from `at` on.
pub(crate) fn read_be32(buf: &[u8], at: usize) -> (v: u32)
    requires
        at + 4 <= buf@.len(),
    ensures
        v == u32_of(buf@.subrange(at as int, at + 4)),
{
    buf[at] as u32 * 0x100_0000 + buf[at + 1] as u32 * 0x1_0000 + buf[at + 2] as u32 * 0x100
        + buf[at + 3] as u32
}

/// Append `bytes`.
pub(crate) fn put_bytes(out: &mut Vec<u8>, bytes: &[u8])
    ensures
        final(out)@ == old(out)@ + bytes@,
{
    out.extend_from_slice(bytes);
    assert(out@ =~= old(out)@ + bytes@);
}

/// Append the two bytes of `v`.
pub(crate) fn put_be16(out: &mut Vec<u8>, v: u16)
    ensures
        final(out)@ == old(out)@ + be16(v),
{
    out.push((v / 0x100) as u8);
    out.push((v % 0x100) as u8);
    assert(out@ =~= old(out)@ + be16(v));
}

/// Append the four bytes of `v`.
pub(crate) fn put_be32(out: &mut Vec<u8>, v: u32)
    ensures
        final(out)@ == old(out)@ + be32(v),
{
    out.push((v / 0x100_0000) as u8);
    out.push((v / 0x1_0000 % 0x100) as u8);
    out.push((v / 0x100 % 0x100) as u8);
    out.push((v % 0x100) as u8);
    assert(out@ =~= old(out)@ + be32(v));
}

} // verus!

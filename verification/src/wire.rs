//! Big-endian integer layout shared by every part of the wire format.

use vstd::prelude::*;

verus! {

/// The two bytes of a 16-bit value in network byte order.
pub open spec fn be16(v: u16) -> Seq<u8> {
    seq![(v >> 8) as u8, (v & 0xff) as u8]
}

/// The four bytes of a 32-bit value in network byte order.
pub open spec fn be32(v: u32) -> Seq<u8> {
    seq![
        (v >> 24) as u8,
        ((v >> 16) & 0xff) as u8,
        ((v >> 8) & 0xff) as u8,
        (v & 0xff) as u8,
    ]
}

/// The 16-bit value read from two bytes in network byte order.
pub open spec fn combine16(hi: u8, lo: u8) -> u16 {
    ((hi as u16) << 8) | (lo as u16)
}

/// Reading back the two bytes written by `be16` recovers the value.
pub proof fn lemma_be16_roundtrip(v: u16)
    ensures
        combine16(be16(v)[0], be16(v)[1]) == v,
{
    assert(((((v >> 8) as u8) as u16) << 8) | (((v & 0xff) as u8) as u16) == v)
        by (bit_vector);
}

/// One more block of a concatenation: flattening one further piece appends
/// that piece's bytes.
pub proof fn lemma_flatten_take_step(s: Seq<Seq<u8>>, i: int)
    requires
        0 <= i < s.len(),
    ensures
        s.take(i + 1).flatten() == s.take(i).flatten() + s[i],
{
    assert(s.take(i + 1) =~= s.take(i).push(s[i]));
    s.take(i).lemma_flatten_push(s[i]);
}

/// A prefix of a concatenation is never longer than the whole.
pub proof fn lemma_flatten_prefix_len(s: Seq<Seq<u8>>, i: int)
    requires
        0 <= i <= s.len(),
    ensures
        s.take(i).flatten().len() <= s.flatten().len(),
{
    assert(s =~= s.take(i) + s.skip(i));
    vstd::seq_lib::lemma_flatten_concat(s.take(i), s.skip(i));
}

/// Reads a 16-bit big-endian value at `pos`.
pub(crate) fn read_u16_at(buf: &[u8], pos: usize) -> (r: u16)
    requires
        pos + 2 <= buf@.len(),
    ensures
        r == combine16(buf@[pos as int], buf@[pos + 1]),
{
    ((buf[pos] as u16) << 8) | (buf[pos + 1] as u16)
}

} // verus!

//! Trusted boundary around `bytes::BytesMut`, the growable buffer that every
//! encoder appends to.
//!
//! The buffer itself is outside code; its contents are named by the
//! uninterpreted function `buf_contents`, and each method the encoders call is
//! wrapped with a contract that states, over that name, what the call does.

use vstd::prelude::*;
use bytes::BufMut;

use crate::wire::{be16, be32};

verus! {

#[verifier::external_type_specification]
#[verifier::external_body]
pub struct ExBytesMut(bytes::BytesMut);

/// The bytes a `bytes::BytesMut` holds, oldest first.
pub uninterp spec fn buf_contents(b: bytes::BytesMut) -> Seq<u8>;

/// Relies on `bytes::BytesMut::new`: a buffer of length 0.
#[verifier::external_body]
pub fn buf_new() -> (b: bytes::BytesMut)
    ensures
        buf_contents(b) == Seq::<u8>::empty(),
{
    bytes::BytesMut::new()
}

/// Relies on `bytes::BufMut::put_u8` on `BytesMut`: appends the byte, growing
/// the buffer as needed. It panics only when the new length would pass
/// `isize::MAX`, which the precondition rules out.
#[verifier::external_body]
pub fn buf_put_u8(b: &mut bytes::BytesMut, v: u8)
    requires
        buf_contents(*old(b)).len() + 1 <= isize::MAX,
    ensures
        buf_contents(*final(b)) == buf_contents(*old(b)).push(v),
{
    b.put_u8(v);
}

/// Relies on `bytes::BufMut::put_u16` on `BytesMut`: appends the value's two
/// bytes in big-endian order, panicking only past `isize::MAX` bytes.
#[verifier::external_body]
pub fn buf_put_u16(b: &mut bytes::BytesMut, v: u16)
    requires
        buf_contents(*old(b)).len() + 2 <= isize::MAX,
    ensures
        buf_contents(*final(b)) == buf_contents(*old(b)) + be16(v),
{
    b.put_u16(v);
}

/// Relies on `bytes::BufMut::put_u32` on `BytesMut`: appends the value's four
/// bytes in big-endian order, panicking only past `isize::MAX` bytes.
#[verifier::external_body]
pub fn buf_put_u32(b: &mut bytes::BytesMut, v: u32)
    requires
        buf_contents(*old(b)).len() + 4 <= isize::MAX,
    ensures
        buf_contents(*final(b)) == buf_contents(*old(b)) + be32(v),
{
    b.put_u32(v);
}

/// Relies on `bytes::BufMut::put_slice` on `BytesMut`: appends the whole
/// slice, panicking only past `isize::MAX` bytes.
#[verifier::external_body]
pub fn buf_put_slice(b: &mut bytes::BytesMut, s: &[u8])
    requires
        buf_contents(*old(b)).len() + s@.len() <= isize::MAX,
    ensures
        buf_contents(*final(b)) == buf_contents(*old(b)) + s@,
{
    b.put_slice(s);
}

} // verus!

//! Byte buffers of the `bytes` crate, with what is relied on of them.

use crate::ordmap::be_value;
use bytes::{Buf, BufMut, Bytes, BytesMut};
use vstd::prelude::*;

verus! {

/// `bytes::BytesMut`, a growable byte buffer.
#[verifier::external_type_specification]
#[verifier::external_body]
pub struct ExBytesMut(bytes::BytesMut);

/// `bytes::Bytes`, a shared byte string that does not change.
#[verifier::external_type_specification]
#[verifier::external_body]
pub struct ExBytes(bytes::Bytes);

/// What a buffer holds.
pub uninterp spec fn buffered(b: BytesMut) -> Seq<u8>;

/// What a shared byte string holds.
pub uninterp spec fn shared(b: Bytes) -> Seq<u8>;

/// `BytesMut::new` gives an empty buffer.
pub assume_specification[ BytesMut::new ]() -> (r: BytesMut)
    ensures
        buffered(r) == Seq::<u8>::empty(),
;

/// `BytesMut::with_capacity` gives an empty buffer. It panics on a capacity that no allocation
/// can have.
pub assume_specification[ BytesMut::with_capacity ](capacity: usize) -> (r: BytesMut)
    requires
        capacity <= isize::MAX,
    ensures
        buffered(r) == Seq::<u8>::empty(),
;

/// `BytesMut::len` gives the number of bytes in the buffer.
pub assume_specification[ BytesMut::len ](b: &BytesMut) -> (r: usize)
    ensures
        r == buffered(*b).len(),
;

/// `BytesMut::clear` removes all bytes.
pub assume_specification[ BytesMut::clear ](b: &mut BytesMut)
    ensures
        buffered(*final(b)) == Seq::<u8>::empty(),
;

/// `BytesMut::extend_from_slice` appends the bytes of the slice.
pub assume_specification[ BytesMut::extend_from_slice ](b: &mut BytesMut, extend: &[u8])
    ensures
        buffered(*final(b)) == buffered(*old(b)) + extend@,
;

/// `BytesMut::freeze` turns the buffer into a shared byte string with the same contents.
pub assume_specification[ BytesMut::freeze ](b: BytesMut) -> (r: Bytes)
    ensures
        shared(r) == buffered(b),
;

/// The four bytes of `n`, the highest first.
pub open spec fn be32(n: u32) -> Seq<u8> {
    seq![
        (n / 0x100_0000) as u8,
        (n / 0x1_0000 % 0x100) as u8,
        (n / 0x100 % 0x100) as u8,
        (n % 0x100) as u8,
    ]
}

/// The four bytes of `n` have the value `n`.
pub proof fn lemma_be32(n: u32)
    ensures
        be_value(be32(n)) == n,
{
    reveal_with_fuel(be_value, 5);
    let s = be32(n);
    assert(s.drop_last() =~= seq![s[0], s[1], s[2]]);
    assert(s.drop_last().drop_last() =~= seq![s[0], s[1]]);
    assert(s.drop_last().drop_last().drop_last() =~= seq![s[0]]);
    assert(s.drop_last().drop_last().drop_last().drop_last() =~= Seq::<u8>::empty());
}

/// Calls `Buf::get_u32` on a buffer, which removes four bytes and gives their big-endian value.
#[verifier::external_body]
pub(crate) fn get_u32(b: &mut BytesMut) -> (r: u32)
    requires
        buffered(*old(b)).len() >= 4,
    ensures
        r == be_value(buffered(*old(b)).take(4)),
        buffered(*final(b)) == buffered(*old(b)).skip(4),
{
    b.get_u32()
}

/// Calls `Buf::advance` on a buffer, which removes `n` bytes from the front.
#[verifier::external_body]
pub(crate) fn advance(b: &mut BytesMut, n: usize)
    requires
        n <= buffered(*old(b)).len(),
    ensures
        buffered(*final(b)) == buffered(*old(b)).skip(n as int),
{
    b.advance(n)
}

/// Calls `BufMut::put_u32` on a buffer, which appends the four bytes of `n`, the highest first.
#[verifier::external_body]
pub(crate) fn put_u32(b: &mut BytesMut, n: u32)
    ensures
        buffered(*final(b)) == buffered(*old(b)) + be32(n),
{
    b.put_u32(n)
}

/// Calls `BytesMut::deref`, which gives the contents as a slice.
#[verifier::external_body]
pub(crate) fn as_slice(b: &BytesMut) -> (r: &[u8])
    ensures
        r@ == buffered(*b),
{
    b
}

/// Calls `Bytes::deref`, which gives the contents as a slice.
#[verifier::external_body]
pub(crate) fn shared_slice(b: &Bytes) -> (r: &[u8])
    ensures
        r@ == shared(*b),
{
    b
}

/// Calls `Bytes::clone`, which gives another handle on the same contents.
#[verifier::external_body]
pub(crate) fn shared_clone(b: &Bytes) -> (r: Bytes)
    ensures
        shared(r) == shared(*b),
{
    b.clone()
}

} // verus!

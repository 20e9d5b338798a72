//! Encoded values that remember their type.

use crate::buffer::{self, shared};
use crate::proto::codec::{self, CodecError, Wire};
use crate::proto::traits::{decoded, encode_to_vec, Decode};
use crate::proto::FrameError;
use bytes::{Bytes, BytesMut};
use std::marker::PhantomData;
use vstd::prelude::*;

verus! {

/// The encoding of a `T`, or bytes that claim to be one.
#[derive(Debug)]
pub struct TypedBytes<T> {
    bytes: Bytes,
    typ: PhantomData<T>,
}

impl<T> View for TypedBytes<T> {
    type V = Seq<u8>;

    closed spec fn view(&self) -> Seq<u8> {
        shared(self.bytes)
    }
}

impl<T> Clone for TypedBytes<T> {
    fn clone(&self) -> (r: Self)
        ensures
            r@ == self@,
    {
        TypedBytes { bytes: buffer::shared_clone(&self.bytes), typ: PhantomData }
    }
}

impl<T> TypedBytes<T> {
    /// Takes `bytes` for an encoded `T`.
    pub fn new(bytes: Bytes) -> (r: Self)
        ensures
            r@ == shared(bytes),
    {
        TypedBytes { bytes, typ: PhantomData }
    }

    /// The bytes.
    pub fn as_bytes(&self) -> (r: &[u8])
        ensures
            r@ == self@,
    {
        buffer::shared_slice(&self.bytes)
    }

    /// The bytes.
    pub fn into_bytes(self) -> (r: Bytes)
        ensures
            shared(r) == self@,
    {
        self.bytes
    }

    /// A copy of `bytes`, taken for an encoded `T`.
    pub fn copy_from_slice(bytes: &[u8]) -> (r: Self)
        ensures
            r@ == bytes@,
    {
        let mut b = BytesMut::new();
        b.extend_from_slice(bytes);
        let r = TypedBytes { bytes: b.freeze(), typ: PhantomData };
        assert(r@ =~= bytes@);
        r
    }
}

impl<T: Wire> TypedBytes<T> {
    /// Encodes `value`.
    pub fn encode(value: &T) -> (r: Result<Self, FrameError>)
        ensures
            r matches Ok(b) && b@ == T::bytes(value.value()),
    {
        Self::encode_into(BytesMut::new(), value)
    }

    /// Encodes `value`, replacing what `bytes` holds.
    pub fn encode_into(bytes: BytesMut, value: &T) -> (r: Result<Self, FrameError>)
        ensures
            r matches Ok(b) && b@ == T::bytes(value.value()),
    {
        let mut bytes = bytes;
        bytes.clear();
        let encoded = encode_to_vec(value);
        bytes.extend_from_slice(encoded.as_slice());
        let r = TypedBytes { bytes: bytes.freeze(), typ: PhantomData };
        assert(r@ =~= T::bytes(value.value()));
        Ok(r)
    }

    /// Decodes the value.
    pub fn decode(&self) -> (r: Result<T, FrameError>)
        ensures
            match r {
                Ok(v) => decoded::<T>(self@) == Ok::<T::Value, FrameError>(v.value()),
                Err(e) => decoded::<T>(self@) == Err::<T::Value, FrameError>(e),
            },
    {
        T::decode(self.as_bytes())
    }
}

impl<T> Wire for TypedBytes<T> {
    type Value = Seq<u8>;

    open spec fn value(&self) -> Seq<u8> {
        self@
    }

    open spec fn encodable(v: Seq<u8>) -> bool {
        v.len() <= usize::MAX
    }

    open spec fn bytes(v: Seq<u8>) -> Seq<u8> {
        codec::varint(v.len()) + v
    }

    open spec fn parse(s: Seq<u8>) -> Result<(Seq<u8>, Seq<u8>), CodecError> {
        codec::parse_bytes(s)
    }

    proof fn parse_inverts_bytes(v: Seq<u8>, rest: Seq<u8>) {
        codec::lemma_bytes_roundtrip(v, rest);
    }

    fn put(&self, out: &mut Vec<u8>) {
        codec::put_bytes(self.as_bytes(), out);
    }

    fn take<'a>(input: &'a [u8]) -> (r: Result<(Self, &'a [u8]), CodecError>) {
        match codec::take_bytes(input) {
            Ok((v, rest)) => Ok((TypedBytes::copy_from_slice(v), rest)),
            Err(e) => Err(e),
        }
    }
}

} // verus!

//! Encoding into and decoding from byte slices.

use crate::proto::codec::{CodecError, Wire};
use crate::proto::FrameError;
use vstd::prelude::*;

verus! {

/// Values that can be written to a slice.
pub trait Encode: Wire {
    /// Writes the encoding to the front of `buf` and returns its length. A buffer that is too
    /// small is refused.
    fn encode(&self, buf: &mut [u8]) -> (r: Result<usize, FrameError>)
        ensures
            match r {
                Ok(n) => {
                    &&& n == Self::bytes(self.value()).len()
                    &&& n <= old(buf)@.len()
                    &&& final(buf)@ == Self::bytes(self.value()) + old(buf)@.skip(n as int)
                },
                Err(e) => {
                    &&& e == FrameError::Malformed(CodecError::SerializeBufferFull)
                    &&& Self::bytes(self.value()).len() > old(buf)@.len()
                    &&& final(buf)@ == old(buf)@
                },
            },
    {
        let encoded = encode_to_vec(self);
        if encoded.len() > buf.len() {
            return Err(FrameError::Malformed(CodecError::SerializeBufferFull));
        }
        let ghost before = buf@;
        let mut i: usize = 0;
        while i < encoded.len()
            invariant
                i <= encoded@.len() <= before.len(),
                buf@.len() == before.len(),
                forall|j: int| 0 <= j < i ==> #[trigger] buf@[j] == encoded@[j],
                forall|j: int| i <= j < before.len() ==> #[trigger] buf@[j] == before[j],
            decreases encoded@.len() - i,
        {
            buf[i] = encoded[i];
            i = i + 1;
        }
        assert(buf@ =~= encoded@ + before.skip(i as int));
        Ok(i)
    }

    /// The length of the encoding.
    fn encoded_len(&self) -> (r: Result<usize, FrameError>)
        ensures
            r matches Ok(n) && n == Self::bytes(self.value()).len(),
    {
        Ok(encode_to_vec(self).len())
    }
}

impl<T: Wire> Encode for T {

}

/// The encoding of `value`.
pub fn encode_to_vec<T: Wire>(value: &T) -> (r: Vec<u8>)
    ensures
        r@ == T::bytes(value.value()),
{
    let mut out: Vec<u8> = Vec::new();
    value.put(&mut out);
    assert(out@ =~= T::bytes(value.value()));
    out
}

/// The outcome of decoding the front of `s`, whatever follows it.
pub open spec fn decoded<T: Wire>(s: Seq<u8>) -> Result<T::Value, FrameError> {
    match T::parse(s) {
        Ok((v, _rest)) => Ok(v),
        Err(e) => Err(FrameError::Malformed(e)),
    }
}

/// Values that can be read from a slice.
pub trait Decode: Wire {
    /// Decodes a value from the front of `buf`; what follows it is ignored.
    fn decode(buf: &[u8]) -> (r: Result<Self, FrameError>)
        ensures
            match r {
                Ok(v) => decoded::<Self>(buf@) == Ok::<Self::Value, FrameError>(v.value()),
                Err(e) => decoded::<Self>(buf@) == Err::<Self::Value, FrameError>(e),
            },
    {
        match Self::take(buf) {
            Ok((v, _rest)) => Ok(v),
            Err(e) => Err(FrameError::Malformed(e)),
        }
    }
}

impl<T: Wire> Decode for T {

}

/// What was encoded is decoded again, whatever follows it.
pub proof fn law_decode_inverts_encode<T: Wire>(v: T::Value, rest: Seq<u8>)
    requires
        T::encodable(v),
    ensures
        decoded::<T>(T::bytes(v) + rest) == Ok::<T::Value, FrameError>(v),
        decoded::<T>(T::bytes(v)) == Ok::<T::Value, FrameError>(v),
{
    T::parse_inverts_bytes(v, rest);
    T::parse_inverts_bytes(v, Seq::empty());
    assert(T::bytes(v) + Seq::<u8>::empty() =~= T::bytes(v));
}

} // verus!

//! The wire protocol: encoding, signatures, frames and the messages that they carry.

use crate::proto::codec::CodecError;
use crate::proto::crypto::VerificationError;
use vstd::prelude::*;

pub mod codec;
pub mod crypto;
pub mod data;
pub mod traits;
pub mod util;
pub mod wire;

verus! {

/// Seconds since the epoch, as a peer states them.
pub type Timestamp = u64;

/// Why a frame was refused.
#[derive(Clone, Copy, Debug, PartialEq, Eq, Structural)]
pub enum FrameError {
    /// The frame type is not known.
    UnknownFrame(u16),
    /// The frame type is not allowed on this stream, or is not that of the payload.
    InvalidFrameType,
    /// That many bytes of the frame are missing.
    Incomplete(usize),
    /// The frame could not be encoded or decoded.
    Malformed(CodecError),
    /// The frame is signed and the signature was refused.
    Verification(VerificationError),
}

} // verus!

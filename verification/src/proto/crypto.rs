//! Signatures over encoded values.

use crate::proto::codec::{CodecError, Wire};
use crate::proto::traits::decoded;
use crate::proto::util::TypedBytes;
use crate::proto::FrameError;
use ed25519_dalek::Signer;
use vstd::prelude::*;

verus! {

/// An Ed25519 public key.
pub type PublicKey = [u8; 32];

/// Why a signature was refused.
#[derive(Clone, Copy, Debug, PartialEq, Eq, Structural)]
pub enum VerificationError {
    /// The public key is no point of the curve, or the signature does not belong to the payload.
    BadEdSignature,
}

/// The error of `ed25519_dalek`, which carries no detail.
#[verifier::external_type_specification]
#[verifier::external_body]
pub struct ExSignatureError(ed25519_dalek::SignatureError);

/// The public key that belongs to a secret key.
pub uninterp spec fn ed25519_public(secret: Seq<u8>) -> Seq<u8>;

/// The signature of a secret key over a message.
pub uninterp spec fn ed25519_signature(secret: Seq<u8>, message: Seq<u8>) -> Seq<u8>;

/// Whether strict verification accepts a signature.
pub uninterp spec fn ed25519_accepts(
    public: Seq<u8>,
    message: Seq<u8>,
    signature: Seq<u8>,
) -> bool;

/// The encoding of the neutral point of the curve.
pub open spec fn neutral_point() -> Seq<u8> {
    seq![1u8] + Seq::new(31, |i: int| 0u8)
}

/// Calls `SigningKey::verifying_key` of `ed25519_dalek` on the key with these secret bytes. The
/// result is named.
#[verifier::external_body]
fn dalek_public(secret: &[u8; 32]) -> (r: [u8; 32])
    ensures
        r@ == ed25519_public(secret@),
{
    ed25519_dalek::SigningKey::from_bytes(secret).verifying_key().to_bytes()
}

/// Calls `Signer::sign` of the `ed25519_dalek` key with these secret bytes. Signing is
/// deterministic, and the result is named. Strict verification accepts it under the public key of
/// the same secret bytes, unless its first half, the commitment, encodes the neutral point: strict
/// verification refuses points of small order, and the neutral point is the only multiple of the
/// base point of which that holds.
#[verifier::external_body]
fn dalek_sign(secret: &[u8; 32], message: &[u8]) -> (r: [u8; 64])
    ensures
        r@ == ed25519_signature(secret@, message@),
        ed25519_accepts(ed25519_public(secret@), message@, r@) <==> r@.take(32)
            != neutral_point(),
{
    ed25519_dalek::SigningKey::from_bytes(secret).sign(message).to_bytes()
}

/// Calls `VerifyingKey::verify_strict` of `ed25519_dalek` on the key that
/// `VerifyingKey::from_bytes` makes of `public`. Whether both succeed is named.
#[verifier::external_body]
fn dalek_verify(public: &[u8; 32], message: &[u8], signature: &[u8; 64]) -> (r: Result<
    (),
    ed25519_dalek::SignatureError,
>)
    ensures
        r is Ok == ed25519_accepts(public@, message@, signature@),
{
    let key = ed25519_dalek::VerifyingKey::from_bytes(public)?;
    key.verify_strict(message, &ed25519_dalek::Signature::from_bytes(signature))
}

/// Calls `SigningKey::generate` of `ed25519_dalek` with the random numbers of the operating
/// system. Nothing is claimed of the result.
#[verifier::external_body]
fn dalek_generate() -> (r: [u8; 32]) {
    ed25519_dalek::SigningKey::generate(&mut rand::rngs::OsRng).to_bytes()
}

/// An Ed25519 secret key.
#[derive(Clone, Copy)]
pub struct SigningKey {
    secret: [u8; 32],
}

impl SigningKey {
    /// The secret bytes.
    pub closed spec fn secret(&self) -> Seq<u8> {
        self.secret@
    }

    /// The key with these secret bytes.
    pub fn from_bytes(secret: &[u8; 32]) -> (r: SigningKey)
        ensures
            r.secret() == secret@,
    {
        SigningKey { secret: *secret }
    }

    /// A new random key.
    pub fn generate() -> SigningKey {
        SigningKey { secret: dalek_generate() }
    }

    /// The public key.
    pub fn verifying_key(&self) -> (r: PublicKey)
        ensures
            r@ == ed25519_public(self.secret()),
    {
        dalek_public(&self.secret)
    }
}

/// Evidence that a key approved a payload.
#[derive(Clone, Copy, Debug)]
pub enum Proof {
    EdSignature([u8; 64]),
}

impl Proof {
    /// Whether this is accepted as approval of `payload` by `issuer`.
    pub open spec fn accepted(&self, issuer: PublicKey, payload: Seq<u8>) -> bool {
        match self {
            Proof::EdSignature(signature) => ed25519_accepts(issuer@, payload, signature@),
        }
    }

    /// Whether the commitment of the signature, its first half, is the neutral point of the curve.
    pub open spec fn neutral(&self) -> bool {
        match self {
            Proof::EdSignature(signature) => signature@.take(32) == neutral_point(),
        }
    }

    /// Checks that `issuer` approved `payload`.
    pub fn verify(&self, issuer: &PublicKey, payload: &[u8]) -> (r: Result<
        bool,
        VerificationError,
    >)
        ensures
            r == (if self.accepted(*issuer, payload@) {
                Ok::<bool, VerificationError>(true)
            } else {
                Err::<bool, VerificationError>(VerificationError::BadEdSignature)
            }),
    {
        match self {
            Proof::EdSignature(signature) => {
                match dalek_verify(issuer, payload, signature) {
                    Ok(()) => Ok(true),
                    Err(_) => Err(VerificationError::BadEdSignature),
                }
            },
        }
    }

    /// Approves `payload` with the key `issuer` and returns the public key with the evidence.
    pub fn sign(issuer: &SigningKey, payload: &[u8]) -> (r: (PublicKey, Proof))
        ensures
            r.0@ == ed25519_public(issuer.secret()),
            r.1 matches Proof::EdSignature(signature) && signature@ == ed25519_signature(
                issuer.secret(),
                payload@,
            ),
            r.1.accepted(r.0, payload@) <==> !r.1.neutral(),
    {
        let signature = dalek_sign(&issuer.secret, payload);
        (issuer.verifying_key(), Proof::EdSignature(signature))
    }
}

impl Wire for Proof {
    type Value = Proof;

    open spec fn value(&self) -> Proof {
        *self
    }

    open spec fn encodable(v: Proof) -> bool {
        true
    }

    open spec fn bytes(v: Proof) -> Seq<u8> {
        match v {
            Proof::EdSignature(signature) => u32::bytes(0) + <[u8; 64]>::bytes(signature),
        }
    }

    open spec fn parse(s: Seq<u8>) -> Result<(Proof, Seq<u8>), CodecError> {
        match u32::parse(s) {
            Ok((variant, body)) => if variant == 0 {
                match <[u8; 64]>::parse(body) {
                    Ok((signature, rest)) => Ok((Proof::EdSignature(signature), rest)),
                    Err(e) => Err(e),
                }
            } else {
                Err(CodecError::SerdeDeCustom)
            },
            Err(e) => Err(e),
        }
    }

    proof fn parse_inverts_bytes(v: Proof, rest: Seq<u8>) {
        match v {
            Proof::EdSignature(signature) => {
                let body = <[u8; 64]>::bytes(signature) + rest;
                assert(Self::bytes(v) + rest =~= u32::bytes(0) + body);
                u32::parse_inverts_bytes(0, body);
                <[u8; 64]>::parse_inverts_bytes(signature, rest);
            },
        }
    }

    fn put(&self, out: &mut Vec<u8>) {
        match self {
            Proof::EdSignature(signature) => {
                0u32.put(out);
                signature.put(out);
            },
        }
        assert(out@ =~= old(out)@ + Self::bytes(self.value()));
    }

    fn take<'a>(input: &'a [u8]) -> (r: Result<(Proof, &'a [u8]), CodecError>) {
        match u32::take(input) {
            Ok((variant, body)) => if variant == 0 {
                match <[u8; 64]>::take(body) {
                    Ok((signature, rest)) => Ok((Proof::EdSignature(signature), rest)),
                    Err(e) => Err(e),
                }
            } else {
                Err(CodecError::SerdeDeCustom)
            },
            Err(e) => Err(e),
        }
    }
}

/// An encoded value with the approval of its issuer.
#[derive(Debug)]
pub struct SealedEnvelope<T> {
    issuer: PublicKey,
    seal: Proof,
    payload: TypedBytes<T>,
}

/// What a [`SealedEnvelope`] holds.
pub struct SealedValue {
    pub issuer: PublicKey,
    pub seal: Proof,
    pub payload: Seq<u8>,
}

impl<T> Clone for SealedEnvelope<T> {
    fn clone(&self) -> (r: Self)
        ensures
            r@ == self@,
    {
        SealedEnvelope { issuer: self.issuer, seal: self.seal, payload: self.payload.clone() }
    }
}

impl<T> View for SealedEnvelope<T> {
    type V = SealedValue;

    closed spec fn view(&self) -> SealedValue {
        SealedValue { issuer: self.issuer, seal: self.seal, payload: self.payload@ }
    }
}

impl<T> SealedEnvelope<T> {
    /// An envelope of these parts.
    pub fn from_parts(issuer: PublicKey, seal: Proof, payload: TypedBytes<T>) -> (r: Self)
        ensures
            r@ == (SealedValue { issuer, seal, payload: payload@ }),
    {
        SealedEnvelope { issuer, seal, payload }
    }

    /// The key that approved the payload.
    pub fn issuer(&self) -> (r: PublicKey)
        ensures
            r == self@.issuer,
    {
        self.issuer
    }
}

/// Whether `envelope` holds `payload`, signed with `key`. The seal of such an envelope is accepted
/// unless the commitment of the signature is the neutral point.
pub open spec fn sealed_with(envelope: SealedValue, key: SigningKey, payload: Seq<u8>) -> bool {
    &&& envelope.payload == payload
    &&& envelope.issuer@ == ed25519_public(key.secret())
    &&& envelope.seal matches Proof::EdSignature(signature) && signature@ == ed25519_signature(
        key.secret(),
        payload,
    )
    &&& envelope.seal.accepted(envelope.issuer, payload) <==> !envelope.seal.neutral()
}

/// The outcome of opening `envelope` once its seal has been checked with outcome `verdict`.
pub open spec fn opened<T: Wire>(
    envelope: SealedValue,
    verdict: Result<bool, VerificationError>,
) -> Result<T::Value, FrameError> {
    match verdict {
        Err(e) => Err(FrameError::Verification(e)),
        Ok(_) => decoded::<T>(envelope.payload),
    }
}

/// The outcome of checking the seal of `envelope`.
pub open spec fn verdict_on(envelope: SealedValue) -> Result<bool, VerificationError> {
    if envelope.seal.accepted(envelope.issuer, envelope.payload) {
        Ok(true)
    } else {
        Err(VerificationError::BadEdSignature)
    }
}

impl<T: Wire> SealedEnvelope<T> {
    /// Encodes `payload` and signs the encoding.
    pub fn sign_and_encode(issuer: &SigningKey, payload: &T) -> (r: Result<Self, FrameError>)
        ensures
            r matches Ok(envelope) && sealed_with(
                envelope@,
                *issuer,
                T::bytes(payload.value()),
            ),
    {
        let payload = match TypedBytes::encode(payload) {
            Ok(payload) => payload,
            Err(e) => return Err(e),
        };
        let (principal, seal) = Proof::sign(issuer, payload.as_bytes());
        Ok(SealedEnvelope { issuer: principal, payload, seal })
    }

    /// Checks the seal.
    pub fn verify(&self) -> (r: Result<bool, VerificationError>)
        ensures
            r == verdict_on(self@),
    {
        self.seal.verify(&self.issuer, self.payload.as_bytes())
    }

    /// Checks the seal and decodes the payload.
    pub fn verify_and_decode(self) -> (r: Result<VerifiedEnvelope<T>, FrameError>)
        ensures
            match r {
                Ok(v) => {
                    &&& opened::<T>(self@, verdict_on(self@)) == Ok::<T::Value, FrameError>(
                        v.payload.value(),
                    )
                    &&& v.issuer == self@.issuer
                    &&& v.seal == self@.seal
                },
                Err(e) => opened::<T>(self@, verdict_on(self@)) == Err::<T::Value, FrameError>(e),
            },
    {
        let verdict = self.verify();
        self.decode_checked(verdict)
    }

    /// Decodes the payload of an envelope whose seal has been checked with outcome `verdict`.
    pub fn decode_checked(self, verdict: Result<bool, VerificationError>) -> (r: Result<
        VerifiedEnvelope<T>,
        FrameError,
    >)
        ensures
            match r {
                Ok(v) => {
                    &&& opened::<T>(self@, verdict) == Ok::<T::Value, FrameError>(v.payload.value())
                    &&& v.issuer == self@.issuer
                    &&& v.seal == self@.seal
                },
                Err(e) => opened::<T>(self@, verdict) == Err::<T::Value, FrameError>(e),
            },
    {
        match verdict {
            Err(e) => return Err(FrameError::Verification(e)),
            Ok(_) => {},
        }
        let payload = match self.payload.decode() {
            Ok(payload) => payload,
            Err(e) => return Err(e),
        };
        Ok(VerifiedEnvelope { issuer: self.issuer, payload, seal: self.seal })
    }
}

impl<T> Wire for SealedEnvelope<T> {
    type Value = SealedValue;

    open spec fn value(&self) -> SealedValue {
        self@
    }

    open spec fn encodable(v: SealedValue) -> bool {
        TypedBytes::<T>::encodable(v.payload)
    }

    open spec fn bytes(v: SealedValue) -> Seq<u8> {
        <[u8; 32]>::bytes(v.issuer) + (Proof::bytes(v.seal) + TypedBytes::<T>::bytes(v.payload))
    }

    open spec fn parse(s: Seq<u8>) -> Result<(SealedValue, Seq<u8>), CodecError> {
        match <[u8; 32]>::parse(s) {
            Ok((issuer, s1)) => match Proof::parse(s1) {
                Ok((seal, s2)) => match TypedBytes::<T>::parse(s2) {
                    Ok((payload, rest)) => Ok((SealedValue { issuer, seal, payload }, rest)),
                    Err(e) => Err(e),
                },
                Err(e) => Err(e),
            },
            Err(e) => Err(e),
        }
    }

    proof fn parse_inverts_bytes(v: SealedValue, rest: Seq<u8>) {
        let s2 = TypedBytes::<T>::bytes(v.payload) + rest;
        let s1 = Proof::bytes(v.seal) + s2;
        assert(Self::bytes(v) + rest =~= <[u8; 32]>::bytes(v.issuer) + s1);
        <[u8; 32]>::parse_inverts_bytes(v.issuer, s1);
        Proof::parse_inverts_bytes(v.seal, s2);
        TypedBytes::<T>::parse_inverts_bytes(v.payload, rest);
    }

    fn put(&self, out: &mut Vec<u8>) {
        self.issuer.put(out);
        self.seal.put(out);
        self.payload.put(out);
        assert(out@ =~= old(out)@ + Self::bytes(self.value()));
    }

    fn take<'a>(input: &'a [u8]) -> (r: Result<(Self, &'a [u8]), CodecError>) {
        let (issuer, s1) = match <[u8; 32]>::take(input) {
            Ok(found) => found,
            Err(e) => return Err(e),
        };
        let (seal, s2) = match Proof::take(s1) {
            Ok(found) => found,
            Err(e) => return Err(e),
        };
        let (payload, rest) = match TypedBytes::<T>::take(s2) {
            Ok(found) => found,
            Err(e) => return Err(e),
        };
        Ok((SealedEnvelope { issuer, seal, payload }, rest))
    }
}

/// A decoded value whose seal was checked.
#[derive(Clone, Debug)]
pub struct VerifiedEnvelope<T> {
    pub issuer: PublicKey,
    pub payload: T,
    pub seal: Proof,
}

impl<T> VerifiedEnvelope<T> {
    /// An envelope of these parts.
    pub fn new(payload: T, issuer: PublicKey, seal: Proof) -> (r: Self)
        ensures
            r == (VerifiedEnvelope { issuer, payload, seal }),
    {
        VerifiedEnvelope { issuer, payload, seal }
    }

    /// The payload, the issuer and the evidence.
    pub fn split(self) -> (r: (T, PublicKey, Proof))
        ensures
            r == (self.payload, self.issuer, self.seal),
    {
        (self.payload, self.issuer, self.seal)
    }

    /// Replaces the payload by what `map` makes of it.
    pub fn map<U, F: FnOnce(T) -> U>(self, map: F) -> (r: VerifiedEnvelope<U>)
        requires
            map.requires((self.payload,)),
        ensures
            map.ensures((self.payload,), r.payload),
            r.issuer == self.issuer,
            r.seal == self.seal,
    {
        VerifiedEnvelope { issuer: self.issuer, seal: self.seal, payload: map(self.payload) }
    }
}

impl<T: Wire> VerifiedEnvelope<T> {
    /// Encodes the payload again, under the same evidence.
    pub fn into_sealed(self) -> (r: Result<SealedEnvelope<T>, FrameError>)
        ensures
            r matches Ok(envelope) && envelope@ == (SealedValue {
                issuer: self.issuer,
                seal: self.seal,
                payload: T::bytes(self.payload.value()),
            }),
    {
        let payload = match TypedBytes::encode(&self.payload) {
            Ok(payload) => payload,
            Err(e) => return Err(e),
        };
        Ok(SealedEnvelope { seal: self.seal, issuer: self.issuer, payload })
    }
}

/// What a key sealed is what opening gives, unless the commitment of the signature is the neutral
/// point.
pub proof fn law_open_inverts_seal<T: Wire>(
    envelope: SealedValue,
    key: SigningKey,
    payload: T::Value,
)
    requires
        T::encodable(payload),
        sealed_with(envelope, key, T::bytes(payload)),
        !envelope.seal.neutral(),
    ensures
        opened::<T>(envelope, verdict_on(envelope)) == Ok::<T::Value, FrameError>(payload),
{
    crate::proto::traits::law_decode_inverts_encode::<T>(payload, Seq::empty());
}

/// An envelope whose evidence is refused is never decoded.
pub proof fn law_refused_seal_stays_closed<T: Wire>(envelope: SealedValue)
    requires
        !envelope.seal.accepted(envelope.issuer, envelope.payload),
    ensures
        opened::<T>(envelope, verdict_on(envelope)) == Err::<T::Value, FrameError>(
            FrameError::Verification(VerificationError::BadEdSignature),
        ),
{
}

/// A sealed envelope holds the payload unchanged, names the public key of the signer, and bears the
/// signature of that key over exactly this payload.
pub proof fn law_seal_is_the_signature_of_its_issuer(
    envelope: SealedValue,
    key: SigningKey,
    payload: Seq<u8>,
)
    requires
        sealed_with(envelope, key, payload),
    ensures
        envelope.payload == payload,
        envelope.issuer@ == ed25519_public(key.secret()),
        envelope.seal matches Proof::EdSignature(signature) && signature@ == ed25519_signature(
            key.secret(),
            payload,
        ),
{
}

/// A seal is accepted exactly if its signature verifies under the key of the issuer over the
/// payload; then the payload is decoded, and never otherwise.
pub proof fn law_verdict_is_that_of_the_signature<T: Wire>(
    issuer: PublicKey,
    signature: [u8; 64],
    payload: Seq<u8>,
)
    ensures
        ({
            let envelope = SealedValue { issuer, seal: Proof::EdSignature(signature), payload };
            if ed25519_accepts(issuer@, payload, signature@) {
                &&& verdict_on(envelope) == Ok::<bool, VerificationError>(true)
                &&& match T::parse(payload) {
                    Ok((v, _)) => opened::<T>(envelope, verdict_on(envelope)) == Ok::<
                        T::Value,
                        FrameError,
                    >(v),
                    Err(e) => opened::<T>(envelope, verdict_on(envelope)) == Err::<
                        T::Value,
                        FrameError,
                    >(FrameError::Malformed(e)),
                }
            } else {
                &&& verdict_on(envelope) == Err::<bool, VerificationError>(
                    VerificationError::BadEdSignature,
                )
                &&& opened::<T>(envelope, verdict_on(envelope)) == Err::<T::Value, FrameError>(
                    FrameError::Verification(VerificationError::BadEdSignature),
                )
            }
        }),
{
}

/// An envelope is encoded as the key of its issuer, the seal and the payload, one behind the other.
pub proof fn law_envelope_encoding<T>(envelope: SealedValue, signature: [u8; 64])
    requires
        envelope.seal == Proof::EdSignature(signature),
    ensures
        SealedEnvelope::<T>::bytes(envelope) == envelope.issuer@ + (crate::proto::codec::varint(0)
            + signature@) + (crate::proto::codec::varint(envelope.payload.len())
            + envelope.payload),
        SealedEnvelope::<T>::encodable(envelope) <==> envelope.payload.len() <= usize::MAX,
{
    assert(SealedEnvelope::<T>::bytes(envelope) =~= envelope.issuer@ + (
    crate::proto::codec::varint(0) + signature@) + (crate::proto::codec::varint(
        envelope.payload.len(),
    ) + envelope.payload));
}

} // verus!

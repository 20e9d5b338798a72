//! Frames as the streams hand them out: verified, and of the types that a stream carries.

use crate::proto::codec::Wire;
use crate::proto::crypto::{
    ed25519_public, ed25519_signature, law_open_inverts_seal, opened, sealed_with, verdict_on, Proof,
    PublicKey, SealedEnvelope, SealedValue, SigningKey, VerificationError,
};
use crate::proto::wire::{
    Ack, Announcement, AnnouncementValue, End, Error, ErrorValue, Frame, FramePayload,
    FramePayloadValue, FrameValue, Hello, Query, QueryValue, Rid, SignedFrame, SignedFrameValue,
    UnsignedFrame, UnsignedFrameValue,
};
use crate::proto::FrameError;
use vstd::prelude::*;

verus! {

/// A value that travels in frames of some of the types.
pub trait FrameType: Sized {
    /// What a value holds.
    type Value;

    /// What this value holds.
    spec fn value(&self) -> Self::Value;

    /// The value in a frame payload; payloads of other types are refused.
    spec fn accepts(payload: DataFramePayloadValue) -> Result<Self::Value, FrameError>;

    /// The frame payload of a value.
    spec fn payload_value(v: Self::Value) -> DataFramePayloadValue;

    /// What was made a frame payload is read from it again.
    proof fn accepts_inverts_payload(v: Self::Value)
        ensures
            Self::accepts(Self::payload_value(v)) == Ok::<Self::Value, FrameError>(v),
    ;

    /// A payload of another type is refused as such, and any other payload is that of its value.
    proof fn accepts_only_own(payload: DataFramePayloadValue)
        ensures
            match Self::accepts(payload) {
                Ok(v) => Self::payload_value(v) == payload,
                Err(e) => e == FrameError::InvalidFrameType,
            },
    ;

    /// Reads the value from a frame payload.
    fn from_payload(frame: DataFramePayload) -> (r: Result<Self, FrameError>)
        ensures
            match r {
                Ok(v) => Self::accepts(frame.value()) == Ok::<Self::Value, FrameError>(v.value()),
                Err(e) => Self::accepts(frame.value()) == Err::<Self::Value, FrameError>(e),
            },
    ;

    /// Reads the value from a frame and hands on what else the frame says.
    fn from_frame(frame: DataFrame) -> (r: Result<(Self, FrameMeta), FrameError>)
        ensures
            match r {
                Ok((v, meta)) => {
                    &&& Self::accepts(frame.payload.value()) == Ok::<Self::Value, FrameError>(
                        v.value(),
                    )
                    &&& meta == frame.meta
                },
                Err(e) => Self::accepts(frame.payload.value()) == Err::<Self::Value, FrameError>(e),
            },
    {
        match Self::from_payload(frame.payload) {
            Ok(payload) => Ok((payload, frame.meta)),
            Err(e) => Err(e),
        }
    }

    /// Makes the value a frame payload.
    fn into_payload(self) -> (r: DataFramePayload)
        ensures
            r.value() == Self::payload_value(self.value()),
    ;
}

/// Number of a connection.
#[derive(Clone, Copy, Debug, PartialEq, Eq, Structural)]
pub struct ConnId(pub u64);

/// Who approved a frame, and the evidence.
#[derive(Clone, Copy, Debug)]
pub struct Authorization {
    pub issuer: PublicKey,
    pub seal: Proof,
}

impl From<(PublicKey, Proof)> for Authorization {
    fn from(v: (PublicKey, Proof)) -> (r: Authorization) {
        Authorization { issuer: v.0, seal: v.1 }
    }
}

impl vstd::std_specs::convert::FromSpecImpl<(PublicKey, Proof)> for Authorization {
    open spec fn obeys_from_spec() -> bool {
        true
    }

    open spec fn from_spec(v: (PublicKey, Proof)) -> Authorization {
        Authorization { issuer: v.0, seal: v.1 }
    }
}

/// What a frame says besides its payload.
#[derive(Clone, Debug)]
pub struct FrameMeta {
    pub rid: Option<Rid>,
    pub authorization: Option<Authorization>,
    /// The envelope that a signed payload came in, byte for byte.
    pub envelope: Option<SealedEnvelope<SignedFrame>>,
}

impl FrameMeta {
    /// What the envelope holds that a signed payload came in.
    pub open spec fn signed(&self) -> Option<SealedValue> {
        match self.envelope {
            Some(envelope) => Some(envelope@),
            None => None,
        }
    }
}

/// A verified frame.
#[derive(Debug)]
pub struct DataFrame {
    pub meta: FrameMeta,
    pub payload: DataFramePayload,
}

/// What a verified frame carries.
#[derive(Debug)]
pub enum DataFramePayload {
    Hello(Hello),
    Announce(Announcement),
    Query(Query),
    Ack(Ack),
    End(End),
    Error(Error),
}

/// What a [`DataFramePayload`] holds.
pub enum DataFramePayloadValue {
    Hello(Hello),
    Announce(AnnouncementValue),
    Query(QueryValue),
    Ack(Ack),
    End(End),
    Error(ErrorValue),
}

impl DataFramePayload {
    /// What the payload holds.
    pub open spec fn value(&self) -> DataFramePayloadValue {
        match self {
            DataFramePayload::Hello(x) => DataFramePayloadValue::Hello(*x),
            DataFramePayload::Announce(x) => DataFramePayloadValue::Announce(x.value()),
            DataFramePayload::Query(x) => DataFramePayloadValue::Query(x.value()),
            DataFramePayload::Ack(x) => DataFramePayloadValue::Ack(*x),
            DataFramePayload::End(x) => DataFramePayloadValue::End(*x),
            DataFramePayload::Error(x) => DataFramePayloadValue::Error(x.value()),
        }
    }
}

/// What a client may send, by stream.
#[derive(Debug)]
pub enum Request {
    Control(ControlMessage),
    Announce(AnnounceRequest),
    Query(QueryRequest),
}

/// What a server may send, by stream.
#[derive(Debug)]
pub enum Response {
    Control(ControlMessage),
    Announce(AnnounceResponse),
    Query(QueryResponse),
}

/// Messages on control streams.
#[derive(Debug)]
pub enum ControlMessage {
    Hello(Hello),
    End(End),
    Error(Error),
}

/// What a [`ControlMessage`] holds.
pub enum ControlMessageValue {
    Hello(Hello),
    End(End),
    Error(ErrorValue),
}

impl FrameType for ControlMessage {
    type Value = ControlMessageValue;

    open spec fn value(&self) -> ControlMessageValue {
        match self {
            ControlMessage::Hello(x) => ControlMessageValue::Hello(*x),
            ControlMessage::End(x) => ControlMessageValue::End(*x),
            ControlMessage::Error(x) => ControlMessageValue::Error(x.value()),
        }
    }

    open spec fn accepts(payload: DataFramePayloadValue) -> Result<
        ControlMessageValue,
        FrameError,
    > {
        match payload {
            DataFramePayloadValue::Hello(x) => Ok(ControlMessageValue::Hello(x)),
            DataFramePayloadValue::End(x) => Ok(ControlMessageValue::End(x)),
            DataFramePayloadValue::Error(x) => Ok(ControlMessageValue::Error(x)),
            _ => Err(FrameError::InvalidFrameType),
        }
    }

    open spec fn payload_value(v: ControlMessageValue) -> DataFramePayloadValue {
        match v {
            ControlMessageValue::Hello(x) => DataFramePayloadValue::Hello(x),
            ControlMessageValue::End(x) => DataFramePayloadValue::End(x),
            ControlMessageValue::Error(x) => DataFramePayloadValue::Error(x),
        }
    }

    proof fn accepts_inverts_payload(v: ControlMessageValue) {
    }

    proof fn accepts_only_own(payload: DataFramePayloadValue) {
    }

    fn from_payload(frame: DataFramePayload) -> (r: Result<Self, FrameError>) {
        match frame {
            DataFramePayload::Hello(data) => Ok(ControlMessage::Hello(data)),
            DataFramePayload::End(data) => Ok(ControlMessage::End(data)),
            DataFramePayload::Error(data) => Ok(ControlMessage::Error(data)),
            _ => Err(FrameError::InvalidFrameType),
        }
    }

    fn into_payload(self) -> (r: DataFramePayload) {
        match self {
            ControlMessage::Hello(payload) => DataFramePayload::Hello(payload),
            ControlMessage::End(payload) => DataFramePayload::End(payload),
            ControlMessage::Error(payload) => DataFramePayload::Error(payload),
        }
    }
}

/// Messages of the client on announce streams.
#[derive(Debug)]
pub enum AnnounceRequest {
    Announce(Announcement),
    End(End),
    Error(Error),
}

/// What an [`AnnounceRequest`] holds.
pub enum AnnounceRequestValue {
    Announce(AnnouncementValue),
    End(End),
    Error(ErrorValue),
}

impl FrameType for AnnounceRequest {
    type Value = AnnounceRequestValue;

    open spec fn value(&self) -> AnnounceRequestValue {
        match self {
            AnnounceRequest::Announce(x) => AnnounceRequestValue::Announce(x.value()),
            AnnounceRequest::End(x) => AnnounceRequestValue::End(*x),
            AnnounceRequest::Error(x) => AnnounceRequestValue::Error(x.value()),
        }
    }

    open spec fn accepts(payload: DataFramePayloadValue) -> Result<
        AnnounceRequestValue,
        FrameError,
    > {
        match payload {
            DataFramePayloadValue::Announce(x) => Ok(AnnounceRequestValue::Announce(x)),
            DataFramePayloadValue::End(x) => Ok(AnnounceRequestValue::End(x)),
            DataFramePayloadValue::Error(x) => Ok(AnnounceRequestValue::Error(x)),
            _ => Err(FrameError::InvalidFrameType),
        }
    }

    open spec fn payload_value(v: AnnounceRequestValue) -> DataFramePayloadValue {
        match v {
            AnnounceRequestValue::Announce(x) => DataFramePayloadValue::Announce(x),
            AnnounceRequestValue::End(x) => DataFramePayloadValue::End(x),
            AnnounceRequestValue::Error(x) => DataFramePayloadValue::Error(x),
        }
    }

    proof fn accepts_inverts_payload(v: AnnounceRequestValue) {
    }

    proof fn accepts_only_own(payload: DataFramePayloadValue) {
    }

    fn from_payload(frame: DataFramePayload) -> (r: Result<Self, FrameError>) {
        match frame {
            DataFramePayload::Announce(data) => Ok(AnnounceRequest::Announce(data)),
            DataFramePayload::End(data) => Ok(AnnounceRequest::End(data)),
            DataFramePayload::Error(data) => Ok(AnnounceRequest::Error(data)),
            _ => Err(FrameError::InvalidFrameType),
        }
    }

    fn into_payload(self) -> (r: DataFramePayload) {
        match self {
            AnnounceRequest::Announce(payload) => DataFramePayload::Announce(payload),
            AnnounceRequest::End(payload) => DataFramePayload::End(payload),
            AnnounceRequest::Error(payload) => DataFramePayload::Error(payload),
        }
    }
}

/// Messages of the server on announce streams.
#[derive(Debug)]
pub enum AnnounceResponse {
    Ack(Ack),
    End(End),
    Error(Error),
}

/// What an [`AnnounceResponse`] holds.
pub enum AnnounceResponseValue {
    Ack(Ack),
    End(End),
    Error(ErrorValue),
}

impl FrameType for AnnounceResponse {
    type Value = AnnounceResponseValue;

    open spec fn value(&self) -> AnnounceResponseValue {
        match self {
            AnnounceResponse::Ack(x) => AnnounceResponseValue::Ack(*x),
            AnnounceResponse::End(x) => AnnounceResponseValue::End(*x),
            AnnounceResponse::Error(x) => AnnounceResponseValue::Error(x.value()),
        }
    }

    open spec fn accepts(payload: DataFramePayloadValue) -> Result<
        AnnounceResponseValue,
        FrameError,
    > {
        match payload {
            DataFramePayloadValue::Ack(x) => Ok(AnnounceResponseValue::Ack(x)),
            DataFramePayloadValue::End(x) => Ok(AnnounceResponseValue::End(x)),
            DataFramePayloadValue::Error(x) => Ok(AnnounceResponseValue::Error(x)),
            _ => Err(FrameError::InvalidFrameType),
        }
    }

    open spec fn payload_value(v: AnnounceResponseValue) -> DataFramePayloadValue {
        match v {
            AnnounceResponseValue::Ack(x) => DataFramePayloadValue::Ack(x),
            AnnounceResponseValue::End(x) => DataFramePayloadValue::End(x),
            AnnounceResponseValue::Error(x) => DataFramePayloadValue::Error(x),
        }
    }

    proof fn accepts_inverts_payload(v: AnnounceResponseValue) {
    }

    proof fn accepts_only_own(payload: DataFramePayloadValue) {
    }

    fn from_payload(frame: DataFramePayload) -> (r: Result<Self, FrameError>) {
        match frame {
            DataFramePayload::Ack(data) => Ok(AnnounceResponse::Ack(data)),
            DataFramePayload::End(data) => Ok(AnnounceResponse::End(data)),
            DataFramePayload::Error(data) => Ok(AnnounceResponse::Error(data)),
            _ => Err(FrameError::InvalidFrameType),
        }
    }

    fn into_payload(self) -> (r: DataFramePayload) {
        match self {
            AnnounceResponse::Ack(payload) => DataFramePayload::Ack(payload),
            AnnounceResponse::End(payload) => DataFramePayload::End(payload),
            AnnounceResponse::Error(payload) => DataFramePayload::Error(payload),
        }
    }
}

/// Messages of the client on query streams.
#[derive(Debug)]
pub enum QueryRequest {
    Query(Query),
    End(End),
    Error(Error),
}

/// What a [`QueryRequest`] holds.
pub enum QueryRequestValue {
    Query(QueryValue),
    End(End),
    Error(ErrorValue),
}

impl FrameType for QueryRequest {
    type Value = QueryRequestValue;

    open spec fn value(&self) -> QueryRequestValue {
        match self {
            QueryRequest::Query(x) => QueryRequestValue::Query(x.value()),
            QueryRequest::End(x) => QueryRequestValue::End(*x),
            QueryRequest::Error(x) => QueryRequestValue::Error(x.value()),
        }
    }

    open spec fn accepts(payload: DataFramePayloadValue) -> Result<
        QueryRequestValue,
        FrameError,
    > {
        match payload {
            DataFramePayloadValue::Query(x) => Ok(QueryRequestValue::Query(x)),
            DataFramePayloadValue::End(x) => Ok(QueryRequestValue::End(x)),
            DataFramePayloadValue::Error(x) => Ok(QueryRequestValue::Error(x)),
            _ => Err(FrameError::InvalidFrameType),
        }
    }

    open spec fn payload_value(v: QueryRequestValue) -> DataFramePayloadValue {
        match v {
            QueryRequestValue::Query(x) => DataFramePayloadValue::Query(x),
            QueryRequestValue::End(x) => DataFramePayloadValue::End(x),
            QueryRequestValue::Error(x) => DataFramePayloadValue::Error(x),
        }
    }

    proof fn accepts_inverts_payload(v: QueryRequestValue) {
    }

    proof fn accepts_only_own(payload: DataFramePayloadValue) {
    }

    fn from_payload(frame: DataFramePayload) -> (r: Result<Self, FrameError>) {
        match frame {
            DataFramePayload::Query(data) => Ok(QueryRequest::Query(data)),
            DataFramePayload::End(data) => Ok(QueryRequest::End(data)),
            DataFramePayload::Error(data) => Ok(QueryRequest::Error(data)),
            _ => Err(FrameError::InvalidFrameType),
        }
    }

    fn into_payload(self) -> (r: DataFramePayload) {
        match self {
            QueryRequest::Query(payload) => DataFramePayload::Query(payload),
            QueryRequest::End(payload) => DataFramePayload::End(payload),
            QueryRequest::Error(payload) => DataFramePayload::Error(payload),
        }
    }
}

/// Messages of the server on query streams.
#[derive(Debug)]
pub enum QueryResponse {
    Announce(Announcement),
    End(End),
    Error(Error),
}

/// What a [`QueryResponse`] holds.
pub enum QueryResponseValue {
    Announce(AnnouncementValue),
    End(End),
    Error(ErrorValue),
}

impl FrameType for QueryResponse {
    type Value = QueryResponseValue;

    open spec fn value(&self) -> QueryResponseValue {
        match self {
            QueryResponse::Announce(x) => QueryResponseValue::Announce(x.value()),
            QueryResponse::End(x) => QueryResponseValue::End(*x),
            QueryResponse::Error(x) => QueryResponseValue::Error(x.value()),
        }
    }

    open spec fn accepts(payload: DataFramePayloadValue) -> Result<
        QueryResponseValue,
        FrameError,
    > {
        match payload {
            DataFramePayloadValue::Announce(x) => Ok(QueryResponseValue::Announce(x)),
            DataFramePayloadValue::End(x) => Ok(QueryResponseValue::End(x)),
            DataFramePayloadValue::Error(x) => Ok(QueryResponseValue::Error(x)),
            _ => Err(FrameError::InvalidFrameType),
        }
    }

    open spec fn payload_value(v: QueryResponseValue) -> DataFramePayloadValue {
        match v {
            QueryResponseValue::Announce(x) => DataFramePayloadValue::Announce(x),
            QueryResponseValue::End(x) => DataFramePayloadValue::End(x),
            QueryResponseValue::Error(x) => DataFramePayloadValue::Error(x),
        }
    }

    proof fn accepts_inverts_payload(v: QueryResponseValue) {
    }

    proof fn accepts_only_own(payload: DataFramePayloadValue) {
    }

    fn from_payload(frame: DataFramePayload) -> (r: Result<Self, FrameError>) {
        match frame {
            DataFramePayload::Announce(data) => Ok(QueryResponse::Announce(data)),
            DataFramePayload::End(data) => Ok(QueryResponse::End(data)),
            DataFramePayload::Error(data) => Ok(QueryResponse::Error(data)),
            _ => Err(FrameError::InvalidFrameType),
        }
    }

    fn into_payload(self) -> (r: DataFramePayload) {
        match self {
            QueryResponse::Announce(payload) => DataFramePayload::Announce(payload),
            QueryResponse::End(payload) => DataFramePayload::End(payload),
            QueryResponse::Error(payload) => DataFramePayload::Error(payload),
        }
    }
}

/// A message that clients send.
pub trait RequestType: FrameType {
    /// The message among all that clients send.
    spec fn request(self) -> Request;

    /// Makes this one of the messages that clients send.
    fn into_request(self) -> (r: Request)
        ensures
            r == self.request(),
    ;
}

impl RequestType for ControlMessage {
    open spec fn request(self) -> Request {
        Request::Control(self)
    }

    fn into_request(self) -> (r: Request) {
        Request::Control(self)
    }
}

impl RequestType for AnnounceRequest {
    open spec fn request(self) -> Request {
        Request::Announce(self)
    }

    fn into_request(self) -> (r: Request) {
        Request::Announce(self)
    }
}

impl RequestType for QueryRequest {
    open spec fn request(self) -> Request {
        Request::Query(self)
    }

    fn into_request(self) -> (r: Request) {
        Request::Query(self)
    }
}

/// A message that servers send.
pub trait ResponseType: FrameType {
    /// The message among all that servers send.
    spec fn response(self) -> Response;

    /// Makes this one of the messages that servers send.
    fn into_response(self) -> (r: Response)
        ensures
            r == self.response(),
    ;
}

impl ResponseType for ControlMessage {
    open spec fn response(self) -> Response {
        Response::Control(self)
    }

    fn into_response(self) -> (r: Response) {
        Response::Control(self)
    }
}

impl ResponseType for AnnounceResponse {
    open spec fn response(self) -> Response {
        Response::Announce(self)
    }

    fn into_response(self) -> (r: Response) {
        Response::Announce(self)
    }
}

impl ResponseType for QueryResponse {
    open spec fn response(self) -> Response {
        Response::Query(self)
    }

    fn into_response(self) -> (r: Response) {
        Response::Query(self)
    }
}

/// The payload of an unsigned frame.
pub open spec fn unsigned_payload(frame: UnsignedFrameValue) -> DataFramePayloadValue {
    match frame {
        UnsignedFrameValue::Hello(x) => DataFramePayloadValue::Hello(x),
        UnsignedFrameValue::Query(x) => DataFramePayloadValue::Query(x),
        UnsignedFrameValue::Ack(x) => DataFramePayloadValue::Ack(x),
        UnsignedFrameValue::End(x) => DataFramePayloadValue::End(x),
        UnsignedFrameValue::Error(x) => DataFramePayloadValue::Error(x),
    }
}

/// The payload of a signed frame.
pub open spec fn signed_payload(frame: SignedFrameValue) -> DataFramePayloadValue {
    match frame {
        SignedFrameValue::Announce(x) => DataFramePayloadValue::Announce(x),
    }
}

/// The verdict on the seal of a frame; an unsigned frame has nothing to refuse.
pub open spec fn frame_verdict(frame: FrameValue) -> Result<bool, VerificationError> {
    match frame.payload {
        FramePayloadValue::Unsigned(_) => Ok(true),
        FramePayloadValue::Signed(envelope) => verdict_on(envelope),
    }
}

/// The payload of a frame and who approved it, once its seal, if it has one, has been checked
/// with outcome `verdict`.
pub open spec fn checked_payload(
    frame: FrameValue,
    verdict: Result<bool, VerificationError>,
) -> Result<(DataFramePayloadValue, Option<Authorization>), FrameError> {
    match frame.payload {
        FramePayloadValue::Unsigned(u) => Ok((unsigned_payload(u), None)),
        FramePayloadValue::Signed(envelope) => match opened::<SignedFrame>(envelope, verdict) {
            Ok(s) => Ok(
                (
                    signed_payload(s),
                    Some(Authorization { issuer: envelope.issuer, seal: envelope.seal }),
                ),
            ),
            Err(e) => Err(e),
        },
    }
}

/// The envelope of a signed frame.
pub open spec fn envelope_in(frame: FrameValue) -> Option<SealedValue> {
    match frame.payload {
        FramePayloadValue::Unsigned(_) => None,
        FramePayloadValue::Signed(envelope) => Some(envelope),
    }
}

/// Whether `meta` is what `frame` says besides its payload, which `authorization` approved.
pub open spec fn says_besides(
    frame: FrameValue,
    authorization: Option<Authorization>,
    meta: FrameMeta,
) -> bool {
    &&& meta.rid == frame.rid
    &&& meta.authorization == authorization
    &&& meta.signed() == envelope_in(frame)
}

/// Whether `r` is the outcome of reading a frame whose seal, if it has one, was checked with
/// outcome `verdict`.
pub open spec fn reads_frame(
    frame: FrameValue,
    verdict: Result<bool, VerificationError>,
    r: Result<DataFrame, FrameError>,
) -> bool {
    match checked_payload(frame, verdict) {
        Err(e) => r == Err::<DataFrame, FrameError>(e),
        Ok((payload, authorization)) => {
            &&& r matches Ok(d)
            &&& d.payload.value() == payload
            &&& says_besides(frame, authorization, d.meta)
        },
    }
}

/// Whether `r` is the outcome of reading a `T` from a frame whose seal, if it has one, was checked
/// with outcome `verdict`.
pub open spec fn reads_value<T: FrameType>(
    frame: FrameValue,
    verdict: Result<bool, VerificationError>,
    r: Result<(T, FrameMeta), FrameError>,
) -> bool {
    match checked_payload(frame, verdict) {
        Err(e) => r == Err::<(T, FrameMeta), FrameError>(e),
        Ok((payload, authorization)) => match r {
            Ok((v, meta)) => {
                &&& T::accepts(payload) == Ok::<T::Value, FrameError>(v.value())
                &&& says_besides(frame, authorization, meta)
            },
            Err(e) => T::accepts(payload) == Err::<T::Value, FrameError>(e),
        },
    }
}

/// Whether `frame` carries `payload` with number `rid`: announcements signed with `key`, all else
/// unsigned.
pub open spec fn carries(
    frame: FrameValue,
    rid: Option<Rid>,
    payload: DataFramePayloadValue,
    key: SigningKey,
) -> bool {
    &&& frame.rid == rid
    &&& match payload {
        DataFramePayloadValue::Announce(a) => frame.payload matches FramePayloadValue::Signed(
            envelope,
        ) && sealed_with(envelope, key, SignedFrame::bytes(SignedFrameValue::Announce(a))),
        DataFramePayloadValue::Hello(x) => frame.payload == FramePayloadValue::Unsigned(
            UnsignedFrameValue::Hello(x),
        ),
        DataFramePayloadValue::Query(x) => frame.payload == FramePayloadValue::Unsigned(
            UnsignedFrameValue::Query(x),
        ),
        DataFramePayloadValue::Ack(x) => frame.payload == FramePayloadValue::Unsigned(
            UnsignedFrameValue::Ack(x),
        ),
        DataFramePayloadValue::End(x) => frame.payload == FramePayloadValue::Unsigned(
            UnsignedFrameValue::End(x),
        ),
        DataFramePayloadValue::Error(x) => frame.payload == FramePayloadValue::Unsigned(
            UnsignedFrameValue::Error(x),
        ),
    }
}

impl Frame {
    /// The frame that carries `payload`; announcements are signed with `signing_key`.
    pub fn carrying(
        payload: DataFramePayload,
        rid: Option<Rid>,
        signing_key: &SigningKey,
    ) -> (r: Result<Frame, FrameError>)
        ensures
            r matches Ok(frame) && carries(frame.value(), rid, payload.value(), *signing_key),
    {
        let payload = match payload {
            DataFramePayload::Hello(x) => FramePayload::Unsigned(UnsignedFrame::Hello(x)),
            DataFramePayload::Announce(x) => {
                let signed = SignedFrame::Announce(x);
                match SealedEnvelope::sign_and_encode(signing_key, &signed) {
                    Ok(envelope) => FramePayload::Signed(envelope),
                    Err(e) => return Err(e),
                }
            },
            DataFramePayload::Query(x) => FramePayload::Unsigned(UnsignedFrame::Query(x)),
            DataFramePayload::Ack(x) => FramePayload::Unsigned(UnsignedFrame::Ack(x)),
            DataFramePayload::End(x) => FramePayload::Unsigned(UnsignedFrame::End(x)),
            DataFramePayload::Error(x) => FramePayload::Unsigned(UnsignedFrame::Error(x)),
        };
        let frame = Frame { rid, payload };
        assert(frame.rid.value() == rid);
        Ok(frame)
    }

    /// Checks the signature of a signed frame, and hands out the payload.
    pub fn verify_if_signed(self) -> (r: Result<DataFrame, FrameError>)
        ensures
            reads_frame(self.value(), frame_verdict(self.value()), r),
    {
        let verdict = match &self.payload {
            FramePayload::Unsigned(_) => Ok(true),
            FramePayload::Signed(frame) => frame.verify(),
        };
        self.verify_with(verdict)
    }

    /// Hands out the payload of a frame whose signature, if it has one, was checked with outcome
    /// `verdict`.
    pub fn verify_with(self, verdict: Result<bool, VerificationError>) -> (r: Result<
        DataFrame,
        FrameError,
    >)
        ensures
            reads_frame(self.value(), verdict, r),
    {
        assert(self.rid.value() == self.rid);
        let (payload, authorization, envelope) = match self.payload {
            FramePayload::Unsigned(frame) => {
                let payload = match frame {
                    UnsignedFrame::Hello(payload) => DataFramePayload::Hello(payload),
                    UnsignedFrame::Query(payload) => DataFramePayload::Query(payload),
                    UnsignedFrame::End(payload) => DataFramePayload::End(payload),
                    UnsignedFrame::Error(payload) => DataFramePayload::Error(payload),
                    UnsignedFrame::Ack(payload) => DataFramePayload::Ack(payload),
                };
                (payload, None, None)
            },
            FramePayload::Signed(frame) => {
                let envelope = frame.clone();
                let (payload, issuer, seal) = match frame.decode_checked(verdict) {
                    Ok(verified) => verified.split(),
                    Err(e) => return Err(e),
                };
                let payload = match payload {
                    SignedFrame::Announce(payload) => DataFramePayload::Announce(payload),
                };
                let authorization = Authorization::from((issuer, seal));
                (payload, Some(authorization), Some(envelope))
            },
        };
        let meta = FrameMeta { rid: self.rid, authorization, envelope };
        Ok(DataFrame { payload, meta })
    }

    /// Checks the signature of a signed frame, and reads a `T` from the payload.
    pub fn verify_into<T: FrameType>(self) -> (r: Result<(T, FrameMeta), FrameError>)
        ensures
            reads_value(self.value(), frame_verdict(self.value()), r),
    {
        match self.verify_if_signed() {
            Ok(frame) => T::from_frame(frame),
            Err(e) => Err(e),
        }
    }
}

/// Every message is read back from the payload that it becomes, and from no other payload.
pub proof fn law_payload_roundtrip<T: FrameType>(v: T::Value, payload: DataFramePayloadValue)
    ensures
        T::accepts(T::payload_value(v)) == Ok::<T::Value, FrameError>(v),
        T::accepts(payload) == Ok::<T::Value, FrameError>(v) ==> payload == T::payload_value(v),
{
    T::accepts_inverts_payload(v);
    T::accepts_only_own(payload);
}

/// On streams of every type, both sides may send `END` and `ERROR` frames.
pub proof fn law_end_and_error_are_allowed_everywhere(end: End, error: ErrorValue)
    ensures
        ControlMessage::accepts(DataFramePayloadValue::End(end)) is Ok,
        ControlMessage::accepts(DataFramePayloadValue::Error(error)) is Ok,
        AnnounceRequest::accepts(DataFramePayloadValue::End(end)) is Ok,
        AnnounceRequest::accepts(DataFramePayloadValue::Error(error)) is Ok,
        AnnounceResponse::accepts(DataFramePayloadValue::End(end)) is Ok,
        AnnounceResponse::accepts(DataFramePayloadValue::Error(error)) is Ok,
        QueryRequest::accepts(DataFramePayloadValue::End(end)) is Ok,
        QueryRequest::accepts(DataFramePayloadValue::Error(error)) is Ok,
        QueryResponse::accepts(DataFramePayloadValue::End(end)) is Ok,
        QueryResponse::accepts(DataFramePayloadValue::Error(error)) is Ok,
{
}

/// A payload that is no message of a stream is refused as a frame of the wrong type.
pub proof fn law_other_types_refused<T: FrameType>(payload: DataFramePayloadValue)
    requires
        forall|v: T::Value| T::payload_value(v) != payload,
    ensures
        T::accepts(payload) == Err::<T::Value, FrameError>(FrameError::InvalidFrameType),
{
    T::accepts_only_own(payload);
}

/// An announcement that was signed comes out as it went in, with the public key of the signer,
/// unless the commitment of the signature is the neutral point.
pub proof fn law_signed_frame(
    frame: FrameValue,
    envelope: SealedValue,
    key: SigningKey,
    announcement: AnnouncementValue,
)
    requires
        frame.payload == FramePayloadValue::Signed(envelope),
        Announcement::encodable(announcement),
        sealed_with(envelope, key, SignedFrame::bytes(SignedFrameValue::Announce(announcement))),
        !envelope.seal.neutral(),
    ensures
        checked_payload(frame, frame_verdict(frame)) == Ok::<
            (DataFramePayloadValue, Option<Authorization>),
            FrameError,
        >(
            (
                DataFramePayloadValue::Announce(announcement),
                Some(Authorization { issuer: envelope.issuer, seal: envelope.seal }),
            ),
        ),
        envelope.issuer@ == ed25519_public(key.secret()),
{
    law_open_inverts_seal::<SignedFrame>(
        envelope,
        key,
        SignedFrameValue::Announce(announcement),
    );
}

/// Whatever a message was sent as, the same message is read from the frame, with its number; an
/// announcement unless the commitment of its signature is the neutral point.
pub proof fn law_message_roundtrip<T: FrameType>(
    frame: FrameValue,
    rid: Option<Rid>,
    v: T::Value,
    key: SigningKey,
)
    requires
        carries(frame, rid, T::payload_value(v), key),
        T::payload_value(v) matches DataFramePayloadValue::Announce(a) ==> {
            &&& Announcement::encodable(a)
            &&& frame.payload matches FramePayloadValue::Signed(envelope)
                && !envelope.seal.neutral()
        },
    ensures
        checked_payload(frame, frame_verdict(frame)) matches Ok((payload, _)) && T::accepts(payload)
            == Ok::<T::Value, FrameError>(v),
        frame.rid == rid,
{
    T::accepts_inverts_payload(v);
    if let DataFramePayloadValue::Announce(a) = T::payload_value(v) {
        if let FramePayloadValue::Signed(envelope) = frame.payload {
            crate::proto::traits::law_decode_inverts_encode::<SignedFrame>(
                SignedFrameValue::Announce(a),
                Seq::empty(),
            );
        }
    }
}

/// Only signed frames yield announcements, so whoever announced is known.
pub proof fn law_announcements_are_signed(
    frame: FrameValue,
    verdict: Result<bool, VerificationError>,
)
    ensures
        checked_payload(frame, verdict) matches Ok((DataFramePayloadValue::Announce(_), who))
            ==> who is Some,
{
}

/// An announcement whose signature is refused is not handed out.
pub proof fn law_refused_frame(frame: FrameValue, envelope: SealedValue)
    requires
        frame.payload == FramePayloadValue::Signed(envelope),
        !envelope.seal.accepted(envelope.issuer, envelope.payload),
    ensures
        checked_payload(frame, frame_verdict(frame)) == Err::<
            (DataFramePayloadValue, Option<Authorization>),
            FrameError,
        >(FrameError::Verification(VerificationError::BadEdSignature)),
{
}

/// Which payloads are allowed on which streams: `HELLO` on control streams, `ANNOUNCE` from clients
/// on announce streams and from servers on query streams, `QUERY` from clients on query streams,
/// `ACK` from servers on announce streams, and `END` and `ERROR` everywhere.
pub proof fn law_each_stream_has_its_types(payload: DataFramePayloadValue)
    ensures
        ControlMessage::accepts(payload) is Ok <==> payload is Hello || payload is End || payload
            is Error,
        AnnounceRequest::accepts(payload) is Ok <==> payload is Announce || payload is End || payload
            is Error,
        AnnounceResponse::accepts(payload) is Ok <==> payload is Ack || payload is End || payload
            is Error,
        QueryRequest::accepts(payload) is Ok <==> payload is Query || payload is End || payload
            is Error,
        QueryResponse::accepts(payload) is Ok <==> payload is Announce || payload is End || payload
            is Error,
{
}

/// What an allowed payload holds is what the message holds.
pub proof fn law_messages_are_read_unchanged(
    hello: Hello,
    announcement: AnnouncementValue,
    query: QueryValue,
    ack: Ack,
    error: ErrorValue,
)
    ensures
        ControlMessage::accepts(DataFramePayloadValue::Hello(hello)) == Ok::<
            ControlMessageValue,
            FrameError,
        >(ControlMessageValue::Hello(hello)),
        AnnounceRequest::accepts(DataFramePayloadValue::Announce(announcement)) == Ok::<
            AnnounceRequestValue,
            FrameError,
        >(AnnounceRequestValue::Announce(announcement)),
        QueryRequest::accepts(DataFramePayloadValue::Query(query)) == Ok::<
            QueryRequestValue,
            FrameError,
        >(QueryRequestValue::Query(query)),
        AnnounceResponse::accepts(DataFramePayloadValue::Ack(ack)) == Ok::<
            AnnounceResponseValue,
            FrameError,
        >(AnnounceResponseValue::Ack(ack)),
        QueryResponse::accepts(DataFramePayloadValue::Announce(announcement)) == Ok::<
            QueryResponseValue,
            FrameError,
        >(QueryResponseValue::Announce(announcement)),
        ControlMessage::accepts(DataFramePayloadValue::Error(error)) == Ok::<
            ControlMessageValue,
            FrameError,
        >(ControlMessageValue::Error(error)),
        AnnounceRequest::accepts(DataFramePayloadValue::Error(error)) == Ok::<
            AnnounceRequestValue,
            FrameError,
        >(AnnounceRequestValue::Error(error)),
        AnnounceResponse::accepts(DataFramePayloadValue::Error(error)) == Ok::<
            AnnounceResponseValue,
            FrameError,
        >(AnnounceResponseValue::Error(error)),
        QueryRequest::accepts(DataFramePayloadValue::Error(error)) == Ok::<
            QueryRequestValue,
            FrameError,
        >(QueryRequestValue::Error(error)),
        QueryResponse::accepts(DataFramePayloadValue::Error(error)) == Ok::<
            QueryResponseValue,
            FrameError,
        >(QueryResponseValue::Error(error)),
{
}

/// A message is handed to whoever handles its kind, as the message that it is.
pub proof fn law_messages_are_sorted_by_stream(
    control: ControlMessage,
    announce: AnnounceRequest,
    query: QueryRequest,
    acknowledge: AnnounceResponse,
    reply: QueryResponse,
)
    ensures
        RequestType::request(control) == Request::Control(control),
        RequestType::request(announce) == Request::Announce(announce),
        RequestType::request(query) == Request::Query(query),
        ResponseType::response(control) == Response::Control(control),
        ResponseType::response(acknowledge) == Response::Announce(acknowledge),
        ResponseType::response(reply) == Response::Query(reply),
{
}

/// An unsigned frame gives its own payload, approved by nobody, whatever was found of a signature.
/// A signed one gives an announcement, approved by the issuer of its envelope, if its signature was
/// accepted and its payload can be decoded.
pub proof fn law_payload_is_that_of_the_frame(
    frame: FrameValue,
    verdict: Result<bool, VerificationError>,
)
    ensures
        match frame.payload {
            FramePayloadValue::Unsigned(u) => {
                &&& checked_payload(frame, verdict) matches Ok((payload, who))
                &&& who is None
                &&& match u {
                    UnsignedFrameValue::Hello(x) => payload == DataFramePayloadValue::Hello(x),
                    UnsignedFrameValue::Query(x) => payload == DataFramePayloadValue::Query(x),
                    UnsignedFrameValue::Ack(x) => payload == DataFramePayloadValue::Ack(x),
                    UnsignedFrameValue::End(x) => payload == DataFramePayloadValue::End(x),
                    UnsignedFrameValue::Error(x) => payload == DataFramePayloadValue::Error(x),
                }
            },
            FramePayloadValue::Signed(envelope) => match verdict {
                Err(e) => checked_payload(frame, verdict) == Err::<
                    (DataFramePayloadValue, Option<Authorization>),
                    FrameError,
                >(FrameError::Verification(e)),
                Ok(_) => match SignedFrame::parse(envelope.payload) {
                    Ok((SignedFrameValue::Announce(a), _)) => checked_payload(frame, verdict)
                        == Ok::<(DataFramePayloadValue, Option<Authorization>), FrameError>(
                        (
                            DataFramePayloadValue::Announce(a),
                            Some(Authorization { issuer: envelope.issuer, seal: envelope.seal }),
                        ),
                    ),
                    Err(e) => checked_payload(frame, verdict) == Err::<
                        (DataFramePayloadValue, Option<Authorization>),
                        FrameError,
                    >(FrameError::Malformed(e)),
                },
            },
        },
        frame.payload is Unsigned ==> frame_verdict(frame) == Ok::<bool, VerificationError>(true),
        frame.payload matches FramePayloadValue::Signed(envelope) ==> (frame_verdict(frame) is Ok
            <==> envelope.seal.accepted(envelope.issuer, envelope.payload)),
{
}

/// With a message comes the number of its frame and, if the frame was signed, who signed it and the
/// envelope that it came in, byte for byte; of an unsigned frame neither.
pub proof fn law_message_comes_with_its_frame<T: FrameType>(
    frame: FrameValue,
    verdict: Result<bool, VerificationError>,
    message: T,
    meta: FrameMeta,
)
    requires
        reads_value(frame, verdict, Ok::<(T, FrameMeta), FrameError>((message, meta))),
    ensures
        meta.rid == frame.rid,
        match frame.payload {
            FramePayloadValue::Unsigned(_) => meta.authorization is None && meta.envelope is None,
            FramePayloadValue::Signed(envelope) => {
                &&& verdict is Ok
                &&& meta.authorization matches Some(who) && who.issuer == envelope.issuer && who.seal
                    == envelope.seal
                &&& meta.envelope matches Some(kept) && kept@ == envelope
            },
        },
        checked_payload(frame, verdict) matches Ok((payload, _)) && T::accepts(payload) == Ok::<
            T::Value,
            FrameError,
        >(message.value()),
{
}

/// A frame carries an announcement under the signature of the sender, and everything else as it is,
/// without one; either way it has the number that it was given.
pub proof fn law_only_announcements_are_signed(
    frame: FrameValue,
    rid: Option<Rid>,
    payload: DataFramePayloadValue,
    key: SigningKey,
)
    requires
        carries(frame, rid, payload, key),
    ensures
        frame.rid == rid,
        match payload {
            DataFramePayloadValue::Announce(a) => {
                &&& frame.payload matches FramePayloadValue::Signed(envelope)
                &&& envelope.issuer@ == ed25519_public(key.secret())
                &&& envelope.payload == SignedFrame::bytes(SignedFrameValue::Announce(a))
                &&& envelope.seal matches Proof::EdSignature(signature) && signature@
                    == ed25519_signature(key.secret(), envelope.payload)
            },
            DataFramePayloadValue::Hello(x) => frame.payload == FramePayloadValue::Unsigned(
                UnsignedFrameValue::Hello(x),
            ),
            DataFramePayloadValue::Query(x) => frame.payload == FramePayloadValue::Unsigned(
                UnsignedFrameValue::Query(x),
            ),
            DataFramePayloadValue::Ack(x) => frame.payload == FramePayloadValue::Unsigned(
                UnsignedFrameValue::Ack(x),
            ),
            DataFramePayloadValue::End(x) => frame.payload == FramePayloadValue::Unsigned(
                UnsignedFrameValue::End(x),
            ),
            DataFramePayloadValue::Error(x) => frame.payload == FramePayloadValue::Unsigned(
                UnsignedFrameValue::Error(x),
            ),
        },
{
}

/// What a message of each kind holds is what its fields hold.
pub proof fn law_messages_hold_their_payload(
    announcement: Announcement,
    query: Query,
    hello: Hello,
    ack: Ack,
    error: Error,
)
    ensures
        ControlMessage::Hello(hello).value() == ControlMessageValue::Hello(hello),
        ControlMessage::Error(error).value() == ControlMessageValue::Error(error.value()),
        AnnounceRequest::Announce(announcement).value() == AnnounceRequestValue::Announce(
            announcement.value(),
        ),
        AnnounceRequest::Error(error).value() == AnnounceRequestValue::Error(error.value()),
        AnnounceResponse::Ack(ack).value() == AnnounceResponseValue::Ack(ack),
        AnnounceResponse::Error(error).value() == AnnounceResponseValue::Error(error.value()),
        QueryRequest::Query(query).value() == QueryRequestValue::Query(query.value()),
        QueryRequest::Error(error).value() == QueryRequestValue::Error(error.value()),
        QueryResponse::Announce(announcement).value() == QueryResponseValue::Announce(
            announcement.value(),
        ),
        QueryResponse::Error(error).value() == QueryResponseValue::Error(error.value()),
{
}

/// What a verified frame holds is what its payload holds, and `END` frames hold nothing.
pub proof fn law_payloads_hold_their_fields(payload: DataFramePayload, end: End)
    ensures
        match payload {
            DataFramePayload::Hello(x) => payload.value() == DataFramePayloadValue::Hello(x),
            DataFramePayload::Announce(x) => payload.value() == DataFramePayloadValue::Announce(
                x.value(),
            ),
            DataFramePayload::Query(x) => payload.value() == DataFramePayloadValue::Query(x.value()),
            DataFramePayload::Ack(x) => payload.value() == DataFramePayloadValue::Ack(x),
            DataFramePayload::End(x) => payload.value() == DataFramePayloadValue::End(x),
            DataFramePayload::Error(x) => payload.value() == DataFramePayloadValue::Error(x.value()),
        },
        ControlMessage::End(end).value() == ControlMessageValue::End(end),
        AnnounceRequest::End(end).value() == AnnounceRequestValue::End(end),
        AnnounceResponse::End(end).value() == AnnounceResponseValue::End(end),
        QueryRequest::End(end).value() == QueryRequestValue::End(end),
        QueryResponse::End(end).value() == QueryResponseValue::End(end),
        ControlMessage::accepts(DataFramePayloadValue::End(end)) == Ok::<
            ControlMessageValue,
            FrameError,
        >(ControlMessageValue::End(end)),
        AnnounceRequest::accepts(DataFramePayloadValue::End(end)) == Ok::<
            AnnounceRequestValue,
            FrameError,
        >(AnnounceRequestValue::End(end)),
        AnnounceResponse::accepts(DataFramePayloadValue::End(end)) == Ok::<
            AnnounceResponseValue,
            FrameError,
        >(AnnounceResponseValue::End(end)),
        QueryRequest::accepts(DataFramePayloadValue::End(end)) == Ok::<
            QueryRequestValue,
            FrameError,
        >(QueryRequestValue::End(end)),
        QueryResponse::accepts(DataFramePayloadValue::End(end)) == Ok::<
            QueryResponseValue,
            FrameError,
        >(QueryResponseValue::End(end)),
{
}

} // verus!

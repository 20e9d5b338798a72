//! waht wire protocol
//!
//! all structs in here are part of the wire protocol, therefore any change
//! in struct fields are wire-protocol breaking changes!

use crate::addr::SocketAddr;
use crate::proto::codec::{CodecError, Wire};
use crate::proto::crypto::{SealedEnvelope, SealedValue};
use crate::proto::Timestamp;
use crate::tracker::{Key, PeerId, Topic};
use vstd::prelude::*;

verus! {

/// Number by which a reply names the request that it answers.
pub type Rid = u64;

/// Longest frame that a peer should send.
pub const MAX_FRAME_LEN: usize = 4096;

/// What is sent on a stream.
#[derive(Debug)]
pub struct Frame {
    pub rid: Option<Rid>,
    pub payload: FramePayload,
}

/// What a [`Frame`] holds.
pub struct FrameValue {
    pub rid: Option<Rid>,
    pub payload: FramePayloadValue,
}

/// The number of the type of `HELLO` frames.
pub const HELLO_FRAME: u32 = 0x01;

/// The number of the type of `ANNOUNCE` frames.
pub const ANNOUNCE_FRAME: u32 = 0x02;

/// The number of the type of `QUERY` frames.
pub const QUERY_FRAME: u32 = 0x04;

/// The number of the type of `ACK` frames.
pub const ACK_FRAME: u32 = 0x07;

/// The number of the type of `END` frames.
pub const END_FRAME: u32 = 0x08;

/// The number of the type of `ERROR` frames.
pub const ERROR_FRAME: u32 = 0x09;

/// The number of the type of a frame. The numbers 0x03, 0x05 and 0x06 are left for `UNANNOUNCE`,
/// `CANCEL_QUERY` and `REDIRECT` frames.
pub open spec fn frame_type(frame: FrameValue) -> u32 {
    match frame.payload {
        FramePayloadValue::Signed(_) => ANNOUNCE_FRAME,
        FramePayloadValue::Unsigned(UnsignedFrameValue::Hello(_)) => HELLO_FRAME,
        FramePayloadValue::Unsigned(UnsignedFrameValue::Query(_)) => QUERY_FRAME,
        FramePayloadValue::Unsigned(UnsignedFrameValue::Ack(_)) => ACK_FRAME,
        FramePayloadValue::Unsigned(UnsignedFrameValue::End(_)) => END_FRAME,
        FramePayloadValue::Unsigned(UnsignedFrameValue::Error(_)) => ERROR_FRAME,
    }
}

impl Frame {
    /// The number of the type of the frame.
    pub fn type_number(&self) -> (r: u32)
        ensures
            r == frame_type(self.value()),
    {
        match &self.payload {
            FramePayload::Signed(_) => ANNOUNCE_FRAME,
            FramePayload::Unsigned(UnsignedFrame::Hello(_)) => HELLO_FRAME,
            FramePayload::Unsigned(UnsignedFrame::Query(_)) => QUERY_FRAME,
            FramePayload::Unsigned(UnsignedFrame::Ack(_)) => ACK_FRAME,
            FramePayload::Unsigned(UnsignedFrame::End(_)) => END_FRAME,
            FramePayload::Unsigned(UnsignedFrame::Error(_)) => ERROR_FRAME,
        }
    }
}

/// A frame body, with or without a signature.
#[derive(Debug)]
pub enum FramePayload {
    Unsigned(UnsignedFrame),
    Signed(SealedEnvelope<SignedFrame>),
}

/// What a [`FramePayload`] holds.
pub enum FramePayloadValue {
    Unsigned(UnsignedFrameValue),
    Signed(SealedValue),
}

/// Frames that are only sent signed.
#[derive(Clone, Debug)]
pub enum SignedFrame {
    Announce(Announcement),
}

/// What a [`SignedFrame`] holds.
pub enum SignedFrameValue {
    Announce(AnnouncementValue),
}

/// Frames that are sent without a signature.
#[derive(Debug)]
pub enum UnsignedFrame {
    Hello(Hello),
    Query(Query),
    Ack(Ack),
    End(End),
    Error(Error),
}

/// What an [`UnsignedFrame`] holds.
pub enum UnsignedFrameValue {
    Hello(Hello),
    Query(QueryValue),
    Ack(Ack),
    End(End),
    Error(ErrorValue),
}

/// First message on a control stream.
#[derive(Clone, Copy, Debug)]
pub struct Hello {
    pub version: u16,
    pub peer_id: PeerId,
}

/// A statement of a peer about itself or about what it provides.
#[derive(Clone, Debug)]
pub struct Announcement {
    pub timestamp: Timestamp,
    pub payload: AnnouncePayload,
}

/// What an [`Announcement`] holds.
pub struct AnnouncementValue {
    pub timestamp: Timestamp,
    pub payload: AnnouncePayloadValue,
}

/// The reply to an announcement.
#[derive(Clone, Copy, Debug)]
pub struct Ack {
    pub rid: Rid,
}

/// What is announced.
#[derive(Clone, Debug)]
pub enum AnnouncePayload {
    PeerInfo(PeerInfo),
    ProvideHash(ProvideHash),
    UpdateTopic(SealedEnvelope<UpdateTopic>),
}

/// What an [`AnnouncePayload`] holds.
pub enum AnnouncePayloadValue {
    PeerInfo(PeerInfo),
    ProvideHash(ProvideHash),
    UpdateTopic(SealedValue),
}

/// Where a peer can be reached.
#[derive(Clone, Copy, Debug)]
pub struct PeerInfo {
    pub addr: SocketAddr,
    pub relay: Option<SocketAddr>,
}

/// The peer provides the value with this hash.
#[derive(Clone, Copy, Debug)]
pub struct ProvideHash {
    pub target: Key,
}

/// The topic of the issuer now has this value.
#[derive(Clone, Copy, Debug)]
pub struct UpdateTopic {
    pub value: Key,
}

/// A request for announcements.
#[derive(Debug)]
pub struct Query {
    pub settings: QuerySettings,
    pub query: QueryPayload,
}

/// What a [`Query`] holds.
pub struct QueryValue {
    pub settings: QuerySettings,
    pub query: QueryPayloadValue,
}

/// How a query is to be answered.
#[derive(Clone, Copy, Debug)]
pub struct QuerySettings {
    pub stop_after: u32,
    pub keepalive: bool,
    pub federate: bool,
}

/// What is asked for.
#[derive(Debug)]
pub enum QueryPayload {
    Peers(QueryPeers),
    Keys(QueryKeys),
}

/// What a [`QueryPayload`] holds.
pub enum QueryPayloadValue {
    Peers(QueryPeersValue),
    Keys(QueryKeysValue),
}

/// Announcements of these peers.
#[derive(Debug)]
pub struct QueryPeers {
    pub peer_ids: Vec<PeerId>,
}

/// What a [`QueryPeers`] holds.
pub struct QueryPeersValue {
    pub peer_ids: Seq<PeerId>,
}

/// Announcements for these keys.
#[derive(Debug)]
pub struct QueryKeys {
    pub keys: Vec<Key>,
}

/// What a [`QueryKeys`] holds.
pub struct QueryKeysValue {
    pub keys: Seq<Key>,
}

/// The server asks to use another server for these topics.
#[derive(Debug)]
pub struct Redirect {
    pub server: String,
    pub topics: Vec<Topic>,
}

/// What a [`Redirect`] holds.
pub struct RedirectValue {
    pub server: Seq<char>,
    pub topics: Seq<Topic>,
}

/// The last frame of a stream.
#[derive(Clone, Copy, Debug)]
pub struct End {}

/// Something went wrong at the sender.
#[derive(Debug)]
pub struct Error {
    pub code: u32,
    pub message: Option<String>,
}

/// What an [`Error`] holds.
pub struct ErrorValue {
    pub code: u32,
    pub message: Option<Seq<char>>,
}

impl Wire for Frame {
    type Value = FrameValue;

    open spec fn value(&self) -> FrameValue {
        FrameValue { rid: self.rid.value(), payload: self.payload.value() }
    }

    open spec fn encodable(v: FrameValue) -> bool {
        &&& Option::<Rid>::encodable(v.rid)
        &&& FramePayload::encodable(v.payload)
    }

    open spec fn bytes(v: FrameValue) -> Seq<u8> {
        Option::<Rid>::bytes(v.rid) + FramePayload::bytes(v.payload)
    }

    open spec fn parse(s: Seq<u8>) -> Result<(FrameValue, Seq<u8>), CodecError> {
        match Option::<Rid>::parse(s) {
            Ok((rid, s1)) => match FramePayload::parse(s1) {
                Ok((payload, rest)) => Ok((FrameValue { rid, payload }, rest)),
                Err(e) => Err(e),
            },
            Err(e) => Err(e),
        }
    }

    #[verifier::rlimit(40)]
    proof fn parse_inverts_bytes(v: FrameValue, rest: Seq<u8>) {
        let s1 = FramePayload::bytes(v.payload) + rest;
        assert(Self::bytes(v) + rest =~= Option::<Rid>::bytes(v.rid) + s1);
        Option::<Rid>::parse_inverts_bytes(v.rid, s1);
        FramePayload::parse_inverts_bytes(v.payload, rest);
    }

    fn put(&self, out: &mut Vec<u8>) {
        self.rid.put(out);
        self.payload.put(out);
        assert(out@ =~= old(out)@ + Self::bytes(self.value()));
    }

    fn take<'a>(input: &'a [u8]) -> (r: Result<(Frame, &'a [u8]), CodecError>) {
        let (rid, s1) = match <Option<Rid> as Wire>::take(input) {
            Ok(found) => found,
            Err(e) => return Err(e),
        };
        let (payload, rest) = match FramePayload::take(s1) {
            Ok(found) => found,
            Err(e) => return Err(e),
        };
        Ok((Frame { rid, payload }, rest))
    }
}

impl Wire for FramePayload {
    type Value = FramePayloadValue;

    open spec fn value(&self) -> FramePayloadValue {
        match self {
            FramePayload::Unsigned(x) => FramePayloadValue::Unsigned(x.value()),
            FramePayload::Signed(x) => FramePayloadValue::Signed(x.value()),
        }
    }

    open spec fn encodable(v: FramePayloadValue) -> bool {
        match v {
            FramePayloadValue::Unsigned(x) => UnsignedFrame::encodable(x),
            FramePayloadValue::Signed(x) => SealedEnvelope::<SignedFrame>::encodable(x),
        }
    }

    open spec fn bytes(v: FramePayloadValue) -> Seq<u8> {
        match v {
            FramePayloadValue::Unsigned(x) => u32::bytes(0) + UnsignedFrame::bytes(x),
            FramePayloadValue::Signed(x) => u32::bytes(1) + SealedEnvelope::<SignedFrame>::bytes(x),
        }
    }

    open spec fn parse(s: Seq<u8>) -> Result<(FramePayloadValue, Seq<u8>), CodecError> {
        match u32::parse(s) {
            Ok((variant, body)) => if variant == 0 {
                match UnsignedFrame::parse(body) {
                    Ok((x, rest)) => Ok((FramePayloadValue::Unsigned(x), rest)),
                    Err(e) => Err(e),
                }
            } else if variant == 1 {
                match SealedEnvelope::<SignedFrame>::parse(body) {
                    Ok((x, rest)) => Ok((FramePayloadValue::Signed(x), rest)),
                    Err(e) => Err(e),
                }
            } else {
                Err(CodecError::SerdeDeCustom)
            },
            Err(e) => Err(e),
        }
    }

    #[verifier::rlimit(40)]
    proof fn parse_inverts_bytes(v: FramePayloadValue, rest: Seq<u8>) {
        match v {
            FramePayloadValue::Unsigned(x) => {
                let body = UnsignedFrame::bytes(x) + rest;
                assert(Self::bytes(v) + rest =~= u32::bytes(0) + body);
                u32::parse_inverts_bytes(0, body);
                UnsignedFrame::parse_inverts_bytes(x, rest);
            },
            FramePayloadValue::Signed(x) => {
                let body = SealedEnvelope::<SignedFrame>::bytes(x) + rest;
                assert(Self::bytes(v) + rest =~= u32::bytes(1) + body);
                u32::parse_inverts_bytes(1, body);
                SealedEnvelope::<SignedFrame>::parse_inverts_bytes(x, rest);
            },
        }
    }

    fn put(&self, out: &mut Vec<u8>) {
        match self {
            FramePayload::Unsigned(x) => {
                0u32.put(out);
                x.put(out);
            },
            FramePayload::Signed(x) => {
                1u32.put(out);
                x.put(out);
            },
        }
        assert(out@ =~= old(out)@ + Self::bytes(self.value()));
    }

    fn take<'a>(input: &'a [u8]) -> (r: Result<(FramePayload, &'a [u8]), CodecError>) {
        let (variant, body) = match u32::take(input) {
            Ok(found) => found,
            Err(e) => return Err(e),
        };
        if variant == 0 {
            match UnsignedFrame::take(body) {
                Ok((x, rest)) => Ok((FramePayload::Unsigned(x), rest)),
                Err(e) => Err(e),
            }
        } else if variant == 1 {
            match SealedEnvelope::<SignedFrame>::take(body) {
                Ok((x, rest)) => Ok((FramePayload::Signed(x), rest)),
                Err(e) => Err(e),
            }
        } else {
            Err(CodecError::SerdeDeCustom)
        }
    }
}

impl Wire for SignedFrame {
    type Value = SignedFrameValue;

    open spec fn value(&self) -> SignedFrameValue {
        match self {
            SignedFrame::Announce(x) => SignedFrameValue::Announce(x.value()),
        }
    }

    open spec fn encodable(v: SignedFrameValue) -> bool {
        match v {
            SignedFrameValue::Announce(x) => Announcement::encodable(x),
        }
    }

    open spec fn bytes(v: SignedFrameValue) -> Seq<u8> {
        match v {
            SignedFrameValue::Announce(x) => u32::bytes(0) + Announcement::bytes(x),
        }
    }

    open spec fn parse(s: Seq<u8>) -> Result<(SignedFrameValue, Seq<u8>), CodecError> {
        match u32::parse(s) {
            Ok((variant, body)) => if variant == 0 {
                match Announcement::parse(body) {
                    Ok((x, rest)) => Ok((SignedFrameValue::Announce(x), rest)),
                    Err(e) => Err(e),
                }
            } else {
                Err(CodecError::SerdeDeCustom)
            },
            Err(e) => Err(e),
        }
    }

    #[verifier::rlimit(40)]
    proof fn parse_inverts_bytes(v: SignedFrameValue, rest: Seq<u8>) {
        match v {
            SignedFrameValue::Announce(x) => {
                let body = Announcement::bytes(x) + rest;
                assert(Self::bytes(v) + rest =~= u32::bytes(0) + body);
                u32::parse_inverts_bytes(0, body);
                Announcement::parse_inverts_bytes(x, rest);
            },
        }
    }

    fn put(&self, out: &mut Vec<u8>) {
        match self {
            SignedFrame::Announce(x) => {
                0u32.put(out);
                x.put(out);
            },
        }
        assert(out@ =~= old(out)@ + Self::bytes(self.value()));
    }

    fn take<'a>(input: &'a [u8]) -> (r: Result<(SignedFrame, &'a [u8]), CodecError>) {
        let (variant, body) = match u32::take(input) {
            Ok(found) => found,
            Err(e) => return Err(e),
        };
        if variant == 0 {
            match Announcement::take(body) {
                Ok((x, rest)) => Ok((SignedFrame::Announce(x), rest)),
                Err(e) => Err(e),
            }
        } else {
            Err(CodecError::SerdeDeCustom)
        }
    }
}

impl Wire for UnsignedFrame {
    type Value = UnsignedFrameValue;

    open spec fn value(&self) -> UnsignedFrameValue {
        match self {
            UnsignedFrame::Hello(x) => UnsignedFrameValue::Hello(x.value()),
            UnsignedFrame::Query(x) => UnsignedFrameValue::Query(x.value()),
            UnsignedFrame::Ack(x) => UnsignedFrameValue::Ack(x.value()),
            UnsignedFrame::End(x) => UnsignedFrameValue::End(x.value()),
            UnsignedFrame::Error(x) => UnsignedFrameValue::Error(x.value()),
        }
    }

    open spec fn encodable(v: UnsignedFrameValue) -> bool {
        match v {
            UnsignedFrameValue::Hello(x) => Hello::encodable(x),
            UnsignedFrameValue::Query(x) => Query::encodable(x),
            UnsignedFrameValue::Ack(x) => Ack::encodable(x),
            UnsignedFrameValue::End(x) => End::encodable(x),
            UnsignedFrameValue::Error(x) => Error::encodable(x),
        }
    }

    open spec fn bytes(v: UnsignedFrameValue) -> Seq<u8> {
        match v {
            UnsignedFrameValue::Hello(x) => u32::bytes(0) + Hello::bytes(x),
            UnsignedFrameValue::Query(x) => u32::bytes(1) + Query::bytes(x),
            UnsignedFrameValue::Ack(x) => u32::bytes(2) + Ack::bytes(x),
            UnsignedFrameValue::End(x) => u32::bytes(3) + End::bytes(x),
            UnsignedFrameValue::Error(x) => u32::bytes(4) + Error::bytes(x),
        }
    }

    open spec fn parse(s: Seq<u8>) -> Result<(UnsignedFrameValue, Seq<u8>), CodecError> {
        match u32::parse(s) {
            Ok((variant, body)) => if variant == 0 {
                match Hello::parse(body) {
                    Ok((x, rest)) => Ok((UnsignedFrameValue::Hello(x), rest)),
                    Err(e) => Err(e),
                }
            } else if variant == 1 {
                match Query::parse(body) {
                    Ok((x, rest)) => Ok((UnsignedFrameValue::Query(x), rest)),
                    Err(e) => Err(e),
                }
            } else if variant == 2 {
                match Ack::parse(body) {
                    Ok((x, rest)) => Ok((UnsignedFrameValue::Ack(x), rest)),
                    Err(e) => Err(e),
                }
            } else if variant == 3 {
                match End::parse(body) {
                    Ok((x, rest)) => Ok((UnsignedFrameValue::End(x), rest)),
                    Err(e) => Err(e),
                }
            } else if variant == 4 {
                match Error::parse(body) {
                    Ok((x, rest)) => Ok((UnsignedFrameValue::Error(x), rest)),
                    Err(e) => Err(e),
                }
            } else {
                Err(CodecError::SerdeDeCustom)
            },
            Err(e) => Err(e),
        }
    }

    #[verifier::rlimit(40)]
    proof fn parse_inverts_bytes(v: UnsignedFrameValue, rest: Seq<u8>) {
        match v {
            UnsignedFrameValue::Hello(x) => {
                let body = Hello::bytes(x) + rest;
                assert(Self::bytes(v) + rest =~= u32::bytes(0) + body);
                u32::parse_inverts_bytes(0, body);
                Hello::parse_inverts_bytes(x, rest);
            },
            UnsignedFrameValue::Query(x) => {
                let body = Query::bytes(x) + rest;
                assert(Self::bytes(v) + rest =~= u32::bytes(1) + body);
                u32::parse_inverts_bytes(1, body);
                Query::parse_inverts_bytes(x, rest);
            },
            UnsignedFrameValue::Ack(x) => {
                let body = Ack::bytes(x) + rest;
                assert(Self::bytes(v) + rest =~= u32::bytes(2) + body);
                u32::parse_inverts_bytes(2, body);
                Ack::parse_inverts_bytes(x, rest);
            },
            UnsignedFrameValue::End(x) => {
                let body = End::bytes(x) + rest;
                assert(Self::bytes(v) + rest =~= u32::bytes(3) + body);
                u32::parse_inverts_bytes(3, body);
                End::parse_inverts_bytes(x, rest);
            },
            UnsignedFrameValue::Error(x) => {
                let body = Error::bytes(x) + rest;
                assert(Self::bytes(v) + rest =~= u32::bytes(4) + body);
                u32::parse_inverts_bytes(4, body);
                Error::parse_inverts_bytes(x, rest);
            },
        }
    }

    fn put(&self, out: &mut Vec<u8>) {
        match self {
            UnsignedFrame::Hello(x) => {
                0u32.put(out);
                x.put(out);
            },
            UnsignedFrame::Query(x) => {
                1u32.put(out);
                x.put(out);
            },
            UnsignedFrame::Ack(x) => {
                2u32.put(out);
                x.put(out);
            },
            UnsignedFrame::End(x) => {
                3u32.put(out);
                x.put(out);
            },
            UnsignedFrame::Error(x) => {
                4u32.put(out);
                x.put(out);
            },
        }
        assert(out@ =~= old(out)@ + Self::bytes(self.value()));
    }

    fn take<'a>(input: &'a [u8]) -> (r: Result<(UnsignedFrame, &'a [u8]), CodecError>) {
        let (variant, body) = match u32::take(input) {
            Ok(found) => found,
            Err(e) => return Err(e),
        };
        if variant == 0 {
            match Hello::take(body) {
                Ok((x, rest)) => Ok((UnsignedFrame::Hello(x), rest)),
                Err(e) => Err(e),
            }
        } else if variant == 1 {
            match Query::take(body) {
                Ok((x, rest)) => Ok((UnsignedFrame::Query(x), rest)),
                Err(e) => Err(e),
            }
        } else if variant == 2 {
            match Ack::take(body) {
                Ok((x, rest)) => Ok((UnsignedFrame::Ack(x), rest)),
                Err(e) => Err(e),
            }
        } else if variant == 3 {
            match End::take(body) {
                Ok((x, rest)) => Ok((UnsignedFrame::End(x), rest)),
                Err(e) => Err(e),
            }
        } else if variant == 4 {
            match Error::take(body) {
                Ok((x, rest)) => Ok((UnsignedFrame::Error(x), rest)),
                Err(e) => Err(e),
            }
        } else {
            Err(CodecError::SerdeDeCustom)
        }
    }
}

impl Wire for Hello {
    type Value = Hello;

    open spec fn value(&self) -> Hello {
        *self
    }

    open spec fn encodable(v: Hello) -> bool {
        &&& u16::encodable(v.version)
        &&& PeerId::encodable(v.peer_id)
    }

    open spec fn bytes(v: Hello) -> Seq<u8> {
        u16::bytes(v.version) + PeerId::bytes(v.peer_id)
    }

    open spec fn parse(s: Seq<u8>) -> Result<(Hello, Seq<u8>), CodecError> {
        match u16::parse(s) {
            Ok((version, s1)) => match PeerId::parse(s1) {
                Ok((peer_id, rest)) => Ok((Hello { version, peer_id }, rest)),
                Err(e) => Err(e),
            },
            Err(e) => Err(e),
        }
    }

    proof fn parse_inverts_bytes(v: Hello, rest: Seq<u8>) {
        let s1 = PeerId::bytes(v.peer_id) + rest;
        assert(Self::bytes(v) + rest =~= u16::bytes(v.version) + s1);
        u16::parse_inverts_bytes(v.version, s1);
        PeerId::parse_inverts_bytes(v.peer_id, rest);
    }

    fn put(&self, out: &mut Vec<u8>) {
        self.version.put(out);
        self.peer_id.put(out);
        assert(out@ =~= old(out)@ + Self::bytes(self.value()));
    }

    fn take<'a>(input: &'a [u8]) -> (r: Result<(Hello, &'a [u8]), CodecError>) {
        let (version, s1) = match u16::take(input) {
            Ok(found) => found,
            Err(e) => return Err(e),
        };
        let (peer_id, rest) = match PeerId::take(s1) {
            Ok(found) => found,
            Err(e) => return Err(e),
        };
        Ok((Hello { version, peer_id }, rest))
    }
}

impl Wire for Announcement {
    type Value = AnnouncementValue;

    open spec fn value(&self) -> AnnouncementValue {
        AnnouncementValue { timestamp: self.timestamp.value(), payload: self.payload.value() }
    }

    open spec fn encodable(v: AnnouncementValue) -> bool {
        &&& Timestamp::encodable(v.timestamp)
        &&& AnnouncePayload::encodable(v.payload)
    }

    open spec fn bytes(v: AnnouncementValue) -> Seq<u8> {
        Timestamp::bytes(v.timestamp) + AnnouncePayload::bytes(v.payload)
    }

    open spec fn parse(s: Seq<u8>) -> Result<(AnnouncementValue, Seq<u8>), CodecError> {
        match Timestamp::parse(s) {
            Ok((timestamp, s1)) => match AnnouncePayload::parse(s1) {
                Ok((payload, rest)) => Ok((AnnouncementValue { timestamp, payload }, rest)),
                Err(e) => Err(e),
            },
            Err(e) => Err(e),
        }
    }

    #[verifier::rlimit(40)]
    proof fn parse_inverts_bytes(v: AnnouncementValue, rest: Seq<u8>) {
        let s1 = AnnouncePayload::bytes(v.payload) + rest;
        assert(Self::bytes(v) + rest =~= Timestamp::bytes(v.timestamp) + s1);
        Timestamp::parse_inverts_bytes(v.timestamp, s1);
        AnnouncePayload::parse_inverts_bytes(v.payload, rest);
    }

    fn put(&self, out: &mut Vec<u8>) {
        self.timestamp.put(out);
        self.payload.put(out);
        assert(out@ =~= old(out)@ + Self::bytes(self.value()));
    }

    fn take<'a>(input: &'a [u8]) -> (r: Result<(Announcement, &'a [u8]), CodecError>) {
        let (timestamp, s1) = match Timestamp::take(input) {
            Ok(found) => found,
            Err(e) => return Err(e),
        };
        let (payload, rest) = match AnnouncePayload::take(s1) {
            Ok(found) => found,
            Err(e) => return Err(e),
        };
        Ok((Announcement { timestamp, payload }, rest))
    }
}

impl Wire for Ack {
    type Value = Ack;

    open spec fn value(&self) -> Ack {
        *self
    }

    open spec fn encodable(v: Ack) -> bool {
        &&& Rid::encodable(v.rid)
    }

    open spec fn bytes(v: Ack) -> Seq<u8> {
        Rid::bytes(v.rid)
    }

    open spec fn parse(s: Seq<u8>) -> Result<(Ack, Seq<u8>), CodecError> {
        match Rid::parse(s) {
            Ok((rid, rest)) => Ok((Ack { rid }, rest)),
            Err(e) => Err(e),
        }
    }

    proof fn parse_inverts_bytes(v: Ack, rest: Seq<u8>) {
        assert(Self::bytes(v) + rest =~= Rid::bytes(v.rid) + rest);
        Rid::parse_inverts_bytes(v.rid, rest);
    }

    fn put(&self, out: &mut Vec<u8>) {
        self.rid.put(out);
        assert(out@ =~= old(out)@ + Self::bytes(self.value()));
    }

    fn take<'a>(input: &'a [u8]) -> (r: Result<(Ack, &'a [u8]), CodecError>) {
        let (rid, rest) = match Rid::take(input) {
            Ok(found) => found,
            Err(e) => return Err(e),
        };
        Ok((Ack { rid }, rest))
    }
}

impl Wire for AnnouncePayload {
    type Value = AnnouncePayloadValue;

    open spec fn value(&self) -> AnnouncePayloadValue {
        match self {
            AnnouncePayload::PeerInfo(x) => AnnouncePayloadValue::PeerInfo(x.value()),
            AnnouncePayload::ProvideHash(x) => AnnouncePayloadValue::ProvideHash(x.value()),
            AnnouncePayload::UpdateTopic(x) => AnnouncePayloadValue::UpdateTopic(x.value()),
        }
    }

    open spec fn encodable(v: AnnouncePayloadValue) -> bool {
        match v {
            AnnouncePayloadValue::PeerInfo(x) => PeerInfo::encodable(x),
            AnnouncePayloadValue::ProvideHash(x) => ProvideHash::encodable(x),
            AnnouncePayloadValue::UpdateTopic(x) => SealedEnvelope::<UpdateTopic>::encodable(x),
        }
    }

    open spec fn bytes(v: AnnouncePayloadValue) -> Seq<u8> {
        match v {
            AnnouncePayloadValue::PeerInfo(x) => u32::bytes(0) + PeerInfo::bytes(x),
            AnnouncePayloadValue::ProvideHash(x) => u32::bytes(1) + ProvideHash::bytes(x),
            AnnouncePayloadValue::UpdateTopic(x) => u32::bytes(2) + SealedEnvelope::<
                UpdateTopic,
            >::bytes(x),
        }
    }

    open spec fn parse(s: Seq<u8>) -> Result<(AnnouncePayloadValue, Seq<u8>), CodecError> {
        match u32::parse(s) {
            Ok((variant, body)) => if variant == 0 {
                match PeerInfo::parse(body) {
                    Ok((x, rest)) => Ok((AnnouncePayloadValue::PeerInfo(x), rest)),
                    Err(e) => Err(e),
                }
            } else if variant == 1 {
                match ProvideHash::parse(body) {
                    Ok((x, rest)) => Ok((AnnouncePayloadValue::ProvideHash(x), rest)),
                    Err(e) => Err(e),
                }
            } else if variant == 2 {
                match SealedEnvelope::<UpdateTopic>::parse(body) {
                    Ok((x, rest)) => Ok((AnnouncePayloadValue::UpdateTopic(x), rest)),
                    Err(e) => Err(e),
                }
            } else {
                Err(CodecError::SerdeDeCustom)
            },
            Err(e) => Err(e),
        }
    }

    #[verifier::rlimit(40)]
    proof fn parse_inverts_bytes(v: AnnouncePayloadValue, rest: Seq<u8>) {
        match v {
            AnnouncePayloadValue::PeerInfo(x) => {
                let body = PeerInfo::bytes(x) + rest;
                assert(Self::bytes(v) + rest =~= u32::bytes(0) + body);
                u32::parse_inverts_bytes(0, body);
                PeerInfo::parse_inverts_bytes(x, rest);
            },
            AnnouncePayloadValue::ProvideHash(x) => {
                let body = ProvideHash::bytes(x) + rest;
                assert(Self::bytes(v) + rest =~= u32::bytes(1) + body);
                u32::parse_inverts_bytes(1, body);
                ProvideHash::parse_inverts_bytes(x, rest);
            },
            AnnouncePayloadValue::UpdateTopic(x) => {
                let body = SealedEnvelope::<UpdateTopic>::bytes(x) + rest;
                assert(Self::bytes(v) + rest =~= u32::bytes(2) + body);
                u32::parse_inverts_bytes(2, body);
                SealedEnvelope::<UpdateTopic>::parse_inverts_bytes(x, rest);
            },
        }
    }

    fn put(&self, out: &mut Vec<u8>) {
        match self {
            AnnouncePayload::PeerInfo(x) => {
                0u32.put(out);
                x.put(out);
            },
            AnnouncePayload::ProvideHash(x) => {
                1u32.put(out);
                x.put(out);
            },
            AnnouncePayload::UpdateTopic(x) => {
                2u32.put(out);
                x.put(out);
            },
        }
        assert(out@ =~= old(out)@ + Self::bytes(self.value()));
    }

    fn take<'a>(input: &'a [u8]) -> (r: Result<(AnnouncePayload, &'a [u8]), CodecError>) {
        let (variant, body) = match u32::take(input) {
            Ok(found) => found,
            Err(e) => return Err(e),
        };
        if variant == 0 {
            match PeerInfo::take(body) {
                Ok((x, rest)) => Ok((AnnouncePayload::PeerInfo(x), rest)),
                Err(e) => Err(e),
            }
        } else if variant == 1 {
            match ProvideHash::take(body) {
                Ok((x, rest)) => Ok((AnnouncePayload::ProvideHash(x), rest)),
                Err(e) => Err(e),
            }
        } else if variant == 2 {
            match SealedEnvelope::<UpdateTopic>::take(body) {
                Ok((x, rest)) => Ok((AnnouncePayload::UpdateTopic(x), rest)),
                Err(e) => Err(e),
            }
        } else {
            Err(CodecError::SerdeDeCustom)
        }
    }
}

impl Wire for PeerInfo {
    type Value = PeerInfo;

    open spec fn value(&self) -> PeerInfo {
        *self
    }

    open spec fn encodable(v: PeerInfo) -> bool {
        &&& SocketAddr::encodable(v.addr)
        &&& Option::<SocketAddr>::encodable(v.relay)
    }

    open spec fn bytes(v: PeerInfo) -> Seq<u8> {
        SocketAddr::bytes(v.addr) + Option::<SocketAddr>::bytes(v.relay)
    }

    open spec fn parse(s: Seq<u8>) -> Result<(PeerInfo, Seq<u8>), CodecError> {
        match SocketAddr::parse(s) {
            Ok((addr, s1)) => match Option::<SocketAddr>::parse(s1) {
                Ok((relay, rest)) => Ok((PeerInfo { addr, relay }, rest)),
                Err(e) => Err(e),
            },
            Err(e) => Err(e),
        }
    }

    proof fn parse_inverts_bytes(v: PeerInfo, rest: Seq<u8>) {
        let s1 = Option::<SocketAddr>::bytes(v.relay) + rest;
        assert(Self::bytes(v) + rest =~= SocketAddr::bytes(v.addr) + s1);
        SocketAddr::parse_inverts_bytes(v.addr, s1);
        Option::<SocketAddr>::parse_inverts_bytes(v.relay, rest);
    }

    fn put(&self, out: &mut Vec<u8>) {
        self.addr.put(out);
        self.relay.put(out);
        assert(self.relay.value() == self.relay);
        assert(out@ =~= old(out)@ + Self::bytes(self.value()));
    }

    fn take<'a>(input: &'a [u8]) -> (r: Result<(PeerInfo, &'a [u8]), CodecError>) {
        let (addr, s1) = match SocketAddr::take(input) {
            Ok(found) => found,
            Err(e) => return Err(e),
        };
        let (relay, rest) = match <Option<SocketAddr> as Wire>::take(s1) {
            Ok(found) => found,
            Err(e) => return Err(e),
        };
        assert(relay.value() == relay);
        Ok((PeerInfo { addr, relay }, rest))
    }
}

impl Wire for ProvideHash {
    type Value = ProvideHash;

    open spec fn value(&self) -> ProvideHash {
        *self
    }

    open spec fn encodable(v: ProvideHash) -> bool {
        &&& Key::encodable(v.target)
    }

    open spec fn bytes(v: ProvideHash) -> Seq<u8> {
        Key::bytes(v.target)
    }

    open spec fn parse(s: Seq<u8>) -> Result<(ProvideHash, Seq<u8>), CodecError> {
        match Key::parse(s) {
            Ok((target, rest)) => Ok((ProvideHash { target }, rest)),
            Err(e) => Err(e),
        }
    }

    proof fn parse_inverts_bytes(v: ProvideHash, rest: Seq<u8>) {
        assert(Self::bytes(v) + rest =~= Key::bytes(v.target) + rest);
        Key::parse_inverts_bytes(v.target, rest);
    }

    fn put(&self, out: &mut Vec<u8>) {
        self.target.put(out);
        assert(out@ =~= old(out)@ + Self::bytes(self.value()));
    }

    fn take<'a>(input: &'a [u8]) -> (r: Result<(ProvideHash, &'a [u8]), CodecError>) {
        let (target, rest) = match Key::take(input) {
            Ok(found) => found,
            Err(e) => return Err(e),
        };
        Ok((ProvideHash { target }, rest))
    }
}

impl Wire for UpdateTopic {
    type Value = UpdateTopic;

    open spec fn value(&self) -> UpdateTopic {
        *self
    }

    open spec fn encodable(v: UpdateTopic) -> bool {
        &&& Key::encodable(v.value)
    }

    open spec fn bytes(v: UpdateTopic) -> Seq<u8> {
        Key::bytes(v.value)
    }

    open spec fn parse(s: Seq<u8>) -> Result<(UpdateTopic, Seq<u8>), CodecError> {
        match Key::parse(s) {
            Ok((value, rest)) => Ok((UpdateTopic { value }, rest)),
            Err(e) => Err(e),
        }
    }

    proof fn parse_inverts_bytes(v: UpdateTopic, rest: Seq<u8>) {
        assert(Self::bytes(v) + rest =~= Key::bytes(v.value) + rest);
        Key::parse_inverts_bytes(v.value, rest);
    }

    fn put(&self, out: &mut Vec<u8>) {
        self.value.put(out);
        assert(out@ =~= old(out)@ + Self::bytes(self.value()));
    }

    fn take<'a>(input: &'a [u8]) -> (r: Result<(UpdateTopic, &'a [u8]), CodecError>) {
        let (value, rest) = match Key::take(input) {
            Ok(found) => found,
            Err(e) => return Err(e),
        };
        Ok((UpdateTopic { value }, rest))
    }
}

impl Wire for Query {
    type Value = QueryValue;

    open spec fn value(&self) -> QueryValue {
        QueryValue { settings: self.settings.value(), query: self.query.value() }
    }

    open spec fn encodable(v: QueryValue) -> bool {
        &&& QuerySettings::encodable(v.settings)
        &&& QueryPayload::encodable(v.query)
    }

    open spec fn bytes(v: QueryValue) -> Seq<u8> {
        QuerySettings::bytes(v.settings) + QueryPayload::bytes(v.query)
    }

    open spec fn parse(s: Seq<u8>) -> Result<(QueryValue, Seq<u8>), CodecError> {
        match QuerySettings::parse(s) {
            Ok((settings, s1)) => match QueryPayload::parse(s1) {
                Ok((query, rest)) => Ok((QueryValue { settings, query }, rest)),
                Err(e) => Err(e),
            },
            Err(e) => Err(e),
        }
    }

    #[verifier::rlimit(40)]
    proof fn parse_inverts_bytes(v: QueryValue, rest: Seq<u8>) {
        let s1 = QueryPayload::bytes(v.query) + rest;
        assert(Self::bytes(v) + rest =~= QuerySettings::bytes(v.settings) + s1);
        QuerySettings::parse_inverts_bytes(v.settings, s1);
        QueryPayload::parse_inverts_bytes(v.query, rest);
    }

    fn put(&self, out: &mut Vec<u8>) {
        self.settings.put(out);
        self.query.put(out);
        assert(out@ =~= old(out)@ + Self::bytes(self.value()));
    }

    fn take<'a>(input: &'a [u8]) -> (r: Result<(Query, &'a [u8]), CodecError>) {
        let (settings, s1) = match QuerySettings::take(input) {
            Ok(found) => found,
            Err(e) => return Err(e),
        };
        let (query, rest) = match QueryPayload::take(s1) {
            Ok(found) => found,
            Err(e) => return Err(e),
        };
        Ok((Query { settings, query }, rest))
    }
}

impl Wire for QuerySettings {
    type Value = QuerySettings;

    open spec fn value(&self) -> QuerySettings {
        *self
    }

    open spec fn encodable(v: QuerySettings) -> bool {
        &&& u32::encodable(v.stop_after)
        &&& bool::encodable(v.keepalive)
        &&& bool::encodable(v.federate)
    }

    open spec fn bytes(v: QuerySettings) -> Seq<u8> {
        u32::bytes(v.stop_after) + (bool::bytes(v.keepalive) + bool::bytes(v.federate))
    }

    open spec fn parse(s: Seq<u8>) -> Result<(QuerySettings, Seq<u8>), CodecError> {
        match u32::parse(s) {
            Ok((stop_after, s1)) => match bool::parse(s1) {
                Ok((keepalive, s2)) => match bool::parse(s2) {
                    Ok((federate, rest)) => Ok(
                        (QuerySettings { stop_after, keepalive, federate }, rest),
                    ),
                    Err(e) => Err(e),
                },
                Err(e) => Err(e),
            },
            Err(e) => Err(e),
        }
    }

    proof fn parse_inverts_bytes(v: QuerySettings, rest: Seq<u8>) {
        let s2 = bool::bytes(v.federate) + rest;
        let s1 = bool::bytes(v.keepalive) + s2;
        assert(Self::bytes(v) + rest =~= u32::bytes(v.stop_after) + s1);
        u32::parse_inverts_bytes(v.stop_after, s1);
        bool::parse_inverts_bytes(v.keepalive, s2);
        bool::parse_inverts_bytes(v.federate, rest);
    }

    fn put(&self, out: &mut Vec<u8>) {
        self.stop_after.put(out);
        self.keepalive.put(out);
        self.federate.put(out);
        assert(out@ =~= old(out)@ + Self::bytes(self.value()));
    }

    fn take<'a>(input: &'a [u8]) -> (r: Result<(QuerySettings, &'a [u8]), CodecError>) {
        let (stop_after, s1) = match u32::take(input) {
            Ok(found) => found,
            Err(e) => return Err(e),
        };
        let (keepalive, s2) = match bool::take(s1) {
            Ok(found) => found,
            Err(e) => return Err(e),
        };
        let (federate, rest) = match bool::take(s2) {
            Ok(found) => found,
            Err(e) => return Err(e),
        };
        Ok((QuerySettings { stop_after, keepalive, federate }, rest))
    }
}

impl Wire for QueryPayload {
    type Value = QueryPayloadValue;

    open spec fn value(&self) -> QueryPayloadValue {
        match self {
            QueryPayload::Peers(x) => QueryPayloadValue::Peers(x.value()),
            QueryPayload::Keys(x) => QueryPayloadValue::Keys(x.value()),
        }
    }

    open spec fn encodable(v: QueryPayloadValue) -> bool {
        match v {
            QueryPayloadValue::Peers(x) => QueryPeers::encodable(x),
            QueryPayloadValue::Keys(x) => QueryKeys::encodable(x),
        }
    }

    open spec fn bytes(v: QueryPayloadValue) -> Seq<u8> {
        match v {
            QueryPayloadValue::Peers(x) => u32::bytes(0) + QueryPeers::bytes(x),
            QueryPayloadValue::Keys(x) => u32::bytes(1) + QueryKeys::bytes(x),
        }
    }

    open spec fn parse(s: Seq<u8>) -> Result<(QueryPayloadValue, Seq<u8>), CodecError> {
        match u32::parse(s) {
            Ok((variant, body)) => if variant == 0 {
                match QueryPeers::parse(body) {
                    Ok((x, rest)) => Ok((QueryPayloadValue::Peers(x), rest)),
                    Err(e) => Err(e),
                }
            } else if variant == 1 {
                match QueryKeys::parse(body) {
                    Ok((x, rest)) => Ok((QueryPayloadValue::Keys(x), rest)),
                    Err(e) => Err(e),
                }
            } else {
                Err(CodecError::SerdeDeCustom)
            },
            Err(e) => Err(e),
        }
    }

    #[verifier::rlimit(40)]
    proof fn parse_inverts_bytes(v: QueryPayloadValue, rest: Seq<u8>) {
        match v {
            QueryPayloadValue::Peers(x) => {
                let body = QueryPeers::bytes(x) + rest;
                assert(Self::bytes(v) + rest =~= u32::bytes(0) + body);
                u32::parse_inverts_bytes(0, body);
                QueryPeers::parse_inverts_bytes(x, rest);
            },
            QueryPayloadValue::Keys(x) => {
                let body = QueryKeys::bytes(x) + rest;
                assert(Self::bytes(v) + rest =~= u32::bytes(1) + body);
                u32::parse_inverts_bytes(1, body);
                QueryKeys::parse_inverts_bytes(x, rest);
            },
        }
    }

    fn put(&self, out: &mut Vec<u8>) {
        match self {
            QueryPayload::Peers(x) => {
                0u32.put(out);
                x.put(out);
            },
            QueryPayload::Keys(x) => {
                1u32.put(out);
                x.put(out);
            },
        }
        assert(out@ =~= old(out)@ + Self::bytes(self.value()));
    }

    fn take<'a>(input: &'a [u8]) -> (r: Result<(QueryPayload, &'a [u8]), CodecError>) {
        let (variant, body) = match u32::take(input) {
            Ok(found) => found,
            Err(e) => return Err(e),
        };
        if variant == 0 {
            match QueryPeers::take(body) {
                Ok((x, rest)) => Ok((QueryPayload::Peers(x), rest)),
                Err(e) => Err(e),
            }
        } else if variant == 1 {
            match QueryKeys::take(body) {
                Ok((x, rest)) => Ok((QueryPayload::Keys(x), rest)),
                Err(e) => Err(e),
            }
        } else {
            Err(CodecError::SerdeDeCustom)
        }
    }
}

impl Wire for QueryPeers {
    type Value = QueryPeersValue;

    open spec fn value(&self) -> QueryPeersValue {
        QueryPeersValue { peer_ids: self.peer_ids.value() }
    }

    open spec fn encodable(v: QueryPeersValue) -> bool {
        &&& Vec::<PeerId>::encodable(v.peer_ids)
    }

    open spec fn bytes(v: QueryPeersValue) -> Seq<u8> {
        Vec::<PeerId>::bytes(v.peer_ids)
    }

    open spec fn parse(s: Seq<u8>) -> Result<(QueryPeersValue, Seq<u8>), CodecError> {
        match Vec::<PeerId>::parse(s) {
            Ok((peer_ids, rest)) => Ok((QueryPeersValue { peer_ids }, rest)),
            Err(e) => Err(e),
        }
    }

    proof fn parse_inverts_bytes(v: QueryPeersValue, rest: Seq<u8>) {
        assert(Self::bytes(v) + rest =~= Vec::<PeerId>::bytes(v.peer_ids) + rest);
        Vec::<PeerId>::parse_inverts_bytes(v.peer_ids, rest);
    }

    fn put(&self, out: &mut Vec<u8>) {
        self.peer_ids.put(out);
        assert(out@ =~= old(out)@ + Self::bytes(self.value()));
    }

    fn take<'a>(input: &'a [u8]) -> (r: Result<(QueryPeers, &'a [u8]), CodecError>) {
        let (peer_ids, rest) = match Vec::<PeerId>::take(input) {
            Ok(found) => found,
            Err(e) => return Err(e),
        };
        Ok((QueryPeers { peer_ids }, rest))
    }
}

impl Wire for QueryKeys {
    type Value = QueryKeysValue;

    open spec fn value(&self) -> QueryKeysValue {
        QueryKeysValue { keys: self.keys.value() }
    }

    open spec fn encodable(v: QueryKeysValue) -> bool {
        &&& Vec::<Key>::encodable(v.keys)
    }

    open spec fn bytes(v: QueryKeysValue) -> Seq<u8> {
        Vec::<Key>::bytes(v.keys)
    }

    open spec fn parse(s: Seq<u8>) -> Result<(QueryKeysValue, Seq<u8>), CodecError> {
        match Vec::<Key>::parse(s) {
            Ok((keys, rest)) => Ok((QueryKeysValue { keys }, rest)),
            Err(e) => Err(e),
        }
    }

    proof fn parse_inverts_bytes(v: QueryKeysValue, rest: Seq<u8>) {
        assert(Self::bytes(v) + rest =~= Vec::<Key>::bytes(v.keys) + rest);
        Vec::<Key>::parse_inverts_bytes(v.keys, rest);
    }

    fn put(&self, out: &mut Vec<u8>) {
        self.keys.put(out);
        assert(out@ =~= old(out)@ + Self::bytes(self.value()));
    }

    fn take<'a>(input: &'a [u8]) -> (r: Result<(QueryKeys, &'a [u8]), CodecError>) {
        let (keys, rest) = match Vec::<Key>::take(input) {
            Ok(found) => found,
            Err(e) => return Err(e),
        };
        Ok((QueryKeys { keys }, rest))
    }
}

impl Wire for Redirect {
    type Value = RedirectValue;

    open spec fn value(&self) -> RedirectValue {
        RedirectValue { server: self.server.value(), topics: self.topics.value() }
    }

    open spec fn encodable(v: RedirectValue) -> bool {
        &&& String::encodable(v.server)
        &&& Vec::<Topic>::encodable(v.topics)
    }

    open spec fn bytes(v: RedirectValue) -> Seq<u8> {
        String::bytes(v.server) + Vec::<Topic>::bytes(v.topics)
    }

    open spec fn parse(s: Seq<u8>) -> Result<(RedirectValue, Seq<u8>), CodecError> {
        match String::parse(s) {
            Ok((server, s1)) => match Vec::<Topic>::parse(s1) {
                Ok((topics, rest)) => Ok((RedirectValue { server, topics }, rest)),
                Err(e) => Err(e),
            },
            Err(e) => Err(e),
        }
    }

    #[verifier::rlimit(40)]
    proof fn parse_inverts_bytes(v: RedirectValue, rest: Seq<u8>) {
        let s1 = Vec::<Topic>::bytes(v.topics) + rest;
        assert(Self::bytes(v) + rest =~= String::bytes(v.server) + s1);
        String::parse_inverts_bytes(v.server, s1);
        Vec::<Topic>::parse_inverts_bytes(v.topics, rest);
    }

    fn put(&self, out: &mut Vec<u8>) {
        self.server.put(out);
        self.topics.put(out);
        assert(out@ =~= old(out)@ + Self::bytes(self.value()));
    }

    fn take<'a>(input: &'a [u8]) -> (r: Result<(Redirect, &'a [u8]), CodecError>) {
        let (server, s1) = match String::take(input) {
            Ok(found) => found,
            Err(e) => return Err(e),
        };
        let (topics, rest) = match Vec::<Topic>::take(s1) {
            Ok(found) => found,
            Err(e) => return Err(e),
        };
        Ok((Redirect { server, topics }, rest))
    }
}

impl Wire for End {
    type Value = End;

    open spec fn value(&self) -> End {
        *self
    }

    open spec fn encodable(v: End) -> bool {
        true
    }

    open spec fn bytes(v: End) -> Seq<u8> {
        Seq::empty()
    }

    open spec fn parse(s: Seq<u8>) -> Result<(End, Seq<u8>), CodecError> {
        Ok((End {  }, s))
    }

    proof fn parse_inverts_bytes(v: End, rest: Seq<u8>) {
        assert(Self::bytes(v) + rest =~= rest);
    }

    fn put(&self, out: &mut Vec<u8>) {
        assert(out@ =~= old(out)@ + Self::bytes(self.value()));
    }

    fn take<'a>(input: &'a [u8]) -> (r: Result<(End, &'a [u8]), CodecError>) {
        Ok((End {  }, input))
    }
}

impl Wire for Error {
    type Value = ErrorValue;

    open spec fn value(&self) -> ErrorValue {
        ErrorValue { code: self.code.value(), message: self.message.value() }
    }

    open spec fn encodable(v: ErrorValue) -> bool {
        &&& u32::encodable(v.code)
        &&& Option::<String>::encodable(v.message)
    }

    open spec fn bytes(v: ErrorValue) -> Seq<u8> {
        u32::bytes(v.code) + Option::<String>::bytes(v.message)
    }

    open spec fn parse(s: Seq<u8>) -> Result<(ErrorValue, Seq<u8>), CodecError> {
        match u32::parse(s) {
            Ok((code, s1)) => match Option::<String>::parse(s1) {
                Ok((message, rest)) => Ok((ErrorValue { code, message }, rest)),
                Err(e) => Err(e),
            },
            Err(e) => Err(e),
        }
    }

    #[verifier::rlimit(40)]
    proof fn parse_inverts_bytes(v: ErrorValue, rest: Seq<u8>) {
        let s1 = Option::<String>::bytes(v.message) + rest;
        assert(Self::bytes(v) + rest =~= u32::bytes(v.code) + s1);
        u32::parse_inverts_bytes(v.code, s1);
        Option::<String>::parse_inverts_bytes(v.message, rest);
    }

    fn put(&self, out: &mut Vec<u8>) {
        self.code.put(out);
        self.message.put(out);
        assert(out@ =~= old(out)@ + Self::bytes(self.value()));
    }

    fn take<'a>(input: &'a [u8]) -> (r: Result<(Error, &'a [u8]), CodecError>) {
        let (code, s1) = match u32::take(input) {
            Ok(found) => found,
            Err(e) => return Err(e),
        };
        let (message, rest) = match <Option<String> as Wire>::take(s1) {
            Ok(found) => found,
            Err(e) => return Err(e),
        };
        Ok((Error { code, message }, rest))
    }
}

/// Every frame type has its own number.
pub proof fn law_frame_types_are_numbered(frame: FrameValue)
    ensures
        match frame.payload {
            FramePayloadValue::Unsigned(UnsignedFrameValue::Hello(_)) => frame_type(frame) == 0x01,
            FramePayloadValue::Signed(_) => frame_type(frame) == 0x02,
            FramePayloadValue::Unsigned(UnsignedFrameValue::Query(_)) => frame_type(frame) == 0x04,
            FramePayloadValue::Unsigned(UnsignedFrameValue::Ack(_)) => frame_type(frame) == 0x07,
            FramePayloadValue::Unsigned(UnsignedFrameValue::End(_)) => frame_type(frame) == 0x08,
            FramePayloadValue::Unsigned(UnsignedFrameValue::Error(_)) => frame_type(frame) == 0x09,
        },
{
}

/// A frame is encoded as its number, if it has one, and its payload behind that; a payload as the
/// number of its kind and then its fields.
pub proof fn law_frame_encoding(frame: FrameValue)
    ensures
        Frame::bytes(frame) == Option::<Rid>::bytes(frame.rid) + (match frame.payload {
            FramePayloadValue::Unsigned(u) => u32::bytes(0) + (match u {
                UnsignedFrameValue::Hello(x) => u32::bytes(0) + (u16::bytes(x.version)
                    + x.peer_id@),
                UnsignedFrameValue::Query(x) => u32::bytes(1) + Query::bytes(x),
                UnsignedFrameValue::Ack(x) => u32::bytes(2) + u64::bytes(x.rid),
                UnsignedFrameValue::End(_) => u32::bytes(3),
                UnsignedFrameValue::Error(x) => u32::bytes(4) + (u32::bytes(x.code) + Option::<
                    String,
                >::bytes(x.message)),
            }),
            FramePayloadValue::Signed(e) => u32::bytes(1) + SealedEnvelope::<SignedFrame>::bytes(e),
        }),
{
    if let FramePayloadValue::Unsigned(UnsignedFrameValue::End(x)) = frame.payload {
        assert(u32::bytes(3) + End::bytes(x) =~= u32::bytes(3));
    }
}

/// A query is encoded as its settings and then what it asks for: peers by their ids, or keys.
pub proof fn law_query_encoding(query: QueryValue)
    ensures
        Query::bytes(query) == u32::bytes(query.settings.stop_after) + (bool::bytes(
            query.settings.keepalive,
        ) + bool::bytes(query.settings.federate)) + (match query.query {
            QueryPayloadValue::Peers(peers) => u32::bytes(0) + Vec::<PeerId>::bytes(peers.peer_ids),
            QueryPayloadValue::Keys(keys) => u32::bytes(1) + Vec::<Key>::bytes(keys.keys),
        }),
        Query::encodable(query) <==> (match query.query {
            QueryPayloadValue::Peers(peers) => peers.peer_ids.len() <= usize::MAX,
            QueryPayloadValue::Keys(keys) => keys.keys.len() <= usize::MAX,
        }),
{
}

/// An announcement is encoded as its timestamp and then what is announced.
pub proof fn law_announcement_encoding(announcement: AnnouncementValue)
    ensures
        SignedFrame::bytes(SignedFrameValue::Announce(announcement)) == u32::bytes(0) + (u64::bytes(
            announcement.timestamp,
        ) + (match announcement.payload {
            AnnouncePayloadValue::PeerInfo(info) => u32::bytes(0) + (SocketAddr::bytes(info.addr)
                + Option::<SocketAddr>::bytes(info.relay)),
            AnnouncePayloadValue::ProvideHash(provided) => u32::bytes(1) + provided.target@,
            AnnouncePayloadValue::UpdateTopic(e) => u32::bytes(2) + SealedEnvelope::<
                UpdateTopic,
            >::bytes(e),
        })),
{
}

/// What a frame holds is its number and what its payload holds.
pub proof fn law_frames_hold_what_they_carry(frame: Frame)
    ensures
        frame.value().rid == frame.rid,
        match frame.payload {
            FramePayload::Signed(envelope) => frame.value().payload == FramePayloadValue::Signed(
                envelope@,
            ),
            FramePayload::Unsigned(UnsignedFrame::Hello(x)) => frame.value().payload
                == FramePayloadValue::Unsigned(UnsignedFrameValue::Hello(x)),
            FramePayload::Unsigned(UnsignedFrame::Query(x)) => frame.value().payload
                == FramePayloadValue::Unsigned(UnsignedFrameValue::Query(x.value())),
            FramePayload::Unsigned(UnsignedFrame::Ack(x)) => frame.value().payload
                == FramePayloadValue::Unsigned(UnsignedFrameValue::Ack(x)),
            FramePayload::Unsigned(UnsignedFrame::End(x)) => frame.value().payload
                == FramePayloadValue::Unsigned(UnsignedFrameValue::End(x)),
            FramePayload::Unsigned(UnsignedFrame::Error(x)) => frame.value().payload
                == FramePayloadValue::Unsigned(UnsignedFrameValue::Error(x.value())),
        },
{
}

/// What a query holds is its settings and all that it lists, in that order.
pub proof fn law_queries_hold_what_they_list(query: Query)
    ensures
        query.value().settings == query.settings,
        match query.query {
            QueryPayload::Peers(peers) => query.value().query matches QueryPayloadValue::Peers(v)
                && v.peer_ids == peers.peer_ids@,
            QueryPayload::Keys(keys) => query.value().query matches QueryPayloadValue::Keys(v)
                && v.keys == keys.keys@,
        },
{
    match query.query {
        QueryPayload::Peers(peers) => {
            assert(peers.peer_ids.value() =~= peers.peer_ids@);
        },
        QueryPayload::Keys(keys) => {
            assert(keys.keys.value() =~= keys.keys@);
        },
    }
}

/// What an announcement holds is its timestamp and what is announced.
pub proof fn law_announcements_hold_what_is_announced(announcement: Announcement)
    ensures
        announcement.value().timestamp == announcement.timestamp,
        match announcement.payload {
            AnnouncePayload::PeerInfo(x) => announcement.value().payload
                == AnnouncePayloadValue::PeerInfo(x),
            AnnouncePayload::ProvideHash(x) => announcement.value().payload
                == AnnouncePayloadValue::ProvideHash(x),
            AnnouncePayload::UpdateTopic(x) => announcement.value().payload
                == AnnouncePayloadValue::UpdateTopic(x@),
        },
        SignedFrame::Announce(announcement).value() == SignedFrameValue::Announce(
            announcement.value(),
        ),
{
}

/// What a reported error holds is its code and its text.
pub proof fn law_errors_hold_their_text(error: Error)
    ensures
        error.value().code == error.code,
        match error.message {
            Some(text) => error.value().message == Some(text@),
            None => error.value().message is None,
        },
{
}

/// A frame can be encoded unless something in it is longer than a length can say, or names an
/// address that has no encoding.
pub proof fn law_ordinary_frames_can_be_encoded(frame: FrameValue)
    ensures
        match frame.payload {
            FramePayloadValue::Signed(e) => Frame::encodable(frame) <==> e.payload.len()
                <= usize::MAX,
            FramePayloadValue::Unsigned(UnsignedFrameValue::Query(q)) => Frame::encodable(frame)
                <==> Query::encodable(q),
            FramePayloadValue::Unsigned(UnsignedFrameValue::Error(x)) => Frame::encodable(frame)
                <==> Option::<String>::encodable(x.message),
            _ => Frame::encodable(frame),
        },
{
}

/// A number that stands for no kind of payload is refused, wherever one is read.
pub proof fn law_unknown_kinds_are_refused(s: Seq<u8>, kind: u32, body: Seq<u8>)
    requires
        u32::parse(s) == Ok::<(u32, Seq<u8>), CodecError>((kind, body)),
    ensures
        kind > 1 ==> FramePayload::parse(s) == Err::<(FramePayloadValue, Seq<u8>), CodecError>(
            CodecError::SerdeDeCustom,
        ),
        kind > 4 ==> UnsignedFrame::parse(s) == Err::<(UnsignedFrameValue, Seq<u8>), CodecError>(
            CodecError::SerdeDeCustom,
        ),
        kind > 0 ==> SignedFrame::parse(s) == Err::<(SignedFrameValue, Seq<u8>), CodecError>(
            CodecError::SerdeDeCustom,
        ),
        kind > 2 ==> AnnouncePayload::parse(s) == Err::<
            (AnnouncePayloadValue, Seq<u8>),
            CodecError,
        >(CodecError::SerdeDeCustom),
        kind > 1 ==> QueryPayload::parse(s) == Err::<(QueryPayloadValue, Seq<u8>), CodecError>(
            CodecError::SerdeDeCustom,
        ),
{
}

/// A frame whose number or payload cannot be read is refused for that reason, and one whose fields
/// can all be read is read.
pub proof fn law_frames_are_read_field_by_field(s: Seq<u8>)
    ensures
        match Option::<Rid>::parse(s) {
            Err(e) => Frame::parse(s) == Err::<(FrameValue, Seq<u8>), CodecError>(e),
            Ok((rid, body)) => match FramePayload::parse(body) {
                Err(e) => Frame::parse(s) == Err::<(FrameValue, Seq<u8>), CodecError>(e),
                Ok((payload, rest)) => Frame::parse(s) == Ok::<(FrameValue, Seq<u8>), CodecError>(
                    (FrameValue { rid, payload }, rest),
                ),
            },
        },
{
}

} // verus!

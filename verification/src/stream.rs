//! Streams of frames.
//!
//! A stream starts with one byte that says what the stream is for. After it come frames. Each takes
//! four bytes for its type, four bytes for the length of its payload, and the payload; both numbers
//! have their highest byte first. The types here decide what is written next and what was read; reading
//! and writing itself is left to whoever holds the transport.

use crate::buffer::{self, be32, buffered, lemma_be32};
use crate::io::quic::FrameIncoming;
use crate::ordmap::{be_value, Rank};
use crate::proto::codec::{varint, Wire};
use crate::proto::crypto::{SigningKey, VerificationError};
use crate::proto::data::{
    carries, frame_verdict, law_message_roundtrip, reads_value, ControlMessage,
    DataFramePayloadValue, FrameMeta, FrameType, Request, RequestType, Response, ResponseType,
};
use crate::proto::traits::{decoded, encode_to_vec, Decode};
use crate::proto::wire::{
    frame_type, Announcement, End, Frame, FramePayloadValue, FrameValue, Rid, UnsignedFrameValue,
};
use crate::proto::FrameError;
use bytes::BytesMut;
use std::marker::PhantomData;
use vstd::prelude::*;

pub mod accept;
pub mod open;

verus! {

/// Number of a connection.
pub type ConnId = usize;

/// Number of a stream on its connection.
pub type StreamId = u64;

/// A stream among all streams of all connections.
#[derive(Clone, Copy, Debug, PartialEq, Eq, Hash, Structural)]
pub struct StreamAddr {
    pub conn_id: ConnId,
    pub stream_id: StreamId,
}

impl From<(ConnId, StreamId)> for StreamAddr {
    fn from(v: (ConnId, StreamId)) -> (r: StreamAddr) {
        StreamAddr { conn_id: v.0, stream_id: v.1 }
    }
}

impl vstd::std_specs::convert::FromSpecImpl<(ConnId, StreamId)> for StreamAddr {
    open spec fn obeys_from_spec() -> bool {
        true
    }

    open spec fn from_spec(v: (ConnId, StreamId)) -> StreamAddr {
        StreamAddr { conn_id: v.0, stream_id: v.1 }
    }
}

impl Rank for StreamAddr {
    open spec fn rank(self) -> int {
        self.conn_id * 0x1_0000_0000_0000_0000 + self.stream_id
    }

    proof fn rank_is_injective(a: Self, b: Self) {
    }

    fn precedes(&self, other: &Self) -> (r: bool) {
        self.conn_id < other.conn_id || (self.conn_id == other.conn_id && self.stream_id
            < other.stream_id)
    }
}

impl StreamAddr {
    /// Number of the stream.
    pub fn stream_id(&self) -> (r: StreamId)
        ensures
            r == self.stream_id,
    {
        self.stream_id
    }

    /// Number of the connection.
    pub fn conn_id(&self) -> (r: ConnId)
        ensures
            r == self.conn_id,
    {
        self.conn_id
    }
}

/// A control stream, as it is received.
pub type ControlRecvStream = MappedRecvStream<ControlMessage>;

/// Both directions of control.
pub type ControlBiStream = (FrameSendStream, MappedRecvStream<ControlMessage>);

/// Both directions of a stream.
pub type FrameBiStream = (FrameSendStream, FrameRecvStream);

/// What went wrong on a stream.
#[derive(Clone, Copy, Debug, PartialEq, Eq, Structural)]
pub enum StreamError {
    /// The stream type is not known, or not allowed here.
    InvalidStreamType,
    /// The connection failed.
    ConnectionError,
    /// Writing failed.
    WriteError,
    /// Reading failed.
    ReadError,
    /// A frame was refused.
    BadFrame(FrameError),
    /// Reading or writing failed.
    IO,
    /// The stream type could not be written.
    FailedToWriteHeader,
    /// The stream is not ready for sending.
    NotReadyForSending,
    /// The stream was closed.
    StreamClosed,
    /// The connection is not known.
    InvalidConnection,
}

/// What comes of a stream that could not be accepted.
#[derive(Clone, Copy, Debug, PartialEq, Eq, Structural)]
pub enum AcceptFailure {
    /// The stream is closed, and its connection goes on.
    CloseStream,
    /// The connection is dropped.
    DropConnection,
}

/// What comes of a stream that could not be accepted: one of a type that is not supported is
/// closed, and any other failure is one of the connection.
pub open spec fn failure_of(err: StreamError) -> AcceptFailure {
    match err {
        StreamError::InvalidStreamType => AcceptFailure::CloseStream,
        _ => AcceptFailure::DropConnection,
    }
}

/// Decides what comes of a stream that could not be accepted.
pub fn accept_failure(err: StreamError) -> (r: AcceptFailure)
    ensures
        r == failure_of(err),
{
    match err {
        StreamError::InvalidStreamType => AcceptFailure::CloseStream,
        _ => AcceptFailure::DropConnection,
    }
}

/// What a stream is for.
#[derive(Clone, Copy, Debug, PartialEq, Eq, Structural)]
pub enum StreamType {
    Control,
    Announce,
    Query,
}

/// The byte that a stream of some type starts with.
pub open spec fn type_byte(typ: StreamType) -> u8 {
    match typ {
        StreamType::Control => 0x00,
        StreamType::Query => 0x01,
        StreamType::Announce => 0x02,
    }
}

/// The type of a stream that starts with some byte.
pub open spec fn type_of(byte: u8) -> Result<StreamType, StreamError> {
    if byte == 0x00 {
        Ok(StreamType::Control)
    } else if byte == 0x01 {
        Ok(StreamType::Query)
    } else if byte == 0x02 {
        Ok(StreamType::Announce)
    } else {
        Err(StreamError::InvalidStreamType)
    }
}

impl StreamType {
    /// The type of a stream that starts with `typ`.
    pub fn from_u8(typ: u8) -> (r: Result<StreamType, StreamError>)
        ensures
            r == type_of(typ),
    {
        match typ {
            0x00 => Ok(StreamType::Control),
            0x01 => Ok(StreamType::Query),
            0x02 => Ok(StreamType::Announce),
            _ => Err(StreamError::InvalidStreamType),
        }
    }

    /// The byte that a stream of this type starts with.
    pub fn to_u8(&self) -> (r: u8)
        ensures
            r == type_byte(*self),
    {
        match self {
            StreamType::Control => 0x00,
            StreamType::Query => 0x01,
            StreamType::Announce => 0x02,
        }
    }

    /// Writes the byte that a stream of this type starts with to the front of `buf`.
    pub fn encode(&self, buf: &mut [u8])
        requires
            old(buf)@.len() > 0,
        ensures
            final(buf)@ == old(buf)@.update(0, type_byte(*self)),
    {
        buf[0] = self.to_u8();
    }
}

/// The byte that a stream starts with tells its type, and no other type has that byte.
pub proof fn law_stream_type_roundtrip(typ: StreamType, byte: u8)
    ensures
        type_of(type_byte(typ)) == Ok::<StreamType, StreamError>(typ),
        type_of(byte) == Ok::<StreamType, StreamError>(typ) ==> byte == type_byte(typ),
{
}

/// A stream that the other side opened.
pub enum AcceptStream {
    Control(ControlRecvStream),
    Announce(accept::AnnounceBiStream),
    Query(accept::QueryBiStream),
}

/// The receiving half of an accepted stream.
pub enum AcceptStreamRecv {
    Control(ControlRecvStream),
    Announce(accept::AnnounceRecvStream),
    Query(accept::QueryRecvStream),
}

/// The sending half of an accepted stream.
pub enum AcceptStreamSend {
    Announce(accept::AnnounceSendStream),
    Query(accept::QuerySendStream),
}

impl AcceptStream {
    /// Parts the directions; a control stream has only one.
    pub fn split(self) -> (r: (Option<AcceptStreamSend>, AcceptStreamRecv))
        ensures
            r == (match self {
                AcceptStream::Control(recv) => (
                    None::<AcceptStreamSend>,
                    AcceptStreamRecv::Control(recv),
                ),
                AcceptStream::Announce((send, recv)) => (
                    Some(AcceptStreamSend::Announce(send)),
                    AcceptStreamRecv::Announce(recv),
                ),
                AcceptStream::Query((send, recv)) => (
                    Some(AcceptStreamSend::Query(send)),
                    AcceptStreamRecv::Query(recv),
                ),
            }),
    {
        match self {
            AcceptStream::Control(recv) => (None, AcceptStreamRecv::Control(recv)),
            AcceptStream::Announce((send, recv)) => (
                Some(AcceptStreamSend::Announce(send)),
                AcceptStreamRecv::Announce(recv),
            ),
            AcceptStream::Query((send, recv)) => (
                Some(AcceptStreamSend::Query(send)),
                AcceptStreamRecv::Query(recv),
            ),
        }
    }

    /// The address of the receiving half.
    pub open spec fn address(&self) -> StreamAddr {
        match self {
            AcceptStream::Control(recv) => recv.address(),
            AcceptStream::Announce((_, recv)) => recv.address(),
            AcceptStream::Query((_, recv)) => recv.address(),
        }
    }

    /// What the stream is for.
    pub open spec fn kind(&self) -> StreamType {
        match self {
            AcceptStream::Control(_) => StreamType::Control,
            AcceptStream::Announce(_) => StreamType::Announce,
            AcceptStream::Query(_) => StreamType::Query,
        }
    }

    /// Whether nothing was received or sent yet.
    pub open spec fn untouched(&self) -> bool {
        match self {
            AcceptStream::Control(recv) => recv.pending().len() == 0,
            AcceptStream::Announce((send, recv)) => fresh_sender(*send, StreamType::Announce)
                && send.address() == recv.address() && recv.pending().len() == 0,
            AcceptStream::Query((send, recv)) => fresh_sender(*send, StreamType::Query)
                && send.address() == recv.address() && recv.pending().len() == 0,
        }
    }

    /// The address of the stream.
    pub fn addr(&self) -> (r: StreamAddr)
        ensures
            r == self.address(),
    {
        match self {
            AcceptStream::Control(recv) => recv.addr(),
            AcceptStream::Announce((_send, recv)) => recv.addr(),
            AcceptStream::Query((_send, recv)) => recv.addr(),
        }
    }
}

/// A stream that this side opened.
pub enum OpenStream {
    Control(FrameSendStream),
    Announce(open::AnnounceBiStream),
    Query(open::QueryBiStream),
}

/// Whether a sender of some type is ready to send frames and has sent none.
pub open spec fn fresh_sender(send: FrameSendStream, typ: StreamType) -> bool {
    &&& send.wf()
    &&& send.ready()
    &&& !send.is_cancelled()
    &&& send.stream_type() == typ
}

/// Whether a sender of some type has yet to send that type.
pub open spec fn opening_sender(send: FrameSendStream, typ: StreamType) -> bool {
    &&& send.wf()
    &&& send.at_header()
    &&& !send.is_cancelled()
    &&& send.stream_type() == typ
    &&& send.unsent() == seq![type_byte(typ)]
}

/// Whether `r` is what comes of a stream that starts with `typ`, on which the other side receives as
/// well if it goes both ways: streams for control go one way, all others both.
pub open spec fn accepted_as(
    conn_id: ConnId,
    stream_id: StreamId,
    typ: u8,
    both_ways: bool,
    r: Result<AcceptStream, StreamError>,
) -> bool {
    match r {
        Ok(stream) => {
            &&& type_of(typ) == Ok::<StreamType, StreamError>(stream.kind())
            &&& both_ways == (stream.kind() != StreamType::Control)
            &&& stream.address() == (StreamAddr { conn_id, stream_id })
            &&& stream.untouched()
        },
        Err(e) => {
            &&& type_of(typ) matches Ok(kind) ==> both_ways == (kind == StreamType::Control)
            &&& e == StreamError::InvalidStreamType
        },
    }
}

/// Takes a unidirectional stream that starts with `typ`: only control streams are allowed.
pub fn accept_uni(conn_id: ConnId, stream_id: StreamId, typ: u8) -> (r: Result<
    AcceptStream,
    StreamError,
>)
    ensures
        match r {
            Ok(stream) => {
                &&& type_of(typ) == Ok::<StreamType, StreamError>(StreamType::Control)
                &&& stream.kind() == StreamType::Control
                &&& stream.address() == (StreamAddr { conn_id, stream_id })
                &&& stream.untouched()
            },
            Err(e) => {
                &&& type_of(typ) != Ok::<StreamType, StreamError>(StreamType::Control)
                &&& e == StreamError::InvalidStreamType
            },
        },
        accepted_as(conn_id, stream_id, typ, false, r),
{
    let typ = match StreamType::from_u8(typ) {
        Ok(typ) => typ,
        Err(e) => return Err(e),
    };
    let recv = FrameRecvStream::new(conn_id, stream_id);
    match typ {
        StreamType::Control => Ok(AcceptStream::Control(recv.map())),
        StreamType::Announce | StreamType::Query => Err(StreamError::InvalidStreamType),
    }
}

/// Takes a bidirectional stream that starts with `typ`: only announce and query streams are
/// allowed.
pub fn accept_bi(conn_id: ConnId, stream_id: StreamId, typ: u8) -> (r: Result<
    AcceptStream,
    StreamError,
>)
    ensures
        match r {
            Ok(stream) => {
                &&& type_of(typ) == Ok::<StreamType, StreamError>(stream.kind())
                &&& stream.kind() != StreamType::Control
                &&& stream.address() == (StreamAddr { conn_id, stream_id })
                &&& stream.untouched()
            },
            Err(e) => {
                &&& type_of(typ) is Err || type_of(typ) == Ok::<StreamType, StreamError>(
                    StreamType::Control,
                )
                &&& e == StreamError::InvalidStreamType
            },
        },
        accepted_as(conn_id, stream_id, typ, true, r),
{
    let typ = match StreamType::from_u8(typ) {
        Ok(typ) => typ,
        Err(e) => return Err(e),
    };
    let send = FrameSendStream::new(conn_id, stream_id, typ, false);
    let recv = FrameRecvStream::new(conn_id, stream_id);
    match typ {
        StreamType::Control => Err(StreamError::InvalidStreamType),
        StreamType::Announce => Ok(AcceptStream::Announce((send, recv.map()))),
        StreamType::Query => Ok(AcceptStream::Query((send, recv.map()))),
    }
}

/// Whether `stream` was just set up by this side with that type.
pub open spec fn opened_as(
    conn_id: ConnId,
    stream_id: StreamId,
    typ: StreamType,
    stream: OpenStream,
) -> bool {
    let addr = StreamAddr { conn_id, stream_id };
    match stream {
        OpenStream::Control(send) => typ == StreamType::Control && opening_sender(send, typ)
            && send.address() == addr,
        OpenStream::Announce((send, recv)) => typ == StreamType::Announce && opening_sender(
            send,
            typ,
        ) && send.address() == addr && recv.address() == addr && recv.pending().len() == 0,
        OpenStream::Query((send, recv)) => typ == StreamType::Query && opening_sender(send, typ)
            && send.address() == addr && recv.address() == addr && recv.pending().len() == 0,
    }
}

/// Sets up a stream of some type that this side opened.
pub fn open(conn_id: ConnId, stream_id: StreamId, typ: StreamType) -> (r: OpenStream)
    ensures
        match r {
            OpenStream::Control(send) => {
                &&& typ == StreamType::Control
                &&& opening_sender(send, typ)
                &&& send.address() == (StreamAddr { conn_id, stream_id })
            },
            OpenStream::Announce((send, recv)) => {
                &&& typ == StreamType::Announce
                &&& opening_sender(send, typ)
                &&& send.address() == (StreamAddr { conn_id, stream_id })
                &&& recv.address() == (StreamAddr { conn_id, stream_id })
                &&& recv.pending().len() == 0
            },
            OpenStream::Query((send, recv)) => {
                &&& typ == StreamType::Query
                &&& opening_sender(send, typ)
                &&& send.address() == (StreamAddr { conn_id, stream_id })
                &&& recv.address() == (StreamAddr { conn_id, stream_id })
                &&& recv.pending().len() == 0
            },
        },
        opened_as(conn_id, stream_id, typ, r),
{
    match typ {
        StreamType::Control => OpenStream::Control(open_control(conn_id, stream_id)),
        StreamType::Announce => OpenStream::Announce(open_announce(conn_id, stream_id)),
        StreamType::Query => OpenStream::Query(open_query(conn_id, stream_id)),
    }
}

/// Sets up a control stream that this side opened.
pub fn open_control(conn_id: ConnId, stream_id: StreamId) -> (r: FrameSendStream)
    ensures
        opening_sender(r, StreamType::Control),
        r.address() == (StreamAddr { conn_id, stream_id }),
{
    FrameSendStream::new(conn_id, stream_id, StreamType::Control, true)
}

/// Sets up an announce stream that this side opened.
pub fn open_announce(conn_id: ConnId, stream_id: StreamId) -> (r: open::AnnounceBiStream)
    ensures
        opening_sender(r.0, StreamType::Announce),
        r.0.address() == (StreamAddr { conn_id, stream_id }),
        r.1.address() == (StreamAddr { conn_id, stream_id }),
        r.1.pending().len() == 0,
{
    let send = FrameSendStream::new(conn_id, stream_id, StreamType::Announce, true);
    let recv = FrameRecvStream::new(conn_id, stream_id);
    (send, recv.map())
}

/// Sets up a query stream that this side opened.
pub fn open_query(conn_id: ConnId, stream_id: StreamId) -> (r: open::QueryBiStream)
    ensures
        opening_sender(r.0, StreamType::Query),
        r.0.address() == (StreamAddr { conn_id, stream_id }),
        r.1.address() == (StreamAddr { conn_id, stream_id }),
        r.1.pending().len() == 0,
{
    let send = FrameSendStream::new(conn_id, stream_id, StreamType::Query, true);
    let recv = FrameRecvStream::new(conn_id, stream_id);
    (send, recv.map())
}

/// The bytes that a frame takes on a stream: its type, the length of its payload, and the payload,
/// which is its encoding.
pub open spec fn framed(frame: FrameValue) -> Seq<u8> {
    be32(frame_type(frame)) + be32(Frame::bytes(frame).len() as u32) + Frame::bytes(frame)
}

/// The bytes that frames take on a stream.
pub open spec fn all_framed(frames: Seq<FrameValue>) -> Seq<u8>
    decreases frames.len(),
{
    if frames.len() == 0 {
        Seq::empty()
    } else {
        framed(frames[0]) + all_framed(frames.skip(1))
    }
}

/// The number of the type that the first frame in `s` states.
pub open spec fn stated_type(s: Seq<u8>) -> int {
    be_value(s.take(4))
}

/// The length of the payload that the first frame in `s` states.
pub open spec fn stated_len(s: Seq<u8>) -> int {
    be_value(s.subrange(4, 8))
}

/// Whether all bytes of the first frame in `s` are there.
pub open spec fn has_frame(s: Seq<u8>) -> bool {
    s.len() >= 8 && s.len() >= 8 + stated_len(s)
}

/// The outcome of decoding the first frame in `s`. A frame that states another type than that of
/// its payload is refused.
pub open spec fn first_frame(s: Seq<u8>) -> Result<FrameValue, FrameError> {
    match decoded::<Frame>(s.subrange(8, 8 + stated_len(s))) {
        Ok(frame) => if stated_type(s) == frame_type(frame) {
            Ok(frame)
        } else {
            Err(FrameError::InvalidFrameType)
        },
        Err(e) => Err(e),
    }
}

/// What follows the first frame in `s`.
pub open spec fn after_frame(s: Seq<u8>) -> Seq<u8> {
    s.skip(8 + stated_len(s))
}

/// All frames in `s` up to the first that is incomplete or cannot be decoded.
pub open spec fn frames_in(s: Seq<u8>) -> Seq<FrameValue>
    decreases s.len(),
{
    if stated_len(s) < 0 || !has_frame(s) {
        Seq::empty()
    } else {
        match first_frame(s) {
            Ok(frame) => seq![frame] + frames_in(after_frame(s)),
            Err(_) => Seq::empty(),
        }
    }
}

/// Whether a frame can be sent: it can be encoded, and its length fits the field for it.
pub open spec fn sendable(frame: FrameValue) -> bool {
    Frame::encodable(frame) && Frame::bytes(frame).len() <= u32::MAX
}

/// An `END` frame without a number can be sent.
pub proof fn lemma_end_is_sendable()
    ensures
        sendable(
            FrameValue {
                rid: None,
                payload: FramePayloadValue::Unsigned(UnsignedFrameValue::End(End {  })),
            },
        ),
{
    reveal_with_fuel(varint, 2);
}

/// The first frame on a stream is there once all its bytes are, and is what was sent.
pub proof fn law_frame_roundtrip(frame: FrameValue, rest: Seq<u8>)
    requires
        sendable(frame),
    ensures
        has_frame(framed(frame) + rest),
        first_frame(framed(frame) + rest) == Ok::<FrameValue, FrameError>(frame),
        after_frame(framed(frame) + rest) == rest,
{
    let body = Frame::bytes(frame);
    let s = framed(frame) + rest;
    lemma_be32(frame_type(frame));
    lemma_be32(body.len() as u32);
    assert(s.take(4) =~= be32(frame_type(frame)));
    assert(s.subrange(4, 8) =~= be32(body.len() as u32));
    assert(s.subrange(8, 8 + body.len() as int) =~= body);
    assert(s.skip(8 + body.len() as int) =~= rest);
    crate::proto::traits::law_decode_inverts_encode::<Frame>(frame, Seq::empty());
}

/// No frame is taken for complete while some of its bytes are missing.
pub proof fn law_partial_frame_waits(frame: FrameValue, n: int)
    requires
        sendable(frame),
        0 <= n < framed(frame).len(),
    ensures
        !has_frame(framed(frame).take(n)),
{
    let body = Frame::bytes(frame);
    lemma_be32(body.len() as u32);
    if n >= 8 {
        assert(framed(frame).take(n).subrange(4, 8) =~= be32(body.len() as u32));
    }
}

/// A frame that states another type than that of its payload is refused, whatever follows it.
pub proof fn law_mistyped_frame_is_refused(frame: FrameValue, typ: u32, rest: Seq<u8>)
    requires
        sendable(frame),
        typ != frame_type(frame),
    ensures
        ({
            let s = be32(typ) + framed(frame).skip(4) + rest;
            &&& has_frame(s)
            &&& first_frame(s) == Err::<FrameValue, FrameError>(FrameError::InvalidFrameType)
        }),
{
    let body = Frame::bytes(frame);
    let s = be32(typ) + framed(frame).skip(4) + rest;
    lemma_be32(typ);
    lemma_be32(body.len() as u32);
    assert(s.take(4) =~= be32(typ));
    assert(s.subrange(4, 8) =~= be32(body.len() as u32));
    assert(s.subrange(8, 8 + body.len() as int) =~= body);
    crate::proto::traits::law_decode_inverts_encode::<Frame>(frame, Seq::empty());
}

/// Frames that were sent in full are there, whatever part of another has arrived.
#[verifier::spinoff_prover]
#[verifier::rlimit(60)]
pub proof fn lemma_frames_in_front(frames: Seq<FrameValue>, part: Seq<u8>)
    requires
        forall|i: int| 0 <= i < frames.len() ==> sendable(#[trigger] frames[i]),
        !has_frame(part),
    ensures
        frames_in(all_framed(frames) + part) == frames,
    decreases frames.len(),
{
    if frames.len() == 0 {
        assert(all_framed(frames) + part =~= part);
        assert(frames_in(part) =~= frames);
    } else {
        let later = frames.skip(1);
        let rest = all_framed(later) + part;
        assert(all_framed(frames) + part =~= framed(frames[0]) + rest);
        law_frame_roundtrip(frames[0], rest);
        assert forall|i: int| 0 <= i < later.len() implies sendable(#[trigger] later[i]) by {
            assert(later[i] == frames[i + 1]);
        }
        lemma_frames_in_front(later, part);
        lemma_be_value_not_negative((framed(frames[0]) + rest).subrange(4, 8));
        assert(frames_in(framed(frames[0]) + rest) == seq![frames[0]] + frames_in(rest));
        assert(seq![frames[0]] + later =~= frames);
    }
}

/// Frames arrive as they were sent, in that order, and none is made up: those that were sent in
/// full are there, whatever part of the next has arrived.
pub proof fn law_frames_arrive_in_order(frames: Seq<FrameValue>, next: FrameValue, n: int)
    requires
        forall|i: int| 0 <= i < frames.len() ==> sendable(#[trigger] frames[i]),
        sendable(next),
        0 <= n < framed(next).len(),
    ensures
        frames_in(all_framed(frames) + framed(next).take(n)) == frames,
{
    law_partial_frame_waits(next, n);
    lemma_frames_in_front(frames, framed(next).take(n));
}

/// Big-endian values are not negative.
proof fn lemma_be_value_not_negative(s: Seq<u8>)
    ensures
        be_value(s) >= 0,
    decreases s.len(),
{
    if s.len() > 0 {
        lemma_be_value_not_negative(s.drop_last());
    }
}

/// What a receiver does next.
pub enum RecvPoll {
    /// Hands out a frame.
    Frame(Frame),
    /// Reads from the transport.
    Read,
    /// Stops: the transport is told to stop as well.
    Closed,
}

/// The receiving half of a stream.
pub struct FrameRecvStream {
    conn_id: ConnId,
    stream_id: StreamId,
    buf: BytesMut,
    header: Option<(u32, u32)>,
}

impl FrameRecvStream {
    /// What arrived and was not handed out yet.
    pub closed spec fn pending(&self) -> Seq<u8> {
        match self.header {
            Some((typ, len)) => be32(typ) + be32(len) + buffered(self.buf),
            None => buffered(self.buf),
        }
    }

    /// The address of the stream.
    pub closed spec fn address(&self) -> StreamAddr {
        StreamAddr { conn_id: self.conn_id, stream_id: self.stream_id }
    }

    /// A stream on which nothing has arrived.
    pub fn new(conn_id: ConnId, stream_id: StreamId) -> (r: Self)
        ensures
            r.address() == (StreamAddr { conn_id, stream_id }),
            r.pending() == Seq::<u8>::empty(),
    {
        FrameRecvStream { conn_id, stream_id, buf: BytesMut::with_capacity(8), header: None }
    }

    /// Number of the stream.
    pub fn id(&self) -> (r: StreamId)
        ensures
            r == self.address().stream_id,
    {
        self.stream_id
    }

    /// The address of the stream.
    pub fn addr(&self) -> (r: StreamAddr)
        ensures
            r == self.address(),
    {
        StreamAddr::from((self.conn_id, self.stream_id))
    }

    /// Takes the frames of the stream for messages of type `T`.
    pub fn map<T: FrameType>(self) -> (r: MappedRecvStream<T>)
        ensures
            r.address() == self.address(),
            r.pending() == self.pending(),
    {
        MappedRecvStream::new(self)
    }

    /// Takes in what was read from the transport. Nothing is read only where the stream has
    /// ended, and then the result is false.
    pub fn read(&mut self, chunk: &[u8]) -> (r: bool)
        ensures
            final(self).address() == old(self).address(),
            final(self).pending() == old(self).pending() + chunk@,
            r == (chunk@.len() > 0),
    {
        self.buf.extend_from_slice(chunk);
        assert(self.pending() =~= old(self).pending() + chunk@);
        chunk.len() > 0
    }

    /// Decides what is done next: hands out the next frame if it is complete, unless the stream
    /// was cancelled. A frame that cannot be decoded, or that states a wrong type, stays where it
    /// is.
    pub fn poll_recv(&mut self, cancelled: bool) -> (r: Result<RecvPoll, StreamError>)
        ensures
            final(self).address() == old(self).address(),
            receives(old(self).pending(), cancelled, r, final(self).pending()),
    {
        if cancelled {
            return Ok(RecvPoll::Closed);
        }
        let ghost s = self.pending();
        let (typ, len) = match self.header {
            Some((typ, len)) => {
                proof {
                    lemma_be32(typ);
                    lemma_be32(len);
                    assert(s.take(4) =~= be32(typ));
                    assert(s.subrange(4, 8) =~= be32(len));
                }
                (typ, len)
            },
            None => {
                if self.buf.len() < 8 {
                    return Ok(RecvPoll::Read);
                }
                let typ = buffer::get_u32(&mut self.buf);
                let len = buffer::get_u32(&mut self.buf);
                self.header = Some((typ, len));
                proof {
                    lemma_number(s);
                    lemma_number(s.skip(4));
                    assert(s.skip(4).take(4) =~= s.subrange(4, 8));
                    assert(s.skip(4).skip(4) =~= s.skip(8));
                    assert(self.pending() =~= s);
                }
                (typ, len)
            },
        };
        let len = len as usize;
        if self.buf.len() < len {
            return Ok(RecvPoll::Read);
        }
        let bytes = vstd::slice::slice_subrange(buffer::as_slice(&self.buf), 0, len);
        assert(bytes@ =~= s.subrange(8, 8 + len));
        let frame = match Frame::decode(bytes) {
            Ok(frame) => frame,
            Err(e) => return Err(StreamError::BadFrame(e)),
        };
        if frame.type_number() != typ {
            return Err(StreamError::BadFrame(FrameError::InvalidFrameType));
        }
        buffer::advance(&mut self.buf, len);
        self.header = None;
        assert(self.pending() =~= after_frame(s));
        Ok(RecvPoll::Frame(frame))
    }
}

/// Four bytes are the bytes of their value.
proof fn lemma_number(s: Seq<u8>)
    requires
        s.len() >= 4,
    ensures
        0 <= be_value(s.take(4)) <= u32::MAX,
        be32(be_value(s.take(4)) as u32) + s.skip(4) == s,
{
    reveal_with_fuel(be_value, 5);
    let t = s.take(4);
    assert(t.drop_last() =~= seq![t[0], t[1], t[2]]);
    assert(t.drop_last().drop_last() =~= seq![t[0], t[1]]);
    assert(t.drop_last().drop_last().drop_last() =~= seq![t[0]]);
    assert(t.drop_last().drop_last().drop_last().drop_last() =~= Seq::<u8>::empty());
    assert(be32(be_value(t) as u32) =~= t);
    assert(be32(be_value(t) as u32) + s.skip(4) =~= s);
}

/// Whether `r` is what a receiver does with `pending`, and `rest` what it then has left.
pub open spec fn receives(
    pending: Seq<u8>,
    cancelled: bool,
    r: Result<RecvPoll, StreamError>,
    rest: Seq<u8>,
) -> bool {
    if cancelled {
        r == Ok::<RecvPoll, StreamError>(RecvPoll::Closed) && rest == pending
    } else if !has_frame(pending) {
        r == Ok::<RecvPoll, StreamError>(RecvPoll::Read) && rest == pending
    } else {
        match first_frame(pending) {
            Ok(v) => {
                &&& r matches Ok(RecvPoll::Frame(frame)) && frame.value() == v
                &&& rest == after_frame(pending)
            },
            Err(e) => {
                &&& r == Err::<RecvPoll, StreamError>(StreamError::BadFrame(e))
                &&& rest == pending
            },
        }
    }
}

/// What a receiver of messages does next.
pub enum MappedPoll<T> {
    /// Hands out a message.
    Message(T, FrameMeta),
    /// Reads from the transport.
    Read,
    /// Stops: the transport is told to stop as well.
    Closed,
}

/// The receiving half of a stream of messages.
pub struct MappedRecvStream<T> {
    stream: FrameRecvStream,
    typ: PhantomData<T>,
}

/// Whether `r` is what a receiver of messages does with `pending`, and `rest` what it then has
/// left.
pub open spec fn receives_message<T: FrameType>(
    pending: Seq<u8>,
    cancelled: bool,
    r: Result<MappedPoll<T>, StreamError>,
    rest: Seq<u8>,
) -> bool {
    if cancelled {
        r == Ok::<MappedPoll<T>, StreamError>(MappedPoll::Closed) && rest == pending
    } else if !has_frame(pending) {
        r == Ok::<MappedPoll<T>, StreamError>(MappedPoll::Read) && rest == pending
    } else {
        match first_frame(pending) {
            Ok(v) => {
                &&& rest == after_frame(pending)
                &&& reads_message(v, frame_verdict(v), r)
            },
            Err(e) => {
                &&& r == Err::<MappedPoll<T>, StreamError>(StreamError::BadFrame(e))
                &&& rest == pending
            },
        }
    }
}

/// Whether `r` is what a receiver of messages makes of a frame whose signature was checked with
/// outcome `verdict`.
pub open spec fn reads_message<T: FrameType>(
    frame: FrameValue,
    verdict: Result<bool, VerificationError>,
    r: Result<MappedPoll<T>, StreamError>,
) -> bool {
    match r {
        Ok(MappedPoll::Message(v, meta)) => reads_value(
            frame,
            verdict,
            Ok::<(T, FrameMeta), FrameError>((v, meta)),
        ),
        Err(StreamError::BadFrame(e)) => reads_value(
            frame,
            verdict,
            Err::<(T, FrameMeta), FrameError>(e),
        ),
        _ => false,
    }
}

impl<T> MappedRecvStream<T> {
    /// What arrived and was not handed out yet.
    pub closed spec fn pending(&self) -> Seq<u8> {
        self.stream.pending()
    }

    /// The address of the stream.
    pub closed spec fn address(&self) -> StreamAddr {
        self.stream.address()
    }

    /// Takes the frames of `stream` for messages.
    pub fn new(stream: FrameRecvStream) -> (r: Self)
        ensures
            r.address() == stream.address(),
            r.pending() == stream.pending(),
    {
        MappedRecvStream { stream, typ: PhantomData }
    }

    /// Number of the stream.
    pub fn id(&self) -> (r: StreamId)
        ensures
            r == self.address().stream_id,
    {
        self.stream.id()
    }

    /// The address of the stream.
    pub fn addr(&self) -> (r: StreamAddr)
        ensures
            r == self.address(),
    {
        self.stream.addr()
    }

    /// Takes in what was read from the transport. Nothing is read only where the stream has
    /// ended, and then the result is false.
    pub fn read(&mut self, chunk: &[u8]) -> (r: bool)
        ensures
            final(self).address() == old(self).address(),
            final(self).pending() == old(self).pending() + chunk@,
            r == (chunk@.len() > 0),
    {
        self.stream.read(chunk)
    }
}

impl<T: FrameType> MappedRecvStream<T> {
    /// Decides what is done next: hands out the next message if its frame is complete, unless the
    /// stream was cancelled. A frame that is refused is gone, unless it cannot be decoded or states
    /// a wrong type.
    pub fn poll_recv(&mut self, cancelled: bool) -> (r: Result<MappedPoll<T>, StreamError>)
        ensures
            final(self).address() == old(self).address(),
            receives_message(old(self).pending(), cancelled, r, final(self).pending()),
    {
        match self.stream.poll_recv(cancelled) {
            Ok(RecvPoll::Frame(frame)) => match frame.verify_into::<T>() {
                Ok((payload, meta)) => Ok(MappedPoll::Message(payload, meta)),
                Err(e) => Err(StreamError::BadFrame(e)),
            },
            Ok(RecvPoll::Read) => Ok(MappedPoll::Read),
            Ok(RecvPoll::Closed) => Ok(MappedPoll::Closed),
            Err(e) => Err(e),
        }
    }
}

/// A message that was sent is what the receiver hands out once its frame has arrived, whatever
/// has arrived after it; an announcement unless the commitment of its signature is the neutral
/// point.
pub proof fn law_message_is_received<T: FrameType>(
    frame: FrameValue,
    rid: Option<Rid>,
    v: T::Value,
    key: SigningKey,
    rest: Seq<u8>,
    r: Result<MappedPoll<T>, StreamError>,
    left: Seq<u8>,
)
    requires
        carries(frame, rid, T::payload_value(v), key),
        sendable(frame),
        T::payload_value(v) matches DataFramePayloadValue::Announce(a) ==> {
            &&& Announcement::encodable(a)
            &&& frame.payload matches FramePayloadValue::Signed(envelope)
                && !envelope.seal.neutral()
        },
        receives_message(framed(frame) + rest, false, r, left),
    ensures
        r matches Ok(MappedPoll::Message(message, meta)) && message.value() == v && meta.rid == rid,
        left == rest,
{
    law_frame_roundtrip(frame, rest);
    law_message_roundtrip::<T>(frame, rid, v, key);
}

/// What a sender does next.
#[derive(Clone, Copy, Debug, PartialEq, Eq, Structural)]
pub enum SendPoll {
    /// Nothing is left to write.
    Ready,
    /// Writes to the transport.
    Write,
}

/// How far sending has come.
enum SendState {
    Idle,
    Header([u8; 1]),
    Sending,
}

/// The sending half of a stream.
pub struct FrameSendStream {
    conn_id: ConnId,
    stream_id: StreamId,
    buf: BytesMut,
    state: SendState,
    cancelled: bool,
    typ: StreamType,
}

impl FrameSendStream {
    /// What has to be written before the next frame can be sent.
    pub closed spec fn unsent(&self) -> Seq<u8> {
        match self.state {
            SendState::Idle => Seq::empty(),
            SendState::Header(header) => header@,
            SendState::Sending => buffered(self.buf),
        }
    }

    /// Whether something is left to write while sending.
    pub closed spec fn wf(&self) -> bool {
        self.state is Sending ==> buffered(self.buf).len() > 0
    }

    /// Whether the next frame can be sent.
    pub closed spec fn ready(&self) -> bool {
        self.state is Idle
    }

    /// Whether the stream type is written next.
    pub closed spec fn at_header(&self) -> bool {
        self.state is Header
    }

    /// Whether the stream was cancelled.
    pub closed spec fn is_cancelled(&self) -> bool {
        self.cancelled
    }

    /// What the stream is for.
    pub closed spec fn stream_type(&self) -> StreamType {
        self.typ
    }

    /// The address of the stream.
    pub closed spec fn address(&self) -> StreamAddr {
        StreamAddr { conn_id: self.conn_id, stream_id: self.stream_id }
    }

    /// The next frame can be sent exactly if nothing is left to write.
    pub proof fn lemma_ready(&self)
        requires
            self.wf(),
        ensures
            self.ready() <==> self.unsent().len() == 0,
            self.at_header() ==> self.unsent().len() == 1,
    {
    }

    /// A stream that starts with its type if `send_header` is set.
    pub fn new(
        conn_id: ConnId,
        stream_id: StreamId,
        typ: StreamType,
        send_header: bool,
    ) -> (r: Self)
        ensures
            r.wf(),
            r.address() == (StreamAddr { conn_id, stream_id }),
            r.stream_type() == typ,
            !r.is_cancelled(),
            r.at_header() == send_header,
            r.ready() == !send_header,
            r.unsent() == (if send_header {
                seq![type_byte(typ)]
            } else {
                Seq::empty()
            }),
    {
        let state = if send_header {
            let mut header = [0u8;1];
            typ.encode(&mut header);
            assert(header@ =~= seq![type_byte(typ)]);
            SendState::Header(header)
        } else {
            SendState::Idle
        };
        FrameSendStream {
            conn_id,
            stream_id,
            buf: BytesMut::new(),
            state,
            cancelled: false,
            typ,
        }
    }

    /// The address of the stream.
    pub fn addr(&self) -> (r: StreamAddr)
        ensures
            r == self.address(),
    {
        StreamAddr::from((self.conn_id, self.stream_id))
    }

    /// Number of the stream.
    pub fn id(&self) -> (r: StreamId)
        ensures
            r == self.address().stream_id,
    {
        self.stream_id
    }

    /// Whether the next frame can be sent.
    pub fn is_ready(&self) -> (r: bool)
        ensures
            r == self.ready(),
    {
        match self.state {
            SendState::Idle => true,
            _ => false,
        }
    }

    /// Takes messages of type `T` to send.
    pub fn map<T: FrameType>(self) -> (r: MappedSendStream<T>)
        ensures
            r.inner() == self,
    {
        MappedSendStream::new(self)
    }

    /// What has to be written before the next frame can be sent.
    pub fn to_write(&self) -> (r: &[u8])
        ensures
            r@ == self.unsent(),
    {
        match &self.state {
            SendState::Idle => empty_slice(),
            SendState::Header(header) => header.as_slice(),
            SendState::Sending => buffer::as_slice(&self.buf),
        }
    }

    /// Starts to send a frame. On a cancelled stream that is refused.
    pub fn start_send(&mut self, frame: &Frame) -> (r: Result<(), StreamError>)
        requires
            old(self).ready(),
        ensures
            starts(*old(self), frame.value(), r, *final(self)),
    {
        if self.cancelled {
            return Err(StreamError::StreamClosed);
        }
        self.buf.clear();
        let bytes = encode_to_vec(frame);
        buffer::put_u32(&mut self.buf, frame.type_number());
        buffer::put_u32(&mut self.buf, bytes.len() as u32);
        self.buf.extend_from_slice(bytes.as_slice());
        self.state = SendState::Sending;
        assert(self.unsent() =~= framed(frame.value()));
        Ok(())
    }

    /// Decides what is done next. A stream that is cancelled has nothing to write any more.
    pub fn poll_send(&mut self, cancelled: bool) -> (r: SendPoll)
        requires
            old(self).wf(),
        ensures
            final(self).wf(),
            final(self).same_stream(*old(self)),
            final(self).unsent() == old(self).unsent(),
            final(self).at_header() == old(self).at_header(),
            final(self).is_cancelled() == (old(self).is_cancelled() || cancelled),
            r == (if cancelled || old(self).ready() {
                SendPoll::Ready
            } else {
                SendPoll::Write
            }),
    {
        if cancelled {
            self.cancelled = true;
            return SendPoll::Ready;
        }
        match self.state {
            SendState::Idle => SendPoll::Ready,
            SendState::Header(_) => SendPoll::Write,
            SendState::Sending => SendPoll::Write,
        }
    }

    /// Whether this is the same stream as `other`, however far either has come.
    pub open spec fn same_stream(&self, other: Self) -> bool {
        &&& self.address() == other.address()
        &&& self.stream_type() == other.stream_type()
    }

    /// Notes that the transport took the first `n` bytes. The stream type has to be taken whole.
    pub fn wrote(&mut self, n: usize) -> (r: Result<(), StreamError>)
        requires
            old(self).wf(),
            !old(self).ready(),
            n <= old(self).unsent().len(),
        ensures
            final(self).wf(),
            final(self).same_stream(*old(self)),
            final(self).is_cancelled() == old(self).is_cancelled(),
            r == (if old(self).at_header() && n != 1 {
                Err::<(), StreamError>(StreamError::FailedToWriteHeader)
            } else {
                Ok::<(), StreamError>(())
            }),
            final(self).unsent() == old(self).unsent().skip(n as int),
            final(self).at_header() == (old(self).at_header() && n != 1),
    {
        let ghost before = self.unsent();
        match self.state {
            SendState::Idle => Ok(()),
            SendState::Header(_) => {
                if n != 1 {
                    assert(before.skip(0) =~= before);
                    return Err(StreamError::FailedToWriteHeader);
                }
                self.state = SendState::Idle;
                assert(before.skip(1) =~= Seq::<u8>::empty());
                Ok(())
            },
            SendState::Sending => {
                buffer::advance(&mut self.buf, n);
                if self.buf.len() == 0 {
                    self.state = SendState::Idle;
                    assert(before.skip(n as int) =~= Seq::<u8>::empty());
                }
                Ok(())
            },
        }
    }
}

/// No bytes.
fn empty_slice<'a>() -> (r: &'a [u8])
    ensures
        r@ == Seq::<u8>::empty(),
{
    let none: &'a [u8; 0] = &[];
    let r = none.as_slice();
    assert(r@ =~= Seq::<u8>::empty());
    r
}

/// Whether `r` is the outcome of starting to send a frame on `before`, and `after` the stream
/// afterwards.
pub open spec fn starts(
    before: FrameSendStream,
    frame: FrameValue,
    r: Result<(), StreamError>,
    after: FrameSendStream,
) -> bool {
    if before.is_cancelled() {
        r == Err::<(), StreamError>(StreamError::StreamClosed) && after == before
    } else {
        &&& r == Ok::<(), StreamError>(())
        &&& after.wf()
        &&& after.same_stream(before)
        &&& !after.is_cancelled()
        &&& !after.at_header()
        &&& after.unsent() == framed(frame)
    }
}

/// What a sender has to write once it started to send a frame is that frame to a receiver,
/// whatever is sent after it.
pub proof fn law_started_frame_is_received(
    before: FrameSendStream,
    frame: FrameValue,
    after: FrameSendStream,
    rest: Seq<u8>,
)
    requires
        sendable(frame),
        starts(before, frame, Ok(()), after),
    ensures
        has_frame(after.unsent() + rest),
        first_frame(after.unsent() + rest) == Ok::<FrameValue, FrameError>(frame),
        after_frame(after.unsent() + rest) == rest,
{
    law_frame_roundtrip(frame, rest);
}

/// The sending half of a stream of messages.
pub struct MappedSendStream<T> {
    stream: FrameSendStream,
    phantom: PhantomData<T>,
}

impl<T> MappedSendStream<T> {
    /// The underlying stream.
    pub closed spec fn inner(&self) -> FrameSendStream {
        self.stream
    }

    /// Sends messages on `stream`.
    pub fn new(stream: FrameSendStream) -> (r: Self)
        ensures
            r.inner() == stream,
    {
        MappedSendStream { stream, phantom: PhantomData }
    }

    /// Number of the stream.
    pub fn id(&self) -> (r: StreamId)
        ensures
            r == self.inner().address().stream_id,
    {
        self.stream.id()
    }

    /// The address of the stream.
    pub fn addr(&self) -> (r: StreamAddr)
        ensures
            r == self.inner().address(),
    {
        self.stream.addr()
    }

    /// Whether the next message can be sent.
    pub fn is_ready(&self) -> (r: bool)
        ensures
            r == self.inner().ready(),
    {
        self.stream.is_ready()
    }

    /// Decides what is done next. A stream that is cancelled has nothing to write any more.
    pub fn poll_send(&mut self, cancelled: bool) -> (r: SendPoll)
        requires
            old(self).inner().wf(),
        ensures
            final(self).inner().wf(),
            final(self).inner().same_stream(old(self).inner()),
            final(self).inner().unsent() == old(self).inner().unsent(),
            final(self).inner().at_header() == old(self).inner().at_header(),
            final(self).inner().is_cancelled() == (old(self).inner().is_cancelled() || cancelled),
            r == (if cancelled || old(self).inner().ready() {
                SendPoll::Ready
            } else {
                SendPoll::Write
            }),
    {
        self.stream.poll_send(cancelled)
    }

    /// What has to be written before the next message can be sent.
    pub fn to_write(&self) -> (r: &[u8])
        ensures
            r@ == self.inner().unsent(),
    {
        self.stream.to_write()
    }

    /// Notes that the transport took the first `n` bytes. The stream type has to be taken whole.
    pub fn wrote(&mut self, n: usize) -> (r: Result<(), StreamError>)
        requires
            old(self).inner().wf(),
            !old(self).inner().ready(),
            n <= old(self).inner().unsent().len(),
        ensures
            final(self).inner().wf(),
            final(self).inner().same_stream(old(self).inner()),
            final(self).inner().is_cancelled() == old(self).inner().is_cancelled(),
            r == (if old(self).inner().at_header() && n != 1 {
                Err::<(), StreamError>(StreamError::FailedToWriteHeader)
            } else {
                Ok::<(), StreamError>(())
            }),
            final(self).inner().unsent() == old(self).inner().unsent().skip(n as int),
            final(self).inner().at_header() == (old(self).inner().at_header() && n != 1),
    {
        self.stream.wrote(n)
    }
}

impl<T: FrameType> MappedSendStream<T> {
    /// Starts to send a message. Announcements are signed with `signing_key`.
    pub fn start_send(&mut self, data: T, rid: Option<Rid>, signing_key: &SigningKey) -> (r: Result<
        (),
        StreamError,
    >)
        requires
            old(self).inner().ready(),
        ensures
            exists|frame: FrameValue| #[trigger]
                carries(frame, rid, T::payload_value(data.value()), *signing_key) && starts(
                    old(self).inner(),
                    frame,
                    r,
                    final(self).inner(),
                ),
    {
        let payload = data.into_payload();
        match Frame::carrying(payload, rid, signing_key) {
            Ok(frame) => {
                assert(carries(
                    frame.value(),
                    rid,
                    T::payload_value(data.value()),
                    *signing_key,
                ));
                self.stream.start_send(&frame)
            },
            Err(e) => Err(StreamError::BadFrame(e)),
        }
    }
}

/// A stream whose next message is awaited.
pub struct NextFrame<T> {
    pub addr: StreamAddr,
    pub stream: Option<MappedRecvStream<T>>,
}

/// Awaits the next message of a stream.
pub fn next_frame<T: FrameType>(addr: StreamAddr, stream: MappedRecvStream<T>) -> (r: NextFrame<T>)
    ensures
        r == (NextFrame { addr, stream: Some(stream) }),
{
    NextFrame { addr, stream: Some(stream) }
}

/// What came of awaiting a message: it, the end of the stream, or an error.
pub type Received<T> = Result<Option<(T, FrameMeta)>, StreamError>;

impl<T> NextFrame<T> {
    /// Hands out the stream once its message came. That may be done only once.
    pub fn finish(self) -> (r: (StreamAddr, MappedRecvStream<T>))
        requires
            self.stream is Some,
        ensures
            r.0 == self.addr,
            Some(r.1) == self.stream,
    {
        match self.stream {
            Some(stream) => (self.addr, stream),
            None => vstd::pervasive::unreached(),
        }
    }
}

/// The streams whose next messages are awaited.
pub struct RecvStreams<T> {
    futs: Vec<NextFrame<T>>,
}

/// Whether every one of `futs` still has its stream.
pub open spec fn all_awaited<T>(futs: Seq<NextFrame<T>>) -> bool {
    forall|i: int| 0 <= i < futs.len() ==> (#[trigger] futs[i]).stream is Some
}

impl<T> View for RecvStreams<T> {
    type V = Seq<NextFrame<T>>;

    closed spec fn view(&self) -> Seq<NextFrame<T>> {
        self.futs@
    }
}

/// The streams after a message on the one at `i` was awaited with outcome `frame`: a stream that
/// ended or failed is dropped, any other moves to the end.
pub open spec fn after_received<T>(
    futs: Seq<NextFrame<T>>,
    i: int,
    frame: Received<T>,
) -> Seq<NextFrame<T>> {
    match frame {
        Ok(Some(_)) => futs.remove(i).push(futs[i]),
        _ => futs.remove(i),
    }
}

/// What is handed out after a message on `addr` was awaited with outcome `frame`; nothing is,
/// where the stream ended.
pub open spec fn handed_out<T>(addr: StreamAddr, frame: Received<T>) -> Option<
    Result<(T, FrameMeta, StreamAddr), StreamError>,
> {
    match frame {
        Ok(Some((payload, meta))) => Some(Ok((payload, meta, addr))),
        Ok(None) => None,
        Err(e) => Some(Err(e)),
    }
}

impl<T> RecvStreams<T> {
    /// Whether every stream is there.
    pub open spec fn wf(&self) -> bool {
        all_awaited(self@)
    }
}

impl<T: FrameType> Default for RecvStreams<T> {
    fn default() -> (r: Self)
        ensures
            r.wf(),
            r@ == Seq::<NextFrame<T>>::empty(),
    {
        Self::new()
    }
}

impl<T: FrameType> RecvStreams<T> {
    /// No streams.
    pub fn new() -> (r: Self)
        ensures
            r.wf(),
            r@ == Seq::<NextFrame<T>>::empty(),
    {
        RecvStreams { futs: Vec::new() }
    }

    /// Number of streams.
    pub fn len(&self) -> (r: usize)
        ensures
            r == self@.len(),
    {
        self.futs.len()
    }

    /// Awaits messages on one more stream.
    pub fn push_stream(&mut self, recv: MappedRecvStream<T>)
        requires
            old(self).wf(),
        ensures
            final(self).wf(),
            final(self)@ == old(self)@.push(
                NextFrame { addr: recv.address(), stream: Some(recv) },
            ),
    {
        let addr = recv.addr();
        self.futs.push(next_frame(addr, recv));
    }

    /// The stream at position `i`, to read from and to poll.
    pub fn stream_mut(&mut self, i: usize) -> (r: Option<&mut MappedRecvStream<T>>)
        requires
            old(self).wf(),
            i < old(self)@.len(),
        ensures
            final(self).wf(),
            match r {
                Some(stream) => {
                    &&& old(self)@[i as int].stream == Some(*stream)
                    &&& final(self)@ == old(self)@.update(
                        i as int,
                        NextFrame {
                            addr: old(self)@[i as int].addr,
                            stream: Some(*final(stream)),
                        },
                    )
                },
                None => false,
            },
    {
        let ghost before = self.futs@;
        let fut = &mut self.futs[i];
        match &mut fut.stream {
            Some(stream) => Some(stream),
            None => None,
        }
    }

    /// Takes note of what was received on the stream at position `i`, and hands it out.
    pub fn poll_next(&mut self, i: usize, frame: Received<T>) -> (r: Option<
        Result<(T, FrameMeta, StreamAddr), StreamError>,
    >)
        requires
            old(self).wf(),
            i < old(self)@.len(),
        ensures
            final(self).wf(),
            final(self)@ == after_received(old(self)@, i as int, frame),
            r == handed_out(old(self)@[i as int].addr, frame),
    {
        let (addr, stream) = self.futs.remove(i).finish();
        match frame {
            Ok(Some((payload, meta))) => {
                self.futs.push(next_frame(addr, stream));
                Some(Ok((payload, meta, addr)))
            },
            Ok(None) => None,
            Err(e) => Some(Err(e)),
        }
    }
}

impl<T: RequestType> RecvStreams<T> {
    /// Takes note of what was received on the stream at position `i`, and hands it out as a
    /// request.
    pub fn poll_next_as_request(&mut self, i: usize, frame: Received<T>) -> (r: Option<
        Result<FrameIncoming<Request>, StreamError>,
    >)
        requires
            old(self).wf(),
            i < old(self)@.len(),
        ensures
            final(self).wf(),
            final(self)@ == after_received(old(self)@, i as int, frame),
            r == (match handed_out(old(self)@[i as int].addr, frame) {
                Some(Ok((payload, meta, stream))) => Some(
                    Ok::<FrameIncoming<Request>, StreamError>(
                        FrameIncoming { payload: payload.request(), meta, stream },
                    ),
                ),
                Some(Err(e)) => Some(Err::<FrameIncoming<Request>, StreamError>(e)),
                None => None,
            }),
    {
        match self.poll_next(i, frame) {
            None => None,
            Some(Ok((payload, meta, addr))) => Some(
                Ok(FrameIncoming::new(payload.into_request(), meta, addr)),
            ),
            Some(Err(e)) => Some(Err(e)),
        }
    }
}

impl<T: ResponseType> RecvStreams<T> {
    /// Takes note of what was received on the stream at position `i`, and hands it out as a
    /// response.
    pub fn poll_next_as_response(&mut self, i: usize, frame: Received<T>) -> (r: Option<
        Result<FrameIncoming<Response>, StreamError>,
    >)
        requires
            old(self).wf(),
            i < old(self)@.len(),
        ensures
            final(self).wf(),
            final(self)@ == after_received(old(self)@, i as int, frame),
            r == (match handed_out(old(self)@[i as int].addr, frame) {
                Some(Ok((payload, meta, stream))) => Some(
                    Ok::<FrameIncoming<Response>, StreamError>(
                        FrameIncoming { payload: payload.response(), meta, stream },
                    ),
                ),
                Some(Err(e)) => Some(Err::<FrameIncoming<Response>, StreamError>(e)),
                None => None,
            }),
    {
        match self.poll_next(i, frame) {
            None => None,
            Some(Ok((payload, meta, addr))) => Some(
                Ok(FrameIncoming::new(payload.into_response(), meta, addr)),
            ),
            Some(Err(e)) => Some(Err(e)),
        }
    }
}

/// A stream starts with 0 if it is for control, with 1 if it is for queries, and with 2 if it is
/// for announcements; no other byte stands for a type.
pub proof fn law_stream_types_are_numbered(byte: u8)
    ensures
        type_byte(StreamType::Control) == 0,
        type_byte(StreamType::Query) == 1,
        type_byte(StreamType::Announce) == 2,
        type_of(byte) is Ok <==> byte <= 2,
        type_of(byte) matches Err(e) ==> e == StreamError::InvalidStreamType,
{
}

/// A stream whose type is not supported costs only that stream; every other failure costs the
/// connection.
pub proof fn law_only_unknown_types_are_forgiven(err: StreamError)
    ensures
        failure_of(err) == AcceptFailure::CloseStream <==> err == StreamError::InvalidStreamType,
{
}

/// On a stream a frame takes eight bytes more than its encoding: the first four have the value of
/// its type, the next four that of the length of its encoding, and the encoding follows.
pub proof fn law_frame_layout(frame: FrameValue)
    requires
        sendable(frame),
    ensures
        framed(frame).len() == 8 + Frame::bytes(frame).len(),
        be_value(framed(frame).take(4)) == frame_type(frame),
        be_value(framed(frame).subrange(4, 8)) == Frame::bytes(frame).len(),
        framed(frame).skip(8) == Frame::bytes(frame),
{
    let body = Frame::bytes(frame);
    lemma_be32(frame_type(frame));
    lemma_be32(body.len() as u32);
    assert(framed(frame).take(4) =~= be32(frame_type(frame)));
    assert(framed(frame).subrange(4, 8) =~= be32(body.len() as u32));
    assert(framed(frame).skip(8) =~= body);
}

/// A receiver loses nothing: what it has is left as it is unless it hands out a frame, and then it
/// drops exactly the eight bytes and the payload that this frame takes. A frame is handed out as
/// soon as it is complete, and only if its payload is what its type says. A cancelled receiver
/// hands out nothing.
pub proof fn law_receiver_takes_whole_frames(
    pending: Seq<u8>,
    cancelled: bool,
    r: Result<RecvPoll, StreamError>,
    rest: Seq<u8>,
)
    requires
        receives(pending, cancelled, r, rest),
    ensures
        cancelled ==> r == Ok::<RecvPoll, StreamError>(RecvPoll::Closed),
        !cancelled && (pending.len() < 8 || pending.len() < 8 + be_value(pending.subrange(4, 8)))
            ==> r == Ok::<RecvPoll, StreamError>(RecvPoll::Read),
        match r {
            Ok(RecvPoll::Frame(frame)) => {
                let len = be_value(pending.subrange(4, 8));
                &&& !cancelled
                &&& pending.len() >= 8 + len
                &&& rest == pending.skip(8 + len)
                &&& be_value(pending.take(4)) == frame_type(frame.value())
                &&& Frame::parse(pending.subrange(8, 8 + len)) matches Ok((v, _)) && v
                    == frame.value()
            },
            Ok(RecvPoll::Read) => rest == pending && !cancelled && (pending.len() < 8
                || pending.len() < 8 + be_value(pending.subrange(4, 8))),
            Ok(RecvPoll::Closed) => rest == pending && cancelled,
            Err(StreamError::BadFrame(e)) => {
                let len = be_value(pending.subrange(4, 8));
                &&& rest == pending
                &&& pending.len() >= 8 + len
                &&& match Frame::parse(pending.subrange(8, 8 + len)) {
                    Ok((v, _)) => be_value(pending.take(4)) != frame_type(v) && e
                        == FrameError::InvalidFrameType,
                    Err(cause) => e == FrameError::Malformed(cause),
                }
            },
            Err(_) => false,
        },
{
}

/// A receiver of messages takes the same bytes as a receiver of frames, and makes of each frame
/// what the frame says.
pub proof fn law_messages_come_in_frames<T: FrameType>(
    pending: Seq<u8>,
    cancelled: bool,
    r: Result<MappedPoll<T>, StreamError>,
    rest: Seq<u8>,
    frames: Result<RecvPoll, StreamError>,
    left: Seq<u8>,
)
    requires
        receives_message(pending, cancelled, r, rest),
        receives(pending, cancelled, frames, left),
    ensures
        rest == left,
        match frames {
            Ok(RecvPoll::Frame(frame)) => match r {
                Ok(MappedPoll::Message(message, meta)) => reads_value(
                    frame.value(),
                    frame_verdict(frame.value()),
                    Ok::<(T, FrameMeta), FrameError>((message, meta)),
                ),
                Err(StreamError::BadFrame(e)) => reads_value(
                    frame.value(),
                    frame_verdict(frame.value()),
                    Err::<(T, FrameMeta), FrameError>(e),
                ),
                _ => false,
            },
            Ok(RecvPoll::Read) => r == Ok::<MappedPoll<T>, StreamError>(MappedPoll::Read),
            Ok(RecvPoll::Closed) => r == Ok::<MappedPoll<T>, StreamError>(MappedPoll::Closed),
            Err(e) => r == Err::<MappedPoll<T>, StreamError>(e),
        },
{
}

/// A sender that was not cancelled starts every frame that it is given, and has exactly the bytes
/// of that frame to write; a cancelled one starts none. Either way it stays the stream that it is.
pub proof fn law_sender_starts_what_it_is_given(
    before: FrameSendStream,
    frame: FrameValue,
    r: Result<(), StreamError>,
    after: FrameSendStream,
)
    requires
        sendable(frame),
        starts(before, frame, r, after),
    ensures
        r is Ok <==> !before.is_cancelled(),
        r is Ok ==> after.unsent().len() == 8 + Frame::bytes(frame).len() && after.unsent().skip(8)
            == Frame::bytes(frame) && !after.is_cancelled(),
        r matches Err(e) ==> e == StreamError::StreamClosed && after == before,
        after.address() == before.address(),
        after.stream_type() == before.stream_type(),
{
    law_frame_layout(frame);
}

/// A stream that a message came on is awaited again behind all others; one that ended or failed is
/// not awaited any more. All others stay, in their order.
pub proof fn law_other_streams_stay_awaited<T>(
    futs: Seq<NextFrame<T>>,
    i: int,
    frame: Received<T>,
)
    requires
        0 <= i < futs.len(),
    ensures
        ({
            let after = after_received(futs, i, frame);
            let goes_on = frame is Ok && frame->Ok_0 is Some;
            &&& after.len() == (if goes_on {
                futs.len() as int
            } else {
                futs.len() - 1
            })
            &&& after.take(i) == futs.take(i)
            &&& after.subrange(i, futs.len() - 1) == futs.skip(i + 1)
            &&& goes_on ==> after[futs.len() - 1] == futs[i]
        }),
{
    let after = after_received(futs, i, frame);
    assert(after.take(i) =~= futs.take(i));
    assert(after.subrange(i, futs.len() - 1) =~= futs.skip(i + 1));
}

/// What came on a stream is handed out unchanged, with the address of that stream; of a stream that
/// ended, nothing is.
pub proof fn law_received_is_handed_out<T>(addr: StreamAddr, frame: Received<T>)
    ensures
        match handed_out(addr, frame) {
            Some(Ok((payload, meta, stream))) => frame == Ok::<Option<(T, FrameMeta)>, StreamError>(
                Some((payload, meta)),
            ) && stream == addr,
            Some(Err(e)) => frame == Err::<Option<(T, FrameMeta)>, StreamError>(e),
            None => frame == Ok::<Option<(T, FrameMeta)>, StreamError>(None),
        },
{
}

/// A stream that this side opens states its type first, and nothing was sent on it before.
pub proof fn law_opened_stream_states_its_type(send: FrameSendStream, typ: StreamType)
    requires
        opening_sender(send, typ),
    ensures
        send.unsent().len() == 1,
        type_of(send.unsent()[0]) == Ok::<StreamType, StreamError>(typ),
        send.stream_type() == typ,
        send.at_header(),
        !send.is_cancelled(),
        send.wf(),
{
}

/// On a stream that was just accepted nothing has come and nothing is left to write, and both of
/// its halves have its address.
pub proof fn law_accepted_stream_is_untouched(stream: AcceptStream)
    requires
        stream.untouched(),
    ensures
        match stream {
            AcceptStream::Control(recv) => stream.kind() == StreamType::Control && stream.address()
                == recv.address() && recv.pending().len() == 0,
            AcceptStream::Announce((send, recv)) => {
                &&& stream.kind() == StreamType::Announce
                &&& stream.address() == recv.address()
                &&& send.address() == recv.address()
                &&& recv.pending().len() == 0
                &&& send.wf()
                &&& send.unsent().len() == 0
                &&& !send.is_cancelled()
                &&& send.stream_type() == StreamType::Announce
            },
            AcceptStream::Query((send, recv)) => {
                &&& stream.kind() == StreamType::Query
                &&& stream.address() == recv.address()
                &&& send.address() == recv.address()
                &&& recv.pending().len() == 0
                &&& send.wf()
                &&& send.unsent().len() == 0
                &&& !send.is_cancelled()
                &&& send.stream_type() == StreamType::Query
            },
        },
{
    match stream {
        AcceptStream::Control(_) => {},
        AcceptStream::Announce((send, _)) => {
            send.lemma_ready();
        },
        AcceptStream::Query((send, _)) => {
            send.lemma_ready();
        },
    }
}

/// A stream is accepted exactly if it starts with the byte of a type that goes its way: 0 one way,
/// 1 and 2 both ways. It then is a stream of that type, at its own address, and nothing has come on
/// it. Any other is refused for its type.
pub proof fn law_streams_are_accepted_by_their_type(
    conn_id: ConnId,
    stream_id: StreamId,
    typ: u8,
    both_ways: bool,
    r: Result<AcceptStream, StreamError>,
)
    requires
        accepted_as(conn_id, stream_id, typ, both_ways, r),
    ensures
        r is Ok <==> (if both_ways {
            typ == 1 || typ == 2
        } else {
            typ == 0
        }),
        match r {
            Ok(AcceptStream::Control(recv)) => typ == 0 && recv.address() == (StreamAddr {
                conn_id,
                stream_id,
            }) && recv.pending().len() == 0,
            Ok(AcceptStream::Query((send, recv))) => {
                &&& typ == 1
                &&& recv.address() == (StreamAddr { conn_id, stream_id })
                &&& send.address() == (StreamAddr { conn_id, stream_id })
                &&& recv.pending().len() == 0
                &&& send.unsent().len() == 0
                &&& send.stream_type() == StreamType::Query
            },
            Ok(AcceptStream::Announce((send, recv))) => {
                &&& typ == 2
                &&& recv.address() == (StreamAddr { conn_id, stream_id })
                &&& send.address() == (StreamAddr { conn_id, stream_id })
                &&& recv.pending().len() == 0
                &&& send.unsent().len() == 0
                &&& send.stream_type() == StreamType::Announce
            },
            Err(e) => e == StreamError::InvalidStreamType,
        },
{
    if let Ok(stream) = r {
        law_accepted_stream_is_untouched(stream);
    }
}

/// A stream that this side opens is accepted by the other side as a stream of the same type: the
/// first byte that is sent on it says so.
pub proof fn law_opened_streams_are_accepted(
    conn_id: ConnId,
    stream_id: StreamId,
    typ: StreamType,
    stream: OpenStream,
    their_conn_id: ConnId,
    r: Result<AcceptStream, StreamError>,
)
    requires
        opened_as(conn_id, stream_id, typ, stream),
        match stream {
            OpenStream::Control(send) => accepted_as(
                their_conn_id,
                stream_id,
                send.unsent()[0],
                false,
                r,
            ),
            OpenStream::Announce((send, _)) => accepted_as(
                their_conn_id,
                stream_id,
                send.unsent()[0],
                true,
                r,
            ),
            OpenStream::Query((send, _)) => accepted_as(
                their_conn_id,
                stream_id,
                send.unsent()[0],
                true,
                r,
            ),
        },
    ensures
        r is Ok,
        typ == StreamType::Control <==> r->Ok_0 is Control,
        typ == StreamType::Announce <==> r->Ok_0 is Announce,
        typ == StreamType::Query <==> r->Ok_0 is Query,
        match stream {
            OpenStream::Control(send) => send.unsent().len() == 1 && send.address() == (StreamAddr {
                conn_id,
                stream_id,
            }),
            OpenStream::Announce((send, recv)) => send.unsent().len() == 1 && send.address() == (
            StreamAddr { conn_id, stream_id }) && recv.address() == send.address()
                && recv.pending().len() == 0,
            OpenStream::Query((send, recv)) => send.unsent().len() == 1 && send.address() == (
            StreamAddr { conn_id, stream_id }) && recv.address() == send.address()
                && recv.pending().len() == 0,
        },
{
}

} // verus!

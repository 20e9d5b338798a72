//! What is read from and written to the streams of a connection one by one.

use crate::io::quic::client::query_frame;
use crate::proto::codec::Wire;
use crate::proto::crypto::VerifiedEnvelope;
use crate::proto::data::QueryResponse;
use crate::proto::wire::{
    Announcement, End, Frame, FramePayload, FramePayloadValue, FrameValue, Query, UnsignedFrame,
    UnsignedFrameValue,
};
use crate::proto::FrameError;
use crate::queue::{
    bytes_taken, frame_values, frames_added, law_queued_frames_arrive, lemma_frames_take_bytes,
    outstanding, step_leads, steps_lead, SendStep, Sending,
};
use crate::stream::{
    frames_in, open_query, receives_message, sendable, type_byte, type_of,
    ConnId, FrameSendStream, MappedPoll, MappedRecvStream, Received, SendPoll, StreamAddr,
    StreamError, StreamId, StreamType,
};
use vstd::prelude::*;

verus! {

/// The byte that a stream of some type starts with.
pub fn send_typ(typ: StreamType) -> (r: [u8; 1])
    ensures
        r@ == seq![type_byte(typ)],
{
    let r = [typ.to_u8()];
    assert(r@ =~= seq![type_byte(typ)]);
    r
}

/// The type of a stream that starts with `first`.
pub fn recv_typ(first: u8) -> (r: Result<StreamType, StreamError>)
    ensures
        r == type_of(first),
{
    StreamType::from_u8(first)
}

/// Checks that a stream that starts with `first` is of the expected type.
pub fn recv_typ_exact(first: u8, expected_typ: StreamType) -> (r: Result<(), StreamError>)
    ensures
        r == (if first == type_byte(expected_typ) {
            Ok::<(), StreamError>(())
        } else {
            Err::<(), StreamError>(StreamError::InvalidStreamType)
        }),
{
    let typ = match recv_typ(first) {
        Ok(typ) => typ,
        Err(e) => return Err(e),
    };
    if typ != expected_typ {
        return Err(StreamError::InvalidStreamType);
    }
    Ok(())
}

/// Whether `r` is the next announcement on a query stream on which `received` came.
pub open spec fn finds_announcement(
    received: Received<QueryResponse>,
    r: Result<Option<VerifiedEnvelope<Announcement>>, StreamError>,
) -> bool {
    match received {
        Err(e) => r matches Err(cause) && cause == e,
        Ok(None) => r matches Ok(None),
        Ok(Some((QueryResponse::End(_), _))) => r matches Ok(None),
        Ok(Some((QueryResponse::Error(_), _))) => r matches Err(cause) && cause
            == StreamError::BadFrame(FrameError::InvalidFrameType),
        Ok(Some((QueryResponse::Announce(payload), meta))) => match meta.authorization {
            Some(who) => r matches Ok(Some(found)) && found.payload == payload && found.issuer
                == who.issuer && found.seal == who.seal,
            None => r matches Err(cause) && cause == StreamError::BadFrame(
                FrameError::InvalidFrameType,
            ),
        },
    }
}

/// The next announcement on a query stream, out of what was received on it: none, if the stream or
/// the query ended. An announcement that nobody signed is refused, and so is any other message.
pub fn next_announcement(received: Received<QueryResponse>) -> (r: Result<
    Option<VerifiedEnvelope<Announcement>>,
    StreamError,
>)
    ensures
        r == (match received {
            Err(e) => Err::<Option<VerifiedEnvelope<Announcement>>, StreamError>(e),
            Ok(None) => Ok::<Option<VerifiedEnvelope<Announcement>>, StreamError>(None),
            Ok(Some((QueryResponse::End(_), _))) => Ok::<
                Option<VerifiedEnvelope<Announcement>>,
                StreamError,
            >(None),
            Ok(Some((QueryResponse::Error(_), _))) => Err::<
                Option<VerifiedEnvelope<Announcement>>,
                StreamError,
            >(StreamError::BadFrame(FrameError::InvalidFrameType)),
            Ok(Some((QueryResponse::Announce(payload), meta))) => match meta.authorization {
                Some(who) => Ok::<Option<VerifiedEnvelope<Announcement>>, StreamError>(
                    Some(VerifiedEnvelope { issuer: who.issuer, payload, seal: who.seal }),
                ),
                None => Err::<Option<VerifiedEnvelope<Announcement>>, StreamError>(
                    StreamError::BadFrame(FrameError::InvalidFrameType),
                ),
            },
        }),
        finds_announcement(received, r),
{
    match received {
        Err(e) => Err(e),
        Ok(None) => Ok(None),
        Ok(Some((QueryResponse::End(_), _))) => Ok(None),
        Ok(Some((QueryResponse::Error(_), _))) => Err(
            StreamError::BadFrame(FrameError::InvalidFrameType),
        ),
        Ok(Some((QueryResponse::Announce(payload), meta))) => match meta.authorization {
            Some(who) => Ok(Some(VerifiedEnvelope::new(payload, who.issuer, who.seal))),
            None => Err(StreamError::BadFrame(FrameError::InvalidFrameType)),
        },
    }
}

/// The frame that ends a query.
pub open spec fn end_value() -> FrameValue {
    FrameValue {
        rid: None,
        payload: FramePayloadValue::Unsigned(UnsignedFrameValue::End(End {  })),
    }
}

/// The frame that ends a query.
pub fn end_frame() -> (r: Frame)
    ensures
        r.value() == end_value(),
{
    let r = Frame { rid: None, payload: FramePayload::Unsigned(UnsignedFrame::End(End {  })) };
    assert(r.rid.value() == None::<u64>);
    r
}

/// Whether `after` is `before` with the query cancelled.
pub open spec fn cancels(before: QueryStream, after: QueryStream) -> bool {
    &&& after.is_cancelled()
    &&& after.address() == before.address()
    &&& after.pending() == before.pending()
    &&& after.sending().stream == before.sending().stream
    &&& after.sending().queue == (if before.is_cancelled() {
        before.sending().queue
    } else {
        before.sending().queue.push(end_value())
    })
}

/// Whether `r` is a query that was just opened.
pub open spec fn opens_query(
    conn_id: ConnId,
    stream_id: StreamId,
    query: Query,
    r: QueryStream,
) -> bool {
    &&& r.address() == (StreamAddr { conn_id, stream_id })
    &&& r.sending().stream.unsent() == seq![type_byte(StreamType::Query)]
    &&& r.sending().queue == seq![
        FrameValue {
            rid: None,
            payload: FramePayloadValue::Unsigned(UnsignedFrameValue::Query(query.value())),
        },
    ]
    &&& r.pending().len() == 0
    &&& !r.is_cancelled()
}

/// What the client does with a query stream next.
#[derive(Clone, Copy, Debug, PartialEq, Eq, Structural)]
pub enum QueryPoll {
    /// Writes to the transport what the stream has to write.
    Write,
    /// Nothing: all is sent.
    Wait,
    /// Closes both sides of the stream: all is sent, and the query was cancelled.
    Close,
}

/// A query of a client, on a stream of its own.
pub struct QueryStream {
    send: FrameSendStream,
    recv: MappedRecvStream<QueryResponse>,
    waiting: Vec<Frame>,
    cancelled: bool,
}

impl QueryStream {
    /// The sending half, with the frames that wait to be sent on it.
    pub closed spec fn sending(&self) -> Sending {
        Sending { stream: self.send, queue: frame_values(self.waiting@) }
    }

    /// What arrived and was not handed out yet.
    pub closed spec fn pending(&self) -> Seq<u8> {
        self.recv.pending()
    }

    /// Whether the query was cancelled.
    pub closed spec fn is_cancelled(&self) -> bool {
        self.cancelled
    }

    /// The address of the stream.
    pub closed spec fn address(&self) -> StreamAddr {
        self.recv.address()
    }

    /// Whether the sending half is well-formed and was not closed.
    pub closed spec fn wf(&self) -> bool {
        self.send.wf() && !self.send.is_cancelled()
    }

    /// Opens a query on the stream of that number: the stream starts with its type, and the query
    /// comes first.
    pub fn new(conn_id: ConnId, stream_id: StreamId, query: Query) -> (r: Self)
        ensures
            r.wf(),
            r.address() == (StreamAddr { conn_id, stream_id }),
            r.sending().stream.unsent() == seq![type_byte(StreamType::Query)],
            r.sending().queue == seq![
                FrameValue {
                    rid: None,
                    payload: FramePayloadValue::Unsigned(UnsignedFrameValue::Query(query.value())),
                },
            ],
            r.pending().len() == 0,
            !r.is_cancelled(),
            opens_query(conn_id, stream_id, query, r),
    {
        let (send, recv) = open_query(conn_id, stream_id);
        let mut waiting: Vec<Frame> = Vec::new();
        let frame = query_frame(query);
        waiting.push(frame);
        assert(frame_values(waiting@) =~= seq![frame.value()]);
        QueryStream { send, recv, waiting, cancelled: false }
    }

    /// Cancels the query: its end is sent behind what waits, and then both sides are closed.
    /// Cancelling once more changes nothing.
    pub fn cancel(&mut self)
        requires
            old(self).wf(),
        ensures
            final(self).wf(),
            final(self).address() == old(self).address(),
            final(self).pending() == old(self).pending(),
            final(self).is_cancelled(),
            final(self).sending().stream == old(self).sending().stream,
            final(self).sending().queue == (if old(self).is_cancelled() {
                old(self).sending().queue
            } else {
                old(self).sending().queue.push(end_value())
            }),
            cancels(*old(self), *final(self)),
    {
        if self.cancelled {
            return ;
        }
        let ghost before = self.waiting@;
        let end = end_frame();
        self.waiting.push(end);
        self.cancelled = true;
        assert(frame_values(self.waiting@) =~= frame_values(before).push(end.value()));
    }

    /// Decides what is done next. If nothing is left to write, the next frame that waits is
    /// started.
    pub fn poll_send(&mut self) -> (r: QueryPoll)
        requires
            old(self).wf(),
        ensures
            final(self).wf(),
            final(self).address() == old(self).address(),
            final(self).pending() == old(self).pending(),
            final(self).is_cancelled() == old(self).is_cancelled(),
            step_leads(old(self).sending(), SendStep::Polled, final(self).sending()),
            r == (if outstanding(old(self).sending()).len() > 0 {
                QueryPoll::Write
            } else if old(self).is_cancelled() {
                QueryPoll::Close
            } else {
                QueryPoll::Wait
            }),
    {
        let ghost before = *self;
        proof {
            self.send.lemma_ready();
            lemma_frames_take_bytes(frame_values(self.waiting@));
        }
        match self.send.poll_send(false) {
            SendPoll::Write => QueryPoll::Write,
            SendPoll::Ready => {
                if self.waiting.len() == 0 {
                    proof {
                        self.send.lemma_ready();
                    }
                    if self.cancelled {
                        return QueryPoll::Close;
                    }
                    return QueryPoll::Wait;
                }
                proof {
                    self.send.lemma_ready();
                }
                let frame = self.waiting.remove(0);
                let started = self.send.start_send(&frame);
                proof {
                    assert(started is Ok);
                    assert(frame_values(self.waiting@) =~= frame_values(
                        before.waiting@,
                    ).drop_first());
                }
                QueryPoll::Write
            },
        }
    }

    /// What has to be written next.
    pub fn to_write(&self) -> (r: &[u8])
        ensures
            r@ == self.sending().stream.unsent(),
    {
        self.send.to_write()
    }

    /// Notes that the transport took the first `n` bytes. The stream type has to be taken whole.
    pub fn wrote(&mut self, n: usize) -> (r: Result<(), StreamError>)
        requires
            old(self).wf(),
            0 < old(self).sending().stream.unsent().len(),
            n <= old(self).sending().stream.unsent().len(),
        ensures
            final(self).wf(),
            final(self).address() == old(self).address(),
            final(self).pending() == old(self).pending(),
            final(self).is_cancelled() == old(self).is_cancelled(),
            step_leads(old(self).sending(), SendStep::Took(n as nat), final(self).sending()),
            r == (if old(self).sending().stream.at_header() && n != 1 {
                Err::<(), StreamError>(StreamError::FailedToWriteHeader)
            } else {
                Ok::<(), StreamError>(())
            }),
    {
        proof {
            self.send.lemma_ready();
        }
        self.send.wrote(n)
    }

    /// Takes in what was read from the transport. Nothing is read only where the stream has
    /// ended, and then the result is false.
    pub fn read(&mut self, chunk: &[u8]) -> (r: bool)
        requires
            old(self).wf(),
        ensures
            final(self).wf(),
            final(self).address() == old(self).address(),
            final(self).sending() == old(self).sending(),
            final(self).is_cancelled() == old(self).is_cancelled(),
            final(self).pending() == old(self).pending() + chunk@,
            r == (chunk@.len() > 0),
    {
        self.recv.read(chunk)
    }

    /// Decides what is done with what arrived: hands out the next reply if its frame is complete,
    /// unless the query was cancelled.
    pub fn poll_recv(&mut self) -> (r: Result<MappedPoll<QueryResponse>, StreamError>)
        requires
            old(self).wf(),
        ensures
            final(self).wf(),
            final(self).address() == old(self).address(),
            final(self).sending() == old(self).sending(),
            final(self).is_cancelled() == old(self).is_cancelled(),
            receives_message(
                old(self).pending(),
                old(self).is_cancelled(),
                r,
                final(self).pending(),
            ),
    {
        self.recv.poll_recv(self.cancelled)
    }
}

/// A connection of a client, on which it queries.
#[derive(Clone, Copy, Debug)]
pub struct ClientSession {
    pub conn_id: ConnId,
}

impl ClientSession {
    /// Opens a query on the stream of that number.
    pub fn query(&self, stream_id: StreamId, query: Query) -> (r: QueryStream)
        ensures
            r.wf(),
            r.address() == (StreamAddr { conn_id: self.conn_id, stream_id }),
            r.sending().stream.unsent() == seq![type_byte(StreamType::Query)],
            r.sending().queue == seq![
                FrameValue {
                    rid: None,
                    payload: FramePayloadValue::Unsigned(UnsignedFrameValue::Query(query.value())),
                },
            ],
            r.pending().len() == 0,
            !r.is_cancelled(),
            opens_query(self.conn_id, stream_id, query, r),
    {
        QueryStream::new(self.conn_id, stream_id, query)
    }
}

/// A query that is cancelled sends its end last: once all is written, the server has the query and
/// its end, and nothing else.
pub proof fn law_cancelled_query_sends_its_end(
    states: Seq<Sending>,
    steps: Seq<SendStep>,
    query: FrameValue,
)
    requires
        steps_lead(states, steps),
        states[0].stream.unsent().len() == 0,
        states[0].queue == seq![query],
        frames_added(steps) == seq![end_value()],
        outstanding(states.last()).len() == 0,
        sendable(query),
    ensures
        frames_in(bytes_taken(states, steps)) == seq![query, end_value()],
{
    crate::stream::lemma_end_is_sendable();
    assert(states[0].queue + frames_added(steps) =~= seq![query, end_value()]);
    law_queued_frames_arrive(states, steps);
}

/// The frame that ends a query is an `END` frame without a number.
pub proof fn law_query_end_is_an_end_frame()
    ensures
        end_value().rid is None,
        end_value().payload matches FramePayloadValue::Unsigned(UnsignedFrameValue::End(_)),
{
}

/// An announcement is handed out as it came, with the key and the seal of whoever signed it, and not
/// at all if nobody did. Nothing is handed out of the end of a stream or of a query, and every
/// failure is handed on.
pub proof fn law_announcements_come_with_their_signer(
    received: Received<QueryResponse>,
    r: Result<Option<VerifiedEnvelope<Announcement>>, StreamError>,
)
    requires
        finds_announcement(received, r),
    ensures
        r matches Ok(Some(found)) ==> (received matches Ok(Some((reply, meta))) && (
        reply matches QueryResponse::Announce(payload) && payload == found.payload) && (
        meta.authorization matches Some(who) && who.issuer == found.issuer && who.seal
            == found.seal)),
        received matches Ok(Some((reply, meta))) ==> (reply is Announce && meta.authorization is Some
            ==> r is Ok && r->Ok_0 is Some),
        r matches Ok(None) ==> (received matches Ok(None)) || (received matches Ok(Some((reply, _)))
            && reply is End),
        received matches Err(e) ==> (r matches Err(cause) && cause == e),
        received matches Ok(Some((reply, meta))) ==> (reply is Error || (reply is Announce
            && meta.authorization is None) ==> r is Err),
{
}

/// Cancelling a query queues its end behind all that waits, once: cancelling again queues nothing.
pub proof fn law_query_is_cancelled_once(
    before: QueryStream,
    cancelled: QueryStream,
    again: QueryStream,
)
    requires
        !before.is_cancelled(),
        cancels(before, cancelled),
        cancels(cancelled, again),
    ensures
        cancelled.is_cancelled(),
        cancelled.address() == before.address(),
        cancelled.pending() == before.pending(),
        cancelled.sending().stream == before.sending().stream,
        cancelled.sending().queue.drop_last() == before.sending().queue,
        cancelled.sending().queue.last() == (FrameValue {
            rid: None,
            payload: FramePayloadValue::Unsigned(UnsignedFrameValue::End(End {  })),
        }),
        again.is_cancelled(),
        again.sending() == cancelled.sending(),
{
    assert(cancelled.sending().queue.drop_last() =~= before.sending().queue);
}

/// A query stream starts with the byte of its type, and then the query as it was asked.
pub proof fn law_query_is_sent_first(
    conn_id: ConnId,
    stream_id: StreamId,
    query: Query,
    r: QueryStream,
)
    requires
        opens_query(conn_id, stream_id, query, r),
    ensures
        r.address().conn_id == conn_id,
        r.address().stream_id == stream_id,
        r.sending().stream.unsent().len() == 1,
        r.sending().stream.unsent()[0] == 1,
        r.sending().queue.len() == 1,
        r.sending().queue[0].rid is None,
        r.sending().queue[0].payload matches FramePayloadValue::Unsigned(
            UnsignedFrameValue::Query(asked),
        ) && asked == query.value(),
        r.pending().len() == 0,
        !r.is_cancelled(),
{
}

} // verus!

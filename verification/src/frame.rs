//! One connection with its bidirectional streams, as a source and sink of frames.

use crate::ordmap::{be_value, OrdMap};
use crate::proto::codec::Wire;
use crate::proto::wire::Frame;
use crate::stream::{
    law_frame_layout, law_receiver_takes_whole_frames, receives, sendable, starts, ConnId,
    FrameBiStream, FrameRecvStream, FrameSendStream, RecvPoll, SendPoll,
    StreamAddr, StreamError, StreamId, StreamType,
};
use vstd::prelude::*;

pub mod conn;

verus! {

/// A frame and the stream that it came on or goes to.
pub struct StreamFrame {
    pub addr: StreamAddr,
    pub frame: Frame,
}

impl From<(StreamAddr, Frame)> for StreamFrame {
    fn from(v: (StreamAddr, Frame)) -> (r: StreamFrame) {
        StreamFrame { addr: v.0, frame: v.1 }
    }
}

impl vstd::std_specs::convert::FromSpecImpl<(StreamAddr, Frame)> for StreamFrame {
    open spec fn obeys_from_spec() -> bool {
        true
    }

    open spec fn from_spec(v: (StreamAddr, Frame)) -> StreamFrame {
        StreamFrame { addr: v.0, frame: v.1 }
    }
}

/// What happens to a connection.
pub enum FrameEvent {
    /// The other side opened a stream of some type; none means that it will open no more.
    Accepted(Option<(StreamId, StreamType)>),
    /// A stream is to be looked at for a frame; the flag says whether there is room for one.
    Look(StreamAddr, bool),
}

/// What a connection does next.
pub enum FrameStep {
    /// Waits for the next event.
    Wait,
    /// Hands out a frame, and looks at the same stream again.
    Emit(StreamFrame),
    /// Reads from the transport of the stream.
    Read,
}

/// A connection with its bidirectional streams.
pub struct ConnActor {
    pub conn_id: ConnId,
    pub bistreams: OrdMap<StreamAddr, FrameBiStream>,
}

/// Whether a stream of some type was just accepted at `addr`.
pub open spec fn just_accepted(stream: FrameBiStream, addr: StreamAddr, typ: StreamType) -> bool {
    &&& stream.0.wf()
    &&& stream.0.address() == addr
    &&& stream.0.stream_type() == typ
    &&& stream.0.ready()
    &&& !stream.0.is_cancelled()
    &&& stream.1.address() == addr
    &&& stream.1.pending() == Seq::<u8>::empty()
}

impl ConnActor {
    /// Whether the sending halves of the streams are well-formed.
    pub open spec fn wf(&self) -> bool {
        &&& self.bistreams.wf()
        &&& forall|a: StreamAddr| #[trigger]
            self.bistreams@.dom().contains(a) ==> self.bistreams@[a].0.wf()
    }

    /// A connection without streams.
    pub fn new(conn_id: ConnId) -> (r: Self)
        ensures
            r.wf(),
            r.conn_id == conn_id,
            r.bistreams@ == Map::<StreamAddr, FrameBiStream>::empty(),
    {
        ConnActor { conn_id, bistreams: OrdMap::new() }
    }

    /// The address of a stream of this connection.
    pub fn stream_addr(&self, stream_id: StreamId) -> (r: StreamAddr)
        ensures
            r == (StreamAddr { conn_id: self.conn_id, stream_id }),
    {
        StreamAddr { conn_id: self.conn_id, stream_id }
    }

    /// Handles an event. A stream that the other side opened is added. A stream with a complete
    /// frame hands it out, if there is room for it.
    pub fn poll_next(&mut self, event: FrameEvent) -> (r: Result<FrameStep, StreamError>)
        requires
            old(self).wf(),
            event matches FrameEvent::Look(addr, _) ==> old(self).bistreams@.dom().contains(addr),
        ensures
            final(self).wf(),
            final(self).conn_id == old(self).conn_id,
            handles(*old(self), event, r, *final(self)),
    {
        let ghost before = *self;
        match event {
            FrameEvent::Accepted(None) => Ok(FrameStep::Wait),
            FrameEvent::Accepted(Some((stream_id, typ))) => {
                let addr = self.stream_addr(stream_id);
                let send = FrameSendStream::new(self.conn_id, stream_id, typ, false);
                let recv = FrameRecvStream::new(self.conn_id, stream_id);
                self.bistreams.insert(addr, (send, recv));
                Ok(FrameStep::Wait)
            },
            FrameEvent::Look(addr, room) => {
                if !room {
                    return Ok(FrameStep::Wait);
                }
                let (send, mut recv) = match self.bistreams.remove(&addr) {
                    Some(stream) => stream,
                    None => return Ok(FrameStep::Wait),
                };
                let polled = recv.poll_recv(false);
                self.bistreams.insert(addr, (send, recv));
                assert(self.bistreams@ =~= before.bistreams@.insert(addr, (send, recv)));
                match polled {
                    Ok(RecvPoll::Frame(frame)) => Ok(
                        FrameStep::Emit(StreamFrame::from((addr, frame))),
                    ),
                    Ok(RecvPoll::Read) => Ok(FrameStep::Read),
                    Ok(RecvPoll::Closed) => Ok(FrameStep::Wait),
                    Err(e) => Err(e),
                }
            },
        }
    }

    /// Decides what is done with the sending half of a stream next. A stream that is cancelled has
    /// nothing to write any more.
    pub fn poll_send(&mut self, addr: &StreamAddr, cancelled: bool) -> (r: SendPoll)
        requires
            old(self).wf(),
            old(self).bistreams@.dom().contains(*addr),
        ensures
            final(self).wf(),
            final(self).conn_id == old(self).conn_id,
            ({
                let before = old(self).bistreams@[*addr];
                let after = final(self).bistreams@[*addr];
                &&& final(self).bistreams@ == old(self).bistreams@.insert(*addr, after)
                &&& after.1 == before.1
                &&& after.0.same_stream(before.0)
                &&& after.0.unsent() == before.0.unsent()
                &&& after.0.at_header() == before.0.at_header()
                &&& after.0.is_cancelled() == (before.0.is_cancelled() || cancelled)
                &&& r == (if cancelled || before.0.ready() {
                    SendPoll::Ready
                } else {
                    SendPoll::Write
                })
            }),
            writes_on(*old(self), *addr, 0, *final(self)),
    {
        let ghost before = *self;
        let (mut send, recv) = match self.bistreams.remove(addr) {
            Some(stream) => stream,
            None => return SendPoll::Ready,
        };
        let r = send.poll_send(cancelled);
        assert(send.unsent() =~= send.unsent().skip(0));
        self.bistreams.insert(*addr, (send, recv));
        assert(self.bistreams@ =~= before.bistreams@.insert(*addr, (send, recv)));
        r
    }

    /// What has to be written on a stream before its next frame can be sent; none if there is no
    /// such stream.
    pub fn to_write(&self, addr: &StreamAddr) -> (r: Option<&[u8]>)
        requires
            self.wf(),
        ensures
            match r {
                Some(bytes) => self.bistreams@.dom().contains(*addr) && bytes@
                    == self.bistreams@[*addr].0.unsent(),
                None => !self.bistreams@.dom().contains(*addr),
            },
    {
        match self.bistreams.get(addr) {
            Some(stream) => Some(stream.0.to_write()),
            None => None,
        }
    }

    /// Notes that the transport took the first `n` bytes that a stream had to write. The stream
    /// type has to be taken whole.
    pub fn wrote(&mut self, addr: &StreamAddr, n: usize) -> (r: Result<(), StreamError>)
        requires
            old(self).wf(),
            old(self).bistreams@.dom().contains(*addr),
            !old(self).bistreams@[*addr].0.ready(),
            n <= old(self).bistreams@[*addr].0.unsent().len(),
        ensures
            final(self).wf(),
            final(self).conn_id == old(self).conn_id,
            ({
                let before = old(self).bistreams@[*addr];
                let after = final(self).bistreams@[*addr];
                &&& final(self).bistreams@ == old(self).bistreams@.insert(*addr, after)
                &&& after.1 == before.1
                &&& after.0.same_stream(before.0)
                &&& after.0.is_cancelled() == before.0.is_cancelled()
                &&& after.0.unsent() == before.0.unsent().skip(n as int)
                &&& after.0.at_header() == (before.0.at_header() && n != 1)
                &&& r == (if before.0.at_header() && n != 1 {
                    Err::<(), StreamError>(StreamError::FailedToWriteHeader)
                } else {
                    Ok::<(), StreamError>(())
                })
            }),
            writes_on(*old(self), *addr, n as nat, *final(self)),
    {
        let ghost before = *self;
        let (mut send, recv) = match self.bistreams.remove(addr) {
            Some(stream) => stream,
            None => return Ok(()),
        };
        let r = send.wrote(n);
        self.bistreams.insert(*addr, (send, recv));
        assert(self.bistreams@ =~= before.bistreams@.insert(*addr, (send, recv)));
        r
    }

    /// Starts to send a frame on its stream. A frame for which there is no stream, or whose stream
    /// cannot send it now, is given back.
    pub fn try_send_frame(&mut self, frame: StreamFrame) -> (r: Option<StreamFrame>)
        requires
            old(self).wf(),
        ensures
            final(self).wf(),
            final(self).conn_id == old(self).conn_id,
            tries(*old(self), frame, r, *final(self)),
    {
        let ghost before = *self;
        let addr = frame.addr;
        let (mut send, recv) = match self.bistreams.remove(&addr) {
            Some(stream) => stream,
            None => {
                return Some(frame);
            },
        };
        let r = if !send.is_ready() {
            Some(frame)
        } else {
            match send.start_send(&frame.frame) {
                Ok(()) => None,
                Err(_) => Some(frame),
            }
        };
        self.bistreams.insert(addr, (send, recv));
        assert(self.bistreams@ =~= before.bistreams@.insert(addr, (send, recv)));
        assert(r is Some ==> self.bistreams@ =~= before.bistreams@);
        r
    }
}

/// Whether `after` is `before` with nothing changed but the sending half of one stream, of which the
/// transport took `n` bytes.
pub open spec fn writes_on(before: ConnActor, addr: StreamAddr, n: nat, after: ConnActor) -> bool {
    let stream = after.bistreams@[addr];
    &&& after.conn_id == before.conn_id
    &&& after.bistreams@ == before.bistreams@.insert(addr, stream)
    &&& stream.1 == before.bistreams@[addr].1
    &&& stream.0.same_stream(before.bistreams@[addr].0)
    &&& stream.0.unsent() == before.bistreams@[addr].0.unsent().skip(n as int)
}

/// Whether `r` is what a connection does after an event, and `after` the connection afterwards.
pub open spec fn handles(
    before: ConnActor,
    event: FrameEvent,
    r: Result<FrameStep, StreamError>,
    after: ConnActor,
) -> bool {
    match event {
        FrameEvent::Accepted(None) => {
            r == Ok::<FrameStep, StreamError>(FrameStep::Wait) && after == before
        },
        FrameEvent::Accepted(Some((stream_id, typ))) => {
            let addr = StreamAddr { conn_id: before.conn_id, stream_id };
            &&& r == Ok::<FrameStep, StreamError>(FrameStep::Wait)
            &&& after.bistreams@ == before.bistreams@.insert(addr, after.bistreams@[addr])
            &&& just_accepted(after.bistreams@[addr], addr, typ)
        },
        FrameEvent::Look(addr, room) => if !room {
            r == Ok::<FrameStep, StreamError>(FrameStep::Wait) && after == before
        } else {
            let recv = before.bistreams@[addr].1;
            let left = after.bistreams@[addr].1;
            &&& after.bistreams@ == before.bistreams@.insert(addr, after.bistreams@[addr])
            &&& after.bistreams@[addr].0 == before.bistreams@[addr].0
            &&& left.address() == recv.address()
            &&& match r {
                Ok(FrameStep::Emit(out)) => out.addr == addr && receives(
                    recv.pending(),
                    false,
                    Ok(RecvPoll::Frame(out.frame)),
                    left.pending(),
                ),
                Ok(FrameStep::Read) => receives(
                    recv.pending(),
                    false,
                    Ok(RecvPoll::Read),
                    left.pending(),
                ),
                Ok(FrameStep::Wait) => false,
                Err(e) => receives(recv.pending(), false, Err(e), left.pending()),
            }
        },
    }
}

/// Whether `r` is what comes of trying to send a frame, and `after` the connection afterwards.
pub open spec fn tries(
    before: ConnActor,
    frame: StreamFrame,
    r: Option<StreamFrame>,
    after: ConnActor,
) -> bool {
    let addr = frame.addr;
    let stream = before.bistreams@[addr];
    if !before.bistreams@.dom().contains(addr) {
        r == Some(frame) && after == before
    } else if !stream.0.ready() || stream.0.is_cancelled() {
        r == Some(frame) && after.bistreams@ == before.bistreams@
    } else {
        &&& r is None
        &&& after.bistreams@ == before.bistreams@.insert(addr, after.bistreams@[addr])
        &&& after.bistreams@[addr].1 == stream.1
        &&& starts(stream.0, frame.frame.value(), Ok(()), after.bistreams@[addr].0)
    }
}

/// A stream that the other side opens is added with nothing received and nothing to write; all
/// other streams stay as they are. When no more will be opened, nothing changes.
pub proof fn law_accepted_stream_is_added(
    before: ConnActor,
    stream_id: StreamId,
    typ: StreamType,
    r: Result<FrameStep, StreamError>,
    after: ConnActor,
    other: StreamAddr,
    last: ConnActor,
    end: Result<FrameStep, StreamError>,
)
    requires
        handles(before, FrameEvent::Accepted(Some((stream_id, typ))), r, after),
        handles(before, FrameEvent::Accepted(None), end, last),
        other != (StreamAddr { conn_id: before.conn_id, stream_id }),
    ensures
        r == Ok::<FrameStep, StreamError>(FrameStep::Wait),
        ({
            let addr = StreamAddr { conn_id: before.conn_id, stream_id };
            let (send, recv) = after.bistreams@[addr];
            &&& after.bistreams@.dom().contains(addr)
            &&& send.address() == addr
            &&& send.stream_type() == typ
            &&& send.unsent().len() == 0
            &&& !send.is_cancelled()
            &&& recv.address() == addr
            &&& recv.pending().len() == 0
            &&& after.bistreams@.dom().contains(other) == before.bistreams@.dom().contains(other)
            &&& after.bistreams@[other] == before.bistreams@[other]
        }),
        end == Ok::<FrameStep, StreamError>(FrameStep::Wait),
        last == before,
{
    let addr = StreamAddr { conn_id: before.conn_id, stream_id };
    after.bistreams@[addr].0.lemma_ready();
}

/// A stream is looked at only if there is room for a frame. Then a complete frame is handed out
/// with the address of the stream, and exactly its bytes are gone; otherwise what has arrived stays,
/// and more is read. Whatever comes of it, the sending half and all other streams stay as they
/// are.
pub proof fn law_looking_hands_out_whole_frames(
    before: ConnActor,
    addr: StreamAddr,
    room: bool,
    r: Result<FrameStep, StreamError>,
    after: ConnActor,
    other: StreamAddr,
)
    requires
        before.bistreams@.dom().contains(addr),
        handles(before, FrameEvent::Look(addr, room), r, after),
        other != addr,
    ensures
        !room ==> r == Ok::<FrameStep, StreamError>(FrameStep::Wait) && after == before,
        room ==> {
            let pending = before.bistreams@[addr].1.pending();
            let left = after.bistreams@[addr].1.pending();
            let len = be_value(pending.subrange(4, 8));
            let complete = pending.len() >= 8 && pending.len() >= 8 + len;
            &&& after.bistreams@.dom().contains(addr)
            &&& after.bistreams@[addr].0 == before.bistreams@[addr].0
            &&& after.bistreams@[addr].1.address() == before.bistreams@[addr].1.address()
            &&& after.bistreams@.dom().contains(other) == before.bistreams@.dom().contains(other)
            &&& after.bistreams@[other] == before.bistreams@[other]
            &&& match r {
                Ok(FrameStep::Emit(out)) => {
                    &&& complete
                    &&& out.addr == addr
                    &&& left == pending.skip(8 + len)
                    &&& Frame::parse(pending.subrange(8, 8 + len)) matches Ok((v, _)) && v
                        == out.frame.value()
                },
                Ok(FrameStep::Read) => !complete && left == pending,
                Ok(FrameStep::Wait) => false,
                Err(_) => complete && left == pending,
            }
        },
{
    if room {
        let pending = before.bistreams@[addr].1.pending();
        let left = after.bistreams@[addr].1.pending();
        match r {
            Ok(FrameStep::Emit(out)) => {
                law_receiver_takes_whole_frames(
                    pending,
                    false,
                    Ok(RecvPoll::Frame(out.frame)),
                    left,
                );
            },
            Ok(FrameStep::Read) => {
                law_receiver_takes_whole_frames(pending, false, Ok(RecvPoll::Read), left);
            },
            Ok(FrameStep::Wait) => {},
            Err(e) => {
                law_receiver_takes_whole_frames(pending, false, Err(e), left);
            },
        }
    }
}

/// A frame is sent exactly if its stream is there, has nothing left to write and was not cancelled;
/// then the stream has its bytes to write. Otherwise the frame is given back and nothing changes.
/// No other stream is touched.
pub proof fn law_frame_is_sent_or_given_back(
    before: ConnActor,
    frame: StreamFrame,
    r: Option<StreamFrame>,
    after: ConnActor,
    other: StreamAddr,
)
    requires
        tries(before, frame, r, after),
        before.bistreams@.dom().contains(frame.addr) ==> before.bistreams@[frame.addr].0.wf(),
        sendable(frame.frame.value()),
        other != frame.addr,
    ensures
        r is None <==> before.bistreams@.dom().contains(frame.addr)
            && before.bistreams@[frame.addr].0.unsent().len() == 0
            && !before.bistreams@[frame.addr].0.is_cancelled(),
        r is Some ==> r == Some(frame) && after.bistreams@ == before.bistreams@,
        r is None ==> {
            let sending = after.bistreams@[frame.addr].0;
            &&& after.bistreams@.dom().contains(frame.addr)
            &&& sending.address() == before.bistreams@[frame.addr].0.address()
            &&& sending.unsent().skip(8) == Frame::bytes(frame.frame.value())
            &&& after.bistreams@[frame.addr].1 == before.bistreams@[frame.addr].1
        },
        after.bistreams@.dom().contains(other) == before.bistreams@.dom().contains(other),
        after.bistreams@[other] == before.bistreams@[other],
{
    if before.bistreams@.dom().contains(frame.addr) {
        before.bistreams@[frame.addr].0.lemma_ready();
    }
    law_frame_layout(frame.frame.value());
}

/// Writing on a stream takes from the front of what it has to write, and touches neither its
/// receiving half nor any other stream.
pub proof fn law_writing_is_confined(
    before: ConnActor,
    addr: StreamAddr,
    n: nat,
    after: ConnActor,
    other: StreamAddr,
)
    requires
        n <= before.bistreams@[addr].0.unsent().len(),
        writes_on(before, addr, n, after),
        other != addr,
    ensures
        after.conn_id == before.conn_id,
        before.bistreams@[addr].0.unsent() == before.bistreams@[addr].0.unsent().take(n as int)
            + after.bistreams@[addr].0.unsent(),
        after.bistreams@[addr].0.address() == before.bistreams@[addr].0.address(),
        after.bistreams@[addr].0.stream_type() == before.bistreams@[addr].0.stream_type(),
        after.bistreams@[addr].1 == before.bistreams@[addr].1,
        after.bistreams@.dom().contains(other) == before.bistreams@.dom().contains(other),
        after.bistreams@[other] == before.bistreams@[other],
{
    let unsent = before.bistreams@[addr].0.unsent();
    assert(unsent =~= unsent.take(n as int) + unsent.skip(n as int));
}

} // verus!

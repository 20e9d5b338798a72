//! Peers connected over QUIC.

use crate::io::ConnId;
use crate::ordmap::OrdMap;
use crate::proto::data::{
    AnnounceRequest, AnnounceResponse, ControlMessage, FrameMeta, QueryRequest, QueryResponse,
    Request, RequestType, Response, ResponseType,
};
use crate::proto::wire::Frame;
use crate::queue::{queued, total, SendQueue};
use crate::stream::{
    accept_failure, after_received, failure_of, handed_out, AcceptFailure, AcceptStream,
    FrameSendStream, MappedRecvStream, NextFrame,
    Received, RecvStreams, StreamAddr, StreamError, StreamType,
};
use vstd::prelude::*;

pub mod client;
pub mod control;
pub mod server;
pub mod tls;

verus! {

/// The application protocol that both sides name when they connect.
pub const WAHT_ALPN: &'static str = "n0/waht/0";

/// A message that arrived, with what else its frame says and the stream that it came on.
pub struct FrameIncoming<T> {
    pub payload: T,
    pub meta: FrameMeta,
    pub stream: StreamAddr,
}

impl<T> FrameIncoming<T> {
    /// A message that arrived.
    pub fn new(payload: T, meta: FrameMeta, stream: StreamAddr) -> (r: Self)
        ensures
            r == (FrameIncoming { payload, meta, stream }),
    {
        FrameIncoming { payload, meta, stream }
    }
}

/// What is handed out of an outcome on some stream, as `T`.
pub type Handed<T> = Option<Result<FrameIncoming<T>, StreamError>>;

/// The order in which streams are looked at for messages.
pub fn recv_order() -> (r: [StreamType; 3])
    ensures
        r@ == seq![StreamType::Control, StreamType::Announce, StreamType::Query],
{
    let r = [StreamType::Control, StreamType::Announce, StreamType::Query];
    assert(r@ =~= seq![StreamType::Control, StreamType::Announce, StreamType::Query]);
    r
}

/// The order in which streams are sent on.
pub fn send_order() -> (r: [StreamType; 3])
    ensures
        r@ == seq![StreamType::Control, StreamType::Query, StreamType::Announce],
{
    let r = [StreamType::Control, StreamType::Query, StreamType::Announce];
    assert(r@ =~= seq![StreamType::Control, StreamType::Query, StreamType::Announce]);
    r
}

/// Streams that messages are received on.
pub trait Incoming: Sized {
    /// What was received on one of the streams.
    type Event;

    /// A message of any of the streams.
    type Item;

    /// Whether every stream is there.
    spec fn wf(&self) -> bool;

    /// Whether there is a stream at the position that an event is about.
    spec fn admits(&self, event: Self::Event) -> bool;

    /// What is handed out after an event.
    spec fn hands_out(&self, event: Self::Event) -> Handed<Self::Item>;

    /// Whether these streams become `after` by an event.
    spec fn becomes(&self, event: Self::Event, after: Self) -> bool;

    /// Takes note of what was received, and hands it out.
    fn poll_recv(&mut self, event: Self::Event) -> (r: Handed<Self::Item>)
        requires
            old(self).wf(),
            old(self).admits(event),
        ensures
            final(self).wf(),
            r == old(self).hands_out(event),
            old(self).becomes(event, *final(self)),
    ;
}

/// What a server hands out of an outcome on a stream.
pub open spec fn handed_request<T: RequestType>(addr: StreamAddr, frame: Received<T>) -> Handed<
    Request,
> {
    match handed_out(addr, frame) {
        Some(Ok((payload, meta, stream))) => Some(
            Ok(FrameIncoming { payload: payload.request(), meta, stream }),
        ),
        Some(Err(e)) => Some(Err(e)),
        None => None,
    }
}

/// What a client hands out of an outcome on a stream.
pub open spec fn handed_response<T: ResponseType>(addr: StreamAddr, frame: Received<T>) -> Handed<
    Response,
> {
    match handed_out(addr, frame) {
        Some(Ok((payload, meta, stream))) => Some(
            Ok(FrameIncoming { payload: payload.response(), meta, stream }),
        ),
        Some(Err(e)) => Some(Err(e)),
        None => None,
    }
}

/// What a server received on the stream at a position.
pub enum ServerReceived {
    Control(usize, Received<ControlMessage>),
    Announce(usize, Received<AnnounceRequest>),
    Query(usize, Received<QueryRequest>),
}

/// The streams that a server receives on.
pub struct ServerIncoming {
    pub control: RecvStreams<ControlMessage>,
    pub announce: RecvStreams<AnnounceRequest>,
    pub query: RecvStreams<QueryRequest>,
}

impl ServerIncoming {
    /// No streams.
    pub fn new() -> (r: Self)
        ensures
            r.wf(),
            r.control@.len() == 0,
            r.announce@.len() == 0,
            r.query@.len() == 0,
    {
        ServerIncoming {
            control: RecvStreams::new(),
            announce: RecvStreams::new(),
            query: RecvStreams::new(),
        }
    }
}

impl Incoming for ServerIncoming {
    type Event = ServerReceived;

    type Item = Request;

    open spec fn wf(&self) -> bool {
        self.control.wf() && self.announce.wf() && self.query.wf()
    }

    open spec fn admits(&self, event: ServerReceived) -> bool {
        match event {
            ServerReceived::Control(i, _) => i < self.control@.len(),
            ServerReceived::Announce(i, _) => i < self.announce@.len(),
            ServerReceived::Query(i, _) => i < self.query@.len(),
        }
    }

    open spec fn hands_out(&self, event: ServerReceived) -> Handed<Request> {
        match event {
            ServerReceived::Control(i, frame) => handed_request(
                self.control@[i as int].addr,
                frame,
            ),
            ServerReceived::Announce(i, frame) => handed_request(
                self.announce@[i as int].addr,
                frame,
            ),
            ServerReceived::Query(i, frame) => handed_request(self.query@[i as int].addr, frame),
        }
    }

    open spec fn becomes(&self, event: ServerReceived, after: Self) -> bool {
        match event {
            ServerReceived::Control(i, frame) => {
                &&& after.control@ == after_received(self.control@, i as int, frame)
                &&& after.announce == self.announce
                &&& after.query == self.query
            },
            ServerReceived::Announce(i, frame) => {
                &&& after.control == self.control
                &&& after.announce@ == after_received(self.announce@, i as int, frame)
                &&& after.query == self.query
            },
            ServerReceived::Query(i, frame) => {
                &&& after.control == self.control
                &&& after.announce == self.announce
                &&& after.query@ == after_received(self.query@, i as int, frame)
            },
        }
    }

    fn poll_recv(&mut self, event: ServerReceived) -> (r: Handed<Request>) {
        match event {
            ServerReceived::Control(i, frame) => self.control.poll_next_as_request(i, frame),
            ServerReceived::Announce(i, frame) => self.announce.poll_next_as_request(i, frame),
            ServerReceived::Query(i, frame) => self.query.poll_next_as_request(i, frame),
        }
    }
}

/// What a client received on the stream at a position.
pub enum ClientReceived {
    Control(usize, Received<ControlMessage>),
    Announce(usize, Received<AnnounceResponse>),
    Query(usize, Received<QueryResponse>),
}

/// The streams that a client receives on.
pub struct ClientIncoming {
    pub control: RecvStreams<ControlMessage>,
    pub announce: RecvStreams<AnnounceResponse>,
    pub query: RecvStreams<QueryResponse>,
}

impl ClientIncoming {
    /// No streams.
    pub fn new() -> (r: Self)
        ensures
            r.wf(),
            r.control@.len() == 0,
            r.announce@.len() == 0,
            r.query@.len() == 0,
    {
        ClientIncoming {
            control: RecvStreams::new(),
            announce: RecvStreams::new(),
            query: RecvStreams::new(),
        }
    }
}

impl Incoming for ClientIncoming {
    type Event = ClientReceived;

    type Item = Response;

    open spec fn wf(&self) -> bool {
        self.control.wf() && self.announce.wf() && self.query.wf()
    }

    open spec fn admits(&self, event: ClientReceived) -> bool {
        match event {
            ClientReceived::Control(i, _) => i < self.control@.len(),
            ClientReceived::Announce(i, _) => i < self.announce@.len(),
            ClientReceived::Query(i, _) => i < self.query@.len(),
        }
    }

    open spec fn hands_out(&self, event: ClientReceived) -> Handed<Response> {
        match event {
            ClientReceived::Control(i, frame) => handed_response(
                self.control@[i as int].addr,
                frame,
            ),
            ClientReceived::Announce(i, frame) => handed_response(
                self.announce@[i as int].addr,
                frame,
            ),
            ClientReceived::Query(i, frame) => handed_response(self.query@[i as int].addr, frame),
        }
    }

    open spec fn becomes(&self, event: ClientReceived, after: Self) -> bool {
        match event {
            ClientReceived::Control(i, frame) => {
                &&& after.control@ == after_received(self.control@, i as int, frame)
                &&& after.announce == self.announce
                &&& after.query == self.query
            },
            ClientReceived::Announce(i, frame) => {
                &&& after.control == self.control
                &&& after.announce@ == after_received(self.announce@, i as int, frame)
                &&& after.query == self.query
            },
            ClientReceived::Query(i, frame) => {
                &&& after.control == self.control
                &&& after.announce == self.announce
                &&& after.query@ == after_received(self.query@, i as int, frame)
            },
        }
    }

    fn poll_recv(&mut self, event: ClientReceived) -> (r: Handed<Response>) {
        match event {
            ClientReceived::Control(i, frame) => self.control.poll_next_as_response(i, frame),
            ClientReceived::Announce(i, frame) => self.announce.poll_next_as_response(i, frame),
            ClientReceived::Query(i, frame) => self.query.poll_next_as_response(i, frame),
        }
    }
}

/// The streams that are sent on, with what is to be sent.
pub struct Outgoing {
    pub control: SendQueue,
    pub announce: SendQueue,
    pub query: SendQueue,
}

impl Outgoing {
    /// Whether all queues are well-formed.
    pub open spec fn wf(&self) -> bool {
        self.control.wf() && self.announce.wf() && self.query.wf()
    }

    /// Whether there are no streams of any type, and nothing was sent.
    pub open spec fn unused(&self) -> bool {
        forall|typ: StreamType|
            {
                let queue = #[trigger] self.of_type(typ);
                &&& queue.frames() == Map::<StreamAddr, Seq<Frame>>::empty()
                &&& queue.senders() == Map::<StreamAddr, FrameSendStream>::empty()
                &&& queue.closing() == Set::<StreamAddr>::empty()
                &&& queue.completed() == 0
            }
    }

    /// No streams.
    pub fn new() -> (r: Self)
        ensures
            r.wf(),
            r.unused(),
    {
        Outgoing {
            control: SendQueue::default(),
            announce: SendQueue::default(),
            query: SendQueue::default(),
        }
    }

    /// The streams of a type.
    pub open spec fn of_type(&self, typ: StreamType) -> SendQueue {
        match typ {
            StreamType::Control => self.control,
            StreamType::Announce => self.announce,
            StreamType::Query => self.query,
        }
    }

    /// The streams of a type.
    pub fn queue(&self, typ: StreamType) -> (r: &SendQueue)
        ensures
            *r == self.of_type(typ),
    {
        match typ {
            StreamType::Control => &self.control,
            StreamType::Announce => &self.announce,
            StreamType::Query => &self.query,
        }
    }

    /// The streams of a type.
    pub fn queue_mut(&mut self, typ: StreamType) -> (r: &mut SendQueue)
        ensures
            *r == old(self).of_type(typ),
            final(self).of_type(typ) == *final(r),
            forall|other: StreamType|
                other != typ ==> #[trigger] final(self).of_type(other) == old(self).of_type(other),
    {
        match typ {
            StreamType::Control => &mut self.control,
            StreamType::Announce => &mut self.announce,
            StreamType::Query => &mut self.query,
        }
    }

    /// Number of frames that are queued.
    pub fn len(&self) -> (r: usize)
        requires
            self.wf(),
            total(self.control.frames()) + total(self.announce.frames()) + total(
                self.query.frames(),
            ) <= usize::MAX,
        ensures
            r == total(self.control.frames()) + total(self.announce.frames()) + total(
                self.query.frames(),
            ),
    {
        self.control.len() + self.announce.len() + self.query.len()
    }

    /// The outcome of sending on the streams of all types, of which the first failure counts.
    pub fn poll_send(
        control: Result<(), StreamError>,
        query: Result<(), StreamError>,
        announce: Result<(), StreamError>,
    ) -> (r: Result<(), StreamError>)
        ensures
            r == (if control is Err {
                control
            } else if query is Err {
                query
            } else {
                announce
            }),
    {
        match control {
            Err(e) => return Err(e),
            Ok(()) => {},
        }
        match query {
            Err(e) => return Err(e),
            Ok(()) => {},
        }
        announce
    }
}

/// What happens on connections.
pub enum ConnEvent2<T> {
    ConnOpen(ConnId),
    ConnClose(ConnId),
    FrameIncoming(FrameIncoming<T>),
}

/// The connections of a server and their streams. `C` stands for a connection.
pub struct IncomingActor<C> {
    pub conns: OrdMap<ConnId, C>,
    pub incoming: ServerIncoming,
    pub outgoing: Outgoing,
}

impl<C> IncomingActor<C> {
    /// The connections.
    pub open spec fn connections(&self) -> Map<ConnId, C> {
        self.conns@
    }

    /// Whether all tables are well-formed.
    pub open spec fn wf(&self) -> bool {
        self.conns.wf() && self.incoming.wf() && self.outgoing.wf()
    }

    /// A server without connections.
    pub fn new() -> (r: Self)
        ensures
            r.wf(),
            r.connections() == Map::<ConnId, C>::empty(),
            r.incoming.control@.len() == 0,
            r.incoming.announce@.len() == 0,
            r.incoming.query@.len() == 0,
            r.outgoing.unused(),
    {
        IncomingActor {
            conns: OrdMap::new(),
            incoming: ServerIncoming::new(),
            outgoing: Outgoing::new(),
        }
    }

    /// A connection.
    pub fn conn(&self, conn_id: &ConnId) -> (r: Option<&C>)
        requires
            self.wf(),
        ensures
            match r {
                Some(conn) => self.connections().dom().contains(*conn_id) && *conn
                    == self.connections()[*conn_id],
                None => !self.connections().dom().contains(*conn_id),
            },
    {
        self.conns.get(conn_id)
    }

    /// Adds a connection.
    pub fn push_conn(&mut self, conn_id: ConnId, conn: C)
        requires
            old(self).wf(),
        ensures
            final(self).wf(),
            final(self).connections() == old(self).connections().insert(conn_id, conn),
            final(self).incoming == old(self).incoming,
            final(self).outgoing == old(self).outgoing,
    {
        self.conns.insert(conn_id, conn);
    }

    /// Takes a connection that a client made, or the failure to make one.
    pub fn poll_accept(&mut self, conn: Result<(ConnId, C), StreamError>) -> (r: Result<
        (),
        StreamError,
    >)
        requires
            old(self).wf(),
        ensures
            final(self).wf(),
            final(self).incoming == old(self).incoming,
            final(self).outgoing == old(self).outgoing,
            match conn {
                Ok((conn_id, conn)) => {
                    &&& r == Ok::<(), StreamError>(())
                    &&& final(self).connections() == old(self).connections().insert(conn_id, conn)
                },
                Err(e) => {
                    &&& r == Err::<(), StreamError>(e)
                    &&& final(self).connections() == old(self).connections()
                },
            },
            takes_conn(*old(self), conn, r, *final(self)),
    {
        match conn {
            Ok((conn_id, conn)) => {
                self.push_conn(conn_id, conn);
                Ok(())
            },
            Err(e) => Err(e),
        }
    }

    /// Takes a stream that a client opened. A stream of a type that is not supported is closed. A
    /// connection on which anything else failed is given back, to be cancelled.
    pub fn poll_accept_streams(
        &mut self,
        conn_id: ConnId,
        stream: Result<AcceptStream, StreamError>,
    ) -> (r: Option<C>)
        requires
            old(self).wf(),
            stream matches Ok(AcceptStream::Announce((send, _))) ==> send.wf(),
            stream matches Ok(AcceptStream::Query((send, _))) ==> send.wf(),
        ensures
            final(self).wf(),
            takes_stream(*old(self), conn_id, stream, *final(self)),
            match stream {
                Ok(AcceptStream::Control(recv)) => final(self).incoming.control@ == old(
                    self,
                ).incoming.control@.push(NextFrame { addr: recv.address(), stream: Some(recv) }),
                Ok(AcceptStream::Announce((_, recv))) => final(self).incoming.announce@ == old(
                    self,
                ).incoming.announce@.push(NextFrame { addr: recv.address(), stream: Some(recv) }),
                Ok(AcceptStream::Query((_, recv))) => final(self).incoming.query@ == old(
                    self,
                ).incoming.query@.push(NextFrame { addr: recv.address(), stream: Some(recv) }),
                Err(_) => final(self).incoming == old(self).incoming,
            },
            r == (match stream {
                Err(e) => if failure_of(e) == AcceptFailure::DropConnection && old(
                    self,
                ).connections().dom().contains(conn_id) {
                    Some(old(self).connections()[conn_id])
                } else {
                    None
                },
                Ok(_) => None,
            }),
    {
        match stream {
            Err(e) => match accept_failure(e) {
                AcceptFailure::CloseStream => None,
                AcceptFailure::DropConnection => self.conns.remove(&conn_id),
            },
            Ok(AcceptStream::Control(recv)) => {
                self.incoming.control.push_stream(recv);
                None
            },
            Ok(AcceptStream::Announce((send, recv))) => {
                self.incoming.announce.push_stream(recv);
                self.outgoing.announce.push_stream(send);
                None
            },
            Ok(AcceptStream::Query((send, recv))) => {
                self.incoming.query.push_stream(recv);
                self.outgoing.query.push_stream(send);
                None
            },
        }
    }

    /// Takes note of what was received on a stream, and hands it out.
    pub fn poll_recv(&mut self, event: ServerReceived) -> (r: Option<
        Result<ConnEvent2<Request>, StreamError>,
    >)
        requires
            old(self).wf(),
            old(self).incoming.admits(event),
        ensures
            final(self).wf(),
            final(self).connections() == old(self).connections(),
            final(self).outgoing == old(self).outgoing,
            old(self).incoming.becomes(event, final(self).incoming),
            r == (match old(self).incoming.hands_out(event) {
                Some(Ok(frame)) => Some(
                    Ok::<ConnEvent2<Request>, StreamError>(ConnEvent2::FrameIncoming(frame)),
                ),
                Some(Err(e)) => Some(Err::<ConnEvent2<Request>, StreamError>(e)),
                None => None,
            }),
    {
        match self.incoming.poll_recv(event) {
            Some(Ok(frame)) => Some(Ok(ConnEvent2::FrameIncoming(frame))),
            Some(Err(e)) => Some(Err(e)),
            None => None,
        }
    }

    /// Queues a reply on a query stream.
    pub fn reply_query(&mut self, addr: &StreamAddr, response: Frame)
        requires
            old(self).wf(),
            total(old(self).outgoing.query.frames()) < usize::MAX,
        ensures
            final(self).wf(),
            final(self).connections() == old(self).connections(),
            final(self).incoming == old(self).incoming,
            final(self).outgoing.control == old(self).outgoing.control,
            final(self).outgoing.announce == old(self).outgoing.announce,
            final(self).outgoing.query.senders() == old(self).outgoing.query.senders(),
            final(self).outgoing.query.closing() == old(self).outgoing.query.closing(),
            final(self).outgoing.query.completed() == old(self).outgoing.query.completed(),
            total(final(self).outgoing.query.frames()) == total(
                old(self).outgoing.query.frames(),
            ) + 1,
            final(self).outgoing.query.frames() == old(self).outgoing.query.frames().insert(
                *addr,
                queued(old(self).outgoing.query.frames(), *addr).push(response),
            ),
    {
        self.outgoing.query.push_frame(*addr, response)
    }

    /// Closes the sending side of a query stream once all that is queued for it is sent.
    pub fn close_query(&mut self, addr: &StreamAddr)
        requires
            old(self).wf(),
        ensures
            final(self).wf(),
            final(self).connections() == old(self).connections(),
            final(self).incoming == old(self).incoming,
            final(self).outgoing.control == old(self).outgoing.control,
            final(self).outgoing.announce == old(self).outgoing.announce,
            final(self).outgoing.query.frames() == old(self).outgoing.query.frames(),
            final(self).outgoing.query.senders() == old(self).outgoing.query.senders(),
            final(self).outgoing.query.closing() == old(self).outgoing.query.closing().insert(
                *addr,
            ),
            final(self).outgoing.query.completed() == old(self).outgoing.query.completed(),
    {
        self.outgoing.query.close(*addr)
    }
}

/// Whether `after` is `before` with a connection that a client made, and `r` the outcome.
pub open spec fn takes_conn<C>(
    before: IncomingActor<C>,
    conn: Result<(ConnId, C), StreamError>,
    r: Result<(), StreamError>,
    after: IncomingActor<C>,
) -> bool {
    &&& after.incoming == before.incoming
    &&& after.outgoing == before.outgoing
    &&& match conn {
        Ok((conn_id, conn)) => r == Ok::<(), StreamError>(()) && after.connections()
            == before.connections().insert(conn_id, conn),
        Err(e) => r == Err::<(), StreamError>(e) && after.connections() == before.connections(),
    }
}

/// Whether `after` is `before` with a stream that a client opened on a connection: it is received
/// on, and replies can be sent on it unless it is a control stream. A stream of a type that is not
/// supported changes nothing, and a connection on which anything else failed is gone.
pub open spec fn takes_stream<C>(
    before: IncomingActor<C>,
    conn_id: ConnId,
    stream: Result<AcceptStream, StreamError>,
    after: IncomingActor<C>,
) -> bool {
    match stream {
        Err(e) => {
            &&& after.connections() == (match failure_of(e) {
                AcceptFailure::CloseStream => before.connections(),
                AcceptFailure::DropConnection => before.connections().remove(conn_id),
            })
            &&& after.incoming == before.incoming
            &&& after.outgoing == before.outgoing
        },
        Ok(AcceptStream::Control(recv)) => {
            &&& after.connections() == before.connections()
            &&& after.incoming.control@ == before.incoming.control@.push(awaiting(recv))
            &&& after.incoming.announce == before.incoming.announce
            &&& after.incoming.query == before.incoming.query
            &&& after.outgoing == before.outgoing
        },
        Ok(AcceptStream::Announce((send, recv))) => {
            &&& after.connections() == before.connections()
            &&& after.incoming.control == before.incoming.control
            &&& after.incoming.announce@ == before.incoming.announce@.push(awaiting(recv))
            &&& after.incoming.query == before.incoming.query
            &&& after.outgoing.control == before.outgoing.control
            &&& after.outgoing.query == before.outgoing.query
            &&& after.outgoing.announce.completed() == before.outgoing.announce.completed()
            &&& after.outgoing.announce.frames() == before.outgoing.announce.frames()
            &&& after.outgoing.announce.closing() == before.outgoing.announce.closing().remove(
                send.address(),
            )
            &&& after.outgoing.announce.senders() == before.outgoing.announce.senders().insert(
                send.address(),
                send,
            )
        },
        Ok(AcceptStream::Query((send, recv))) => {
            &&& after.connections() == before.connections()
            &&& after.incoming.control == before.incoming.control
            &&& after.incoming.announce == before.incoming.announce
            &&& after.incoming.query@ == before.incoming.query@.push(awaiting(recv))
            &&& after.outgoing.control == before.outgoing.control
            &&& after.outgoing.announce == before.outgoing.announce
            &&& after.outgoing.query.completed() == before.outgoing.query.completed()
            &&& after.outgoing.query.frames() == before.outgoing.query.frames()
            &&& after.outgoing.query.closing() == before.outgoing.query.closing().remove(
                send.address(),
            )
            &&& after.outgoing.query.senders() == before.outgoing.query.senders().insert(
                send.address(),
                send,
            )
        },
    }
}

/// A stream whose next message is awaited.
pub open spec fn awaiting<T>(recv: MappedRecvStream<T>) -> NextFrame<T> {
    NextFrame { addr: recv.address(), stream: Some(recv) }
}

/// A stream that a client opens is received on from then on: the awaited streams of its type are
/// those before and this one behind them, with its address and its receiving half, however many
/// there were. Its sending half, if it has one, can be sent on under its address. The awaited
/// streams of the other types, the connections and all that is queued stay as they are.
pub proof fn law_accepted_streams_are_awaited<C>(
    before: IncomingActor<C>,
    conn_id: ConnId,
    stream: AcceptStream,
    after: IncomingActor<C>,
)
    requires
        takes_stream(before, conn_id, Ok(stream), after),
    ensures
        after.connections() == before.connections(),
        match stream {
            AcceptStream::Control(recv) => {
                &&& after.incoming.control@.len() == before.incoming.control@.len() + 1
                &&& after.incoming.control@.drop_last() == before.incoming.control@
                &&& after.incoming.control@.last().addr == recv.address()
                &&& after.incoming.control@.last().stream == Some(recv)
                &&& after.incoming.announce@ == before.incoming.announce@
                &&& after.incoming.query@ == before.incoming.query@
                &&& after.outgoing.control == before.outgoing.control
                &&& after.outgoing.announce == before.outgoing.announce
                &&& after.outgoing.query == before.outgoing.query
            },
            AcceptStream::Announce((send, recv)) => {
                &&& after.incoming.announce@.len() == before.incoming.announce@.len() + 1
                &&& after.incoming.announce@.drop_last() == before.incoming.announce@
                &&& after.incoming.announce@.last().addr == recv.address()
                &&& after.incoming.announce@.last().stream == Some(recv)
                &&& after.incoming.control@ == before.incoming.control@
                &&& after.incoming.query@ == before.incoming.query@
                &&& after.outgoing.control == before.outgoing.control
                &&& after.outgoing.query == before.outgoing.query
                &&& after.outgoing.announce.frames() == before.outgoing.announce.frames()
                &&& after.outgoing.announce.completed() == before.outgoing.announce.completed()
                &&& after.outgoing.announce.senders().dom().contains(send.address())
                &&& after.outgoing.announce.senders()[send.address()] == send
                &&& !after.outgoing.announce.closing().contains(send.address())
            },
            AcceptStream::Query((send, recv)) => {
                &&& after.incoming.query@.len() == before.incoming.query@.len() + 1
                &&& after.incoming.query@.drop_last() == before.incoming.query@
                &&& after.incoming.query@.last().addr == recv.address()
                &&& after.incoming.query@.last().stream == Some(recv)
                &&& after.incoming.control@ == before.incoming.control@
                &&& after.incoming.announce@ == before.incoming.announce@
                &&& after.outgoing.control == before.outgoing.control
                &&& after.outgoing.announce == before.outgoing.announce
                &&& after.outgoing.query.frames() == before.outgoing.query.frames()
                &&& after.outgoing.query.completed() == before.outgoing.query.completed()
                &&& after.outgoing.query.senders().dom().contains(send.address())
                &&& after.outgoing.query.senders()[send.address()] == send
                &&& !after.outgoing.query.closing().contains(send.address())
            },
        },
{
    match stream {
        AcceptStream::Control(_) => {
            assert(after.incoming.control@.drop_last() =~= before.incoming.control@);
        },
        AcceptStream::Announce(_) => {
            assert(after.incoming.announce@.drop_last() =~= before.incoming.announce@);
        },
        AcceptStream::Query(_) => {
            assert(after.incoming.query@.drop_last() =~= before.incoming.query@);
        },
    }
}

/// Taking a stream leaves every other stream that can be sent on as it is.
pub proof fn law_other_senders_stay<C>(
    before: IncomingActor<C>,
    conn_id: ConnId,
    stream: AcceptStream,
    after: IncomingActor<C>,
    other: StreamAddr,
)
    requires
        takes_stream(before, conn_id, Ok(stream), after),
        stream matches AcceptStream::Announce((send, _)) ==> other != send.address(),
        stream matches AcceptStream::Query((send, _)) ==> other != send.address(),
    ensures
        after.outgoing.announce.senders().dom().contains(other)
            == before.outgoing.announce.senders().dom().contains(other),
        after.outgoing.announce.senders()[other] == before.outgoing.announce.senders()[other],
        after.outgoing.announce.closing().contains(other)
            == before.outgoing.announce.closing().contains(other),
        after.outgoing.query.senders().dom().contains(other)
            == before.outgoing.query.senders().dom().contains(other),
        after.outgoing.query.senders()[other] == before.outgoing.query.senders()[other],
        after.outgoing.query.closing().contains(other)
            == before.outgoing.query.closing().contains(other),
{
}

/// A stream that could not be accepted changes no stream. Its connection is dropped, and no other,
/// unless only the type of the stream was not supported.
pub proof fn law_failed_accept_costs_one_connection<C>(
    before: IncomingActor<C>,
    conn_id: ConnId,
    err: StreamError,
    after: IncomingActor<C>,
    other: ConnId,
)
    requires
        takes_stream(before, conn_id, Err(err), after),
        other != conn_id,
    ensures
        after.incoming == before.incoming,
        after.outgoing == before.outgoing,
        after.connections().dom().contains(conn_id) <==> before.connections().dom().contains(
            conn_id,
        ) && err == StreamError::InvalidStreamType,
        after.connections().dom().contains(other) == before.connections().dom().contains(other),
        after.connections()[other] == before.connections()[other],
{
}

/// What a server receives is handed out as the request that it is, with the address of its stream;
/// a failure is handed out as it is, and the end of a stream not at all. The streams of the other
/// types stay as they are; of those of the same type, the one that a message came on is awaited
/// again behind the others, and one that ended or failed is dropped.
pub proof fn law_server_hands_out_requests(
    before: ServerIncoming,
    event: ServerReceived,
    after: ServerIncoming,
)
    requires
        before.admits(event),
        before.becomes(event, after),
    ensures
        match event {
            ServerReceived::Control(i, frame) => {
                let addr = before.control@[i as int].addr;
                &&& before.hands_out(event) == (match frame {
                    Ok(Some((message, meta))) => Some(
                        Ok::<FrameIncoming<Request>, StreamError>(
                            FrameIncoming { payload: message.request(), meta, stream: addr },
                        ),
                    ),
                    Ok(None) => None,
                    Err(e) => Some(Err::<FrameIncoming<Request>, StreamError>(e)),
                })
                &&& after.control@ == (if frame is Ok && frame->Ok_0 is Some {
                    before.control@.remove(i as int).push(before.control@[i as int])
                } else {
                    before.control@.remove(i as int)
                })
                &&& after.announce@ == before.announce@
                &&& after.query@ == before.query@
            },
            ServerReceived::Announce(i, frame) => {
                let addr = before.announce@[i as int].addr;
                &&& before.hands_out(event) == (match frame {
                    Ok(Some((message, meta))) => Some(
                        Ok::<FrameIncoming<Request>, StreamError>(
                            FrameIncoming { payload: message.request(), meta, stream: addr },
                        ),
                    ),
                    Ok(None) => None,
                    Err(e) => Some(Err::<FrameIncoming<Request>, StreamError>(e)),
                })
                &&& after.announce@ == (if frame is Ok && frame->Ok_0 is Some {
                    before.announce@.remove(i as int).push(before.announce@[i as int])
                } else {
                    before.announce@.remove(i as int)
                })
                &&& after.control@ == before.control@
                &&& after.query@ == before.query@
            },
            ServerReceived::Query(i, frame) => {
                let addr = before.query@[i as int].addr;
                &&& before.hands_out(event) == (match frame {
                    Ok(Some((message, meta))) => Some(
                        Ok::<FrameIncoming<Request>, StreamError>(
                            FrameIncoming { payload: message.request(), meta, stream: addr },
                        ),
                    ),
                    Ok(None) => None,
                    Err(e) => Some(Err::<FrameIncoming<Request>, StreamError>(e)),
                })
                &&& after.query@ == (if frame is Ok && frame->Ok_0 is Some {
                    before.query@.remove(i as int).push(before.query@[i as int])
                } else {
                    before.query@.remove(i as int)
                })
                &&& after.control@ == before.control@
                &&& after.announce@ == before.announce@
            },
        },
{
}

/// What a client receives is handed out as the response that it is, with the address of its stream;
/// a failure is handed out as it is, and the end of a stream not at all. The streams of the other
/// types stay as they are; of those of the same type, the one that a message came on is awaited
/// again behind the others, and one that ended or failed is dropped.
pub proof fn law_client_hands_out_responses(
    before: ClientIncoming,
    event: ClientReceived,
    after: ClientIncoming,
)
    requires
        before.admits(event),
        before.becomes(event, after),
    ensures
        match event {
            ClientReceived::Control(i, frame) => {
                let addr = before.control@[i as int].addr;
                &&& before.hands_out(event) == (match frame {
                    Ok(Some((message, meta))) => Some(
                        Ok::<FrameIncoming<Response>, StreamError>(
                            FrameIncoming { payload: message.response(), meta, stream: addr },
                        ),
                    ),
                    Ok(None) => None,
                    Err(e) => Some(Err::<FrameIncoming<Response>, StreamError>(e)),
                })
                &&& after.control@ == (if frame is Ok && frame->Ok_0 is Some {
                    before.control@.remove(i as int).push(before.control@[i as int])
                } else {
                    before.control@.remove(i as int)
                })
                &&& after.announce@ == before.announce@
                &&& after.query@ == before.query@
            },
            ClientReceived::Announce(i, frame) => {
                let addr = before.announce@[i as int].addr;
                &&& before.hands_out(event) == (match frame {
                    Ok(Some((message, meta))) => Some(
                        Ok::<FrameIncoming<Response>, StreamError>(
                            FrameIncoming { payload: message.response(), meta, stream: addr },
                        ),
                    ),
                    Ok(None) => None,
                    Err(e) => Some(Err::<FrameIncoming<Response>, StreamError>(e)),
                })
                &&& after.announce@ == (if frame is Ok && frame->Ok_0 is Some {
                    before.announce@.remove(i as int).push(before.announce@[i as int])
                } else {
                    before.announce@.remove(i as int)
                })
                &&& after.control@ == before.control@
                &&& after.query@ == before.query@
            },
            ClientReceived::Query(i, frame) => {
                let addr = before.query@[i as int].addr;
                &&& before.hands_out(event) == (match frame {
                    Ok(Some((message, meta))) => Some(
                        Ok::<FrameIncoming<Response>, StreamError>(
                            FrameIncoming { payload: message.response(), meta, stream: addr },
                        ),
                    ),
                    Ok(None) => None,
                    Err(e) => Some(Err::<FrameIncoming<Response>, StreamError>(e)),
                })
                &&& after.query@ == (if frame is Ok && frame->Ok_0 is Some {
                    before.query@.remove(i as int).push(before.query@[i as int])
                } else {
                    before.query@.remove(i as int)
                })
                &&& after.control@ == before.control@
                &&& after.announce@ == before.announce@
            },
        },
{
}

/// Something can be received on every stream that is there, and on no other.
pub proof fn law_streams_that_are_there_are_admitted(
    server: ServerIncoming,
    client: ClientIncoming,
    i: usize,
    control: Received<ControlMessage>,
    announce: Received<AnnounceRequest>,
    query: Received<QueryRequest>,
    acknowledge: Received<AnnounceResponse>,
    reply: Received<QueryResponse>,
)
    ensures
        server.admits(ServerReceived::Control(i, control)) <==> i < server.control@.len(),
        server.admits(ServerReceived::Announce(i, announce)) <==> i < server.announce@.len(),
        server.admits(ServerReceived::Query(i, query)) <==> i < server.query@.len(),
        client.admits(ClientReceived::Control(i, control)) <==> i < client.control@.len(),
        client.admits(ClientReceived::Announce(i, acknowledge)) <==> i < client.announce@.len(),
        client.admits(ClientReceived::Query(i, reply)) <==> i < client.query@.len(),
{
}

/// The streams of each type are kept apart, and where none was used, nothing is queued, nothing can
/// be sent on and nothing is closing.
pub proof fn law_queues_are_kept_by_type(outgoing: Outgoing, typ: StreamType)
    ensures
        outgoing.of_type(StreamType::Control) == outgoing.control,
        outgoing.of_type(StreamType::Announce) == outgoing.announce,
        outgoing.of_type(StreamType::Query) == outgoing.query,
        outgoing.unused() ==> {
            let queue = outgoing.of_type(typ);
            &&& queue.frames().dom() == Set::<StreamAddr>::empty()
            &&& queue.senders().dom() == Set::<StreamAddr>::empty()
            &&& queue.closing() == Set::<StreamAddr>::empty()
            &&& queue.completed() == 0
        },
{
    if outgoing.unused() {
        let queue = outgoing.of_type(typ);
        assert(queue.frames().dom() =~= Set::<StreamAddr>::empty());
        assert(queue.senders().dom() =~= Set::<StreamAddr>::empty());
    }
}

/// A connection that a client makes is kept under its number, beside all others; one that could not
/// be made changes nothing, and the failure is handed on. No stream is touched either way.
pub proof fn law_connections_are_kept<C>(
    before: IncomingActor<C>,
    conn: Result<(ConnId, C), StreamError>,
    r: Result<(), StreamError>,
    after: IncomingActor<C>,
    other: ConnId,
)
    requires
        takes_conn(before, conn, r, after),
        conn matches Ok((conn_id, _)) ==> other != conn_id,
    ensures
        conn matches Ok((conn_id, made)) ==> r is Ok && after.connections().dom().contains(conn_id)
            && after.connections()[conn_id] == made,
        conn matches Err(e) ==> r == Err::<(), StreamError>(e),
        after.connections().dom().contains(other) == before.connections().dom().contains(other),
        after.connections()[other] == before.connections()[other],
        after.incoming == before.incoming,
        after.outgoing == before.outgoing,
{
}

} // verus!

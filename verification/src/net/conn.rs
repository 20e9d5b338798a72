//! A server that collects signed announcements and hands them to whoever queries for them.

use crate::ordmap::{listing, lists, OrdMap, Rank};
use crate::proto::codec::Wire;
use crate::proto::crypto::{PublicKey, SealedEnvelope, SealedValue};
use crate::proto::data::{
    checked_payload, frame_verdict, reads_value, AnnounceRequest, ControlMessage, FrameMeta,
    QueryRequest,
};
use crate::proto::wire::{
    Ack, End, Frame, FramePayload, FramePayloadValue, FrameValue, QueryPayload, Rid, SignedFrame,
    UnsignedFrame, UnsignedFrameValue,
};
use crate::queue::{
    self, bytes_taken, frame_values, frames_added, law_frames_leave_in_order,
    law_queued_frames_arrive, lemma_frames_take_bytes, outstanding, queued, step_leads, steps_lead,
    total, QueuePoll, SendStep, Sending,
};
use crate::stream::accept::{AnnounceBiStream, QueryBiStream};
use crate::stream::{
    all_awaited, all_framed, framed, frames_in, next_frame, sendable, ConnId, ControlBiStream,
    FrameSendStream, MappedRecvStream, NextFrame, Received, SendPoll, StreamAddr, StreamError,
    StreamId, StreamType,
};
use crate::tracker::PeerId;
use vstd::prelude::*;

verus! {

/// Frames that are queued for streams.
pub type Outqueues = queue::Outqueues<Frame>;

/// Sets of values by key.
pub struct HashMapSet<K, V>(OrdMap<K, OrdMap<V, ()>>);

impl<K: Rank, V: Rank> View for HashMapSet<K, V> {
    type V = Map<K, Set<V>>;

    closed spec fn view(&self) -> Map<K, Set<V>> {
        self.0@.map_values(|set: OrdMap<V, ()>| set@.dom())
    }
}

/// The set of a key.
pub open spec fn set_of<K, V>(sets: Map<K, Set<V>>, key: K) -> Set<V> {
    if sets.dom().contains(key) {
        sets[key]
    } else {
        Set::empty()
    }
}

/// The sets of all keys without a value.
pub open spec fn without_value<K, V>(sets: Map<K, Set<V>>, value: V) -> Map<K, Set<V>> {
    sets.map_values(|set: Set<V>| set.remove(value))
}

/// Adding a value to the set of a key adds it there, changes nothing if it is there already, and
/// leaves the sets of all other keys as they are; a key that nothing was added for has no values.
pub proof fn law_values_are_added_to_their_key<K, V>(
    sets: Map<K, Set<V>>,
    key: K,
    value: V,
    other: K,
)
    ensures
        ({
            let after = sets.insert(key, set_of(sets, key).insert(value));
            &&& set_of(after, key) == set_of(sets, key).insert(value)
            &&& set_of(sets, key).contains(value) ==> set_of(after, key) == set_of(sets, key)
            &&& other != key ==> set_of(after, other) == set_of(sets, other)
        }),
        set_of(Map::<K, Set<V>>::empty(), other) == Set::<V>::empty(),
{
    if set_of(sets, key).contains(value) {
        assert(set_of(sets, key).insert(value) =~= set_of(sets, key));
    }
}

impl<K: Rank, V: Rank> HashMapSet<K, V> {
    /// Whether all sets are well-formed.
    pub closed spec fn wf(&self) -> bool {
        &&& self.0.wf()
        &&& forall|k: K| #[trigger] self.0@.dom().contains(k) ==> self.0@[k].wf()
    }

    /// No sets.
    pub fn new() -> (r: Self)
        ensures
            r.wf(),
            r@ == Map::<K, Set<V>>::empty(),
    {
        let r = HashMapSet(OrdMap::new());
        assert(r@ =~= Map::<K, Set<V>>::empty());
        r
    }

    /// Adds a value to the set of a key.
    pub fn insert(&mut self, key: K, value: V)
        requires
            old(self).wf(),
        ensures
            final(self).wf(),
            final(self)@ == old(self)@.insert(key, set_of(old(self)@, key).insert(value)),
    {
        let ghost before = *self;
        let mut set = match self.0.remove(&key) {
            Some(set) => set,
            None => OrdMap::new(),
        };
        assert(set@.dom() =~= set_of(before@, key));
        set.insert(value, ());
        assert(set@.dom() =~= set_of(before@, key).insert(value));
        self.0.insert(key, set);
        assert(self@ =~= before@.insert(key, set@.dom()));
    }

    /// Removes a value from the sets of all keys.
    pub fn remove_value(&mut self, value: &V)
        requires
            old(self).wf(),
        ensures
            final(self).wf(),
            final(self)@ == without_value(old(self)@, *value),
    {
        let ghost before = *self;
        let mut rest: OrdMap<K, OrdMap<V, ()>> = OrdMap::new();
        while self.0.len() > 0
            invariant
                before.wf(),
                self.0.wf(),
                rest.wf(),
                forall|k: K| #[trigger]
                    self.0@.dom().contains(k) ==> before.0@.dom().contains(k) && self.0@[k]
                        == before.0@[k],
                forall|k: K| #[trigger]
                    rest@.dom().contains(k) ==> before.0@.dom().contains(k) && rest@[k].wf()
                        && rest@[k]@.dom() == before.0@[k]@.dom().remove(*value),
                forall|k: K| #[trigger]
                    before.0@.dom().contains(k) ==> self.0@.dom().contains(k)
                        || rest@.dom().contains(k),
            decreases self.0.keys().len(),
        {
            proof {
                self.0.lemma_keys();
                assert(self.0@.dom().contains(self.0.keys()[0]));
            }
            if let Some((key, mut set)) = self.0.pop_first() {
                let ghost full = set@;
                set.remove(value);
                assert(set@.dom() =~= full.dom().remove(*value));
                rest.insert(key, set);
            }
        }
        proof {
            self.0.lemma_keys();
            assert forall|k: K| !self.0@.dom().contains(k) by {
                assert(self.0.keys().contains(k) == self.0@.dom().contains(k));
            }
        }
        self.0 = rest;
        assert(self@ =~= without_value(before@, *value));
    }

    /// The set of every key is finite.
    pub proof fn lemma_finite(&self)
        requires
            self.wf(),
        ensures
            forall|key: K| #[trigger] set_of(self@, key).finite(),
    {
        assert forall|key: K| #[trigger] set_of(self@, key).finite() by {
            self.lemma_len(key);
        }
    }

    /// The set of a key, in ascending order.
    pub fn iter(&self, key: &K) -> (r: Vec<V>)
        requires
            self.wf(),
        ensures
            lists(r@, set_of(self@, *key)),
            r@ == listing(set_of(self@, *key)),
    {
        let mut out: Vec<V> = Vec::new();
        match self.0.get(key) {
            Some(set) => {
                let mut i: usize = 0;
                while i < set.len()
                    invariant
                        i <= set.keys().len(),
                        out@ == set.keys().take(i as int),
                    decreases set.keys().len() - i,
                {
                    out.push(set.key_at(i));
                    assert(set.keys().take(i + 1) =~= set.keys().take(i as int).push(
                        set.keys()[i as int],
                    ));
                    i = i + 1;
                }
                proof {
                    set.lemma_keys();
                    assert(out@ =~= set.keys());
                    assert(set@.dom() == set_of(self@, *key));
                }
            },
            None => {
                proof {
                    crate::ordmap::lemma_listing(out@, Set::<V>::empty());
                }
            },
        }
        out
    }
}

/// A frame and the stream that it goes to.
pub struct FrameOut {
    pub addr: StreamAddr,
    pub frame: Frame,
}

/// A stream that a client opened.
pub enum ServerConnEvent {
    ControlStream(StreamAddr, ControlBiStream),
    AnnounceStream(StreamAddr, AnnounceBiStream),
    QueryStream(StreamAddr, QueryBiStream),
}

/// The streams of all clients, what they announced, and what they query for.
pub struct ServerActor {
    streams_by_conn: OrdMap<ConnId, OrdMap<StreamId, StreamType>>,
    announce_in: Vec<NextFrame<AnnounceRequest>>,
    query_in: Vec<NextFrame<QueryRequest>>,
    control_in: Vec<NextFrame<ControlMessage>>,
    control_out: OrdMap<ConnId, FrameSendStream>,
    senders: OrdMap<StreamAddr, FrameSendStream>,
    outqueues: Outqueues,
    peer_announcements: OrdMap<PublicKey, SealedEnvelope<SignedFrame>>,
    peer_queries: HashMapSet<PeerId, StreamAddr>,
    closing: OrdMap<StreamAddr, ()>,
}

/// What a [`ServerActor`] holds.
#[verifier::ext_equal]
pub struct ServerModel {
    /// The types of the streams of each connection.
    pub streams: Map<ConnId, Map<StreamId, StreamType>>,
    pub announce_in: Seq<NextFrame<AnnounceRequest>>,
    pub query_in: Seq<NextFrame<QueryRequest>>,
    pub control_in: Seq<NextFrame<ControlMessage>>,
    pub control_out: Map<ConnId, FrameSendStream>,
    pub senders: Map<StreamAddr, FrameSendStream>,
    /// The frames that are queued for each stream.
    pub queues: Map<StreamAddr, Seq<FrameValue>>,
    /// The last announcement of each peer.
    pub announcements: Map<PublicKey, SealedValue>,
    /// The streams that query for each peer.
    pub queries: Map<PeerId, Set<StreamAddr>>,
    /// The streams whose sending side is closed, or will be once all that is queued is sent.
    pub closing: Set<StreamAddr>,
}

/// The frame that hands on a signed announcement.
pub open spec fn handing_on(envelope: SealedValue) -> FrameValue {
    FrameValue { rid: None, payload: FramePayloadValue::Signed(envelope) }
}

/// The frame that ends a query.
pub open spec fn ending() -> FrameValue {
    FrameValue {
        rid: None,
        payload: FramePayloadValue::Unsigned(UnsignedFrameValue::End(End {  })),
    }
}

/// The frame that acknowledges an announcement that came with number `rid`. An announcement
/// without a number is acknowledged by number 0.
pub open spec fn acknowledging(rid: Option<Rid>) -> FrameValue {
    let number = match rid {
        Some(number) => number,
        None => 0,
    };
    FrameValue {
        rid,
        payload: FramePayloadValue::Unsigned(UnsignedFrameValue::Ack(Ack { rid: number })),
    }
}

/// The server with one more frame queued.
pub open spec fn with_queued(m: ServerModel, addr: StreamAddr, frame: FrameValue) -> ServerModel {
    ServerModel { queues: m.queues.insert(addr, queued(m.queues, addr).push(frame)), ..m }
}

/// The server after a stream queried for one peer: what the peer last announced is queued, and
/// the stream is noted for what it announces later.
pub open spec fn asked(m: ServerModel, addr: StreamAddr, id: PeerId) -> ServerModel {
    let answered = if m.announcements.dom().contains(id) {
        with_queued(m, addr, handing_on(m.announcements[id]))
    } else {
        m
    };
    ServerModel {
        queries: m.queries.insert(id, set_of(m.queries, id).insert(addr)),
        ..answered
    }
}

/// The server after a stream queried for several peers.
pub open spec fn asked_all(m: ServerModel, addr: StreamAddr, ids: Seq<PeerId>) -> ServerModel
    decreases ids.len(),
{
    if ids.len() == 0 {
        m
    } else {
        asked(asked_all(m, addr, ids.drop_last()), addr, ids.last())
    }
}

/// The server after the client ended what it queries for on a stream: the stream queries for no
/// peer any more, the end is queued behind all replies, and the sending side is closed behind it.
pub open spec fn ended(m: ServerModel, addr: StreamAddr) -> ServerModel {
    ServerModel {
        queries: without_value(m.queries, addr),
        closing: m.closing.insert(addr),
        ..with_queued(m, addr, ending())
    }
}

/// The server after a message on a query stream. On a stream whose sending side is closed, or is
/// being closed, nothing is answered any more.
pub open spec fn after_request(m: ServerModel, addr: StreamAddr, req: QueryRequest) -> ServerModel {
    if m.closing.contains(addr) {
        m
    } else {
        match req {
            QueryRequest::Query(_) => asked_all(m, addr, queried(req)),
            QueryRequest::End(_) => ended(m, addr),
            QueryRequest::Error(_) => m,
        }
    }
}

/// The server with one frame queued for each of several streams.
pub open spec fn told_all(m: ServerModel, addrs: Seq<StreamAddr>, frame: FrameValue) -> ServerModel
    decreases addrs.len(),
{
    if addrs.len() == 0 {
        m
    } else {
        with_queued(told_all(m, addrs.drop_last(), frame), addrs.last(), frame)
    }
}

/// The server after a peer announced where it can be reached: the envelope of the announcement
/// replaces that of the last one, and is queued as it came for all streams that query for the peer.
pub open spec fn announced(m: ServerModel, envelope: SealedValue) -> ServerModel {
    told_all(
        ServerModel { announcements: m.announcements.insert(envelope.issuer, envelope), ..m },
        listing(set_of(m.queries, envelope.issuer)),
        handing_on(envelope),
    )
}

/// The streams of a connection with one more.
pub open spec fn with_stream(m: ServerModel, addr: StreamAddr, typ: StreamType) -> ServerModel {
    let streams = if m.streams.dom().contains(addr.conn_id) {
        m.streams[addr.conn_id]
    } else {
        Map::empty()
    };
    ServerModel {
        streams: m.streams.insert(addr.conn_id, streams.insert(addr.stream_id, typ)),
        ..m
    }
}

/// Whether a connection has an announce or query stream of that number.
pub open spec fn is_sending(m: ServerModel, addr: StreamAddr) -> bool {
    &&& m.streams.dom().contains(addr.conn_id)
    &&& m.streams[addr.conn_id].dom().contains(addr.stream_id)
    &&& m.streams[addr.conn_id][addr.stream_id] != StreamType::Control
}

/// Whether a connection has a control stream.
pub open spec fn is_controlled(m: ServerModel, conn_id: ConnId) -> bool {
    m.streams.dom().contains(conn_id) && exists|id: StreamId| #[trigger]
        m.streams[conn_id].dom().contains(id) && m.streams[conn_id][id] == StreamType::Control
}

/// The server without the streams of a connection.
pub open spec fn without_conn(m: ServerModel, conn_id: ConnId) -> ServerModel {
    ServerModel {
        streams: m.streams.remove(conn_id),
        control_out: if is_controlled(m, conn_id) {
            m.control_out.remove(conn_id)
        } else {
            m.control_out
        },
        senders: Map::new(
            |addr: StreamAddr|
                m.senders.dom().contains(addr) && !(addr.conn_id == conn_id && is_sending(m, addr)),
            |addr: StreamAddr| m.senders[addr],
        ),
        ..m
    }
}

/// The server after a client opened a stream.
pub open spec fn with_opened(m: ServerModel, event: ServerConnEvent) -> ServerModel {
    match event {
        ServerConnEvent::AnnounceStream(addr, (send, recv)) => with_stream(
            ServerModel {
                announce_in: m.announce_in.push(NextFrame { addr, stream: Some(recv) }),
                senders: m.senders.insert(addr, send),
                closing: m.closing.remove(addr),
                ..m
            },
            addr,
            StreamType::Announce,
        ),
        ServerConnEvent::QueryStream(addr, (send, recv)) => with_stream(
            ServerModel {
                query_in: m.query_in.push(NextFrame { addr, stream: Some(recv) }),
                senders: m.senders.insert(addr, send),
                closing: m.closing.remove(addr),
                ..m
            },
            addr,
            StreamType::Query,
        ),
        ServerConnEvent::ControlStream(addr, (send, recv)) => with_stream(
            ServerModel {
                control_in: m.control_in.push(NextFrame { addr, stream: Some(recv) }),
                control_out: m.control_out.insert(addr.conn_id, send),
                ..m
            },
            addr,
            StreamType::Control,
        ),
    }
}

/// Whether a message on an announce stream is one that is handled: of announcements, only signed
/// ones of where a peer can be reached.
pub open spec fn is_peer_announcement(req: AnnounceRequest, meta: FrameMeta) -> bool {
    req matches AnnounceRequest::Announce(a) ==> a.payload is PeerInfo && meta.envelope is Some
}

/// Whether a message on a query stream is one that is handled: of queries, only those for peers.
pub open spec fn is_peer_query(req: QueryRequest) -> bool {
    req matches QueryRequest::Query(q) ==> q.query is Peers
}

/// The peers that a message on a query stream queries for.
pub open spec fn queried(req: QueryRequest) -> Seq<PeerId> {
    match req {
        QueryRequest::Query(q) => match q.query {
            QueryPayload::Peers(peers) => peers.peer_ids@,
            QueryPayload::Keys(_) => Seq::empty(),
        },
        _ => Seq::empty(),
    }
}

/// How many frames at most are queued for a message on a query stream.
pub open spec fn most_replies(req: QueryRequest) -> nat {
    match req {
        QueryRequest::Query(_) => queried(req).len(),
        QueryRequest::End(_) => 1,
        QueryRequest::Error(_) => 0,
    }
}

/// How many frames are queued for a message on an announce stream.
pub open spec fn handed_on(m: ServerModel, req: AnnounceRequest, meta: FrameMeta) -> nat {
    if req is Announce {
        set_of(m.queries, meta.signed()->0.issuer).len() + 1
    } else {
        0
    }
}

/// The server after a message on an announce stream: an announcement is handed on and
/// acknowledged.
pub open spec fn after_message(
    m: ServerModel,
    addr: StreamAddr,
    req: AnnounceRequest,
    meta: FrameMeta,
) -> ServerModel {
    match req {
        AnnounceRequest::Announce(_) => with_queued(
            announced(m, meta.signed()->0),
            addr,
            acknowledging(meta.rid),
        ),
        _ => m,
    }
}

/// The server after an announce stream failed: the connection is dropped, if it is known.
pub open spec fn after_failure(m: ServerModel, conn_id: ConnId) -> ServerModel {
    if m.control_out.dom().contains(conn_id) {
        without_conn(m, conn_id)
    } else {
        m
    }
}

/// The server after the announce stream at position `i` was awaited with outcome `frame`.
pub open spec fn after_announce(
    m: ServerModel,
    i: int,
    frame: Received<AnnounceRequest>,
) -> ServerModel {
    let fut = m.announce_in[i];
    let taken = ServerModel { announce_in: m.announce_in.remove(i), ..m };
    match frame {
        Ok(Some((req, meta))) => {
            let after = after_message(taken, fut.addr, req, meta);
            ServerModel { announce_in: after.announce_in.push(fut), ..after }
        },
        Ok(None) => taken,
        Err(_) => after_failure(taken, fut.addr.conn_id),
    }
}

/// The server after the query stream at position `i` was awaited with outcome `frame`.
pub open spec fn after_query(m: ServerModel, i: int, frame: Received<QueryRequest>) -> ServerModel {
    let fut = m.query_in[i];
    let taken = ServerModel { query_in: m.query_in.remove(i), ..m };
    match frame {
        Ok(Some((req, _))) => {
            let after = after_request(taken, fut.addr, req);
            ServerModel { query_in: after.query_in.push(fut), ..after }
        },
        Ok(None) => taken,
        Err(_) => after_failure(taken, fut.addr.conn_id),
    }
}

/// What happens to a server.
pub enum ServerEvent {
    /// A client opened a stream, or no client will any more.
    Endpoint(Option<ServerConnEvent>),
    /// Something was received on the announce stream at a position.
    Announce(usize, Received<AnnounceRequest>),
    /// Something was received on the query stream at a position.
    Query(usize, Received<QueryRequest>),
    /// A stream can be written to, or was cancelled.
    Sender(StreamAddr, bool),
}

/// What a server does next.
#[derive(Clone, Copy, Debug, PartialEq, Eq, Structural)]
pub enum ServerStep {
    /// Waits for the next event.
    Continue,
    /// Stops.
    Stop,
    /// Goes on with the stream that the event was about.
    Sender(QueuePoll),
}

/// Whether a server with that many frames queued can handle an event: its streams are there, and
/// what was received is of the handled kinds.
pub open spec fn can_handle(m: ServerModel, backlog: nat, event: ServerEvent) -> bool {
    match event {
        ServerEvent::Endpoint(event) => {
            &&& event matches Some(ServerConnEvent::AnnounceStream(_, (send, _))) ==> send.wf()
            &&& event matches Some(ServerConnEvent::QueryStream(_, (send, _))) ==> send.wf()
        },
        ServerEvent::Announce(i, frame) => {
            &&& i < m.announce_in.len()
            &&& frame matches Ok(Some((req, meta))) ==> {
                &&& is_peer_announcement(req, meta)
                &&& backlog + handed_on(m, req, meta) <= usize::MAX
            }
        },
        ServerEvent::Query(i, frame) => {
            &&& i < m.query_in.len()
            &&& frame matches Ok(Some((req, _))) ==> {
                &&& is_peer_query(req)
                &&& backlog + most_replies(req) <= usize::MAX
            }
        },
        ServerEvent::Sender(addr, cancelled) => {
            &&& m.senders.dom().contains(addr)
            &&& queued(m.queues, addr).len() > 0 ==> !cancelled && !m.senders[addr].is_cancelled()
        },
    }
}

/// Whether `r` is what a server does after an event, and `after` the server afterwards.
pub open spec fn runs(
    m: ServerModel,
    event: ServerEvent,
    r: ServerStep,
    after: ServerModel,
) -> bool {
    match event {
        ServerEvent::Endpoint(None) => r == ServerStep::Stop && after == m,
        ServerEvent::Endpoint(Some(event)) => r == ServerStep::Continue && after == with_opened(
            m,
            event,
        ),
        ServerEvent::Announce(i, frame) => r == ServerStep::Continue && after == after_announce(
            m,
            i as int,
            frame,
        ),
        ServerEvent::Query(i, frame) => r == ServerStep::Continue && after == after_query(
            m,
            i as int,
            frame,
        ),
        ServerEvent::Sender(addr, cancelled) => r matches ServerStep::Sender(poll) && sends(
            m,
            addr,
            cancelled,
            poll,
            after,
        ),
    }
}

impl ServerActor {
    /// What this holds.
    pub closed spec fn model(&self) -> ServerModel {
        ServerModel {
            streams: self.streams_by_conn@.map_values(|s: OrdMap<StreamId, StreamType>| s@),
            announce_in: self.announce_in@,
            query_in: self.query_in@,
            control_in: self.control_in@,
            control_out: self.control_out@,
            senders: self.senders@,
            queues: self.outqueues@.map_values(|q: Seq<Frame>| frame_values(q)),
            announcements: self.peer_announcements@.map_values(
                |e: SealedEnvelope<SignedFrame>| e@,
            ),
            queries: self.peer_queries@,
            closing: self.closing@.dom(),
        }
    }

    /// Number of frames that are queued.
    pub closed spec fn backlog(&self) -> nat {
        total(self.outqueues@)
    }

    /// Whether all tables and streams are well-formed.
    pub closed spec fn wf(&self) -> bool {
        &&& self.streams_by_conn.wf()
        &&& forall|c: ConnId| #[trigger]
            self.streams_by_conn@.dom().contains(c) ==> self.streams_by_conn@[c].wf()
        &&& self.control_out.wf()
        &&& self.senders.wf()
        &&& forall|a: StreamAddr| #[trigger]
            self.senders@.dom().contains(a) ==> self.senders@[a].wf()
        &&& self.outqueues.wf()
        &&& self.peer_announcements.wf()
        &&& self.peer_queries.wf()
        &&& self.closing.wf()
        &&& all_awaited(self.announce_in@)
        &&& all_awaited(self.query_in@)
        &&& all_awaited(self.control_in@)
    }

    /// Finitely many streams query for each peer, the streams that are sent on are finitely many
    /// and well-formed, and every stream that is awaited is there.
    pub proof fn lemma_wf(&self)
        requires
            self.wf(),
        ensures
            forall|id: PeerId| #[trigger] set_of(self.model().queries, id).finite(),
            self.model().senders.dom().finite(),
            forall|addr: StreamAddr|
                #![trigger self.model().senders.dom().contains(addr)]
                #![trigger self.model().senders[addr]]
                self.model().senders.dom().contains(addr) ==> self.model().senders[addr].wf(),
            all_awaited(self.model().announce_in),
            all_awaited(self.model().query_in),
            all_awaited(self.model().control_in),
    {
        self.peer_queries.lemma_finite();
        self.senders.lemma_keys();
    }

    /// A server without clients.
    pub fn new() -> (r: Self)
        ensures
            r.wf(),
            r.backlog() == 0,
            r.model() == (ServerModel {
                streams: Map::empty(),
                announce_in: Seq::empty(),
                query_in: Seq::empty(),
                control_in: Seq::empty(),
                control_out: Map::empty(),
                senders: Map::empty(),
                queues: Map::empty(),
                announcements: Map::empty(),
                queries: Map::empty(),
                closing: Set::empty(),
            }),
    {
        let r = ServerActor {
            streams_by_conn: OrdMap::new(),
            announce_in: Vec::new(),
            query_in: Vec::new(),
            control_in: Vec::new(),
            control_out: OrdMap::new(),
            senders: OrdMap::new(),
            outqueues: queue::Outqueues::new(),
            peer_announcements: OrdMap::new(),
            peer_queries: HashMapSet::new(),
            closing: OrdMap::new(),
        };
        assert(r.model().streams =~= Map::empty());
        assert(r.model().queues =~= Map::empty());
        assert(r.model().announcements =~= Map::empty());
        assert(r.model().closing =~= Set::empty());
        r
    }

    /// Number of frames that are queued.
    pub fn backlog_len(&self) -> (r: usize)
        requires
            self.wf(),
        ensures
            r == self.backlog(),
    {
        self.outqueues.total_len()
    }

    /// Notes a stream of a connection.
    pub fn insert_stream_addr(&mut self, addr: StreamAddr, typ: StreamType)
        requires
            old(self).wf(),
        ensures
            final(self).wf(),
            final(self).backlog() == old(self).backlog(),
            final(self).model() == with_stream(old(self).model(), addr, typ),
    {
        let ghost before = *self;
        let mut streams = match self.streams_by_conn.remove(&addr.conn_id) {
            Some(streams) => streams,
            None => OrdMap::new(),
        };
        streams.insert(addr.stream_id, typ);
        self.streams_by_conn.insert(addr.conn_id, streams);
        proof {
            let after = with_stream(before.model(), addr, typ);
            assert(self.model().streams[addr.conn_id] =~= after.streams[addr.conn_id]);
            assert(self.model().streams =~= after.streams);
            assert(self.model() =~= after);
        }
    }

    /// Drops the streams of a connection.
    pub fn remove_conn(&mut self, conn_id: &ConnId)
        requires
            old(self).wf(),
        ensures
            final(self).wf(),
            final(self).backlog() == old(self).backlog(),
            final(self).model() == without_conn(old(self).model(), *conn_id),
    {
        let ghost before = *self;
        let ghost m = self.model();
        if let Some(streams) = self.streams_by_conn.remove(conn_id) {
            let ghost ids = streams.keys();
            let mut i: usize = 0;
            proof {
                streams.lemma_keys();
            }
            while i < streams.len()
                invariant
                    before.wf(),
                    m == before.model(),
                    m.streams.dom().contains(*conn_id),
                    m.streams[*conn_id] == streams@,
                    streams.wf(),
                    ids == streams.keys(),
                    forall|k: int|
                        0 <= k < ids.len() ==> streams@.dom().contains(#[trigger] ids[k]),
                    i <= ids.len(),
                    self.streams_by_conn.wf(),
                    self.streams_by_conn@ == before.streams_by_conn@.remove(*conn_id),
                    self.announce_in == before.announce_in,
                    self.query_in == before.query_in,
                    self.control_in == before.control_in,
                    self.outqueues == before.outqueues,
                    self.peer_announcements == before.peer_announcements,
                    self.peer_queries == before.peer_queries,
                    self.closing == before.closing,
                    self.control_out.wf(),
                    self.senders.wf(),
                    self.control_out@ == (if exists|k: int|
                        0 <= k < i && #[trigger] streams@[ids[k]] == StreamType::Control {
                        m.control_out.remove(*conn_id)
                    } else {
                        m.control_out
                    }),
                    forall|a: StreamAddr| #[trigger]
                        self.senders@.dom().contains(a) <==> m.senders.dom().contains(a) && !(
                        a.conn_id == *conn_id && exists|k: int|
                            0 <= k < i && #[trigger] ids[k] == a.stream_id && streams@[ids[k]]
                                != StreamType::Control),
                    forall|a: StreamAddr| #[trigger]
                        self.senders@.dom().contains(a) ==> self.senders@[a] == m.senders[a],
                decreases ids.len() - i,
            {
                let stream_id = streams.key_at(i);
                let ghost out0 = self.control_out@;
                let ghost senders0 = self.senders@;
                match *streams.value_at(i) {
                    StreamType::Control => {
                        self.control_out.remove(conn_id);
                        proof {
                            assert(streams@[ids[i as int]] == StreamType::Control);
                            assert(self.control_out@ =~= m.control_out.remove(*conn_id));
                        }
                    },
                    StreamType::Announce | StreamType::Query => {
                        self.senders.remove(&StreamAddr { conn_id: *conn_id, stream_id });
                    },
                }
                i = i + 1;
            }
            proof {
                assert forall|id: StreamId| streams@.dom().contains(id) implies exists|k: int|
                    0 <= k < ids.len() && #[trigger] ids[k] == id by {
                    assert(ids.contains(id));
                }
                if is_controlled(m, *conn_id) {
                    let id = choose|id: StreamId| #[trigger]
                        m.streams[*conn_id].dom().contains(id) && m.streams[*conn_id][id]
                            == StreamType::Control;
                    let k = choose|k: int| 0 <= k < ids.len() && #[trigger] ids[k] == id;
                    assert(streams@[ids[k]] == StreamType::Control);
                }
                let after = without_conn(m, *conn_id);
                assert(self.model().senders =~= after.senders);
                assert(self.model().streams =~= after.streams);
                assert(self.model().control_out =~= after.control_out);
                assert(self.model() =~= after);
            }
        } else {
            proof {
                let after = without_conn(m, *conn_id);
                assert(self.model().senders =~= after.senders);
                assert(self.model().streams =~= after.streams);
                assert(self.model() =~= after);
            }
        }
    }

    /// Whether a connection is known.
    pub fn has_conn(&self, conn_id: &ConnId) -> (r: bool)
        requires
            self.wf(),
        ensures
            r == self.model().control_out.dom().contains(*conn_id),
    {
        self.control_out.contains(conn_id)
    }

    /// Queues a frame.
    fn push_frame(&mut self, addr: StreamAddr, frame: Frame)
        requires
            old(self).wf(),
            old(self).backlog() < usize::MAX,
        ensures
            final(self).wf(),
            final(self).backlog() == old(self).backlog() + 1,
            final(self).model() == with_queued(old(self).model(), addr, frame.value()),
    {
        let ghost before = *self;
        self.outqueues.push_back(addr, frame);
        proof {
            let after = with_queued(before.model(), addr, frame.value());
            assert(frame_values(queued(before.outqueues@, addr).push(frame)) =~= frame_values(
                queued(before.outqueues@, addr),
            ).push(frame.value()));
            assert(frame_values(queued(before.outqueues@, addr)) =~= queued(
                before.model().queues,
                addr,
            ));
            assert(self.model().queues =~= after.queues);
            assert(self.model() =~= after);
        }
    }

    /// Queues a frame that hands on a signed announcement.
    fn hand_on(&mut self, addr: StreamAddr, envelope: &SealedEnvelope<SignedFrame>)
        requires
            old(self).wf(),
            old(self).backlog() < usize::MAX,
        ensures
            final(self).wf(),
            final(self).backlog() == old(self).backlog() + 1,
            final(self).model() == with_queued(old(self).model(), addr, handing_on(envelope@)),
    {
        let frame = Frame { rid: None, payload: FramePayload::Signed(envelope.clone()) };
        assert(frame.rid.value() == None::<u64>);
        assert(frame.value() == handing_on(envelope@));
        self.push_frame(addr, frame);
    }

    /// Handles a message on a query stream. A query is answered with what its peers last announced,
    /// and its stream is noted for what they announce later. The end of a query is answered with
    /// the end of the replies, and the sending side of the stream is closed.
    pub fn handle_query(&mut self, addr: StreamAddr, req: QueryRequest)
        requires
            old(self).wf(),
            is_peer_query(req),
            old(self).backlog() + most_replies(req) <= usize::MAX,
        ensures
            final(self).wf(),
            final(self).backlog() <= old(self).backlog() + most_replies(req),
            final(self).model() == after_request(old(self).model(), addr, req),
            !old(self).model().closing.contains(addr) ==> (req matches QueryRequest::Query(q) ==> (
            q.query matches QueryPayload::Peers(peers) ==> forall|i: int|
                0 <= i < peers.peer_ids@.len() ==> {
                    let id = #[trigger] peers.peer_ids@[i];
                    let announcements = old(self).model().announcements;
                    &&& final(self).model().queries.dom().contains(id)
                    &&& final(self).model().queries[id].contains(addr)
                    &&& announcements.dom().contains(id)
                        ==> final(self).model().queues.dom().contains(addr)
                        && final(self).model().queues[addr].contains(
                        FrameValue {
                            rid: None,
                            payload: FramePayloadValue::Signed(announcements[id]),
                        },
                    )
                })),
    {
        proof {
            let m = self.model();
            if !m.closing.contains(addr) && req is Query && req->Query_0.query is Peers {
                law_query_answers_every_listed_peer(
                    m,
                    addr,
                    req,
                    req->Query_0.query->Peers_0.peer_ids@,
                );
            }
        }
        if self.closing.contains(&addr) {
            return ;
        }
        match req {
            QueryRequest::Query(req) => match req.query {
                QueryPayload::Peers(peers) => self.subscribe(addr, &peers.peer_ids),
                QueryPayload::Keys(_) => {},
            },
            QueryRequest::End(_) => self.end_query(addr),
            QueryRequest::Error(_) => {},
        }
    }

    /// Answers a query for peers.
    fn subscribe(&mut self, addr: StreamAddr, peer_ids: &Vec<PeerId>)
        requires
            old(self).wf(),
            old(self).backlog() + peer_ids@.len() <= usize::MAX,
        ensures
            final(self).wf(),
            final(self).backlog() <= old(self).backlog() + peer_ids@.len(),
            final(self).model() == asked_all(old(self).model(), addr, peer_ids@),
    {
        let ghost m = self.model();
        let ghost ids = peer_ids@;
        let ghost backlog = self.backlog();
        let mut i: usize = 0;
        assert(ids.take(0) =~= Seq::<PeerId>::empty());
        while i < peer_ids.len()
            invariant
                ids == peer_ids@,
                i <= ids.len(),
                self.wf(),
                backlog + ids.len() <= usize::MAX,
                self.backlog() <= backlog + i,
                self.model() == asked_all(m, addr, ids.take(i as int)),
            decreases ids.len() - i,
        {
            let id = peer_ids[i];
            let ghost before = *self;
            let found = match self.peer_announcements.get(&id) {
                Some(envelope) => Some(envelope.clone()),
                None => None,
            };
            if let Some(envelope) = found {
                self.hand_on(addr, &envelope);
            }
            self.peer_queries.insert(id, addr);
            proof {
                assert(ids.take(i + 1).drop_last() =~= ids.take(i as int));
                assert(ids.take(i + 1).last() == id);
                assert(self.model() =~= asked(before.model(), addr, id));
            }
            i = i + 1;
        }
        assert(ids.take(i as int) =~= ids);
    }

    /// Ends the replies on a query stream.
    fn end_query(&mut self, addr: StreamAddr)
        requires
            old(self).wf(),
            old(self).backlog() < usize::MAX,
        ensures
            final(self).wf(),
            final(self).backlog() == old(self).backlog() + 1,
            final(self).model() == ended(old(self).model(), addr),
    {
        let ghost m = self.model();
        let end = Frame { rid: None, payload: FramePayload::Unsigned(UnsignedFrame::End(End {  })) };
        assert(end.rid.value() == None::<u64>);
        self.push_frame(addr, end);
        self.peer_queries.remove_value(&addr);
        self.closing.insert(addr, ());
        proof {
            assert(self.closing@.dom() =~= m.closing.insert(addr));
            assert(self.model() =~= ended(m, addr));
        }
    }

    /// Handles a message on an announce stream. An announcement is noted, queued for all streams
    /// that query for its peer, and acknowledged on its own stream.
    pub fn handle_announce(&mut self, addr: StreamAddr, req: AnnounceRequest, meta: FrameMeta)
        requires
            old(self).wf(),
            is_peer_announcement(req, meta),
            old(self).backlog() + handed_on(old(self).model(), req, meta) <= usize::MAX,
        ensures
            final(self).wf(),
            final(self).backlog() == old(self).backlog() + handed_on(
                old(self).model(),
                req,
                meta,
            ),
            final(self).model() == after_message(old(self).model(), addr, req, meta),
    {
        let ghost m = self.model();
        let ghost backlog = self.backlog();
        match req {
            AnnounceRequest::Announce(_) => {
                let envelope = match &meta.envelope {
                    Some(envelope) => envelope.clone(),
                    None => return ,
                };
                let issuer = envelope.issuer();
                self.peer_announcements.insert(issuer, envelope.clone());
                let ghost noted = self.model();
                assert(noted =~= (ServerModel {
                    announcements: m.announcements.insert(issuer, envelope@),
                    ..m
                }));
                let addrs = self.peer_queries.iter(&issuer);
                proof {
                    self.peer_queries.lemma_len(issuer);
                    assert(addrs@.take(0) =~= Seq::<StreamAddr>::empty());
                }
                let mut i: usize = 0;
                while i < addrs.len()
                    invariant
                        i <= addrs@.len(),
                        self.wf(),
                        backlog + addrs@.len() < usize::MAX,
                        self.backlog() == backlog + i,
                        self.model() == told_all(
                            noted,
                            addrs@.take(i as int),
                            handing_on(envelope@),
                        ),
                    decreases addrs@.len() - i,
                {
                    self.hand_on(addrs[i], &envelope);
                    assert(addrs@.take(i + 1).drop_last() =~= addrs@.take(i as int));
                    assert(addrs@.take(i + 1).last() == addrs@[i as int]);
                    i = i + 1;
                }
                assert(addrs@.take(i as int) =~= addrs@);
                let number = match meta.rid {
                    Some(number) => number,
                    None => 0,
                };
                let ack = Frame {
                    rid: meta.rid,
                    payload: FramePayload::Unsigned(UnsignedFrame::Ack(Ack { rid: number })),
                };
                assert(ack.rid.value() == meta.rid);
                assert(ack.value() == acknowledging(meta.rid));
                self.push_frame(addr, ack);
            },
            AnnounceRequest::End(_) | AnnounceRequest::Error(_) => {},
        }
    }

    /// Takes a stream that a client opened. The result says whether more can come.
    pub fn handle_endpoint_event(&mut self, event: Option<ServerConnEvent>) -> (r: bool)
        requires
            old(self).wf(),
            event matches Some(ServerConnEvent::AnnounceStream(_, (send, _))) ==> send.wf(),
            event matches Some(ServerConnEvent::QueryStream(_, (send, _))) ==> send.wf(),
        ensures
            final(self).wf(),
            final(self).backlog() == old(self).backlog(),
            r == (event is Some),
            final(self).model() == (match event {
                Some(event) => with_opened(old(self).model(), event),
                None => old(self).model(),
            }),
            match event {
                Some(ServerConnEvent::AnnounceStream(addr, (send, recv))) => {
                    &&& final(self).model().announce_in == old(self).model().announce_in.push(
                        NextFrame { addr, stream: Some(recv) },
                    )
                    &&& final(self).model().senders == old(self).model().senders.insert(addr, send)
                },
                Some(ServerConnEvent::QueryStream(addr, (send, recv))) => {
                    &&& final(self).model().query_in == old(self).model().query_in.push(
                        NextFrame { addr, stream: Some(recv) },
                    )
                    &&& final(self).model().senders == old(self).model().senders.insert(addr, send)
                },
                Some(ServerConnEvent::ControlStream(addr, (send, recv))) => {
                    &&& final(self).model().control_in == old(self).model().control_in.push(
                        NextFrame { addr, stream: Some(recv) },
                    )
                    &&& final(self).model().control_out == old(self).model().control_out.insert(
                        addr.conn_id,
                        send,
                    )
                },
                None => true,
            },
    {
        let ghost m = self.model();
        let event = match event {
            Some(event) => event,
            None => return false,
        };
        match event {
            ServerConnEvent::AnnounceStream(addr, (send, recv)) => {
                self.announce_in.push(next_frame(addr, recv));
                self.senders.insert(addr, send);
                self.closing.remove(&addr);
                assert(self.closing@.dom() =~= m.closing.remove(addr));
                self.insert_stream_addr(addr, StreamType::Announce);
            },
            ServerConnEvent::QueryStream(addr, (send, recv)) => {
                self.query_in.push(next_frame(addr, recv));
                self.senders.insert(addr, send);
                self.closing.remove(&addr);
                assert(self.closing@.dom() =~= m.closing.remove(addr));
                self.insert_stream_addr(addr, StreamType::Query);
            },
            ServerConnEvent::ControlStream(addr, (send, recv)) => {
                self.control_in.push(next_frame(addr, recv));
                self.control_out.insert(addr.conn_id, send);
                self.insert_stream_addr(addr, StreamType::Control);
            },
        }
        true
    }

    /// Takes note of what was received on the announce stream at position `i`.
    pub fn announce_received(&mut self, i: usize, frame: Received<AnnounceRequest>)
        requires
            old(self).wf(),
            i < old(self).model().announce_in.len(),
            frame matches Ok(Some((req, meta))) ==> {
                &&& is_peer_announcement(req, meta)
                &&& old(self).backlog() + handed_on(old(self).model(), req, meta) <= usize::MAX
            },
        ensures
            final(self).wf(),
            final(self).model() == after_announce(old(self).model(), i as int, frame),
    {
        let ghost m = self.model();
        let (addr, stream) = self.announce_in.remove(i).finish();
        assert(self.model() =~= (ServerModel { announce_in: m.announce_in.remove(i as int), ..m }));
        match frame {
            Ok(Some((req, meta))) => {
                self.handle_announce(addr, req, meta);
                self.announce_in.push(next_frame(addr, stream));
                assert(self.model() =~= after_announce(m, i as int, frame));
            },
            Ok(None) => {},
            Err(_) => {
                if self.has_conn(&addr.conn_id) {
                    self.remove_conn(&addr.conn_id);
                }
            },
        }
    }

    /// Takes note of what was received on the query stream at position `i`.
    pub fn query_received(&mut self, i: usize, frame: Received<QueryRequest>)
        requires
            old(self).wf(),
            i < old(self).model().query_in.len(),
            frame matches Ok(Some((req, _))) ==> {
                &&& is_peer_query(req)
                &&& old(self).backlog() + most_replies(req) <= usize::MAX
            },
        ensures
            final(self).wf(),
            final(self).model() == after_query(old(self).model(), i as int, frame),
    {
        let ghost m = self.model();
        let (addr, stream) = self.query_in.remove(i).finish();
        assert(self.model() =~= (ServerModel { query_in: m.query_in.remove(i as int), ..m }));
        match frame {
            Ok(Some((req, _meta))) => {
                self.handle_query(addr, req);
                self.query_in.push(next_frame(addr, stream));
                assert(self.model() =~= after_query(m, i as int, frame));
            },
            Ok(None) => {},
            Err(_) => {
                if self.has_conn(&addr.conn_id) {
                    self.remove_conn(&addr.conn_id);
                }
            },
        }
    }

    /// Decides what is done with a stream next. If it has nothing left to write, the next frame
    /// that is queued for it is started.
    pub fn poll_sender(&mut self, addr: &StreamAddr, cancelled: bool) -> (r: QueuePoll)
        requires
            old(self).wf(),
            old(self).model().senders.dom().contains(*addr),
            queued(old(self).model().queues, *addr).len() > 0 ==> !cancelled
                && !old(self).model().senders[*addr].is_cancelled(),
        ensures
            final(self).wf(),
            sends(old(self).model(), *addr, cancelled, r, final(self).model()),
    {
        let ghost before = *self;
        let mut stream = match self.senders.remove(addr) {
            Some(stream) => stream,
            None => return QueuePoll::Idle,
        };
        proof {
            stream.lemma_ready();
            assert(frame_values(queued(before.outqueues@, *addr)) =~= queued(
                before.model().queues,
                *addr,
            ));
        }
        let polled = stream.poll_send(cancelled);
        proof {
            stream.lemma_ready();
        }
        let r = match polled {
            SendPoll::Write => QueuePoll::Write,
            SendPoll::Ready => match self.outqueues.pop_front(addr) {
                None => QueuePoll::Idle,
                Some(frame) => {
                    let started = stream.start_send(&frame);
                    assert(started is Ok);
                    QueuePoll::Write
                },
            },
        };
        self.senders.insert(*addr, stream);
        proof {
            let after = self.model();
            let old_m = before.model();
            assert(after.senders =~= old_m.senders.insert(*addr, stream));
            let waiting = queued(old_m.queues, *addr);
            if (cancelled || old_m.senders[*addr].ready()) && waiting.len() > 0 {
                assert(frame_values(before.outqueues@[*addr].drop_first()) =~= frame_values(
                    before.outqueues@[*addr],
                ).drop_first());
                assert(after.queues =~= old_m.queues.insert(
                    *addr,
                    old_m.queues[*addr].drop_first(),
                ));
            } else {
                assert(after.queues =~= old_m.queues);
            }
        }
        r
    }
}

impl ServerActor {
    /// Handles an event.
    pub fn poll_run(&mut self, event: ServerEvent) -> (r: ServerStep)
        requires
            old(self).wf(),
            can_handle(old(self).model(), old(self).backlog(), event),
        ensures
            final(self).wf(),
            runs(old(self).model(), event, r, final(self).model()),
    {
        match event {
            ServerEvent::Endpoint(event) => {
                if self.handle_endpoint_event(event) {
                    ServerStep::Continue
                } else {
                    ServerStep::Stop
                }
            },
            ServerEvent::Announce(i, frame) => {
                self.announce_received(i, frame);
                ServerStep::Continue
            },
            ServerEvent::Query(i, frame) => {
                self.query_received(i, frame);
                ServerStep::Continue
            },
            ServerEvent::Sender(addr, cancelled) => {
                ServerStep::Sender(self.poll_sender(&addr, cancelled))
            },
        }
    }

    /// A stream that can be sent on.
    pub fn sender(&self, addr: &StreamAddr) -> (r: Option<&FrameSendStream>)
        requires
            self.wf(),
        ensures
            match r {
                Some(stream) => self.model().senders.dom().contains(*addr) && *stream
                    == self.model().senders[*addr],
                None => !self.model().senders.dom().contains(*addr),
            },
    {
        self.senders.get(addr)
    }

    /// The addresses of all streams that can be sent on, in ascending order.
    pub fn sender_addrs(&self) -> (r: Vec<StreamAddr>)
        requires
            self.wf(),
        ensures
            lists(r@, self.model().senders.dom()),
    {
        let mut addrs: Vec<StreamAddr> = Vec::new();
        let mut i: usize = 0;
        while i < self.senders.len()
            invariant
                i <= self.senders.keys().len(),
                addrs@ == self.senders.keys().take(i as int),
            decreases self.senders.keys().len() - i,
        {
            addrs.push(self.senders.key_at(i));
            assert(self.senders.keys().take(i + 1) =~= self.senders.keys().take(i as int).push(
                self.senders.keys()[i as int],
            ));
            i = i + 1;
        }
        proof {
            self.senders.lemma_keys();
            assert(addrs@ =~= self.senders.keys());
        }
        addrs
    }

    /// Notes that the transport took the first `n` bytes that a stream had to write. The stream
    /// type has to be taken whole.
    pub fn wrote(&mut self, addr: &StreamAddr, n: usize) -> (r: Result<(), StreamError>)
        requires
            old(self).wf(),
            old(self).model().senders.dom().contains(*addr),
            !old(self).model().senders[*addr].ready(),
            n <= old(self).model().senders[*addr].unsent().len(),
        ensures
            final(self).wf(),
            final(self).backlog() == old(self).backlog(),
            took(old(self).model(), *addr, n as nat, final(self).model()),
            r == (if old(self).model().senders[*addr].at_header() && n != 1 {
                Err::<(), StreamError>(StreamError::FailedToWriteHeader)
            } else {
                Ok::<(), StreamError>(())
            }),
    {
        let ghost before = *self;
        let mut stream = match self.senders.remove(addr) {
            Some(stream) => stream,
            None => return Ok(()),
        };
        let r = stream.wrote(n);
        self.senders.insert(*addr, stream);
        proof {
            assert(self.senders@ =~= before.senders@.insert(*addr, stream));
            assert(self.model() =~= (ServerModel {
                senders: before.model().senders.insert(*addr, stream),
                ..before.model()
            }));
        }
        r
    }

    /// Whether all that was to be sent on a stream is sent, so that its sending side is to be
    /// closed.
    pub fn is_done(&self, addr: &StreamAddr) -> (r: bool)
        requires
            self.wf(),
        ensures
            r == done(self.model(), *addr),
    {
        proof {
            assert(frame_values(queued(self.outqueues@, *addr)) =~= queued(
                self.model().queues,
                *addr,
            ));
        }
        match self.senders.get(addr) {
            Some(stream) => stream.is_ready() && self.closing.contains(addr)
                && self.outqueues.is_empty(addr),
            None => false,
        }
    }

    /// Notes that the sending side of a stream was closed. It is not sent on any more.
    pub fn finish(&mut self, addr: &StreamAddr)
        requires
            old(self).wf(),
            done(old(self).model(), *addr),
        ensures
            final(self).wf(),
            final(self).backlog() == old(self).backlog(),
            final(self).model() == (ServerModel {
                senders: old(self).model().senders.remove(*addr),
                ..old(self).model()
            }),
    {
        self.senders.remove(addr);
    }

    /// Number of announce streams that are received on.
    pub fn announce_streams(&self) -> (r: usize)
        ensures
            r == self.model().announce_in.len(),
    {
        self.announce_in.len()
    }

    /// Number of query streams that are received on.
    pub fn query_streams(&self) -> (r: usize)
        ensures
            r == self.model().query_in.len(),
    {
        self.query_in.len()
    }

    /// The announce stream at position `i`, to read from and to poll.
    pub fn announce_stream_mut(&mut self, i: usize) -> (r: Option<
        &mut MappedRecvStream<AnnounceRequest>,
    >)
        requires
            old(self).wf(),
            i < old(self).model().announce_in.len(),
        ensures
            final(self).wf(),
            final(self).backlog() == old(self).backlog(),
            match r {
                Some(stream) => {
                    &&& old(self).model().announce_in[i as int].stream == Some(*stream)
                    &&& final(self).model() == (ServerModel {
                        announce_in: old(self).model().announce_in.update(
                            i as int,
                            NextFrame {
                                addr: old(self).model().announce_in[i as int].addr,
                                stream: Some(*final(stream)),
                            },
                        ),
                        ..old(self).model()
                    })
                },
                None => false,
            },
    {
        let fut = &mut self.announce_in[i];
        match &mut fut.stream {
            Some(stream) => Some(stream),
            None => None,
        }
    }

    /// The query stream at position `i`, to read from and to poll.
    pub fn query_stream_mut(&mut self, i: usize) -> (r: Option<
        &mut MappedRecvStream<QueryRequest>,
    >)
        requires
            old(self).wf(),
            i < old(self).model().query_in.len(),
        ensures
            final(self).wf(),
            final(self).backlog() == old(self).backlog(),
            match r {
                Some(stream) => {
                    &&& old(self).model().query_in[i as int].stream == Some(*stream)
                    &&& final(self).model() == (ServerModel {
                        query_in: old(self).model().query_in.update(
                            i as int,
                            NextFrame {
                                addr: old(self).model().query_in[i as int].addr,
                                stream: Some(*final(stream)),
                            },
                        ),
                        ..old(self).model()
                    })
                },
                None => false,
            },
    {
        let fut = &mut self.query_in[i];
        match &mut fut.stream {
            Some(stream) => Some(stream),
            None => None,
        }
    }
}

/// Whether all that was to be sent on a stream is sent, so that its sending side is to be closed.
pub open spec fn done(m: ServerModel, addr: StreamAddr) -> bool {
    &&& m.closing.contains(addr)
    &&& m.senders.dom().contains(addr)
    &&& m.senders[addr].ready()
    &&& queued(m.queues, addr).len() == 0
}

/// Whether `after` is the server after the transport took `n` bytes of the stream at `addr`.
pub open spec fn took(m: ServerModel, addr: StreamAddr, n: nat, after: ServerModel) -> bool {
    let before = m.senders[addr];
    let stream = after.senders[addr];
    &&& after == (ServerModel { senders: m.senders.insert(addr, stream), ..m })
    &&& n <= before.unsent().len()
    &&& stream.same_stream(before)
    &&& stream.is_cancelled() == before.is_cancelled()
    &&& stream.unsent() == before.unsent().skip(n as int)
    &&& stream.at_header() == (before.at_header() && n != 1)
}

/// Whether `r` is what comes of polling the stream at `addr`, and `after` the server afterwards.
pub open spec fn sends(
    m: ServerModel,
    addr: StreamAddr,
    cancelled: bool,
    r: QueuePoll,
    after: ServerModel,
) -> bool {
    let before = m.senders[addr];
    let stream = after.senders[addr];
    let idle = cancelled || before.ready();
    &&& after == (ServerModel {
        senders: m.senders.insert(addr, stream),
        queues: if idle && queued(m.queues, addr).len() > 0 {
            m.queues.insert(addr, m.queues[addr].drop_first())
        } else {
            m.queues
        },
        ..m
    })
    &&& stream.same_stream(before)
    &&& stream.is_cancelled() == (before.is_cancelled() || cancelled)
    &&& if idle && queued(m.queues, addr).len() > 0 {
        &&& r == QueuePoll::Write
        &&& stream.unsent() == crate::stream::framed(m.queues[addr][0])
        &&& !stream.at_header()
    } else {
        &&& r == (if idle {
            QueuePoll::Idle
        } else {
            QueuePoll::Write
        })
        &&& stream.unsent() == before.unsent()
        &&& stream.at_header() == before.at_header()
    }
}

impl<K: Rank, V: Rank> HashMapSet<K, V> {
    /// The listing of a set is as long as the set is large.
    proof fn lemma_len(&self, key: K)
        requires
            self.wf(),
        ensures
            listing(set_of(self@, key)).len() == set_of(self@, key).len(),
            set_of(self@, key).finite(),
    {
        if self.0@.dom().contains(key) {
            self.0@[key].lemma_keys();
        } else {
            crate::ordmap::lemma_listing(Seq::<V>::empty(), Set::<V>::empty());
        }
    }
}

/// Frames that are queued for a stream stay queued, in order, while the stream queries for peers.
proof fn lemma_asked_all(m: ServerModel, addr: StreamAddr, ids: Seq<PeerId>)
    ensures
        asked_all(m, addr, ids).announcements == m.announcements,
        queued(m.queues, addr).is_prefix_of(queued(asked_all(m, addr, ids).queues, addr)),
        forall|other: StreamAddr|
            other != addr ==> queued(asked_all(m, addr, ids).queues, other) == #[trigger] queued(
                m.queues,
                other,
            ),
        forall|id: PeerId| #[trigger]
            ids.contains(id) ==> set_of(asked_all(m, addr, ids).queries, id).contains(addr),
        forall|id: PeerId|
            set_of(m.queries, id).finite() ==> #[trigger] set_of(
                asked_all(m, addr, ids).queries,
                id,
            ).finite(),
        forall|id: PeerId, other: StreamAddr|
            other != addr ==> (#[trigger] set_of(asked_all(m, addr, ids).queries, id).contains(
                other,
            ) <==> set_of(m.queries, id).contains(other)),
        asked_all(m, addr, ids).closing == m.closing,
    decreases ids.len(),
{
    if ids.len() > 0 {
        let fewer = ids.drop_last();
        lemma_asked_all(m, addr, fewer);
        assert(ids =~= fewer.push(ids.last()));
        assert forall|id: PeerId| #[trigger] ids.contains(id) implies set_of(
            asked_all(m, addr, ids).queries,
            id,
        ).contains(addr) by {
            crate::ordmap::lemma_push_contains(fewer, ids.last(), id);
        }
        let before = asked_all(m, addr, fewer).queries;
        let after = asked_all(m, addr, ids).queries;
        assert forall|id: PeerId| #[trigger] set_of(after, id) == (if id == ids.last() {
            set_of(before, id).insert(addr)
        } else {
            set_of(before, id)
        }) by {}
        assert forall|id: PeerId| set_of(m.queries, id).finite() implies #[trigger] set_of(
            after,
            id,
        ).finite() by {
            assert(set_of(before, id).finite());
        }
        assert forall|id: PeerId, other: StreamAddr| other != addr implies (#[trigger] set_of(
            after,
            id,
        ).contains(other) <==> set_of(m.queries, id).contains(other)) by {
            assert(set_of(before, id).contains(other) <==> set_of(m.queries, id).contains(other));
        }
    }
}

/// A query is answered with the last announcement of each peer that it asks for and that has
/// announced, behind what was queued for the stream before; other streams are left alone.
pub proof fn law_query_is_answered(m: ServerModel, addr: StreamAddr, ids: Seq<PeerId>, id: PeerId)
    requires
        ids.contains(id),
        m.announcements.dom().contains(id),
    ensures
        queued(asked_all(m, addr, ids).queues, addr).contains(handing_on(m.announcements[id])),
        queued(m.queues, addr).is_prefix_of(queued(asked_all(m, addr, ids).queues, addr)),
        forall|other: StreamAddr|
            other != addr ==> queued(asked_all(m, addr, ids).queues, other) == #[trigger] queued(
                m.queues,
                other,
            ),
    decreases ids.len(),
{
    lemma_asked_all(m, addr, ids);
    let fewer = ids.drop_last();
    let before = asked_all(m, addr, fewer);
    let queue = queued(asked_all(m, addr, ids).queues, addr);
    lemma_asked_all(m, addr, fewer);
    if ids.last() == id {
        assert(queue.last() == handing_on(m.announcements[id]));
        assert(queue.contains(queue.last()));
    } else {
        let k = choose|n: int| 0 <= n < ids.len() && ids[n] == id;
        assert(fewer[k] == id);
        assert(fewer.contains(id));
        law_query_is_answered(m, addr, fewer, id);
        let earlier = queued(before.queues, addr);
        let n = choose|n: int|
            0 <= n < earlier.len() && earlier[n] == handing_on(m.announcements[id]);
        assert(queue[n] == earlier[n]);
    }
}

/// Telling distinct streams queues the frame once for each of them, and for no other.
proof fn lemma_told_all(m: ServerModel, addrs: Seq<StreamAddr>, frame: FrameValue)
    requires
        crate::ordmap::ascending(addrs),
    ensures
        forall|a: StreamAddr|
            #![trigger queued(told_all(m, addrs, frame).queues, a)]
            queued(told_all(m, addrs, frame).queues, a) == (if addrs.contains(a) {
                queued(m.queues, a).push(frame)
            } else {
                queued(m.queues, a)
            }),
        told_all(m, addrs, frame).announcements == m.announcements,
        told_all(m, addrs, frame).queries == m.queries,
        told_all(m, addrs, frame).closing == m.closing,
    decreases addrs.len(),
{
    if addrs.len() > 0 {
        let fewer = addrs.drop_last();
        let last = addrs.last();
        assert(crate::ordmap::ascending(fewer)) by {
            assert forall|i: int, j: int| 0 <= i < j < fewer.len() implies (
            #[trigger] fewer[i]).rank() < (#[trigger] fewer[j]).rank() by {
                assert(addrs[i].rank() < addrs[j].rank());
            }
        }
        lemma_told_all(m, fewer, frame);
        assert(addrs =~= fewer.push(last));
        if fewer.contains(last) {
            let i = choose|n: int| 0 <= n < fewer.len() && fewer[n] == last;
            assert(addrs[i].rank() < addrs[addrs.len() - 1].rank());
        }
        assert forall|a: StreamAddr|
            #![trigger queued(told_all(m, addrs, frame).queues, a)]
            queued(told_all(m, addrs, frame).queues, a) == (if addrs.contains(a) {
                queued(m.queues, a).push(frame)
            } else {
                queued(m.queues, a)
            }) by {
            crate::ordmap::lemma_push_contains(fewer, last, a);
            assert(queued(told_all(m, fewer, frame).queues, a) == (if fewer.contains(a) {
                queued(m.queues, a).push(frame)
            } else {
                queued(m.queues, a)
            }));
        }
    }
}

/// An announcement reaches exactly the streams that query for its peer, once each, and whoever
/// queries later is answered with it.
pub proof fn law_announcement_reaches_queries(
    m: ServerModel,
    envelope: SealedValue,
    addr: StreamAddr,
)
    requires
        set_of(m.queries, envelope.issuer).finite(),
    ensures
        queued(announced(m, envelope).queues, addr) == (if set_of(
            m.queries,
            envelope.issuer,
        ).contains(addr) {
            queued(m.queues, addr).push(handing_on(envelope))
        } else {
            queued(m.queues, addr)
        }),
        announced(m, envelope).announcements == m.announcements.insert(
            envelope.issuer,
            envelope,
        ),
        announced(m, envelope).queries == m.queries,
        announced(m, envelope).closing == m.closing,
{
    let set = set_of(m.queries, envelope.issuer);
    let noted = ServerModel { announcements: m.announcements.insert(envelope.issuer, envelope), ..m };
    crate::ordmap::lemma_listing_exists(set);
    lemma_told_all(noted, listing(set), handing_on(envelope));
    assert(listing(set).contains(addr) == set.contains(addr));
}

/// A stream that queried for a peer gets every later announcement of that peer.
pub proof fn law_query_subscribes(
    m: ServerModel,
    addr: StreamAddr,
    ids: Seq<PeerId>,
    envelope: SealedValue,
)
    requires
        ids.contains(envelope.issuer),
        set_of(m.queries, envelope.issuer).finite(),
    ensures
        queued(
            announced(asked_all(m, addr, ids), envelope).queues,
            addr,
        ).last() == handing_on(envelope),
{
    lemma_asked_all(m, addr, ids);
    law_announcement_reaches_queries(asked_all(m, addr, ids), envelope, addr);
}

/// An announcement is acknowledged on the stream that it came on, behind what was queued for that
/// stream.
pub proof fn law_announcement_is_acknowledged(
    m: ServerModel,
    addr: StreamAddr,
    req: AnnounceRequest,
    meta: FrameMeta,
)
    requires
        req is Announce,
    ensures
        queued(after_message(m, addr, req, meta).queues, addr).last() == acknowledging(meta.rid),
{
}

/// A client that ends its query is told the end behind all replies, and nothing that is announced
/// later reaches its stream.
pub proof fn law_ended_query_gets_nothing_more(
    m: ServerModel,
    addr: StreamAddr,
    envelope: SealedValue,
    req: QueryRequest,
)
    requires
        set_of(m.queries, envelope.issuer).finite(),
    ensures
        queued(ended(m, addr).queues, addr) == queued(m.queues, addr).push(ending()),
        ended(m, addr).closing.contains(addr),
        queued(announced(ended(m, addr), envelope).queues, addr) == queued(
            ended(m, addr).queues,
            addr,
        ),
        after_request(ended(m, addr), addr, req) == ended(m, addr),
{
    let after = ended(m, addr);
    assert(set_of(after.queries, envelope.issuer) =~= set_of(m.queries, envelope.issuer).remove(
        addr,
    ));
    law_announcement_reaches_queries(after, envelope, addr);
}

/// Whether no stream whose sending side is closed, or is being closed, queries for a peer.
pub open spec fn closed_streams_ask_nothing(m: ServerModel) -> bool {
    forall|addr: StreamAddr, id: PeerId|
        m.closing.contains(addr) ==> !(#[trigger] set_of(m.queries, id).contains(addr))
}

/// Messages on query streams keep closed streams from querying, and queue nothing for them.
pub proof fn law_closed_streams_stay_closed(
    m: ServerModel,
    addr: StreamAddr,
    req: QueryRequest,
    closed: StreamAddr,
)
    requires
        closed_streams_ask_nothing(m),
        m.closing.contains(closed),
    ensures
        closed_streams_ask_nothing(after_request(m, addr, req)),
        after_request(m, addr, req).closing.contains(closed),
        queued(after_request(m, addr, req).queues, closed) == queued(m.queues, closed),
{
    let after = after_request(m, addr, req);
    if !m.closing.contains(addr) {
        match req {
            QueryRequest::Query(_) => {
                lemma_asked_all(m, addr, queried(req));
            },
            QueryRequest::End(_) => {
                assert forall|a: StreamAddr, id: PeerId| after.closing.contains(a) implies !(
                #[trigger] set_of(after.queries, id).contains(a)) by {
                    if set_of(after.queries, id).contains(a) {
                        assert(set_of(m.queries, id).contains(a));
                    }
                }
            },
            QueryRequest::Error(_) => {},
        }
    }
}

/// The stream at `addr` with the frames that are queued for it.
pub open spec fn sending_on(m: ServerModel, addr: StreamAddr) -> Sending {
    Sending { stream: m.senders[addr], queue: queued(m.queues, addr) }
}

/// Whether a step on the stream at `addr` leads from one server to the other: it was polled without
/// being cancelled, the transport took bytes of it, or a frame was queued for it.
pub open spec fn server_step(
    m: ServerModel,
    addr: StreamAddr,
    step: SendStep,
    after: ServerModel,
) -> bool {
    match step {
        SendStep::Polled => exists|r: QueuePoll| sends(m, addr, false, r, after),
        SendStep::Took(n) => took(m, addr, n, after),
        SendStep::Queued(frame) => after == with_queued(m, addr, frame),
    }
}

/// The states of one stream among those of servers.
pub open spec fn sending_states(servers: Seq<ServerModel>, addr: StreamAddr) -> Seq<Sending> {
    Seq::new(servers.len(), |i: int| sending_on(servers[i], addr))
}

/// Whether the steps on the stream at `addr` lead through the servers, one after the other.
pub open spec fn server_steps(
    servers: Seq<ServerModel>,
    addr: StreamAddr,
    steps: Seq<SendStep>,
) -> bool {
    &&& servers.len() == steps.len() + 1
    &&& forall|i: int| 0 <= i < servers.len() ==> (#[trigger] servers[i]).senders[addr].wf()
    &&& forall|i: int|
        0 <= i < steps.len() ==> server_step(servers[i], addr, #[trigger] steps[i], servers[i + 1])
}

/// Steps of servers are steps of the stream that they are about.
proof fn lemma_server_steps(servers: Seq<ServerModel>, addr: StreamAddr, steps: Seq<SendStep>)
    requires
        server_steps(servers, addr, steps),
    ensures
        steps_lead(sending_states(servers, addr), steps),
{
    let states = sending_states(servers, addr);
    assert forall|i: int| 0 <= i < steps.len() implies step_leads(
        states[i],
        #[trigger] steps[i],
        states[i + 1],
    ) by {
        assert(server_step(servers[i], addr, steps[i], servers[i + 1]));
        assert(servers[i].senders[addr].wf());
        assert(servers[i + 1].senders[addr].wf());
    }
}

/// A stream with nothing left to write starts the next frame that is queued for it.
pub proof fn law_next_frame_is_started(
    m: ServerModel,
    addr: StreamAddr,
    r: QueuePoll,
    after: ServerModel,
)
    requires
        m.senders[addr].wf(),
        m.senders[addr].unsent().len() == 0,
        queued(m.queues, addr).len() > 0,
        sends(m, addr, false, r, after),
    ensures
        r == QueuePoll::Write,
        after.senders[addr].unsent() == framed(queued(m.queues, addr)[0]),
        queued(after.queues, addr) == queued(m.queues, addr).drop_first(),
{
    m.senders[addr].lemma_ready();
}

/// The frames that are queued for a stream are sent one after the other as their bytes are taken:
/// what the transport took, followed by what is still to be written, is what was to be written at
/// first, followed by the frames that were queued since.
pub proof fn law_queued_frames_are_sent_in_turn(
    servers: Seq<ServerModel>,
    addr: StreamAddr,
    steps: Seq<SendStep>,
)
    requires
        server_steps(servers, addr, steps),
    ensures
        bytes_taken(sending_states(servers, addr), steps) + outstanding(
            sending_on(servers.last(), addr),
        ) == outstanding(sending_on(servers[0], addr)) + all_framed(frames_added(steps)),
{
    lemma_server_steps(servers, addr, steps);
    law_frames_leave_in_order(sending_states(servers, addr), steps);
}

/// Once nothing is left to write on a stream, the client has exactly the frames that were queued
/// for it, in that order.
pub proof fn law_clients_get_what_was_queued(
    servers: Seq<ServerModel>,
    addr: StreamAddr,
    steps: Seq<SendStep>,
)
    requires
        server_steps(servers, addr, steps),
        servers[0].senders[addr].unsent().len() == 0,
        outstanding(sending_on(servers.last(), addr)).len() == 0,
        forall|i: int|
            0 <= i < (queued(servers[0].queues, addr) + frames_added(steps)).len() ==> sendable(
                #[trigger] (queued(servers[0].queues, addr) + frames_added(steps))[i],
            ),
    ensures
        frames_in(bytes_taken(sending_states(servers, addr), steps)) == queued(
            servers[0].queues,
            addr,
        ) + frames_added(steps),
{
    lemma_server_steps(servers, addr, steps);
    law_queued_frames_arrive(sending_states(servers, addr), steps);
}

/// The sending side of a stream that is closing is to be closed exactly when nothing is left to
/// write on it.
pub proof fn law_closing_stream_is_done_when_all_is_sent(m: ServerModel, addr: StreamAddr)
    requires
        m.senders.dom().contains(addr),
        m.senders[addr].wf(),
        m.closing.contains(addr),
    ensures
        done(m, addr) <==> outstanding(sending_on(m, addr)).len() == 0,
{
    m.senders[addr].lemma_ready();
    lemma_frames_take_bytes(queued(m.queues, addr));
}

/// An announcement is handed on in the envelope that it came in, byte for byte, so that whoever
/// receives it can check the signature of the peer, and reads the same announcement.
pub proof fn law_handed_on_as_received(
    frame: FrameValue,
    req: AnnounceRequest,
    meta: FrameMeta,
    m: ServerModel,
    addr: StreamAddr,
)
    requires
        reads_value(frame, frame_verdict(frame), Ok((req, meta))),
        req is Announce,
    ensures
        meta.signed() matches Some(envelope) && {
            &&& frame.payload == FramePayloadValue::Signed(envelope)
            &&& handing_on(envelope).payload == frame.payload
            &&& after_message(m, addr, req, meta) == with_queued(
                announced(m, envelope),
                addr,
                acknowledging(meta.rid),
            )
            &&& envelope.seal.accepted(envelope.issuer, envelope.payload)
            &&& checked_payload(handing_on(envelope), frame_verdict(handing_on(envelope)))
                == checked_payload(frame, frame_verdict(frame))
        },
{
}

/// Whether every stream that can be sent on is noted under its connection.
pub open spec fn senders_noted(m: ServerModel) -> bool {
    forall|addr: StreamAddr| #[trigger] m.senders.dom().contains(addr) ==> is_sending(m, addr)
}

/// A connection that is dropped leaves no stream behind, and all other streams stay.
pub proof fn law_dropped_conn_is_gone(m: ServerModel, conn_id: ConnId, addr: StreamAddr)
    requires
        senders_noted(m),
    ensures
        without_conn(m, conn_id).senders.dom().contains(addr) <==> m.senders.dom().contains(addr)
            && addr.conn_id != conn_id,
        senders_noted(without_conn(m, conn_id)),
{
    let after = without_conn(m, conn_id);
    assert forall|a: StreamAddr| #[trigger] after.senders.dom().contains(a) implies is_sending(
        after,
        a,
    ) by {
        assert(m.senders.dom().contains(a));
        assert(is_sending(m, a));
    }
}

/// A stream that a client opens is noted, and can be sent on under its address.
pub proof fn law_opened_streams_are_noted(m: ServerModel, event: ServerConnEvent)
    requires
        senders_noted(m),
        event matches ServerConnEvent::ControlStream(addr, _) ==> !m.senders.dom().contains(addr),
    ensures
        senders_noted(with_opened(m, event)),
        event matches ServerConnEvent::AnnounceStream(addr, (send, _)) ==> with_opened(
            m,
            event,
        ).senders[addr] == send,
        event matches ServerConnEvent::QueryStream(addr, (send, _)) ==> with_opened(
            m,
            event,
        ).senders[addr] == send,
{
    let after = with_opened(m, event);
    assert forall|a: StreamAddr| #[trigger] after.senders.dom().contains(a) implies is_sending(
        after,
        a,
    ) by {
        if m.senders.dom().contains(a) {
            assert(is_sending(m, a));
        }
    }
}

/// Querying for several peers queues the announcements of those that have one, in the order in
/// which they are listed, and changes nothing but the queue of the stream and who queries for the
/// listed peers.
proof fn lemma_asked_exact(m: ServerModel, addr: StreamAddr, ids: Seq<PeerId>) -> (picked: Seq<int>)
    ensures
        forall|j: int|
            0 <= j < picked.len() ==> 0 <= #[trigger] picked[j] < ids.len()
                && m.announcements.dom().contains(ids[picked[j]]),
        forall|j: int, k: int|
            0 <= j < k < picked.len() ==> #[trigger] picked[j] < #[trigger] picked[k],
        forall|i: int|
            0 <= i < ids.len() && m.announcements.dom().contains(#[trigger] ids[i])
                ==> picked.contains(i),
        ({
            let after = asked_all(m, addr, ids);
            let earlier = queued(m.queues, addr);
            let queue = queued(after.queues, addr);
            &&& queue.len() == earlier.len() + picked.len()
            &&& forall|k: int| 0 <= k < earlier.len() ==> #[trigger] queue[k] == earlier[k]
            &&& forall|j: int|
                0 <= j < picked.len() ==> #[trigger] queue[earlier.len() + j] == handing_on(
                    m.announcements[ids[picked[j]]],
                )
            &&& forall|other: StreamAddr|
                other != addr ==> #[trigger] after.queues.dom().contains(other)
                    == m.queues.dom().contains(other)
            &&& forall|other: StreamAddr|
                other != addr ==> #[trigger] after.queues[other] == m.queues[other]
            &&& forall|id: PeerId|
                !ids.contains(id) ==> #[trigger] after.queries.dom().contains(id)
                    == m.queries.dom().contains(id)
            &&& forall|id: PeerId|
                !ids.contains(id) ==> #[trigger] after.queries[id] == m.queries[id]
            &&& forall|id: PeerId| #[trigger]
                ids.contains(id) ==> after.queries.dom().contains(id)
            &&& after.streams == m.streams
            &&& after.announce_in == m.announce_in
            &&& after.query_in == m.query_in
            &&& after.control_in == m.control_in
            &&& after.control_out == m.control_out
            &&& after.senders == m.senders
            &&& after.announcements == m.announcements
            &&& after.closing == m.closing
        }),
    decreases ids.len(),
{
    if ids.len() == 0 {
        Seq::empty()
    } else {
        let fewer = ids.drop_last();
        let last = ids.last();
        let before = lemma_asked_exact(m, addr, fewer);
        assert(ids =~= fewer.push(last));
        assert forall|id: PeerId| #[trigger]
            ids.contains(id) == (fewer.contains(id) || id == last) by {
            crate::ordmap::lemma_push_contains(fewer, last, id);
        }
        assert forall|j: int| 0 <= j < before.len() implies 0 <= #[trigger] before[j] < ids.len()
            && ids[before[j]] == fewer[before[j]] by {}
        if m.announcements.dom().contains(last) {
            let picked = before.push(ids.len() - 1);
            assert forall|i: int|
                0 <= i < ids.len() && m.announcements.dom().contains(
                    #[trigger] ids[i],
                ) implies picked.contains(i) by {
                if i < fewer.len() {
                    assert(fewer[i] == ids[i]);
                    assert(before.contains(i));
                }
                crate::ordmap::lemma_push_contains(before, ids.len() - 1, i);
            }
            let earlier = queued(m.queues, addr);
            let middle = queued(asked_all(m, addr, fewer).queues, addr);
            let queue = queued(asked_all(m, addr, ids).queues, addr);
            assert(queue == middle.push(handing_on(m.announcements[last])));
            assert forall|j: int| 0 <= j < picked.len() implies #[trigger] queue[earlier.len() + j]
                == handing_on(m.announcements[ids[picked[j]]]) by {
                if j < before.len() {
                    assert(middle[earlier.len() + j] == handing_on(
                        m.announcements[fewer[before[j]]],
                    ));
                }
            }
            assert forall|k: int| 0 <= k < earlier.len() implies #[trigger] queue[k]
                == earlier[k] by {
                assert(middle[k] == earlier[k]);
            }
            picked
        } else {
            assert forall|i: int|
                0 <= i < ids.len() && m.announcements.dom().contains(
                    #[trigger] ids[i],
                ) implies before.contains(i) by {
                assert(fewer[i] == ids[i]);
            }
            let earlier = queued(m.queues, addr);
            let queue = queued(asked_all(m, addr, ids).queues, addr);
            assert(queue == queued(asked_all(m, addr, fewer).queues, addr));
            before
        }
    }
}

/// A query answers for each peer that it lists: the stream queries for every listed peer from then
/// on, and the last announcement of every listed peer that has one is queued for the stream, in
/// the envelope that it came in. `picked` are the positions in the list of the peers that have
/// announced: exactly their announcements are queued, in that order, behind what was queued
/// before.
pub proof fn law_query_answers_every_listed_peer(
    m: ServerModel,
    addr: StreamAddr,
    req: QueryRequest,
    ids: Seq<PeerId>,
) -> (picked: Seq<int>)
    requires
        !m.closing.contains(addr),
        req matches QueryRequest::Query(q) && (q.query matches QueryPayload::Peers(peers)
            && peers.peer_ids@ == ids),
    ensures
        ({
            let after = after_request(m, addr, req);
            let earlier = if m.queues.dom().contains(addr) {
                m.queues[addr]
            } else {
                Seq::empty()
            };
            let queue = if after.queues.dom().contains(addr) {
                after.queues[addr]
            } else {
                Seq::empty()
            };
            &&& forall|i: int|
                0 <= i < ids.len() ==> after.queries.dom().contains(#[trigger] ids[i])
                    && after.queries[ids[i]].contains(addr)
            &&& forall|i: int|
                0 <= i < ids.len() && m.announcements.dom().contains(#[trigger] ids[i])
                    ==> queue.contains(
                    FrameValue {
                        rid: None,
                        payload: FramePayloadValue::Signed(m.announcements[ids[i]]),
                    },
                )
            &&& queue.len() == earlier.len() + picked.len()
            &&& queue.take(earlier.len() as int) == earlier
            &&& forall|j: int|
                0 <= j < picked.len() ==> queue[earlier.len() + j] == (FrameValue {
                    rid: None,
                    payload: FramePayloadValue::Signed(
                        m.announcements[ids[#[trigger] picked[j]]],
                    ),
                })
        }),
        forall|j: int|
            0 <= j < picked.len() ==> 0 <= #[trigger] picked[j] < ids.len()
                && m.announcements.dom().contains(ids[picked[j]]),
        forall|j: int, k: int|
            0 <= j < k < picked.len() ==> #[trigger] picked[j] < #[trigger] picked[k],
        forall|i: int|
            0 <= i < ids.len() && m.announcements.dom().contains(#[trigger] ids[i])
                ==> picked.contains(i),
{
    let after = after_request(m, addr, req);
    let picked = lemma_asked_exact(m, addr, ids);
    lemma_asked_all(m, addr, ids);
    let earlier = queued(m.queues, addr);
    let queue = queued(after.queues, addr);
    assert forall|i: int| 0 <= i < ids.len() implies after.queries.dom().contains(#[trigger] ids[i])
        && after.queries[ids[i]].contains(addr) by {
        assert(ids.contains(ids[i]));
        assert(set_of(after.queries, ids[i]).contains(addr));
    }
    assert forall|i: int|
        0 <= i < ids.len() && m.announcements.dom().contains(#[trigger] ids[i]) implies queue.contains(
        FrameValue { rid: None, payload: FramePayloadValue::Signed(m.announcements[ids[i]]) },
    ) by {
        assert(picked.contains(i));
        let j = choose|n: int| 0 <= n < picked.len() && picked[n] == i;
        assert(queue[earlier.len() + j] == handing_on(m.announcements[ids[picked[j]]]));
    }
    assert forall|j: int| 0 <= j < picked.len() implies queue[earlier.len() + j] == handing_on(
        m.announcements[ids[#[trigger] picked[j]]],
    ) by {
        assert(queue[earlier.len() + j] == handing_on(m.announcements[ids[picked[j]]]));
    }
    assert(queue.take(earlier.len() as int) =~= earlier);
    picked
}

/// A query touches nothing but the queue of its own stream and who queries for the peers that it
/// lists: all other streams keep their queues and what they query for, and no announcement and no
/// stream is lost.
pub proof fn law_query_is_confined(
    m: ServerModel,
    addr: StreamAddr,
    req: QueryRequest,
    ids: Seq<PeerId>,
    id: PeerId,
    other: StreamAddr,
)
    requires
        req matches QueryRequest::Query(q) && (q.query matches QueryPayload::Peers(peers)
            && peers.peer_ids@ == ids),
        other != addr,
    ensures
        ({
            let after = after_request(m, addr, req);
            &&& after.queues.dom().contains(other) == m.queues.dom().contains(other)
            &&& after.queues[other] == m.queues[other]
            &&& !ids.contains(id) ==> after.queries.dom().contains(id) == m.queries.dom().contains(
                id,
            ) && after.queries[id] == m.queries[id]
            &&& (after.queries.dom().contains(id) && after.queries[id].contains(other)) == (
            m.queries.dom().contains(id) && m.queries[id].contains(other))
            &&& after.announcements == m.announcements
            &&& after.senders == m.senders
            &&& after.streams == m.streams
            &&& after.control_out == m.control_out
            &&& after.announce_in == m.announce_in
            &&& after.query_in == m.query_in
            &&& after.control_in == m.control_in
            &&& after.closing == m.closing
        }),
{
    let after = after_request(m, addr, req);
    lemma_asked_exact(m, addr, ids);
    lemma_asked_all(m, addr, ids);
    if !m.closing.contains(addr) {
        assert(set_of(after.queries, id).contains(other) <==> set_of(m.queries, id).contains(
            other,
        ));
    }
}

/// A client that ends its query gets the end behind all replies, and the sending side of its
/// stream is closed behind that. The stream then queries for nobody; every other stream queries
/// for whom it queried before, and keeps its queue.
pub proof fn law_end_of_query_is_confined(
    m: ServerModel,
    addr: StreamAddr,
    end: End,
    id: PeerId,
    other: StreamAddr,
)
    requires
        !m.closing.contains(addr),
        other != addr,
    ensures
        ({
            let after = after_request(m, addr, QueryRequest::End(end));
            let earlier = if m.queues.dom().contains(addr) {
                m.queues[addr]
            } else {
                Seq::empty()
            };
            &&& after.queues.dom().contains(addr)
            &&& after.queues[addr] == earlier.push(
                FrameValue {
                    rid: None,
                    payload: FramePayloadValue::Unsigned(UnsignedFrameValue::End(End {  })),
                },
            )
            &&& after.queues.dom().contains(other) == m.queues.dom().contains(other)
            &&& after.queues[other] == m.queues[other]
            &&& after.queries.dom().contains(id) == m.queries.dom().contains(id)
            &&& m.queries.dom().contains(id) ==> !after.queries[id].contains(addr)
                && after.queries[id].contains(other) == m.queries[id].contains(other)
            &&& after.closing.contains(addr)
            &&& after.closing.contains(other) == m.closing.contains(other)
            &&& after.announcements == m.announcements
            &&& after.senders == m.senders
            &&& after.streams == m.streams
            &&& after.control_out == m.control_out
            &&& after.announce_in == m.announce_in
            &&& after.query_in == m.query_in
            &&& after.control_in == m.control_in
        }),
{
}

/// A reported error on a query stream, a query for keys, and whatever comes on a stream whose
/// sending side is closed or being closed, change nothing.
pub proof fn law_other_query_messages_change_nothing(
    m: ServerModel,
    addr: StreamAddr,
    req: QueryRequest,
)
    requires
        m.closing.contains(addr) || req is Error || (req matches QueryRequest::Query(q)
            && q.query is Keys),
    ensures
        after_request(m, addr, req) == m,
{
}

/// Telling distinct streams changes nothing but their queues.
proof fn lemma_told_nothing_else(m: ServerModel, addrs: Seq<StreamAddr>, frame: FrameValue)
    ensures
        told_all(m, addrs, frame).senders == m.senders,
        told_all(m, addrs, frame).streams == m.streams,
        told_all(m, addrs, frame).control_out == m.control_out,
        told_all(m, addrs, frame).announce_in == m.announce_in,
        told_all(m, addrs, frame).query_in == m.query_in,
        told_all(m, addrs, frame).control_in == m.control_in,
    decreases addrs.len(),
{
    if addrs.len() > 0 {
        lemma_told_nothing_else(m, addrs.drop_last(), frame);
    }
}

/// An announcement is noted for its peer and handed on in its own envelope, once, to every stream
/// that queries for that peer and to no other; its own stream gets an acknowledgement with its
/// number. Every other queue, every other announcement and all else stay as they are.
pub proof fn law_announcement_is_handed_on_once(
    m: ServerModel,
    addr: StreamAddr,
    req: AnnounceRequest,
    meta: FrameMeta,
    stream: StreamAddr,
    other: PublicKey,
)
    requires
        req is Announce,
        meta.envelope is Some,
        m.queries.dom().contains(meta.envelope->0@.issuer)
            ==> m.queries[meta.envelope->0@.issuer].finite(),
        other != meta.envelope->0@.issuer,
    ensures
        ({
            let after = after_message(m, addr, req, meta);
            let envelope = meta.envelope->0@;
            let earlier = if m.queues.dom().contains(stream) {
                m.queues[stream]
            } else {
                Seq::empty()
            };
            let queue = if after.queues.dom().contains(stream) {
                after.queues[stream]
            } else {
                Seq::empty()
            };
            let asking = m.queries.dom().contains(envelope.issuer)
                && m.queries[envelope.issuer].contains(stream);
            let news = if asking {
                seq![FrameValue { rid: None, payload: FramePayloadValue::Signed(envelope) }]
            } else {
                Seq::empty()
            };
            let receipt = if stream == addr {
                seq![
                    FrameValue {
                        rid: meta.rid,
                        payload: FramePayloadValue::Unsigned(
                            UnsignedFrameValue::Ack(
                                Ack {
                                    rid: match meta.rid {
                                        Some(number) => number,
                                        None => 0,
                                    },
                                },
                            ),
                        ),
                    },
                ]
            } else {
                Seq::empty()
            };
            &&& queue == earlier + news + receipt
            &&& after.announcements.dom().contains(envelope.issuer)
            &&& after.announcements[envelope.issuer] == envelope
            &&& after.announcements.dom().contains(other) == m.announcements.dom().contains(other)
            &&& after.announcements[other] == m.announcements[other]
            &&& after.queries == m.queries
            &&& after.closing == m.closing
            &&& after.senders == m.senders
            &&& after.streams == m.streams
            &&& after.control_out == m.control_out
            &&& after.announce_in == m.announce_in
            &&& after.query_in == m.query_in
            &&& after.control_in == m.control_in
        }),
{
    let after = after_message(m, addr, req, meta);
    let envelope = meta.envelope->0@;
    let middle = announced(m, envelope);
    assert(set_of(m.queries, envelope.issuer).finite());
    law_announcement_reaches_queries(m, envelope, stream);
    let noted = ServerModel { announcements: m.announcements.insert(envelope.issuer, envelope), ..m };
    lemma_told_nothing_else(
        noted,
        listing(set_of(m.queries, envelope.issuer)),
        handing_on(envelope),
    );
    let before = queued(middle.queues, stream);
    let queue = queued(after.queues, stream);
    if stream == addr {
        assert(queue =~= before + seq![acknowledging(meta.rid)]);
    } else {
        assert(queue =~= before + Seq::<FrameValue>::empty());
    }
    if set_of(m.queries, envelope.issuer).contains(stream) {
        assert(before =~= queued(m.queues, stream) + seq![handing_on(envelope)]);
    } else {
        assert(before =~= queued(m.queues, stream) + Seq::<FrameValue>::empty());
    }
}

/// The end of announcements and a reported error on an announce stream change nothing.
pub proof fn law_other_announce_messages_change_nothing(
    m: ServerModel,
    addr: StreamAddr,
    req: AnnounceRequest,
    meta: FrameMeta,
)
    requires
        !(req is Announce),
    ensures
        after_message(m, addr, req, meta) == m,
{
}

/// What is announced reaches whoever asks, in either order: a stream that queries for a peer after
/// it has announced is answered with that announcement, and one that queried before is sent it.
pub proof fn law_announcements_meet_queries(
    m: ServerModel,
    from: StreamAddr,
    announcement: AnnounceRequest,
    meta: FrameMeta,
    addr: StreamAddr,
    req: QueryRequest,
    ids: Seq<PeerId>,
)
    requires
        announcement is Announce,
        meta.envelope is Some,
        forall|id: PeerId| #[trigger] set_of(m.queries, id).finite(),
        !m.closing.contains(addr),
        req matches QueryRequest::Query(q) && (q.query matches QueryPayload::Peers(peers)
            && peers.peer_ids@ == ids),
        ids.contains(meta.envelope->0@.issuer),
    ensures
        after_request(after_message(m, from, announcement, meta), addr, req).queues[addr].contains(
            FrameValue { rid: None, payload: FramePayloadValue::Signed(meta.envelope->0@) },
        ),
        after_message(after_request(m, addr, req), from, announcement, meta).queues[addr].contains(
            FrameValue { rid: None, payload: FramePayloadValue::Signed(meta.envelope->0@) },
        ),
{
    let envelope = meta.envelope->0@;
    let frame = FrameValue { rid: None, payload: FramePayloadValue::Signed(envelope) };
    let i = choose|n: int| 0 <= n < ids.len() && ids[n] == envelope.issuer;
    assert(set_of(m.queries, envelope.issuer).finite());
    let told = after_message(m, from, announcement, meta);
    law_announcement_reaches_queries(m, envelope, from);
    law_query_answers_every_listed_peer(told, addr, req, ids);
    assert(told.announcements.dom().contains(ids[i]));
    let asked = after_request(m, addr, req);
    lemma_asked_all(m, addr, ids);
    assert(set_of(asked.queries, envelope.issuer).finite());
    assert(set_of(asked.queries, envelope.issuer).contains(addr));
    let middle = announced(asked, envelope);
    law_announcement_reaches_queries(asked, envelope, addr);
    let before = queued(middle.queues, addr);
    assert(before == queued(asked.queues, addr).push(frame));
    assert(before[before.len() - 1] == frame);
    let after = after_message(asked, from, announcement, meta);
    assert(after.queues[addr][before.len() - 1] == frame);
}

/// A stream that a client opens is awaited from then on: the list of awaited streams of its type
/// is the list before with exactly this stream added, with its address and its receiving half,
/// whatever streams were awaited before. It can be sent on by its sending half, is noted under its
/// connection with its type, and is not closing. Nothing else changes.
pub proof fn law_opened_streams_are_awaited(m: ServerModel, event: ServerConnEvent)
    ensures
        ({
            let after = with_opened(m, event);
            &&& after.queues == m.queues
            &&& after.announcements == m.announcements
            &&& after.queries == m.queries
            &&& match event {
                ServerConnEvent::AnnounceStream(addr, (send, recv)) => {
                    &&& after.announce_in.len() == m.announce_in.len() + 1
                    &&& after.announce_in.drop_last() == m.announce_in
                    &&& after.announce_in.last().addr == addr
                    &&& after.announce_in.last().stream == Some(recv)
                    &&& after.query_in == m.query_in
                    &&& after.control_in == m.control_in
                    &&& after.control_out == m.control_out
                    &&& after.senders == m.senders.insert(addr, send)
                    &&& after.closing == m.closing.remove(addr)
                    &&& after.streams.dom() == m.streams.dom().insert(addr.conn_id)
                    &&& after.streams[addr.conn_id].dom().contains(addr.stream_id)
                    &&& after.streams[addr.conn_id][addr.stream_id] == StreamType::Announce
                },
                ServerConnEvent::QueryStream(addr, (send, recv)) => {
                    &&& after.query_in.len() == m.query_in.len() + 1
                    &&& after.query_in.drop_last() == m.query_in
                    &&& after.query_in.last().addr == addr
                    &&& after.query_in.last().stream == Some(recv)
                    &&& after.announce_in == m.announce_in
                    &&& after.control_in == m.control_in
                    &&& after.control_out == m.control_out
                    &&& after.senders == m.senders.insert(addr, send)
                    &&& after.closing == m.closing.remove(addr)
                    &&& after.streams.dom() == m.streams.dom().insert(addr.conn_id)
                    &&& after.streams[addr.conn_id].dom().contains(addr.stream_id)
                    &&& after.streams[addr.conn_id][addr.stream_id] == StreamType::Query
                },
                ServerConnEvent::ControlStream(addr, (send, recv)) => {
                    &&& after.control_in.len() == m.control_in.len() + 1
                    &&& after.control_in.drop_last() == m.control_in
                    &&& after.control_in.last().addr == addr
                    &&& after.control_in.last().stream == Some(recv)
                    &&& after.announce_in == m.announce_in
                    &&& after.query_in == m.query_in
                    &&& after.control_out == m.control_out.insert(addr.conn_id, send)
                    &&& after.senders == m.senders
                    &&& after.closing == m.closing
                    &&& after.streams.dom() == m.streams.dom().insert(addr.conn_id)
                    &&& after.streams[addr.conn_id].dom().contains(addr.stream_id)
                    &&& after.streams[addr.conn_id][addr.stream_id] == StreamType::Control
                },
            }
        }),
{
    let after = with_opened(m, event);
    match event {
        ServerConnEvent::AnnounceStream(_, _) => {
            assert(after.announce_in.drop_last() =~= m.announce_in);
        },
        ServerConnEvent::QueryStream(_, _) => {
            assert(after.query_in.drop_last() =~= m.query_in);
        },
        ServerConnEvent::ControlStream(_, _) => {
            assert(after.control_in.drop_last() =~= m.control_in);
        },
    }
}

/// Noting a stream keeps the types of all streams that were noted before, on every connection.
pub proof fn law_noted_streams_stay_noted(
    m: ServerModel,
    event: ServerConnEvent,
    conn_id: ConnId,
    stream_id: StreamId,
)
    requires
        match event {
            ServerConnEvent::AnnounceStream(addr, _) => addr != (StreamAddr { conn_id, stream_id }),
            ServerConnEvent::QueryStream(addr, _) => addr != (StreamAddr { conn_id, stream_id }),
            ServerConnEvent::ControlStream(addr, _) => addr != (StreamAddr { conn_id, stream_id }),
        },
    ensures
        ({
            let after = with_opened(m, event).streams;
            let noted = m.streams.dom().contains(conn_id) && m.streams[conn_id].dom().contains(
                stream_id,
            );
            &&& noted == (after.dom().contains(conn_id) && after[conn_id].dom().contains(stream_id))
            &&& noted ==> after[conn_id][stream_id] == m.streams[conn_id][stream_id]
        }),
{
}

/// Dropping a connection touches no other: the streams of every other connection stay noted, can
/// be sent on as before, and stay controlled. What is queued, announced, queried for and awaited
/// stays as it is.
pub proof fn law_dropping_is_confined(m: ServerModel, conn_id: ConnId, addr: StreamAddr)
    requires
        addr.conn_id != conn_id,
    ensures
        ({
            let after = without_conn(m, conn_id);
            &&& !after.streams.dom().contains(conn_id)
            &&& after.streams.dom().contains(addr.conn_id) == m.streams.dom().contains(addr.conn_id)
            &&& after.streams[addr.conn_id] == m.streams[addr.conn_id]
            &&& after.senders.dom().contains(addr) == m.senders.dom().contains(addr)
            &&& m.senders.dom().contains(addr) ==> after.senders[addr] == m.senders[addr]
            &&& after.control_out.dom().contains(addr.conn_id) == m.control_out.dom().contains(
                addr.conn_id,
            )
            &&& after.control_out[addr.conn_id] == m.control_out[addr.conn_id]
            &&& after.queues == m.queues
            &&& after.announcements == m.announcements
            &&& after.queries == m.queries
            &&& after.closing == m.closing
            &&& after.announce_in == m.announce_in
            &&& after.query_in == m.query_in
            &&& after.control_in == m.control_in
        }),
{
}

/// A dropped connection that had a control stream is not known any more, and none of the announce
/// and query streams that were noted for it can be sent on.
pub proof fn law_dropped_streams_are_gone(
    m: ServerModel,
    conn_id: ConnId,
    stream_id: StreamId,
)
    requires
        m.streams.dom().contains(conn_id),
        m.streams[conn_id].dom().contains(stream_id),
    ensures
        ({
            let after = without_conn(m, conn_id);
            if m.streams[conn_id][stream_id] == StreamType::Control {
                !after.control_out.dom().contains(conn_id)
            } else {
                !after.senders.dom().contains(StreamAddr { conn_id, stream_id })
            }
        }),
{
}

/// An announce stream that fails is not awaited any more, and its connection is dropped if it is
/// known; a stream of a connection that is not known takes nothing else with it. The other awaited
/// streams keep their order.
pub proof fn law_failed_announce_stream_is_dropped(m: ServerModel, i: int, failed: StreamError)
    requires
        0 <= i < m.announce_in.len(),
    ensures
        ({
            let after = after_announce(m, i, Err(failed));
            let conn_id = m.announce_in[i].addr.conn_id;
            &&& after.announce_in == m.announce_in.remove(i)
            &&& after.query_in == m.query_in
            &&& after.control_in == m.control_in
            &&& after.queues == m.queues
            &&& after.announcements == m.announcements
            &&& after.queries == m.queries
            &&& after.closing == m.closing
            &&& m.control_out.dom().contains(conn_id) ==> !after.streams.dom().contains(conn_id)
                && after.senders == without_conn(m, conn_id).senders && after.control_out
                == without_conn(m, conn_id).control_out && after.streams == without_conn(
                m,
                conn_id,
            ).streams
            &&& !m.control_out.dom().contains(conn_id) ==> after.streams == m.streams
                && after.senders == m.senders && after.control_out == m.control_out
        }),
{
    let taken = ServerModel { announce_in: m.announce_in.remove(i), ..m };
    let conn_id = m.announce_in[i].addr.conn_id;
    assert(without_conn(taken, conn_id).senders =~= without_conn(m, conn_id).senders);
    assert(is_controlled(taken, conn_id) == is_controlled(m, conn_id));
}

/// A query stream that fails is not awaited any more, and its connection is dropped if it is
/// known; a stream of a connection that is not known takes nothing else with it. The other awaited
/// streams keep their order.
pub proof fn law_failed_query_stream_is_dropped(m: ServerModel, i: int, failed: StreamError)
    requires
        0 <= i < m.query_in.len(),
    ensures
        ({
            let after = after_query(m, i, Err(failed));
            let conn_id = m.query_in[i].addr.conn_id;
            &&& after.query_in == m.query_in.remove(i)
            &&& after.announce_in == m.announce_in
            &&& after.control_in == m.control_in
            &&& after.queues == m.queues
            &&& after.announcements == m.announcements
            &&& after.queries == m.queries
            &&& after.closing == m.closing
            &&& m.control_out.dom().contains(conn_id) ==> !after.streams.dom().contains(conn_id)
                && after.senders == without_conn(m, conn_id).senders && after.control_out
                == without_conn(m, conn_id).control_out && after.streams == without_conn(
                m,
                conn_id,
            ).streams
            &&& !m.control_out.dom().contains(conn_id) ==> after.streams == m.streams
                && after.senders == m.senders && after.control_out == m.control_out
        }),
{
    let taken = ServerModel { query_in: m.query_in.remove(i), ..m };
    let conn_id = m.query_in[i].addr.conn_id;
    assert(without_conn(taken, conn_id).senders =~= without_conn(m, conn_id).senders);
    assert(is_controlled(taken, conn_id) == is_controlled(m, conn_id));
}

/// An announce stream that ended is not awaited any more; nothing else changes, and the other
/// awaited streams keep their order.
pub proof fn law_ended_announce_stream_is_not_awaited(m: ServerModel, i: int)
    requires
        0 <= i < m.announce_in.len(),
    ensures
        after_announce(m, i, Ok(None)) == (ServerModel {
            announce_in: m.announce_in.remove(i),
            ..m
        }),
{
}

/// A query stream that ended is not awaited any more; nothing else changes, and the other awaited
/// streams keep their order.
pub proof fn law_ended_query_stream_is_not_awaited(m: ServerModel, i: int)
    requires
        0 <= i < m.query_in.len(),
    ensures
        after_query(m, i, Ok(None)) == (ServerModel { query_in: m.query_in.remove(i), ..m }),
{
}

/// An announce stream that a message came on is awaited again, behind the others, which keep their
/// order. The message is handled under the address of the stream: nothing but what is queued and
/// what is announced can change by it.
pub proof fn law_announce_stream_is_awaited_again(
    m: ServerModel,
    i: int,
    req: AnnounceRequest,
    meta: FrameMeta,
)
    requires
        0 <= i < m.announce_in.len(),
        req is Announce ==> meta.envelope is Some && set_of(
            m.queries,
            meta.envelope->0@.issuer,
        ).finite(),
    ensures
        ({
            let after = after_announce(m, i, Ok(Some((req, meta))));
            let handled = after_message(m, m.announce_in[i].addr, req, meta);
            &&& after.announce_in == m.announce_in.remove(i).push(m.announce_in[i])
            &&& after.query_in == m.query_in
            &&& after.control_in == m.control_in
            &&& after.streams == m.streams
            &&& after.senders == m.senders
            &&& after.control_out == m.control_out
            &&& after.queries == m.queries
            &&& after.closing == m.closing
            &&& forall|addr: StreamAddr| #[trigger]
                queued(after.queues, addr) == queued(handled.queues, addr)
            &&& after.announcements == handled.announcements
        }),
{
    let addr = m.announce_in[i].addr;
    let taken = ServerModel { announce_in: m.announce_in.remove(i), ..m };
    if req is Announce {
        let envelope = meta.envelope->0@;
        let noted = ServerModel {
            announcements: taken.announcements.insert(envelope.issuer, envelope),
            ..taken
        };
        lemma_told_nothing_else(
            noted,
            listing(set_of(m.queries, envelope.issuer)),
            handing_on(envelope),
        );
        let after = after_announce(m, i, Ok(Some((req, meta))));
        let handled = after_message(m, addr, req, meta);
        law_announcement_reaches_queries(m, envelope, addr);
        law_announcement_reaches_queries(taken, envelope, addr);
        assert forall|a: StreamAddr| #[trigger]
            queued(after.queues, a) == queued(handled.queues, a) by {
            law_announcement_reaches_queries(m, envelope, a);
            law_announcement_reaches_queries(taken, envelope, a);
        }
    }
}

/// A query stream that a message came on is awaited again, behind the others, which keep their
/// order. The message is handled under the address of the stream.
pub proof fn law_query_stream_is_awaited_again(
    m: ServerModel,
    i: int,
    req: QueryRequest,
    meta: FrameMeta,
)
    requires
        0 <= i < m.query_in.len(),
    ensures
        ({
            let after = after_query(m, i, Ok(Some((req, meta))));
            let handled = after_request(m, m.query_in[i].addr, req);
            &&& after.query_in == m.query_in.remove(i).push(m.query_in[i])
            &&& after.announce_in == m.announce_in
            &&& after.control_in == m.control_in
            &&& after.streams == m.streams
            &&& after.senders == m.senders
            &&& after.control_out == m.control_out
            &&& after.announcements == m.announcements
            &&& after.queues == handled.queues
            &&& after.queries == handled.queries
            &&& after.closing == handled.closing
        }),
{
    let addr = m.query_in[i].addr;
    let taken = ServerModel { query_in: m.query_in.remove(i), ..m };
    lemma_asked_exact(m, addr, queried(req));
    lemma_asked_exact(taken, addr, queried(req));
    lemma_asked_regardless(m, taken, addr, queried(req));
}

/// What is queued and noted for a query depends on nothing but what was queued, noted and
/// announced before.
proof fn lemma_asked_regardless(
    m: ServerModel,
    other: ServerModel,
    addr: StreamAddr,
    ids: Seq<PeerId>,
)
    requires
        m.queues == other.queues,
        m.queries == other.queries,
        m.announcements == other.announcements,
    ensures
        asked_all(m, addr, ids).queues == asked_all(other, addr, ids).queues,
        asked_all(m, addr, ids).queries == asked_all(other, addr, ids).queries,
        asked_all(m, addr, ids).announcements == asked_all(other, addr, ids).announcements,
    decreases ids.len(),
{
    if ids.len() > 0 {
        lemma_asked_regardless(m, other, addr, ids.drop_last());
    }
}

/// Each event is handled by what it says happened, and a server stops only when no client can open
/// a stream any more.
pub proof fn law_server_runs_until_the_endpoint_closes(
    m: ServerModel,
    event: ServerEvent,
    r: ServerStep,
    after: ServerModel,
)
    requires
        runs(m, event, r, after),
    ensures
        r == ServerStep::Stop <==> event is Endpoint && event->Endpoint_0 is None,
        event is Endpoint && event->Endpoint_0 is None ==> after == m,
        event matches ServerEvent::Endpoint(Some(opened)) ==> r == ServerStep::Continue && after
            == with_opened(m, opened),
        event matches ServerEvent::Announce(i, frame) ==> r == ServerStep::Continue && after
            == after_announce(m, i as int, frame),
        event matches ServerEvent::Query(i, frame) ==> r == ServerStep::Continue && after
            == after_query(m, i as int, frame),
        event matches ServerEvent::Sender(addr, cancelled) ==> (r matches ServerStep::Sender(poll)
            && sends(m, addr, cancelled, poll, after)),
{
}

/// Polling a stream touches nothing but that stream and its queue: all other streams, their queues
/// and all else stay as they are. While bytes of a frame are left to write, no other frame is
/// started; with nothing queued and nothing left to write, the stream is idle.
pub proof fn law_polling_is_confined(
    m: ServerModel,
    addr: StreamAddr,
    cancelled: bool,
    r: QueuePoll,
    after: ServerModel,
    other: StreamAddr,
)
    requires
        m.senders.dom().contains(addr),
        m.senders[addr].wf(),
        sends(m, addr, cancelled, r, after),
        other != addr,
    ensures
        after.senders.dom().contains(addr),
        after.senders[addr].address() == m.senders[addr].address(),
        after.senders[addr].stream_type() == m.senders[addr].stream_type(),
        after.senders.dom().contains(other) == m.senders.dom().contains(other),
        after.senders[other] == m.senders[other],
        after.queues.dom().contains(other) == m.queues.dom().contains(other),
        after.queues[other] == m.queues[other],
        after.streams == m.streams,
        after.control_out == m.control_out,
        after.announcements == m.announcements,
        after.queries == m.queries,
        after.closing == m.closing,
        after.announce_in == m.announce_in,
        after.query_in == m.query_in,
        after.control_in == m.control_in,
        !cancelled && m.senders[addr].unsent().len() > 0 ==> r == QueuePoll::Write && after.queues
            == m.queues && after.senders[addr].unsent() == m.senders[addr].unsent(),
        !m.queues.dom().contains(addr) || m.queues[addr].len() == 0 ==> after.queues == m.queues
            && after.senders[addr].unsent() == m.senders[addr].unsent(),
        !cancelled && m.senders[addr].unsent().len() == 0 && (!m.queues.dom().contains(addr)
            || m.queues[addr].len() == 0) ==> r == QueuePoll::Idle,
{
    m.senders[addr].lemma_ready();
}

/// What the transport takes of a stream is taken from the front of what that stream has to write;
/// no other stream and no queue is touched.
pub proof fn law_taking_is_confined(
    m: ServerModel,
    addr: StreamAddr,
    n: nat,
    after: ServerModel,
    other: StreamAddr,
)
    requires
        m.senders.dom().contains(addr),
        took(m, addr, n, after),
        other != addr,
    ensures
        n <= m.senders[addr].unsent().len(),
        m.senders[addr].unsent() == m.senders[addr].unsent().take(n as int)
            + after.senders[addr].unsent(),
        after.senders[addr].unsent().len() == m.senders[addr].unsent().len() - n,
        after.senders.dom() == m.senders.dom(),
        after.senders[other] == m.senders[other],
        after.queues == m.queues,
        after.streams == m.streams,
        after.control_out == m.control_out,
        after.announcements == m.announcements,
        after.queries == m.queries,
        after.closing == m.closing,
        after.announce_in == m.announce_in,
        after.query_in == m.query_in,
        after.control_in == m.control_in,
{
    assert(after.senders.dom() =~= m.senders.dom());
    let unsent = m.senders[addr].unsent();
    assert(unsent =~= unsent.take(n as int) + unsent.skip(n as int));
}

/// Which messages a server handles, and how much room they need: every query for peers, however
/// many it lists; every signed announcement of where a peer can be reached; and `END` and `ERROR`
/// frames.
pub proof fn law_which_messages_are_handled(
    m: ServerModel,
    req: QueryRequest,
    announcement: AnnounceRequest,
    meta: FrameMeta,
)
    ensures
        is_peer_query(req) <==> !(req is Query) || req->Query_0.query is Peers,
        is_peer_announcement(announcement, meta) <==> !(announcement is Announce) || (
        announcement->Announce_0.payload is PeerInfo && meta.envelope is Some),
        req is Error ==> most_replies(req) == 0,
        req is End ==> most_replies(req) == 1,
        req is Query && req->Query_0.query is Peers ==> most_replies(req)
            == req->Query_0.query->Peers_0.peer_ids@.len(),
        !(announcement is Announce) ==> handed_on(m, announcement, meta) == 0,
        announcement is Announce && meta.envelope is Some ==> handed_on(m, announcement, meta)
            == 1 + (if m.queries.dom().contains(meta.envelope->0@.issuer) {
            m.queries[meta.envelope->0@.issuer].len()
        } else {
            0
        }),
{
}

/// A server handles every event about a stream that it has: whatever stream is opened, whatever of
/// the handled kinds is received, and every stream that can be sent on, as long as there is room
/// for what is queued. A cancelled stream is polled only with nothing queued.
pub proof fn law_which_events_are_handled(
    m: ServerModel,
    backlog: nat,
    i: usize,
    announced: Received<AnnounceRequest>,
    j: usize,
    asked: Received<QueryRequest>,
    addr: StreamAddr,
    cancelled: bool,
)
    ensures
        can_handle(m, backlog, ServerEvent::Endpoint(None)),
        i < m.announce_in.len() && !(announced is Ok && announced->Ok_0 is Some) ==> can_handle(
            m,
            backlog,
            ServerEvent::Announce(i, announced),
        ),
        i < m.announce_in.len() && (announced matches Ok(Some((req, meta))) && is_peer_announcement(
            req,
            meta,
        ) && backlog + handed_on(m, req, meta) <= usize::MAX) ==> can_handle(
            m,
            backlog,
            ServerEvent::Announce(i, announced),
        ),
        j < m.query_in.len() && !(asked is Ok && asked->Ok_0 is Some) ==> can_handle(
            m,
            backlog,
            ServerEvent::Query(j, asked),
        ),
        j < m.query_in.len() && (asked matches Ok(Some((req, _))) && is_peer_query(req) && backlog
            + most_replies(req) <= usize::MAX) ==> can_handle(
            m,
            backlog,
            ServerEvent::Query(j, asked),
        ),
        m.senders.dom().contains(addr) && !cancelled && !m.senders[addr].is_cancelled()
            ==> can_handle(m, backlog, ServerEvent::Sender(addr, cancelled)),
        m.senders.dom().contains(addr) && (!m.queues.dom().contains(addr) || m.queues[addr].len()
            == 0) ==> can_handle(m, backlog, ServerEvent::Sender(addr, cancelled)),
{
}

/// Only a stream that is closing, and that is still there, is ever done.
pub proof fn law_only_closing_streams_are_done(m: ServerModel, addr: StreamAddr)
    requires
        done(m, addr),
    ensures
        m.closing.contains(addr),
        m.senders.dom().contains(addr),
        m.queues.dom().contains(addr) ==> m.queues[addr].len() == 0,
{
}

/// Dropping a connection without a control stream takes nothing from the known connections.
pub proof fn law_uncontrolled_connections_stay_unknown(m: ServerModel, conn_id: ConnId)
    requires
        m.streams.dom().contains(conn_id) ==> forall|id: StreamId| #[trigger]
            m.streams[conn_id].dom().contains(id) ==> m.streams[conn_id][id] != StreamType::Control,
    ensures
        without_conn(m, conn_id).control_out == m.control_out,
{
}

/// Polling a stream notes that it was cancelled, and nothing but starting a frame ends the time in
/// which its type is to be written; taking bytes does that only if the type is taken whole.
pub proof fn law_stream_states_follow(
    m: ServerModel,
    addr: StreamAddr,
    cancelled: bool,
    r: QueuePoll,
    polled: ServerModel,
    n: nat,
    taken: ServerModel,
)
    requires
        m.senders[addr].wf(),
        sends(m, addr, cancelled, r, polled),
        took(m, addr, n, taken),
    ensures
        polled.senders[addr].is_cancelled() == (m.senders[addr].is_cancelled() || cancelled),
        polled.queues == m.queues ==> polled.senders[addr].at_header()
            == m.senders[addr].at_header(),
        taken.senders[addr].is_cancelled() == m.senders[addr].is_cancelled(),
        taken.senders[addr].at_header() == (m.senders[addr].at_header() && n != 1),
        taken.senders[addr].address() == m.senders[addr].address(),
        taken.senders[addr].stream_type() == m.senders[addr].stream_type(),
{
    if m.queues.dom().contains(addr) && m.queues[addr].len() > 0 {
        let queue = m.queues[addr];
        assert(queue.drop_first().len() == queue.len() - 1);
        assert(m.queues.insert(addr, queue.drop_first())[addr].len() != queue.len());
    }
}

/// The values of a key are those that were added for it, and none if nothing was. Without a value,
/// every set is what it was but for that value.
pub proof fn law_sets_are_kept_by_key<K, V>(
    sets: Map<K, Set<V>>,
    key: K,
    value: V,
    other: V,
)
    requires
        other != value,
    ensures
        sets.dom().contains(key) ==> set_of(sets, key) == sets[key],
        !sets.dom().contains(key) ==> !set_of(sets, key).contains(value),
        without_value(sets, value).dom().contains(key) == sets.dom().contains(key),
        sets.dom().contains(key) ==> !without_value(sets, value)[key].contains(value)
            && without_value(sets, value)[key].contains(other) == sets[key].contains(other),
{
}

} // verus!

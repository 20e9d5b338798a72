use waht::addr::{SocketAddr, SocketAddrV4};
use waht::frame::conn::{
    end_frame, next_announcement, recv_typ, recv_typ_exact, send_typ, ClientSession, QueryPoll,
};
use waht::frame::{ConnActor, FrameEvent, FrameStep, StreamFrame};
use waht::io::quic::client::{next_reply, query_frame, server_name, Config as ClientConfig};
use waht::io::quic::control::{ControlEvent, ControlPair, ControlStep, CONTROL_DEADLINE};
use waht::io::quic::server::{
    answer_query, check_certificate_source, end_query, handle_event, Config, ConfigError,
    MAX_CONNECTIONS, MAX_CONTROL_STREAMS, MAX_STREAMS,
};
use waht::io::quic::{
    recv_order, send_order, ClientIncoming, ClientReceived, ConnEvent2, FrameIncoming,
    Incoming, IncomingActor, Outgoing, ServerIncoming, ServerReceived, WAHT_ALPN,
};
use waht::net::conn::{HashMapSet, ServerActor, ServerConnEvent, ServerEvent, ServerStep};
use waht::proto::crypto::{Proof, SealedEnvelope, SigningKey};
use waht::proto::data::{
    AnnounceRequest, AnnounceResponse, Authorization, ControlMessage, FrameMeta, QueryRequest,
    QueryResponse, Request, Response,
};
use waht::proto::traits::encode_to_vec;
use waht::proto::util::TypedBytes;
use waht::proto::wire::{
    Ack, AnnouncePayload, Announcement, End, Error, Frame, FramePayload, Hello, PeerInfo, Query,
    QueryKeys, QueryPayload, QueryPeers, QuerySettings, SignedFrame, UnsignedFrame,
};
use waht::proto::FrameError;
use waht::queue::QueuePoll;
use waht::stream::{
    accept_bi, accept_failure, accept_uni, AcceptFailure, FrameRecvStream, FrameSendStream, MappedPoll,
    RecvPoll, SendPoll, StreamAddr, StreamError, StreamType,
};

fn addr(stream_id: u64) -> StreamAddr {
    StreamAddr { conn_id: 1, stream_id }
}

fn settings() -> QuerySettings {
    QuerySettings { stop_after: 0, keepalive: true, federate: false }
}

fn query_for(peer_ids: Vec<[u8; 32]>) -> QueryRequest {
    QueryRequest::Query(Query {
        settings: settings(),
        query: QueryPayload::Peers(QueryPeers { peer_ids }),
    })
}

fn unsigned() -> FrameMeta {
    FrameMeta { rid: None, authorization: None, envelope: None }
}

fn announcement(port: u16) -> Announcement {
    Announcement {
        timestamp: port as u64,
        payload: AnnouncePayload::PeerInfo(PeerInfo {
            addr: SocketAddr::V4(SocketAddrV4 { ip: [1, 2, 3, 4], port }),
            relay: None,
        }),
    }
}

fn announce(key: &SigningKey, port: u16) -> (AnnounceRequest, FrameMeta) {
    let signed = SignedFrame::Announce(announcement(port));
    let (issuer, seal) = Proof::sign(key, &encode_to_vec(&signed));
    let envelope = SealedEnvelope::sign_and_encode(key, &signed).unwrap();
    let meta = FrameMeta {
        rid: Some(1),
        authorization: Some(Authorization { issuer, seal }),
        envelope: Some(envelope),
    };
    (AnnounceRequest::Announce(announcement(port)), meta)
}

fn with_query_stream(server: &mut ServerActor, stream_id: u64) {
    let send = FrameSendStream::new(1, stream_id, StreamType::Query, false);
    let recv = FrameRecvStream::new(1, stream_id).map();
    let event = ServerConnEvent::QueryStream(addr(stream_id), (send, recv));
    assert_eq!(server.poll_run(ServerEvent::Endpoint(Some(event))), ServerStep::Continue);
}

fn with_announce_stream(server: &mut ServerActor, stream_id: u64) {
    let send = FrameSendStream::new(1, stream_id, StreamType::Announce, false);
    let recv = FrameRecvStream::new(1, stream_id).map();
    let event = ServerConnEvent::AnnounceStream(addr(stream_id), (send, recv));
    assert_eq!(server.poll_run(ServerEvent::Endpoint(Some(event))), ServerStep::Continue);
}

fn with_control_stream(server: &mut ServerActor, stream_id: u64) {
    let send = FrameSendStream::new(1, stream_id, StreamType::Control, true);
    let recv = FrameRecvStream::new(1, stream_id).map();
    let event = ServerConnEvent::ControlStream(addr(stream_id), (send, recv));
    assert_eq!(server.poll_run(ServerEvent::Endpoint(Some(event))), ServerStep::Continue);
}

/// Polls a stream and takes what it has to write, a few bytes at a time, until it has nothing.
fn drain(server: &mut ServerActor, stream_id: u64) -> Vec<u8> {
    let mut out = Vec::new();
    while server.poll_sender(&addr(stream_id), false) == QueuePoll::Write {
        let bytes = server.sender(&addr(stream_id)).unwrap().to_write();
        let n = std::cmp::min(5, bytes.len());
        out.extend_from_slice(&bytes[..n]);
        assert_eq!(server.wrote(&addr(stream_id), n), Ok(()));
    }
    out
}

/// The replies in what was sent on a query stream: the time of an announcement, or the end.
fn replies(bytes: &[u8]) -> Vec<Option<u64>> {
    let mut recv = FrameRecvStream::new(1, 1).map::<QueryResponse>();
    recv.read(bytes);
    let mut out = Vec::new();
    loop {
        match recv.poll_recv(false) {
            Ok(MappedPoll::Message(QueryResponse::Announce(a), _)) => out.push(Some(a.timestamp)),
            Ok(MappedPoll::Message(QueryResponse::End(_), _)) => out.push(None),
            Ok(MappedPoll::Read) => return out,
            _ => panic!("not a reply"),
        }
    }
}

/// Receives the frame that the server started on a stream.
fn sent_announcement(server: &ServerActor, stream_id: u64) -> (u64, [u8; 32]) {
    let mut recv = FrameRecvStream::new(1, stream_id).map::<QueryResponse>();
    recv.read(server.sender(&addr(stream_id)).unwrap().to_write());
    match recv.poll_recv(false) {
        Ok(MappedPoll::Message(QueryResponse::Announce(a), meta)) => {
            (a.timestamp, meta.authorization.unwrap().issuer)
        }
        _ => panic!("not an announcement"),
    }
}

#[test]
fn queries_get_earlier_announcements() {
    let key = SigningKey::from_bytes(&[1; 32]);
    let id = key.verifying_key();
    let mut server = ServerActor::new();
    with_announce_stream(&mut server, 2);
    with_query_stream(&mut server, 3);
    let (req, meta) = announce(&key, 7);
    server.poll_run(ServerEvent::Announce(0, Ok(Some((req, meta)))));
    // The announcement is acknowledged.
    assert_eq!(server.backlog_len(), 1);
    let mut acks = FrameRecvStream::new(1, 2).map::<AnnounceResponse>();
    acks.read(&drain(&mut server, 2));
    assert!(matches!(
        acks.poll_recv(false),
        Ok(MappedPoll::Message(
            AnnounceResponse::Ack(Ack { rid: 1 }),
            FrameMeta { rid: Some(1), authorization: None, envelope: None }
        ))
    ));
    assert!(matches!(acks.poll_recv(false), Ok(MappedPoll::Read)));
    assert_eq!(server.backlog_len(), 0);
    server.poll_run(ServerEvent::Query(0, Ok(Some((query_for(vec![[8; 32], id]), unsigned())))));
    assert_eq!(server.backlog_len(), 1);
    assert_eq!(
        server.poll_run(ServerEvent::Sender(addr(3), false)),
        ServerStep::Sender(QueuePoll::Write)
    );
    assert_eq!(server.backlog_len(), 0);
    assert_eq!(sent_announcement(&server, 3), (7, id));
}

#[test]
fn queries_get_later_announcements() {
    let key = SigningKey::from_bytes(&[1; 32]);
    let id = key.verifying_key();
    let mut server = ServerActor::new();
    with_announce_stream(&mut server, 2);
    with_query_stream(&mut server, 3);
    with_query_stream(&mut server, 4);
    with_query_stream(&mut server, 5);
    server.poll_run(ServerEvent::Query(0, Ok(Some((query_for(vec![id]), unsigned())))));
    server.poll_run(ServerEvent::Query(0, Ok(Some((query_for(vec![id, id]), unsigned())))));
    let failure = QueryRequest::Error(Error { code: 1, message: None });
    server.poll_run(ServerEvent::Query(0, Ok(Some((failure, unsigned())))));
    assert_eq!(server.backlog_len(), 0);
    let (req, meta) = announce(&key, 9);
    server.poll_run(ServerEvent::Announce(0, Ok(Some((req, meta)))));
    assert_eq!(server.backlog_len(), 3);
    for stream_id in [3, 4] {
        assert_eq!(server.poll_sender(&addr(stream_id), false), QueuePoll::Write);
        assert_eq!(sent_announcement(&server, stream_id), (9, id));
    }
    assert_eq!(server.poll_sender(&addr(5), false), QueuePoll::Idle);
}

#[test]
fn queued_frames_are_sent_one_after_the_other() {
    let keys = [SigningKey::from_bytes(&[1; 32]), SigningKey::from_bytes(&[2; 32])];
    let ids: Vec<[u8; 32]> = keys.iter().map(|key| key.verifying_key()).collect();
    let mut server = ServerActor::new();
    with_announce_stream(&mut server, 2);
    with_query_stream(&mut server, 3);
    assert_eq!(server.sender_addrs(), vec![addr(2), addr(3)]);
    assert_eq!((server.announce_streams(), server.query_streams()), (1, 1));
    for (i, key) in keys.iter().enumerate() {
        let (req, meta) = announce(key, 10 + i as u16);
        server.poll_run(ServerEvent::Announce(0, Ok(Some((req, meta)))));
    }
    // The query arrives in two parts.
    let query = Query {
        settings: settings(),
        query: QueryPayload::Peers(QueryPeers { peer_ids: ids }),
    };
    let mut client = FrameSendStream::new(1, 3, StreamType::Query, false);
    client.start_send(&query_frame(query)).unwrap();
    let (head, tail) = client.to_write().split_at(9);
    let stream = server.query_stream_mut(0).unwrap();
    assert!(stream.read(head));
    assert!(matches!(stream.poll_recv(false), Ok(MappedPoll::Read)));
    let stream = server.query_stream_mut(0).unwrap();
    assert!(stream.read(tail));
    let received = match stream.poll_recv(false) {
        Ok(MappedPoll::Message(query, meta)) => Ok(Some((query, meta))),
        _ => panic!("not a query"),
    };
    server.poll_run(ServerEvent::Query(0, received));
    let (req, meta) = announce(&keys[0], 12);
    server.poll_run(ServerEvent::Announce(0, Ok(Some((req, meta)))));
    assert_eq!(replies(&drain(&mut server, 3)), vec![Some(10), Some(11), Some(12)]);
    assert!(server.announce_stream_mut(0).unwrap().read(&[0]));
}

#[test]
fn ended_queries_are_ended_and_closed() {
    let key = SigningKey::from_bytes(&[1; 32]);
    let id = key.verifying_key();
    let mut server = ServerActor::new();
    with_announce_stream(&mut server, 2);
    with_query_stream(&mut server, 3);
    server.poll_run(ServerEvent::Query(0, Ok(Some((query_for(vec![id]), unsigned())))));
    let (req, meta) = announce(&key, 7);
    server.poll_run(ServerEvent::Announce(0, Ok(Some((req, meta)))));
    let end = || Ok(Some((QueryRequest::End(End {}), unsigned())));
    server.poll_run(ServerEvent::Query(0, end()));
    // Nothing reaches the stream any more, and nothing is answered on it.
    let (req, meta) = announce(&key, 8);
    server.poll_run(ServerEvent::Announce(0, Ok(Some((req, meta)))));
    server.poll_run(ServerEvent::Query(0, end()));
    server.poll_run(ServerEvent::Query(0, Ok(Some((query_for(vec![id]), unsigned())))));
    assert!(!server.is_done(&addr(3)));
    assert_eq!(replies(&drain(&mut server, 3)), vec![Some(7), None]);
    assert!(server.is_done(&addr(3)));
    server.finish(&addr(3));
    assert!(server.sender(&addr(3)).is_none());
    assert!(!server.is_done(&addr(3)));
    // An announce stream may end, too.
    let end = AnnounceRequest::End(End {});
    server.poll_run(ServerEvent::Announce(0, Ok(Some((end, unsigned())))));
    assert_eq!(server.announce_streams(), 1);
}

#[test]
fn a_stream_type_that_is_not_taken_is_reported() {
    let mut server = ServerActor::new();
    let send = FrameSendStream::new(1, 3, StreamType::Query, true);
    let recv = FrameRecvStream::new(1, 3).map();
    let event = ServerConnEvent::QueryStream(addr(3), (send, recv));
    server.poll_run(ServerEvent::Endpoint(Some(event)));
    assert_eq!(server.wrote(&addr(3), 0), Err(StreamError::FailedToWriteHeader));
    assert_eq!(server.wrote(&addr(3), 1), Ok(()));
    assert_eq!(server.poll_sender(&addr(3), false), QueuePoll::Idle);
}

#[test]
fn failed_streams_take_their_connection_down() {
    let mut server = ServerActor::new();
    with_control_stream(&mut server, 1);
    with_announce_stream(&mut server, 2);
    with_query_stream(&mut server, 3);
    assert!(server.has_conn(&1));
    server.poll_run(ServerEvent::Announce(0, Err(StreamError::ReadError)));
    assert!(!server.has_conn(&1));
    assert!(server.sender(&addr(2)).is_none());
    assert!(server.sender(&addr(3)).is_none());
    // Once more, for a connection that is gone.
    server.poll_run(ServerEvent::Query(0, Err(StreamError::ReadError)));
    assert_eq!(server.poll_run(ServerEvent::Endpoint(None)), ServerStep::Stop);
}

#[test]
fn ended_streams_leave_their_connection_up() {
    let mut server = ServerActor::new();
    with_control_stream(&mut server, 1);
    with_announce_stream(&mut server, 2);
    server.poll_run(ServerEvent::Announce(0, Ok(None)));
    assert!(server.has_conn(&1));
    assert!(server.sender(&addr(2)).is_some());
    server.insert_stream_addr(addr(9), StreamType::Query);
    server.remove_conn(&5);
    assert!(server.has_conn(&1));
    server.remove_conn(&1);
    assert!(server.sender(&addr(2)).is_none());
}

#[test]
fn sets_by_key_hold_each_value_once() {
    let mut sets: HashMapSet<u64, u64> = HashMapSet::new();
    assert!(sets.iter(&1).is_empty());
    sets.insert(1, 30);
    sets.insert(1, 10);
    sets.insert(1, 30);
    sets.insert(2, 5);
    assert_eq!(sets.iter(&1), vec![10, 30]);
    assert_eq!(sets.iter(&2), vec![5]);
    sets.insert(2, 30);
    sets.remove_value(&30);
    assert_eq!(sets.iter(&1), vec![10]);
    assert_eq!(sets.iter(&2), vec![5]);
}

#[test]
fn incoming_streams_hand_out_requests() {
    assert_eq!(recv_order(), [StreamType::Control, StreamType::Announce, StreamType::Query]);
    assert_eq!(send_order(), [StreamType::Control, StreamType::Query, StreamType::Announce]);
    let mut incoming = ServerIncoming::new();
    incoming.control.push_stream(FrameRecvStream::new(1, 2).map());
    incoming.announce.push_stream(FrameRecvStream::new(1, 3).map());
    incoming.query.push_stream(FrameRecvStream::new(1, 4).map());
    let hello = ControlMessage::Hello(Hello { version: 1, peer_id: [1; 32] });
    match incoming.poll_recv(ServerReceived::Control(0, Ok(Some((hello, unsigned()))))) {
        Some(Ok(frame)) => {
            assert!(matches!(frame.payload, Request::Control(_)));
            assert_eq!(frame.stream, addr(2));
        }
        _ => panic!("not handed out"),
    }
    let end = AnnounceRequest::End(End {});
    assert!(matches!(
        incoming.poll_recv(ServerReceived::Announce(0, Ok(Some((end, unsigned()))))),
        Some(Ok(FrameIncoming { payload: Request::Announce(_), .. }))
    ));
    assert!(matches!(
        incoming.poll_recv(ServerReceived::Query(0, Err(StreamError::IO))),
        Some(Err(StreamError::IO))
    ));
    assert_eq!(incoming.query.len(), 0);
    assert_eq!(incoming.announce.len(), 1);
}

#[test]
fn incoming_streams_hand_out_responses() {
    let mut incoming = ClientIncoming::new();
    incoming.control.push_stream(FrameRecvStream::new(1, 2).map());
    incoming.announce.push_stream(FrameRecvStream::new(1, 3).map());
    incoming.query.push_stream(FrameRecvStream::new(1, 4).map());
    let ack = AnnounceResponse::Ack(Ack { rid: 1 });
    assert!(matches!(
        incoming.poll_recv(ClientReceived::Announce(0, Ok(Some((ack, unsigned()))))),
        Some(Ok(FrameIncoming { payload: Response::Announce(_), .. }))
    ));
    let end = QueryResponse::End(End {});
    assert!(matches!(
        incoming.poll_recv(ClientReceived::Query(0, Ok(Some((end, unsigned()))))),
        Some(Ok(FrameIncoming { payload: Response::Query(_), .. }))
    ));
    assert!(incoming.poll_recv(ClientReceived::Control(0, Ok(None))).is_none());
    assert_eq!(incoming.control.len(), 0);
}

#[test]
fn accepted_streams_are_received_and_sent_on() {
    let mut actor: IncomingActor<&str> = IncomingActor::new();
    assert_eq!(actor.poll_accept(Ok((1, "conn"))), Ok(()));
    assert_eq!(
        actor.poll_accept(Err(StreamError::ConnectionError)),
        Err(StreamError::ConnectionError)
    );
    assert_eq!(actor.conn(&1), Some(&"conn"));
    assert!(actor.poll_accept_streams(1, accept_uni(1, 2, 0)).is_none());
    assert!(actor.poll_accept_streams(1, accept_bi(1, 3, 1)).is_none());
    assert!(actor.poll_accept_streams(1, accept_bi(1, 4, 2)).is_none());
    assert_eq!(actor.incoming.control.len(), 1);
    assert_eq!(actor.incoming.query.len(), 1);
    assert_eq!(actor.incoming.announce.len(), 1);
    assert_eq!(actor.outgoing.query.addrs(), vec![addr(3)]);
    assert_eq!(actor.outgoing.announce.addrs(), vec![addr(4)]);
    assert!(actor.outgoing.control.addrs().is_empty());
    // A stream of an unknown type is closed, and its connection goes on.
    assert_eq!(actor.poll_accept_streams(1, accept_bi(1, 5, 9)), None);
    assert_eq!(actor.poll_accept_streams(1, accept_uni(1, 6, 1)), None);
    assert_eq!(actor.conn(&1), Some(&"conn"));
    assert_eq!(accept_failure(StreamError::InvalidStreamType), AcceptFailure::CloseStream);
    assert_eq!(accept_failure(StreamError::ReadError), AcceptFailure::DropConnection);
    // Any other failure gives the connection back to be cancelled.
    assert_eq!(actor.poll_accept_streams(1, Err(StreamError::ReadError)), Some("conn"));
    assert_eq!(actor.poll_accept_streams(1, Err(StreamError::ReadError)), None);
    assert!(actor.conn(&1).is_none());
}

#[test]
fn connections_need_both_control_streams() {
    let mut pair = ControlPair::new();
    assert_eq!(pair.handle(ControlEvent::StreamArrived), ControlStep::Hold);
    assert_eq!(pair.handle(ControlEvent::OursOpened), ControlStep::Hold);
    assert_eq!(pair.handle(ControlEvent::TheirsOpened), ControlStep::Serve);
    assert_eq!(pair.handle(ControlEvent::StreamArrived), ControlStep::Serve);
    assert_eq!(pair.handle(ControlEvent::DeadlinePassed), ControlStep::Serve);
    assert_eq!(pair.handle(ControlEvent::TheirsFailed), ControlStep::Abort);
    assert_eq!(pair.handle(ControlEvent::TheirsOpened), ControlStep::Abort);
    let mut pair = ControlPair::new();
    assert_eq!(pair.handle(ControlEvent::TheirsOpened), ControlStep::Hold);
    assert_eq!(pair.handle(ControlEvent::DeadlinePassed), ControlStep::Abort);
    assert_eq!(pair.handle(ControlEvent::OursOpened), ControlStep::Abort);
    assert_eq!(ControlPair::new().handle(ControlEvent::OursFailed), ControlStep::Abort);
    assert_eq!(CONTROL_DEADLINE, 10);
}

#[test]
fn servers_are_asked_for_by_name() {
    assert_eq!(server_name("tracker.example:4433", false), "tracker.example");
    assert_eq!(server_name("tracker.example", false), "tracker.example");
    assert_eq!(server_name("a:b:1", false), "a:b");
    assert_eq!(server_name(":1", false), "");
    assert_eq!(server_name("1.2.3.4:5", true), "localhost");
    assert_eq!(server_name("", false), "");
}

#[test]
fn queries_are_answered_on_their_stream() {
    let key = SigningKey::from_bytes(&[9; 32]);
    let mut actor: IncomingActor<()> = IncomingActor::new();
    actor.push_conn(1, ());
    actor.poll_accept_streams(1, accept_bi(1, 3, 1));
    let received = Ok(Some((
        query_for(vec![]),
        FrameMeta { rid: Some(12), authorization: None, envelope: None },
    )));
    let event = match actor.poll_recv(ServerReceived::Query(0, received)) {
        Some(Ok(event)) => event,
        _ => panic!("not handed out"),
    };
    assert_eq!(handle_event(&mut actor, event, &key), Ok(()));
    assert_eq!(actor.outgoing.len(), 2);
    assert!(actor.outgoing.query.is_closing(&addr(3)));
    let queue = actor.outgoing.queue_mut(StreamType::Query);
    assert_eq!(queue.poll_send(&addr(3), false), Ok(QueuePoll::Write));
    let mut recv = FrameRecvStream::new(1, 3).map::<QueryResponse>();
    recv.read(actor.outgoing.queue(StreamType::Query).stream(&addr(3)).unwrap().to_write());
    match recv.poll_recv(false) {
        Ok(MappedPoll::Message(QueryResponse::Announce(a), meta)) => {
            assert_eq!(meta.rid, Some(12));
            assert_eq!(meta.authorization.unwrap().issuer, key.verifying_key());
            assert_eq!(a.timestamp, 0);
            match a.payload {
                AnnouncePayload::ProvideHash(p) => assert_eq!(p.target, [9; 32]),
                _ => panic!("not a hash"),
            }
        }
        _ => panic!("not an announcement"),
    }
    assert_eq!(handle_event(&mut actor, ConnEvent2::ConnOpen(4), &key), Ok(()));
    let hello = ControlMessage::Hello(Hello { version: 1, peer_id: [1; 32] });
    let control = FrameIncoming::new(Request::Control(hello), unsigned(), addr(3));
    assert_eq!(handle_event(&mut actor, ConnEvent2::FrameIncoming(control), &key), Ok(()));
    assert_eq!(actor.outgoing.len(), 1);
    // Neither the end of the query nor another query is answered.
    for request in [QueryRequest::End(End {}), query_for(vec![])] {
        let event = FrameIncoming::new(Request::Query(request), unsigned(), addr(3));
        assert_eq!(handle_event(&mut actor, ConnEvent2::FrameIncoming(event), &key), Ok(()));
        assert_eq!(actor.outgoing.len(), 1);
    }
    // The end follows, and then the sending side is closed.
    let queue = actor.outgoing.queue_mut(StreamType::Query);
    let n = queue.stream(&addr(3)).unwrap().to_write().len();
    queue.wrote(&addr(3), n).unwrap();
    assert_eq!(queue.poll_send(&addr(3), false), Ok(QueuePoll::Write));
    recv.read(queue.stream(&addr(3)).unwrap().to_write());
    assert!(matches!(
        recv.poll_recv(false),
        Ok(MappedPoll::Message(QueryResponse::End(_), FrameMeta { rid: Some(12), .. }))
    ));
    assert!(!queue.is_done(&addr(3)));
    let n = queue.stream(&addr(3)).unwrap().to_write().len();
    queue.wrote(&addr(3), n).unwrap();
    assert!(queue.is_done(&addr(3)));
    queue.finish(&addr(3));
    assert!(answer_query(Some(1), &key).is_ok());
    assert_eq!(end_query(None).type_number(), 8);
}

#[test]
fn the_first_failure_to_send_counts() {
    let ok = Ok(());
    assert_eq!(Outgoing::poll_send(ok, ok, ok), Ok(()));
    let a = Err(StreamError::IO);
    let b = Err(StreamError::StreamClosed);
    assert_eq!(Outgoing::poll_send(a, b, b), a);
    assert_eq!(Outgoing::poll_send(ok, b, a), b);
    assert_eq!(Outgoing::poll_send(ok, ok, a), a);
    assert_eq!(Outgoing::new().len(), 0);
}

#[test]
fn servers_sign_their_own_certificates() {
    let config = Config::default();
    assert_eq!(config.tls_server_name, "localhost");
    assert!(config.tls_self_signed);
    assert_eq!(config.tracker.peer_ttl.as_nanos(), 300_000_000_000);
    assert_eq!(check_certificate_source(true), Ok(()));
    assert_eq!(check_certificate_source(false), Err(ConfigError::AcmeNotSupported));
    assert!(ClientConfig::accept_insecure().tls_accept_insecure);
    assert_eq!(WAHT_ALPN.as_bytes(), b"n0/waht/0");
    assert_eq!((MAX_CONNECTIONS, MAX_STREAMS, MAX_CONTROL_STREAMS), (4096, 10, 1));
}

#[test]
fn clients_open_queries_with_a_frame() {
    let query = Query {
        settings: settings(),
        query: QueryPayload::Keys(QueryKeys { keys: vec![[7; 32]] }),
    };
    let frame = query_frame(query);
    assert_eq!(frame.rid, None);
    assert!(matches!(frame.payload, FramePayload::Unsigned(UnsignedFrame::Query(_))));
    assert!(next_reply(Ok(None)).is_none());
    assert!(matches!(next_reply(Err(StreamError::IO)), Some(Err(StreamError::IO))));
    assert!(matches!(
        next_reply(Ok(Some((QueryResponse::End(End {}), unsigned())))),
        Some(Ok(QueryResponse::End(_)))
    ));
}

#[test]
fn announcements_end_with_the_query() {
    let key = SigningKey::from_bytes(&[1; 32]);
    let (issuer, seal) = Proof::sign(&key, b"x");
    let meta = FrameMeta {
        rid: None,
        authorization: Some(Authorization { issuer, seal }),
        envelope: None,
    };
    match next_announcement(Ok(Some((QueryResponse::Announce(announcement(3)), meta)))) {
        Ok(Some(envelope)) => {
            assert_eq!(envelope.issuer, issuer);
            assert_eq!(envelope.payload.timestamp, 3);
        }
        _ => panic!("not an announcement"),
    }
    assert!(matches!(next_announcement(Ok(None)), Ok(None)));
    assert!(matches!(
        next_announcement(Ok(Some((QueryResponse::End(End {}), unsigned())))),
        Ok(None)
    ));
    assert_eq!(next_announcement(Err(StreamError::IO)).err(), Some(StreamError::IO));
    let failure = QueryResponse::Error(Error { code: 3, message: None });
    assert_eq!(
        next_announcement(Ok(Some((failure, unsigned())))).err(),
        Some(StreamError::BadFrame(FrameError::InvalidFrameType))
    );
    let anonymous = Ok(Some((QueryResponse::Announce(announcement(3)), unsigned())));
    assert_eq!(
        next_announcement(anonymous).err(),
        Some(StreamError::BadFrame(FrameError::InvalidFrameType))
    );
    assert!(matches!(
        end_frame().payload,
        FramePayload::Unsigned(UnsignedFrame::End(_))
    ));
}

#[test]
fn stream_types_are_expected() {
    assert_eq!(send_typ(StreamType::Announce), [0x02]);
    assert_eq!(recv_typ(0x01), Ok(StreamType::Query));
    assert_eq!(recv_typ_exact(0x00, StreamType::Control), Ok(()));
    assert_eq!(
        recv_typ_exact(0x01, StreamType::Control),
        Err(StreamError::InvalidStreamType)
    );
    assert_eq!(
        recv_typ_exact(0x09, StreamType::Control),
        Err(StreamError::InvalidStreamType)
    );
}

#[test]
fn connections_emit_and_take_frames() {
    let mut conn = ConnActor::new(1);
    assert_eq!(conn.stream_addr(4), addr(4));
    assert!(matches!(conn.poll_next(FrameEvent::Accepted(None)), Ok(FrameStep::Wait)));
    let accepted = FrameEvent::Accepted(Some((4, StreamType::Query)));
    assert!(matches!(conn.poll_next(accepted), Ok(FrameStep::Wait)));
    assert!(matches!(conn.poll_next(FrameEvent::Look(addr(4), true)), Ok(FrameStep::Read)));
    let body = encode_to_vec(&end_frame());
    let mut bytes = vec![0, 0, 0, 8];
    bytes.extend((body.len() as u32).to_be_bytes());
    bytes.extend(body);
    conn.bistreams.get_mut(&addr(4)).unwrap().1.read(&bytes);
    assert!(matches!(conn.poll_next(FrameEvent::Look(addr(4), false)), Ok(FrameStep::Wait)));
    match conn.poll_next(FrameEvent::Look(addr(4), true)) {
        Ok(FrameStep::Emit(out)) => assert_eq!(out.addr, addr(4)),
        _ => panic!("no frame"),
    }
    let end = |stream_id: u64| StreamFrame::from((addr(stream_id), end_frame()));
    assert!(conn.try_send_frame(end(4)).is_none());
    assert_eq!(conn.bistreams.get(&addr(4)).unwrap().0.to_write(), &bytes[..]);
    // Busy, and unknown.
    assert!(conn.try_send_frame(end(4)).is_some());
    assert!(conn.try_send_frame(end(5)).is_some());
    assert_eq!(conn.to_write(&addr(5)), None);
    assert_eq!(conn.poll_send(&addr(4), false), SendPoll::Write);
    assert_eq!(conn.wrote(&addr(4), 3), Ok(()));
    assert_eq!(conn.to_write(&addr(4)), Some(&bytes[3..]));
    assert_eq!(conn.poll_send(&addr(4), false), SendPoll::Write);
    assert_eq!(conn.wrote(&addr(4), bytes.len() - 3), Ok(()));
    assert_eq!(conn.poll_send(&addr(4), false), SendPoll::Ready);
    assert!(conn.try_send_frame(end(4)).is_none());
    conn.bistreams.get_mut(&addr(4)).unwrap().1.read(&[0, 0, 0, 8, 0, 0, 0, 1, 9]);
    assert!(matches!(
        conn.poll_next(FrameEvent::Look(addr(4), true)),
        Err(StreamError::BadFrame(_))
    ));
}

#[test]
fn replayed_announcements_keep_their_signature() {
    let key = SigningKey::from_bytes(&[5; 32]);
    let payload = encode_to_vec(&SignedFrame::Announce(announcement(4)));
    let (issuer, seal) = Proof::sign(&key, &payload);
    let verified = waht::proto::crypto::VerifiedEnvelope::new(
        SignedFrame::Announce(announcement(4)),
        issuer,
        seal,
    );
    let frame =
        Frame { rid: None, payload: FramePayload::Signed(verified.into_sealed().unwrap()) };
    assert!(frame.verify_into::<QueryResponse>().is_ok());
}

#[test]
fn cancelled_queries_send_their_end() {
    let query = Query {
        settings: settings(),
        query: QueryPayload::Keys(QueryKeys { keys: vec![[7; 32]] }),
    };
    let mut stream = ClientSession { conn_id: 1 }.query(4, query);
    let mut written = Vec::new();
    let mut write_all = |stream: &mut waht::frame::conn::QueryStream, written: &mut Vec<u8>| loop {
        match stream.poll_send() {
            QueryPoll::Write => {}
            other => return other,
        }
        let n = std::cmp::min(4, stream.to_write().len());
        written.extend_from_slice(&stream.to_write()[..n]);
        stream.wrote(n).unwrap();
    };
    assert_eq!(write_all(&mut stream, &mut written), QueryPoll::Wait);
    let reply = waht::io::quic::server::end_query(None);
    let mut server = FrameSendStream::new(1, 4, StreamType::Query, false);
    server.start_send(&reply).unwrap();
    assert!(stream.read(server.to_write()));
    assert!(matches!(
        stream.poll_recv(),
        Ok(MappedPoll::Message(QueryResponse::End(_), _))
    ));
    stream.cancel();
    stream.cancel();
    assert_eq!(write_all(&mut stream, &mut written), QueryPoll::Close);
    assert!(matches!(stream.poll_recv(), Ok(MappedPoll::Closed)));
    assert_eq!(written[0], 0x01);
    let mut recv = FrameRecvStream::new(1, 4);
    recv.read(&written[1..]);
    let mut types = Vec::new();
    while let Ok(RecvPoll::Frame(frame)) = recv.poll_recv(false) {
        types.push(frame.type_number());
    }
    assert_eq!(types, vec![4, 8]);
}

#[test]
fn announcements_are_handed_on_byte_for_byte() {
    let key = SigningKey::from_bytes(&[1; 32]);
    // A payload in another encoding than ours: a byte follows that decoding ignores.
    let mut payload = encode_to_vec(&SignedFrame::Announce(announcement(6)));
    payload.push(0xff);
    let (issuer, seal) = Proof::sign(&key, &payload);
    let envelope = SealedEnvelope::from_parts(issuer, seal, TypedBytes::copy_from_slice(&payload));
    let frame = Frame { rid: Some(2), payload: FramePayload::Signed(envelope) };
    let (req, meta) = frame.verify_into::<AnnounceRequest>().unwrap();
    let mut server = ServerActor::new();
    with_announce_stream(&mut server, 2);
    with_query_stream(&mut server, 3);
    server.poll_run(ServerEvent::Query(0, Ok(Some((query_for(vec![issuer]), unsigned())))));
    server.poll_run(ServerEvent::Announce(0, Ok(Some((req, meta)))));
    server.poll_sender(&addr(3), false);
    assert_eq!(sent_announcement(&server, 3), (6, issuer));
}

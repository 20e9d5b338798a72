use waht::addr::{SocketAddr, SocketAddrV4};
use waht::io::{ConnEvent, ConnHandle};
use waht::tracker::proto::{
    Command, Hello, LookupKey, LookupPeer, Message, Payload, ProvideKey, Request, Response,
    RpcError,
};
use waht::tracker::server::{ServerActor, ServerState, TrackerConfig, PEER_TTL, TICK_INTERVAL};
use waht::tracker::timers::Timers;
use waht::tracker::{PeerInfo, TrackerInfo};
use waht::util::time::{Clock, Duration, Instant};

fn addr(port: u16) -> SocketAddr {
    SocketAddr::V4(SocketAddrV4 { ip: [127, 0, 0, 1], port })
}

fn at(secs: u128) -> Instant {
    Instant { nanos: secs * 1_000_000_000 }
}

fn server(ttl_secs: u64) -> ServerState {
    let config = TrackerConfig { peer_ttl: Duration::from_secs(ttl_secs) };
    ServerState::with_clock([0; 32], config, Clock::start(), at(0))
}

fn hello(request_id: u64, info: Option<PeerInfo>) -> Request {
    Request { request_id, command: Command::Hello(Hello {}), peer_info: info }
}

fn lookup(request_id: u64, peer_id: [u8; 32]) -> Request {
    Request {
        request_id,
        command: Command::LookupPeer(LookupPeer { peer_id, topic: None }),
        peer_info: None,
    }
}

fn lookup_key(request_id: u64, key: [u8; 32]) -> Request {
    Request {
        request_id,
        command: Command::LookupKey(LookupKey { key, topic: None }),
        peer_info: None,
    }
}

#[test]
fn requests_peer_ttl() {
    let config = TrackerConfig { peer_ttl: Duration::from_secs(1) };

    let p1_id = [1u8; 32];
    let p1_info = PeerInfo::with_addr(addr(1000));

    let p2_id = [2u8; 32];
    let p2_info = PeerInfo::with_addr(addr(2000));

    let mut state = ServerState::with_config(Default::default(), config);
    let now = state.clock().now();
    let req = Request {
        command: Command::Hello(Hello {}),
        peer_info: Some(p1_info.clone()),
        request_id: 1,
    };
    state.handle_request(p1_id, req, None);

    let req = Request {
        command: Command::LookupPeer(LookupPeer { peer_id: p1_id, topic: None }),
        peer_info: Some(p2_info.clone()),
        request_id: 1,
    };
    let res = state.handle_request(p2_id, req, None);
    assert_eq!(res.peers.as_ref().map(|x| x.len()), Some(1));
    assert_eq!(res.peers.unwrap()[0].addrs, p1_info.addrs);

    state.handle_timeout(now.plus(Duration::from_millis(1001)));

    let req = Request {
        command: Command::LookupPeer(LookupPeer { peer_id: p1_id, topic: None }),
        peer_info: Some(p2_info),
        request_id: 2,
    };
    let res = state.handle_request(p2_id, req, None);
    assert_eq!(res.peers, None);
}

#[test]
fn registered_peer_is_found_with_its_from_addr() {
    let mut state = server(60);
    let info = PeerInfo::with_addr(addr(1));
    state.handle_request_at(at(1), [1; 32], hello(1, Some(info)), Some(addr(2)));
    let res = state.handle_request_at(at(2), [9; 32], lookup(7, [1; 32]), Some(addr(3)));
    assert_eq!(res.request_id, 7);
    assert!(res.fin);
    assert!(res.error.is_none());
    let peers = res.peers.unwrap();
    assert_eq!(peers.len(), 1);
    assert_eq!(peers[0].addrs, vec![addr(1), addr(2)]);
    assert!(peers[0].use_from_addr);
}

#[test]
fn from_addr_is_left_out_on_request() {
    let mut state = server(60);
    let info = PeerInfo { use_from_addr: false, addrs: vec![addr(1)], relay: Some(addr(4)) };
    state.handle_request_at(at(1), [1; 32], hello(1, Some(info)), Some(addr(2)));
    let res = state.handle_request_at(at(2), [9; 32], lookup(7, [1; 32]), None);
    let peers = res.peers.unwrap();
    assert_eq!(peers[0].addrs, vec![addr(1)]);
    assert_eq!(peers[0].relay, Some(addr(4)));
}

#[test]
fn hello_without_info_registers_nobody() {
    let mut state = server(60);
    let res = state.handle_request_at(at(1), [1; 32], hello(3, None), Some(addr(2)));
    assert_eq!(res.request_id, 3);
    let res = state.handle_request_at(at(2), [9; 32], lookup(7, [1; 32]), None);
    assert!(res.peers.is_none());
}

#[test]
fn any_request_renews_the_registration() {
    let mut state = server(10);
    state.handle_request_at(at(0), [1; 32], hello(1, Some(PeerInfo::default())), None);
    let ping = Request { request_id: 2, command: Command::Ping, peer_info: None };
    let res = state.handle_request_at(at(8), [1; 32], ping, None);
    assert!(res.peers.is_none());
    state.handle_timeout(at(11));
    assert!(state.handle_request_at(at(12), [9; 32], lookup(7, [1; 32]), None).peers.is_some());
    state.handle_timeout(at(18));
    assert!(state.handle_request_at(at(18), [9; 32], lookup(7, [1; 32]), None).peers.is_some());
    state.handle_timeout(Instant { nanos: 18_000_000_001 });
    assert!(state.handle_request_at(at(19), [9; 32], lookup(7, [1; 32]), None).peers.is_none());
}

#[test]
fn only_expired_peers_are_forgotten() {
    let mut state = server(10);
    state.handle_request_at(at(0), [1; 32], hello(1, Some(PeerInfo::default())), None);
    state.handle_request_at(at(5), [2; 32], hello(1, Some(PeerInfo::default())), None);
    state.handle_timeout(at(12));
    assert!(state.handle_request_at(at(12), [9; 32], lookup(7, [1; 32]), None).peers.is_none());
    assert!(state.handle_request_at(at(12), [9; 32], lookup(7, [2; 32]), None).peers.is_some());
}

#[test]
fn provided_keys_list_registered_providers() {
    let mut state = server(10);
    let key = [5; 32];
    assert!(state.handle_request_at(at(0), [9; 32], lookup_key(1, key), None).peers.is_none());
    for (id, port) in [(3u8, 30u16), (1, 10), (2, 20)] {
        let info = PeerInfo::with_addr(addr(port));
        state.handle_request_at(at(0), [id; 32], hello(1, Some(info)), None);
        let provide = Request {
            request_id: 2,
            command: Command::ProvideKey(ProvideKey { key, topic: Some([8; 32]) }),
            peer_info: None,
        };
        let res = state.handle_request_at(at(0), [id; 32], provide, None);
        assert!(res.peers.is_none());
        assert!(res.fin);
    }
    let unregistered = Request {
        request_id: 2,
        command: Command::ProvideKey(ProvideKey { key, topic: None }),
        peer_info: None,
    };
    state.handle_request_at(at(0), [4; 32], unregistered, None);
    let res = state.handle_request_at(at(1), [9; 32], lookup_key(6, key), None);
    let ports: Vec<Vec<SocketAddr>> = res.peers.unwrap().into_iter().map(|p| p.addrs).collect();
    assert_eq!(ports, vec![vec![addr(10)], vec![addr(20)], vec![addr(30)]]);
    state.handle_timeout(at(100));
    let res = state.handle_request_at(at(101), [9; 32], lookup_key(6, key), None);
    assert_eq!(res.peers.unwrap().len(), 0);
}

#[test]
fn checks_are_due_once_per_interval() {
    let mut state = server(10);
    assert_eq!(TICK_INTERVAL, 5);
    assert_eq!(PEER_TTL, 300);
    assert_eq!(state.poll_timeout(), at(5));
    state.handle_timeout(at(4));
    assert_eq!(state.poll_timeout(), at(5));
    state.handle_timeout(at(5));
    assert_eq!(state.poll_timeout(), at(10));
    state.handle_timeout(at(17));
    assert_eq!(state.poll_timeout(), at(22));
    assert_eq!(TrackerConfig::default().peer_ttl.as_nanos(), 300_000_000_000);
}

#[test]
fn actor_answers_requests_on_open_connections() {
    let mut actor: ServerActor<&str> = ServerActor::new(ServerState::with_clock(
        [7; 32],
        TrackerConfig::default(),
        Clock::start(),
        at(0),
    ));
    let request = |id: u64| {
        Message::request([1; 32], hello(id, Some(PeerInfo::default())))
    };
    // Not open yet.
    assert!(actor.handle_event(ConnEvent::Packet(4, request(1))).is_none());
    let handle = ConnHandle::new(4, addr(99), "out");
    assert!(actor.handle_event(ConnEvent::Open(4, handle)).is_none());
    assert_eq!(actor.conn(&4).unwrap().conn_id(), 4);
    let (conn_id, message) = actor.handle_event(ConnEvent::Packet(4, request(2))).unwrap();
    assert_eq!(conn_id, 4);
    assert_eq!(message.version, 1);
    assert_eq!(message.from, [7; 32]);
    assert_eq!(message.as_response().unwrap().request_id, 2);
    // The address of the connection was noted.
    let ask = Message::request([2; 32], lookup(3, [1; 32]));
    let (_, message) = actor.handle_event(ConnEvent::Packet(4, ask)).unwrap();
    let response: Response = message.into_response().unwrap();
    assert_eq!(response.peers.unwrap()[0].addrs, vec![addr(99)]);
    assert!(actor.handle_event(ConnEvent::Close(4)).is_none());
    assert!(actor.conn(&4).is_none());
}

#[test]
fn actor_drops_connections_that_do_not_ask() {
    let mut actor: ServerActor<()> = ServerActor::new(ServerState::new([7; 32]));
    for (conn_id, message) in [
        (1usize, Message::response([1; 32], Response::empty(1))),
        (2, Message::error([1; 32], Some(1), RpcError::UnsupportedOperation)),
    ] {
        actor.handle_event(ConnEvent::Open(conn_id, ConnHandle::new(conn_id, addr(1), ())));
        assert!(actor.conn(&conn_id).is_some());
        assert!(actor.handle_event(ConnEvent::Packet(conn_id, message)).is_none());
        assert!(actor.conn(&conn_id).is_none());
    }
    let now = actor.clock().now();
    actor.handle_timeout(now);
    assert!(actor.poll_timeout().nanos > now.nanos);
}

#[test]
fn messages_carry_the_version_and_errors_read_well() {
    let message = Message::error([1; 32], None, RpcError::NeedsProtocolVersion(1));
    assert_eq!(message.version, 1);
    match message.payload {
        Payload::Error(e) => {
            assert_eq!(e.request_id, None);
            assert_eq!(e.error.to_string(), "NeedsProtocolVersion(1)");
        }
        _ => panic!("not an error"),
    }
    assert_eq!(
        RpcError::NeedsProtocolVersion(65535).to_string(),
        format!("{:?}", RpcError::NeedsProtocolVersion(65535))
    );
    assert_eq!(RpcError::InvalidSignature.to_string(), "InvalidSignature");
    assert_eq!(RpcError::UnsupportedOperation.to_string(), "UnsupportedOperation");
    let info = TrackerInfo::from(addr(5));
    assert_eq!(info.addr, addr(5));
    assert!(info.peer_id.is_none());
}

#[test]
fn timers_stay_empty() {
    let mut timers = Timers::new();
    timers.add(at(1));
}

#[test]
fn requests_leave_other_peers_alone() {
    let mut state = server(10);
    state.handle_request_at(at(0), [1; 32], hello(1, Some(PeerInfo::with_addr(addr(1)))), None);
    let info = Some(PeerInfo::with_addr(addr(2)));
    state.handle_request_at(at(9), [2; 32], hello(1, info), Some(addr(3)));
    let res = state.handle_request_at(at(9), [9; 32], lookup(7, [1; 32]), None);
    assert_eq!(res.peers.unwrap()[0].addrs, vec![addr(1)]);
    // The first peer was not renewed by the second.
    state.handle_timeout(at(11));
    assert!(state.handle_request_at(at(11), [9; 32], lookup(7, [1; 32]), None).peers.is_none());
    assert!(state.handle_request_at(at(11), [9; 32], lookup(7, [2; 32]), None).peers.is_some());
}

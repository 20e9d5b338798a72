use waht::addr::{SocketAddr, SocketAddrV4};
use waht::io::{ConnEvent, ConnHandle};
use waht::tracker::client::{
    ClientAction, ClientActor, ClientError, ClientEvent, RequestMap, RequestState, REQUEST_TTL,
};
use waht::tracker::proto::{
    Command, LookupPeer, Message, Payload, Request, Response, RpcError,
};
use waht::tracker::server::{ServerActor, ServerState};
use waht::tracker::PeerInfo;
use waht::util::time::{Clock, Instant};

fn at(secs: u128) -> Instant {
    Instant { nanos: secs * 1_000_000_000 }
}

fn addr() -> SocketAddr {
    SocketAddr::V4(SocketAddrV4 { ip: [127, 0, 0, 1], port: 1 })
}

fn open(conn_id: usize) -> ConnEvent<()> {
    ConnEvent::Open(conn_id, ConnHandle::new(conn_id, addr(), ()))
}

fn reply(request_id: u64, fin: bool) -> Message {
    let mut response = Response::empty(request_id);
    response.fin = fin;
    Message::response([9; 32], response)
}

fn request_id(message: &Message) -> u64 {
    match &message.payload {
        Payload::Request(r) => r.request_id,
        _ => panic!("not a request"),
    }
}

fn client() -> ClientActor<(), &'static str> {
    let mut client = ClientActor::new([5; 32]);
    assert!(client.is_unconnected());
    let action = client.step_at(at(0), ClientEvent::Conn(Some(open(3))));
    match action {
        Ok(ClientAction::Send(3, message)) => {
            assert_eq!(request_id(&message), 1);
            assert_eq!(message.from, [5; 32]);
            match message.payload {
                Payload::Request(r) => assert!(matches!(r.command, Command::Hello(_))),
                _ => panic!("not a request"),
            }
        }
        _ => panic!("no hello"),
    }
    assert!(!client.is_unconnected());
    client
}

#[test]
fn request_map_keeps_ttls_in_step() {
    let mut map: RequestMap<u8> = RequestMap::new();
    assert_eq!(map.next_id(), 1);
    assert_eq!(map.next_id(), 2);
    assert!(map.has_next_id());
    map.insert(1, RequestState::new(at(0), 1, 7, Some(11)));
    map.insert(2, RequestState::new(at(5), 2, 8, None));
    assert_eq!(map.get(&1).unwrap().ttl, at(REQUEST_TTL as u128));
    // A later request under the same number replaces the first one, with its time.
    map.insert(1, RequestState::new(at(20), 1, 7, Some(12)));
    assert_eq!(map.drain_expired(at(40)).len(), 1);
    assert!(map.get(&2).is_none());
    assert_eq!(map.get(&1).unwrap().response_tx, Some(12));
    assert!(map.drain_expired(at(50)).is_empty());
    assert_eq!(map.drain_expired(Instant { nanos: 50_000_000_001 }).len(), 1);
}

#[test]
fn expired_requests_come_in_order_of_time() {
    let mut map: RequestMap<u8> = RequestMap::default();
    map.insert(1, RequestState::new(at(9), 1, 7, Some(3)));
    map.insert(2, RequestState::new(at(4), 2, 7, Some(1)));
    map.insert(3, RequestState::new(at(9), 3, 7, Some(4)));
    map.insert(4, RequestState::new(at(6), 4, 7, Some(2)));
    let order: Vec<Option<u8>> =
        map.drain_expired(at(100)).into_iter().map(|r| r.response_tx).collect();
    assert_eq!(order, vec![Some(1), Some(2), Some(3), Some(4)]);
}

#[test]
fn responses_renew_and_end_requests() {
    let mut map: RequestMap<u8> = RequestMap::new();
    map.insert(1, RequestState::new(at(0), 1, 7, Some(1)));
    assert!(map.forward_response(at(20), 1, false).is_none());
    assert_eq!(map.get(&1).unwrap().ttl, at(50));
    assert!(map.drain_expired(at(45)).is_empty());
    let ended = map.forward_response(at(46), 1, true).unwrap();
    assert_eq!(ended.ttl, at(76));
    assert!(map.get(&1).is_none());
    assert!(map.forward_response(at(47), 1, true).is_none());
    assert!(map.drain_expired(at(1000)).is_empty());
}

#[test]
fn requests_of_a_connection_are_removed_together() {
    let mut map: RequestMap<u8> = RequestMap::new();
    map.insert(1, RequestState::new(at(0), 1, 7, None));
    map.insert(2, RequestState::new(at(0), 2, 8, None));
    map.insert(3, RequestState::new(at(0), 3, 7, None));
    map.remove_by_conn(&7);
    assert!(map.get(&1).is_none());
    assert!(map.get(&3).is_none());
    assert!(map.get(&2).is_some());
    assert_eq!(map.drain_expired(at(100)).len(), 1);
    assert!(map.remove(&2).is_none());
}

#[test]
fn request_state_hands_out_its_receiver() {
    let mut state = RequestState::new(at(0), 1, 7, Some("tx"));
    assert_eq!(state.forward_response(at(3)), Some(&"tx"));
    assert_eq!(state.ttl, at(33));
    let mut silent: RequestState<&str> = RequestState::new(at(0), 1, 7, None);
    assert_eq!(silent.forward_response(at(3)), None);
}

#[test]
fn commands_go_to_the_first_connection() {
    let mut client = client();
    client.step_at(at(0), ClientEvent::Conn(Some(open(2)))).unwrap();
    match client.step_at(at(1), ClientEvent::Command(Some((Command::Ping, "tx")))) {
        Ok(ClientAction::Send(conn_id, message)) => {
            assert_eq!(conn_id, 2);
            assert_eq!(request_id(&message), 3);
        }
        _ => panic!("nothing sent"),
    }
    assert_eq!(client.request(&3).unwrap().response_tx, Some("tx"));
    assert_eq!(client.request(&3).unwrap().conn_id, 2);
}

#[test]
fn commands_need_a_connection() {
    let mut client: ClientActor<(), &str> = ClientActor::new([5; 32]);
    let r = client.step_at(at(1), ClientEvent::Command(Some((Command::Ping, "tx"))));
    assert_eq!(r.err(), Some(ClientError::NoConnection));
    assert!(client.request(&1).is_none());
    let r = client.send_request(at(1), Command::Ping, Some("tx"), Some(77));
    assert_eq!(r.err(), Some(ClientError::InvalidConnection));
    // The request was noted all the same, and times out.
    assert!(client.request(&1).is_some());
    assert_eq!(client.handle_timeout(at(32)), vec!["tx"]);
    assert!(client.can_send());
}

#[test]
fn responses_reach_whoever_asked() {
    let mut client = client();
    client.step_at(at(1), ClientEvent::Command(Some((Command::Ping, "tx")))).unwrap();
    let event = ClientEvent::Conn(Some(ConnEvent::Packet(3, reply(2, false))));
    match client.step_at(at(2), event) {
        Ok(ClientAction::Respond(2, response)) => assert!(!response.fin),
        _ => panic!("not handed on"),
    }
    assert_eq!(client.request(&2).unwrap().ttl, at(32));
    let event = ClientEvent::Conn(Some(ConnEvent::Packet(3, reply(2, true))));
    match client.step_at(at(3), event) {
        Ok(ClientAction::Finish(state, response)) => {
            assert_eq!(state.response_tx, Some("tx"));
            assert!(response.fin);
        }
        _ => panic!("not handed on"),
    }
    let event = ClientEvent::Conn(Some(ConnEvent::Packet(3, reply(2, true))));
    assert!(matches!(client.step_at(at(3), event), Ok(ClientAction::Nothing)));
}

#[test]
fn responses_on_other_connections_are_ignored() {
    let mut client = client();
    client.step_at(at(0), ClientEvent::Conn(Some(open(4)))).unwrap();
    let event = ClientEvent::Conn(Some(ConnEvent::Packet(4, reply(1, true))));
    assert!(matches!(client.step_at(at(2), event), Ok(ClientAction::Nothing)));
    assert!(client.request(&1).is_some());
    let error = Message::error([9; 32], Some(1), RpcError::InvalidSignature);
    let event = ClientEvent::Conn(Some(ConnEvent::Packet(3, error)));
    assert!(matches!(client.step_at(at(2), event), Ok(ClientAction::Nothing)));
    assert!(client.request(&1).is_some());
}

#[test]
fn closing_ends_the_requests_of_a_connection() {
    let mut client = client();
    client.step_at(at(0), ClientEvent::Conn(Some(open(4)))).unwrap();
    let r = client.step_at(at(1), ClientEvent::Conn(Some(ConnEvent::Close(3))));
    assert!(matches!(r, Ok(ClientAction::Nothing)));
    assert!(client.conn(&3).is_none());
    assert!(client.conn(&4).is_some());
    assert!(client.request(&1).is_none());
    assert!(client.request(&2).is_some());
    assert_eq!(client.select_conn(), Ok(4));
}

#[test]
fn ticks_report_late_requests() {
    let mut client = client();
    client.step_at(at(1), ClientEvent::Command(Some((Command::Ping, "a")))).unwrap();
    client.step_at(at(2), ClientEvent::Command(Some((Command::Ping, "b")))).unwrap();
    match client.step_at(at(31), ClientEvent::Tick) {
        // Only the hello, which nobody waits for, is late by now.
        Ok(ClientAction::TimedOut(txs)) => assert!(txs.is_empty()),
        _ => panic!("not a timeout"),
    }
    assert!(client.request(&1).is_none());
    match client.step_at(at(60), ClientEvent::Tick) {
        Ok(ClientAction::TimedOut(txs)) => assert_eq!(txs, vec!["a", "b"]),
        _ => panic!("not a timeout"),
    }
}

#[test]
fn the_client_stops_when_a_source_is_gone() {
    let mut client = client();
    assert!(matches!(client.step_at(at(1), ClientEvent::Command(None)), Ok(ClientAction::Stop)));
    assert!(matches!(client.step_at(at(1), ClientEvent::Conn(None)), Ok(ClientAction::Stop)));
    let mut fresh: ClientActor<(), &str> = ClientActor::new([5; 32]);
    assert_eq!(fresh.first_step_at(at(0), None).err(), Some(ClientError::ConnEventsClosed));
    assert!(matches!(
        fresh.first_step_at(at(0), Some(open(1))),
        Ok(ClientAction::Send(1, _))
    ));
    let clock = Clock::start();
    assert!(matches!(fresh.step(&clock, ClientEvent::Tick), Ok(ClientAction::TimedOut(_))));
}

#[test]
fn clients_and_trackers_understand_each_other() {
    let mut server: ServerActor<()> = ServerActor::new(ServerState::new([7; 32]));
    server.handle_event(ConnEvent::Open(8, ConnHandle::new(8, addr(), ())));
    let register = Request {
        request_id: 1,
        command: Command::Hello(waht::tracker::proto::Hello {}),
        peer_info: Some(PeerInfo::default()),
    };
    server.handle_event(ConnEvent::Packet(8, Message::request([6; 32], register)));

    let mut client = client();
    let command = Command::LookupPeer(LookupPeer { peer_id: [6; 32], topic: None });
    let message = match client.step_at(at(1), ClientEvent::Command(Some((command, "tx")))) {
        Ok(ClientAction::Send(3, message)) => message,
        _ => panic!("nothing sent"),
    };
    let (_, reply) = server.handle_event(ConnEvent::Packet(8, message)).unwrap();
    match client.step_at(at(2), ClientEvent::Conn(Some(ConnEvent::Packet(3, reply)))) {
        Ok(ClientAction::Finish(state, response)) => {
            assert_eq!(state.response_tx, Some("tx"));
            assert_eq!(response.peers.unwrap()[0].addrs, vec![addr()]);
        }
        _ => panic!("not handed on"),
    }
}

use waht::addr::{SocketAddr, SocketAddrV4};
use waht::io::{message_len, read_message, write_message, MAX_MESSAGE_LEN};
use waht::proto::codec::CodecError;
use waht::proto::traits::encode_to_vec;
use waht::tracker::proto::{
    Command, Hello, LookupKey, LookupPeer, Message, Payload, ProvideKey, Request, Response, RpcError,
};
use waht::tracker::{parse_and_validate_message, validate_message, Error, PeerInfo, VERSION};

fn addr(port: u16) -> SocketAddr {
    SocketAddr::V4(SocketAddrV4 { ip: [127, 0, 0, 1], port })
}

fn ping(version: u16) -> Message {
    let mut message = Message::request(
        [3; 32],
        Request { request_id: 9, command: Command::Ping, peer_info: None },
    );
    message.version = version;
    message
}

#[test]
fn messages_match_postcard() {
    assert_eq!(
        encode_to_vec(&ping(1)),
        postcard::to_allocvec(&(1u16, [3u8; 32], 0u32, 9u64, 1u32, None::<u8>)).unwrap()
    );
    let response = Response {
        request_id: 300,
        error: Some(RpcError::NeedsProtocolVersion(2)),
        peers: Some(vec![PeerInfo { use_from_addr: true, addrs: vec![addr(80)], relay: None }]),
        fin: false,
    };
    let expected = postcard::to_allocvec(&(
        1u16,
        [3u8; 32],
        1u32,
        300u64,
        Some((0u32, 2u16)),
        Some(vec![(true, vec![(0u32, [127u8, 0, 0, 1], 80u16)], None::<u8>)]),
        false,
    ))
    .unwrap();
    assert_eq!(encode_to_vec(&Message::response([3; 32], response)), expected);
    let error = Message::error([3; 32], Some(4), RpcError::UnsupportedOperation);
    assert_eq!(
        encode_to_vec(&error),
        postcard::to_allocvec(&(1u16, [3u8; 32], 2u32, Some(4u64), 2u32)).unwrap()
    );
}

#[test]
fn commands_match_postcard() {
    assert_eq!(encode_to_vec(&Command::Hello(Hello {})), vec![0]);
    assert_eq!(encode_to_vec(&Command::Ping), vec![1]);
    assert_eq!(
        encode_to_vec(&Command::LookupPeer(LookupPeer { peer_id: [1; 32], topic: None })),
        postcard::to_allocvec(&(2u32, [1u8; 32], None::<u8>)).unwrap()
    );
    assert_eq!(
        encode_to_vec(&Command::LookupKey(LookupKey { key: [1; 32], topic: Some([2; 32]) })),
        postcard::to_allocvec(&(3u32, [1u8; 32], Some([2u8; 32]))).unwrap()
    );
    assert_eq!(
        encode_to_vec(&Command::ProvideKey(ProvideKey { key: [1; 32], topic: None })),
        postcard::to_allocvec(&(4u32, [1u8; 32], None::<u8>)).unwrap()
    );
}

#[test]
fn messages_are_parsed_again() {
    let bytes = encode_to_vec(&ping(VERSION));
    let message = parse_and_validate_message(&bytes).unwrap();
    assert_eq!(message.from, [3; 32]);
    match message.payload {
        Payload::Request(r) => {
            assert_eq!(r.request_id, 9);
            assert!(matches!(r.command, Command::Ping));
        }
        _ => panic!("not a request"),
    }
}

#[test]
fn other_versions_are_refused() {
    assert_eq!(
        parse_and_validate_message(&encode_to_vec(&ping(2))).err(),
        Some(Error::Proto(RpcError::NeedsProtocolVersion(VERSION)))
    );
    assert_eq!(validate_message(&ping(2)), Err(RpcError::NeedsProtocolVersion(1)));
    assert_eq!(validate_message(&ping(1)), Ok(()));
    assert_eq!(
        parse_and_validate_message(&[1, 2, 3]).err(),
        Some(Error::Codec(CodecError::DeserializeUnexpectedEnd))
    );
}

#[test]
fn lengths_are_checked() {
    assert_eq!(message_len(0), Err(Error::InvalidMessage));
    assert_eq!(message_len(1), Ok(1));
    assert_eq!(message_len(65536), Ok(MAX_MESSAGE_LEN));
    assert_eq!(message_len(65537), Err(Error::IncomingMessageTooLong));
}

#[test]
fn written_messages_are_read_again() {
    let mut buf = bytes::BytesMut::new();
    write_message(&mut buf, &ping(VERSION)).unwrap();
    let body = encode_to_vec(&ping(VERSION));
    assert_eq!(&buf[..4], &(body.len() as u32).to_be_bytes());
    assert_eq!(&buf[4..], &body[..]);
    write_message(&mut buf, &ping(VERSION)).unwrap();
    assert!(read_message(&mut buf).is_ok());
    assert_eq!(buf.len(), 4 + body.len());
    assert!(read_message(&mut buf).is_ok());
    assert!(buf.is_empty());
    assert_eq!(read_message(&mut buf).err(), Some(Error::IO));
}

#[test]
fn broken_message_streams_are_refused() {
    let mut buf = bytes::BytesMut::from(&[0u8, 0, 0, 0, 1][..]);
    assert_eq!(read_message(&mut buf).err(), Some(Error::InvalidMessage));
    assert_eq!(&buf[..], &[1]);
    let mut buf = bytes::BytesMut::from(&[0u8, 1, 0, 1, 1][..]);
    assert_eq!(read_message(&mut buf).err(), Some(Error::IncomingMessageTooLong));
    let mut buf = bytes::BytesMut::from(&[0u8, 0, 0, 2, 1][..]);
    assert_eq!(read_message(&mut buf).err(), Some(Error::IO));
}

#[test]
fn long_messages_are_not_written() {
    let peers: Vec<PeerInfo> = (0..10000u16).map(|port| PeerInfo::with_addr(addr(port))).collect();
    let message = Message::response([1; 32], Response::with_peers(1, peers, true));
    let mut buf = bytes::BytesMut::from(&b"before"[..]);
    assert_eq!(write_message(&mut buf, &message), Err(Error::OutgoingMessageTooLong));
    assert_eq!(&buf[..], b"before");
}

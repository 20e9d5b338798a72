use waht::proto::crypto::{SigningKey, VerificationError};
use waht::proto::data::{
    AnnounceRequest, AnnounceResponse, ControlMessage, FrameMeta, QueryRequest, Request, Response,
};
use waht::proto::traits::encode_to_vec;
use waht::proto::wire::{
    Ack, AnnouncePayload, Announcement, End, Frame, FramePayload, Hello, ProvideHash, UnsignedFrame,
};
use waht::proto::FrameError;
use waht::stream::{
    accept_bi, accept_uni, next_frame, open, open_announce, open_control, open_query, AcceptStream,
    AcceptStreamRecv, AcceptStreamSend, FrameRecvStream, FrameSendStream, MappedPoll,
    MappedRecvStream, MappedSendStream, OpenStream, RecvPoll, RecvStreams, SendPoll, StreamAddr,
    StreamError, StreamType,
};

fn ack(rid: u64) -> Frame {
    Frame { rid: Some(rid), payload: FramePayload::Unsigned(UnsignedFrame::Ack(Ack { rid })) }
}

fn framed(frame: &Frame) -> Vec<u8> {
    let body = encode_to_vec(frame);
    let mut out = frame.type_number().to_be_bytes().to_vec();
    out.extend((body.len() as u32).to_be_bytes());
    out.extend(body);
    out
}

fn rid_of(frame: Frame) -> u64 {
    frame.rid.unwrap()
}

#[test]
fn stream_types_are_one_byte() {
    for (typ, byte) in
        [(StreamType::Control, 0x00), (StreamType::Query, 0x01), (StreamType::Announce, 0x02)]
    {
        assert_eq!(typ.to_u8(), byte);
        assert_eq!(StreamType::from_u8(byte), Ok(typ));
        let mut buf = [9u8; 2];
        typ.encode(&mut buf);
        assert_eq!(buf, [byte, 9]);
    }
    assert_eq!(StreamType::from_u8(3), Err(StreamError::InvalidStreamType));
}

#[test]
fn only_control_streams_are_unidirectional() {
    match accept_uni(1, 2, 0x00) {
        Ok(AcceptStream::Control(recv)) => {
            assert_eq!(recv.addr(), StreamAddr { conn_id: 1, stream_id: 2 });
            assert_eq!(recv.id(), 2);
        }
        _ => panic!("not a control stream"),
    }
    for byte in [0x01, 0x02, 0x03, 0xff] {
        assert_eq!(accept_uni(1, 2, byte).err(), Some(StreamError::InvalidStreamType));
    }
}

#[test]
fn only_queries_and_announcements_are_bidirectional() {
    assert_eq!(accept_bi(1, 2, 0x00).err(), Some(StreamError::InvalidStreamType));
    assert_eq!(accept_bi(1, 2, 0x07).err(), Some(StreamError::InvalidStreamType));
    let query = accept_bi(1, 2, 0x01).unwrap_or_else(|_| panic!("refused"));
    assert_eq!(query.addr(), StreamAddr { conn_id: 1, stream_id: 2 });
    match query.split() {
        (Some(AcceptStreamSend::Query(send)), AcceptStreamRecv::Query(_)) => {
            assert!(send.is_ready());
        }
        _ => panic!("not a query stream"),
    }
    let announce = accept_bi(1, 2, 0x02).unwrap_or_else(|_| panic!("refused"));
    assert!(matches!(
        announce.split(),
        (Some(AcceptStreamSend::Announce(_)), AcceptStreamRecv::Announce(_))
    ));
    let control = accept_uni(1, 2, 0x00).unwrap_or_else(|_| panic!("refused"));
    assert!(matches!(control.split(), (None, AcceptStreamRecv::Control(_))));
}

#[test]
fn opened_streams_start_with_their_type() {
    assert_eq!(open_control(1, 2).to_write(), &[0x00]);
    assert_eq!(open_query(1, 2).0.to_write(), &[0x01]);
    assert_eq!(open_announce(1, 2).0.to_write(), &[0x02]);
    assert!(matches!(open(1, 2, StreamType::Control), OpenStream::Control(_)));
    assert!(matches!(open(1, 2, StreamType::Query), OpenStream::Query(_)));
    match open(1, 2, StreamType::Announce) {
        OpenStream::Announce((send, recv)) => {
            assert_eq!(send.addr(), recv.addr());
            assert!(!send.is_ready());
        }
        _ => panic!("not an announce stream"),
    }
}

#[test]
fn sender_writes_its_type_and_then_frames() {
    let mut send = FrameSendStream::new(1, 2, StreamType::Query, true);
    let mut written = Vec::new();
    assert_eq!(send.poll_send(false), SendPoll::Write);
    written.extend_from_slice(send.to_write());
    assert_eq!(send.wrote(1), Ok(()));
    assert_eq!(send.poll_send(false), SendPoll::Ready);
    assert!(send.to_write().is_empty());
    for rid in [1, 2] {
        send.start_send(&ack(rid)).unwrap();
        while send.poll_send(false) == SendPoll::Write {
            let n = std::cmp::min(3, send.to_write().len());
            written.extend_from_slice(&send.to_write()[..n]);
            send.wrote(n).unwrap();
        }
        assert!(send.is_ready());
    }
    let mut expected = vec![0x01];
    expected.extend(framed(&ack(1)));
    expected.extend(framed(&ack(2)));
    assert_eq!(written, expected);
    assert_eq!(send.id(), 2);
}

#[test]
fn a_type_that_is_not_taken_is_an_error() {
    let mut send = FrameSendStream::new(1, 2, StreamType::Query, true);
    assert_eq!(send.wrote(0), Err(StreamError::FailedToWriteHeader));
    assert_eq!(send.to_write(), &[0x01]);
}

#[test]
fn cancelled_senders_refuse_frames() {
    let mut send = FrameSendStream::new(1, 2, StreamType::Query, false);
    assert_eq!(send.poll_send(true), SendPoll::Ready);
    assert_eq!(send.start_send(&ack(1)), Err(StreamError::StreamClosed));
    assert!(send.is_ready());
}

#[test]
fn frames_arrive_in_any_chunks() {
    let mut bytes = Vec::new();
    for rid in 1..=5u64 {
        bytes.extend(framed(&ack(rid * 1000)));
    }
    for chunk in [1usize, 2, 3, 5, 7, 64] {
        let mut recv = FrameRecvStream::new(1, 2);
        let mut seen = Vec::new();
        for part in bytes.chunks(chunk) {
            assert!(recv.read(part));
            loop {
                match recv.poll_recv(false) {
                    Ok(RecvPoll::Frame(frame)) => seen.push(rid_of(frame)),
                    Ok(RecvPoll::Read) => break,
                    _ => panic!("unexpected"),
                }
            }
        }
        assert_eq!(seen, vec![1000, 2000, 3000, 4000, 5000]);
        assert!(!recv.read(&[]));
    }
}

#[test]
fn cancelled_receivers_stop() {
    let mut recv = FrameRecvStream::new(1, 2);
    recv.read(&framed(&ack(1)));
    assert!(matches!(recv.poll_recv(true), Ok(RecvPoll::Closed)));
    assert!(matches!(recv.poll_recv(false), Ok(RecvPoll::Frame(_))));
    assert_eq!(recv.addr(), StreamAddr::from((1usize, 2u64)));
    assert_eq!(recv.addr().conn_id(), 1);
    assert_eq!(recv.addr().stream_id(), 2);
    assert_eq!(recv.id(), 2);
}

#[test]
fn bad_frames_stay_bad() {
    let mut recv = FrameRecvStream::new(1, 2);
    recv.read(&[0, 0, 0, 7, 0, 0, 0, 2, 9, 9]);
    assert!(matches!(recv.poll_recv(false), Err(StreamError::BadFrame(_))));
    assert!(matches!(
        recv.poll_recv(false),
        Err(StreamError::BadFrame(FrameError::Malformed(_)))
    ));
}

#[test]
fn frames_state_their_type_and_length() {
    let end = Frame { rid: None, payload: FramePayload::Unsigned(UnsignedFrame::End(End {})) };
    assert_eq!(end.type_number(), 8);
    let mut send = FrameSendStream::new(1, 2, StreamType::Query, false);
    send.start_send(&end).unwrap();
    assert_eq!(send.to_write(), &[0, 0, 0, 8, 0, 0, 0, 3, 0, 0, 3]);
    let hello = Hello { version: 1, peer_id: [4; 32] };
    let hello = Frame { rid: None, payload: FramePayload::Unsigned(UnsignedFrame::Hello(hello)) };
    assert_eq!(hello.type_number(), 1);
    assert_eq!(framed(&hello)[..8], [0, 0, 0, 1, 0, 0, 0, 36]);
    assert_eq!(ack(1).type_number(), 7);
    let key = SigningKey::from_bytes(&[6; 32]);
    assert_eq!(waht::io::quic::server::answer_query(None, &key).unwrap().type_number(), 2);
}

#[test]
fn frames_of_a_wrong_type_are_refused() {
    let mut bytes = framed(&ack(1));
    bytes[3] = 8;
    let mut recv = FrameRecvStream::new(1, 2);
    recv.read(&bytes[..7]);
    assert!(matches!(recv.poll_recv(false), Ok(RecvPoll::Read)));
    recv.read(&bytes[7..]);
    for _ in 0..2 {
        assert_eq!(
            recv.poll_recv(false).err(),
            Some(StreamError::BadFrame(FrameError::InvalidFrameType))
        );
    }
    bytes[3] = 7;
    bytes[0] = 1;
    let mut recv = FrameRecvStream::new(1, 2);
    recv.read(&bytes);
    assert_eq!(
        recv.poll_recv(false).err(),
        Some(StreamError::BadFrame(FrameError::InvalidFrameType))
    );
}

#[test]
fn mapped_streams_carry_messages() {
    let key = SigningKey::from_bytes(&[6; 32]);
    let mut send: MappedSendStream<AnnounceRequest> =
        FrameSendStream::new(1, 2, StreamType::Announce, false).map();
    assert!(send.is_ready());
    assert_eq!(send.addr(), StreamAddr { conn_id: 1, stream_id: 2 });
    assert_eq!(send.id(), 2);
    let announcement = Announcement {
        timestamp: 5,
        payload: AnnouncePayload::ProvideHash(ProvideHash { target: [1; 32] }),
    };
    send.start_send(AnnounceRequest::Announce(announcement), Some(9), &key).unwrap();
    assert!(!send.is_ready());
    assert_eq!(send.poll_send(false), SendPoll::Write);
    let frame = Frame::carrying(
        waht::proto::data::DataFramePayload::Announce(Announcement {
            timestamp: 5,
            payload: AnnouncePayload::ProvideHash(ProvideHash { target: [1; 32] }),
        }),
        Some(9),
        &key,
    )
    .unwrap();
    let bytes = framed(&frame);
    assert_eq!(send.to_write(), &bytes[..]);
    assert_eq!(send.wrote(5), Ok(()));
    assert_eq!(send.to_write(), &bytes[5..]);
    assert_eq!(send.wrote(bytes.len() - 5), Ok(()));
    assert_eq!(send.poll_send(false), SendPoll::Ready);
    assert!(send.is_ready());
    let mut recv: MappedRecvStream<AnnounceRequest> = FrameRecvStream::new(1, 2).map();
    assert!(matches!(recv.poll_recv(false), Ok(MappedPoll::Read)));
    recv.read(&bytes);
    match recv.poll_recv(false) {
        Ok(MappedPoll::Message(AnnounceRequest::Announce(a), meta)) => {
            assert_eq!(a.timestamp, 5);
            assert_eq!(meta.rid, Some(9));
            assert_eq!(meta.authorization.unwrap().issuer, key.verifying_key());
        }
        _ => panic!("not an announcement"),
    }
    assert!(matches!(recv.poll_recv(true), Ok(MappedPoll::Closed)));
}

#[test]
fn mapped_streams_refuse_other_messages() {
    let mut recv: MappedRecvStream<ControlMessage> = FrameRecvStream::new(1, 2).map();
    recv.read(&framed(&ack(1)));
    assert_eq!(
        recv.poll_recv(false).err(),
        Some(StreamError::BadFrame(FrameError::InvalidFrameType))
    );
    let key = SigningKey::from_bytes(&[6; 32]);
    let mut bytes = framed(&waht::io::quic::server::answer_query(None, &key).unwrap());
    let last = bytes.len() - 1;
    bytes[last] ^= 1;
    let mut recv: MappedRecvStream<AnnounceRequest> = FrameRecvStream::new(1, 2).map();
    recv.read(&bytes);
    assert_eq!(
        recv.poll_recv(false).err(),
        Some(StreamError::BadFrame(FrameError::Verification(VerificationError::BadEdSignature)))
    );
}

fn meta() -> FrameMeta {
    FrameMeta { rid: Some(3), authorization: None, envelope: None }
}

#[test]
fn received_messages_name_their_stream() {
    let mut streams: RecvStreams<QueryRequest> = RecvStreams::new();
    streams.push_stream(FrameRecvStream::new(1, 2).map());
    streams.push_stream(FrameRecvStream::new(1, 6).map());
    assert_eq!(streams.len(), 2);
    assert!(streams.stream_mut(1).unwrap().read(&[0]));
    match streams.poll_next(0, Ok(Some((QueryRequest::End(End {}), meta())))) {
        Some(Ok((QueryRequest::End(_), m, addr))) => {
            assert_eq!(m.rid, Some(3));
            assert_eq!(addr.stream_id, 2);
        }
        _ => panic!("not handed out"),
    }
    // The stream that handed out a message went to the end.
    assert_eq!(streams.len(), 2);
    assert_eq!(streams.stream_mut(1).unwrap().id(), 2);
    assert!(streams.poll_next(0, Ok(None)).is_none());
    assert_eq!(streams.len(), 1);
    assert!(matches!(
        streams.poll_next(0, Err(StreamError::IO)),
        Some(Err(StreamError::IO))
    ));
    assert_eq!(streams.len(), 0);
}

#[test]
fn received_messages_become_requests_and_responses() {
    let mut streams: RecvStreams<ControlMessage> = RecvStreams::default();
    streams.push_stream(FrameRecvStream::new(1, 2).map());
    let hello = || ControlMessage::Hello(Hello { version: 1, peer_id: [4; 32] });
    match streams.poll_next_as_request(0, Ok(Some((hello(), meta())))) {
        Some(Ok(frame)) => {
            assert!(matches!(frame.payload, Request::Control(_)));
            assert_eq!(frame.meta.rid, Some(3));
            assert_eq!(frame.stream.stream_id, 2);
        }
        _ => panic!("not handed out"),
    }
    match streams.poll_next_as_response(0, Ok(Some((hello(), meta())))) {
        Some(Ok(frame)) => assert!(matches!(frame.payload, Response::Control(_))),
        _ => panic!("not handed out"),
    }
    let mut acks: RecvStreams<AnnounceResponse> = RecvStreams::new();
    acks.push_stream(FrameRecvStream::new(1, 2).map());
    assert!(matches!(
        acks.poll_next_as_response(0, Err(StreamError::ReadError)),
        Some(Err(StreamError::ReadError))
    ));
}

#[test]
fn awaited_streams_are_given_back() {
    let addr = StreamAddr { conn_id: 7, stream_id: 8 };
    let recv: MappedRecvStream<QueryRequest> = FrameRecvStream::new(1, 2).map();
    let (given, stream) = next_frame(addr, recv).finish();
    assert_eq!(given, addr);
    assert_eq!(stream.id(), 2);
}

use waht::proto::traits::encode_to_vec;
use waht::proto::wire::{Ack, Frame, FramePayload, UnsignedFrame};
use waht::queue::{Outqueues, QueuePoll, SendQueue};
use waht::stream::{FrameSendStream, StreamAddr, StreamError, StreamType};

fn addr(stream_id: u64) -> StreamAddr {
    StreamAddr { conn_id: 1, stream_id }
}

fn ack(rid: u64) -> Frame {
    Frame { rid: None, payload: FramePayload::Unsigned(UnsignedFrame::Ack(Ack { rid })) }
}

fn framed(rid: u64) -> Vec<u8> {
    let body = encode_to_vec(&ack(rid));
    let mut out = vec![0, 0, 0, 7];
    out.extend((body.len() as u32).to_be_bytes());
    out.extend(body);
    out
}

#[test]
fn queues_are_first_in_first_out() {
    let mut q: Outqueues<u8> = Outqueues::new();
    assert!(q.is_empty(&addr(1)));
    assert_eq!(q.pop_front(&addr(1)), None);
    q.push_back(addr(1), 10);
    q.push_back(addr(2), 20);
    q.push_back(addr(1), 11);
    assert_eq!(q.total_len(), 3);
    assert!(!q.is_empty(&addr(1)));
    assert_eq!(q.pop_front(&addr(1)), Some(10));
    assert_eq!(q.total_len(), 2);
    assert_eq!(q.pop_front(&addr(1)), Some(11));
    assert_eq!(q.pop_front(&addr(1)), None);
    assert!(q.is_empty(&addr(1)));
    assert_eq!(q.total_len(), 1);
    q.push_back(addr(2), 21);
    assert_eq!(q.remove(&addr(2)), 2);
    assert_eq!(q.remove(&addr(2)), 0);
    assert_eq!(q.total_len(), 0);
    assert_eq!(Outqueues::<u8>::default().total_len(), 0);
}

#[test]
fn send_queue_starts_frames_in_turn() {
    let mut q = SendQueue::default();
    q.push_stream(FrameSendStream::new(1, 5, StreamType::Query, false));
    q.push_stream(FrameSendStream::new(1, 4, StreamType::Query, false));
    assert_eq!(q.addrs(), vec![addr(4), addr(5)]);
    assert_eq!(q.poll_send(&addr(5), false), Ok(QueuePoll::Idle));
    assert_eq!(q.sent_count(), 1);
    q.push_frame(addr(5), ack(1));
    q.push_frame(addr(5), ack(2));
    assert_eq!(q.len(), 2);
    let mut written = Vec::new();
    while q.poll_send(&addr(5), false) == Ok(QueuePoll::Write) {
        let n = q.stream(&addr(5)).unwrap().to_write().len();
        written.extend_from_slice(q.stream(&addr(5)).unwrap().to_write());
        q.wrote(&addr(5), n).unwrap();
    }
    let mut expected = framed(1);
    expected.extend(framed(2));
    assert_eq!(written, expected);
    assert!(q.is_drained(&addr(5)));
    assert_eq!(q.len(), 0);
    assert_eq!(q.sent_count(), 4);
}

#[test]
fn partial_writes_are_continued() {
    let mut q = SendQueue::default();
    q.push_stream(FrameSendStream::new(1, 5, StreamType::Query, true));
    q.push_frame(addr(5), ack(1));
    assert_eq!(q.poll_send(&addr(5), false), Ok(QueuePoll::Write));
    assert_eq!(q.stream(&addr(5)).unwrap().to_write(), &[0x01]);
    q.wrote(&addr(5), 1).unwrap();
    assert_eq!(q.poll_send(&addr(5), false), Ok(QueuePoll::Write));
    q.wrote(&addr(5), 2).unwrap();
    assert_eq!(q.poll_send(&addr(5), false), Ok(QueuePoll::Write));
    assert_eq!(q.stream(&addr(5)).unwrap().to_write(), &framed(1)[2..]);
}

#[test]
fn failed_streams_are_dropped_with_their_frames() {
    let mut q = SendQueue::default();
    q.push_stream(FrameSendStream::new(1, 5, StreamType::Query, true));
    q.push_stream(FrameSendStream::new(1, 6, StreamType::Query, false));
    q.push_frame(addr(5), ack(1));
    q.push_frame(addr(6), ack(2));
    assert_eq!(q.wrote(&addr(5), 0), Err(StreamError::FailedToWriteHeader));
    assert!(q.stream(&addr(5)).is_none());
    assert_eq!(q.len(), 1);
    assert_eq!(q.failed(&addr(6), StreamError::IO), StreamError::IO);
    assert!(q.addrs().is_empty());
    assert_eq!(q.len(), 0);
    assert_eq!(q.sent_count(), 2);
}

#[test]
fn cancelled_streams_refuse_queued_frames() {
    let mut q = SendQueue::default();
    q.push_stream(FrameSendStream::new(1, 5, StreamType::Query, false));
    assert_eq!(q.poll_send(&addr(5), true), Ok(QueuePoll::Idle));
    q.push_frame(addr(5), ack(1));
    assert_eq!(q.poll_send(&addr(5), true), Err(StreamError::StreamClosed));
    assert!(q.stream(&addr(5)).is_some());
    assert_eq!(q.len(), 0);
    q.remove(&addr(5));
    assert!(q.stream(&addr(5)).is_none());
}

#[test]
fn closing_streams_are_done_when_all_is_sent() {
    let mut q = SendQueue::default();
    q.push_stream(FrameSendStream::new(1, 5, StreamType::Query, false));
    q.push_frame(addr(5), ack(1));
    q.push_frame(addr(5), ack(2));
    assert!(!q.is_closing(&addr(5)));
    q.close(addr(5));
    assert!(q.is_closing(&addr(5)));
    let mut written = Vec::new();
    while q.poll_send(&addr(5), false) == Ok(QueuePoll::Write) {
        assert!(!q.is_done(&addr(5)));
        written.extend_from_slice(&q.stream(&addr(5)).unwrap().to_write()[..1]);
        q.wrote(&addr(5), 1).unwrap();
    }
    let mut expected = framed(1);
    expected.extend(framed(2));
    assert_eq!(written, expected);
    assert!(q.is_done(&addr(5)));
    q.finish(&addr(5));
    assert!(q.stream(&addr(5)).is_none());
    assert!(q.is_closing(&addr(5)));
    assert!(!q.is_done(&addr(5)));
    q.push_stream(FrameSendStream::new(1, 5, StreamType::Query, false));
    assert!(!q.is_closing(&addr(5)));
    q.close(addr(5));
    q.remove(&addr(5));
    assert!(!q.is_closing(&addr(5)));
}

//! Connections and the messages on them.

use crate::addr::SocketAddr;
use crate::buffer::{self, be32, buffered, lemma_be32};
use crate::ordmap::be_value;
use crate::proto::codec::Wire;
use crate::proto::traits::encode_to_vec;
use crate::tracker::proto::{Message, MessageValue};
use crate::tracker::{law_message_roundtrip, parse_and_validate_message, read_message_value, Error};
use bytes::BytesMut;
use vstd::prelude::*;

pub mod quic;

verus! {

/// Messages that may wait for a connection.
pub const TO_CONN_CHANNEL_CAP: usize = 8;

/// Events that may wait for the state.
pub const FROM_CONN_CHANNEL_CAP: usize = 8;

/// Longest message.
pub const MAX_MESSAGE_LEN: usize = 1024 * 64;

/// Number of a connection.
pub type ConnId = usize;

/// What happens on connections. `S` sends on a connection.
pub enum ConnEvent<S> {
    Open(ConnId, ConnHandle<S>),
    Packet(ConnId, Message),
    Close(ConnId),
}

/// An open connection.
pub struct ConnHandle<S> {
    pub conn_id: ConnId,
    pub remote_address: SocketAddr,
    /// What sends on the connection.
    pub out_tx: S,
}

impl<S> ConnHandle<S> {
    /// The handle of a connection.
    pub fn new(conn_id: ConnId, remote_address: SocketAddr, out_tx: S) -> (r: Self)
        ensures
            r == (ConnHandle { conn_id, remote_address, out_tx }),
    {
        ConnHandle { conn_id, remote_address, out_tx }
    }

    /// Number of the connection.
    pub fn conn_id(&self) -> (r: usize)
        ensures
            r == self.conn_id,
    {
        self.conn_id
    }

    /// Address of the peer.
    pub fn remote_address(&self) -> (r: SocketAddr)
        ensures
            r == self.remote_address,
    {
        self.remote_address
    }
}

/// Checks the length that precedes a message.
pub fn message_len(len: u32) -> (r: Result<usize, Error>)
    ensures
        r == (if len == 0 {
            Err::<usize, Error>(Error::InvalidMessage)
        } else if len > MAX_MESSAGE_LEN {
            Err::<usize, Error>(Error::IncomingMessageTooLong)
        } else {
            Ok::<usize, Error>(len as usize)
        }),
{
    let len = len as usize;
    if len == 0 {
        return Err(Error::InvalidMessage);
    }
    if len > MAX_MESSAGE_LEN {
        return Err(Error::IncomingMessageTooLong);
    }
    Ok(len)
}

/// The outcome of reading the first message of `stream`, whose length precedes it.
pub open spec fn first_message(stream: Seq<u8>) -> Result<MessageValue, Error> {
    let len = be_value(stream.take(4));
    if stream.len() < 4 {
        Err(Error::IO)
    } else if len == 0 {
        Err(Error::InvalidMessage)
    } else if len > MAX_MESSAGE_LEN {
        Err(Error::IncomingMessageTooLong)
    } else if stream.len() < 4 + len {
        Err(Error::IO)
    } else {
        read_message_value(stream.subrange(4, 4 + len))
    }
}

/// Removes the first message from `buf` and decodes it. Where `buf` ends early, or the length
/// is refused, nothing or only the length is removed.
pub fn read_message(buf: &mut BytesMut) -> (r: Result<Message, Error>)
    ensures
        match r {
            Ok(message) => first_message(buffered(*old(buf))) == Ok::<MessageValue, Error>(
                message.value(),
            ),
            Err(e) => first_message(buffered(*old(buf))) == Err::<MessageValue, Error>(e),
        },
        buffered(*final(buf)) == after_message(buffered(*old(buf))),
{
    if buf.len() < 4 {
        return Err(Error::IO);
    }
    let len = match message_len(buffer::get_u32(buf)) {
        Ok(len) => len,
        Err(e) => return Err(e),
    };
    if buf.len() < len {
        return Err(Error::IO);
    }
    let ghost all = buffered(*old(buf));
    let bytes = vstd::slice::slice_subrange(buffer::as_slice(buf), 0, len);
    assert(bytes@ =~= all.subrange(4, 4 + len));
    let message = parse_and_validate_message(bytes);
    buffer::advance(buf, len);
    assert(buffered(*buf) =~= all.skip(4 + len));
    message
}

/// What is left of `stream` once its first message has been read.
pub open spec fn after_message(stream: Seq<u8>) -> Seq<u8> {
    let len = be_value(stream.take(4));
    if stream.len() < 4 {
        stream
    } else if len == 0 || len > MAX_MESSAGE_LEN || stream.len() < 4 + len {
        stream.skip(4)
    } else {
        stream.skip(4 + len)
    }
}

/// The bytes that a message takes on a stream: its length and its encoding.
pub open spec fn message_bytes(message: MessageValue) -> Seq<u8> {
    be32(Message::bytes(message).len() as u32) + Message::bytes(message)
}

/// Appends a message and its length to `buf`. A message that is too long is refused.
pub fn write_message(buf: &mut BytesMut, message: &Message) -> (r: Result<(), Error>)
    ensures
        r == (if Message::bytes(message.value()).len() > MAX_MESSAGE_LEN {
            Err::<(), Error>(Error::OutgoingMessageTooLong)
        } else {
            Ok::<(), Error>(())
        }),
        buffered(*final(buf)) == (if r is Ok {
            buffered(*old(buf)) + message_bytes(message.value())
        } else {
            buffered(*old(buf))
        }),
{
    let bytes = encode_to_vec(message);
    if bytes.len() > MAX_MESSAGE_LEN {
        return Err(Error::OutgoingMessageTooLong);
    }
    buffer::put_u32(buf, bytes.len() as u32);
    buf.extend_from_slice(bytes.as_slice());
    assert(buffered(*buf) =~= buffered(*old(buf)) + message_bytes(message.value()));
    Ok(())
}

/// What was written is read again: a message of the current version comes back, with what
/// follows it left on the stream.
#[verifier::spinoff_prover]
#[verifier::rlimit(60)]
pub proof fn law_read_inverts_write(message: MessageValue, rest: Seq<u8>)
    requires
        Message::encodable(message),
        Message::bytes(message).len() <= MAX_MESSAGE_LEN,
        message.version == crate::tracker::VERSION,
    ensures
        first_message(message_bytes(message) + rest) == Ok::<MessageValue, Error>(message),
        after_message(message_bytes(message) + rest) == rest,
{
    let body = Message::bytes(message);
    let len = body.len() as int;
    let stream = message_bytes(message) + rest;
    lemma_be32(len as u32);
    assert(stream.take(4) =~= be32(len as u32));
    law_message_roundtrip(message, Seq::empty());
    assert(body + Seq::<u8>::empty() =~= body);
    assert(stream.subrange(4, 4 + len) =~= body);
    assert(stream.skip(4 + len) =~= rest);
    assert(crate::proto::codec::varint(message.version as nat).len() > 0);
}

/// On a stream a message takes four bytes more than its encoding: they have the value of the length
/// of the encoding, which follows.
pub proof fn law_message_layout(message: MessageValue)
    requires
        Message::bytes(message).len() <= MAX_MESSAGE_LEN,
    ensures
        message_bytes(message).len() == 4 + Message::bytes(message).len(),
        be_value(message_bytes(message).take(4)) == Message::bytes(message).len(),
        message_bytes(message).skip(4) == Message::bytes(message),
{
    let body = Message::bytes(message);
    lemma_be32(body.len() as u32);
    assert(message_bytes(message).take(4) =~= be32(body.len() as u32));
    assert(message_bytes(message).skip(4) =~= body);
}

/// A message is read only once all of it is there, only if its length is stated rightly and within
/// bounds, and only if it is of the current version; then exactly its bytes are gone. What is
/// wrong is reported, and nothing but the stated length is gone then.
pub proof fn law_messages_are_read_whole(stream: Seq<u8>)
    ensures
        ({
            let len = be_value(stream.take(4));
            &&& stream.len() < 4 ==> first_message(stream) == Err::<MessageValue, Error>(Error::IO)
                && after_message(stream) == stream
            &&& stream.len() >= 4 && len == 0 ==> first_message(stream) == Err::<
                MessageValue,
                Error,
            >(Error::InvalidMessage) && after_message(stream) == stream.skip(4)
            &&& stream.len() >= 4 && len > MAX_MESSAGE_LEN ==> first_message(stream) == Err::<
                MessageValue,
                Error,
            >(Error::IncomingMessageTooLong) && after_message(stream) == stream.skip(4)
            &&& stream.len() >= 4 && 0 < len <= MAX_MESSAGE_LEN && stream.len() < 4 + len
                ==> first_message(stream) == Err::<MessageValue, Error>(Error::IO)
                && after_message(stream) == stream.skip(4)
            &&& stream.len() >= 4 && 0 < len <= MAX_MESSAGE_LEN && stream.len() >= 4 + len ==> {
                &&& after_message(stream) == stream.skip(4 + len)
                &&& match Message::parse(stream.subrange(4, 4 + len)) {
                    Err(e) => first_message(stream) == Err::<MessageValue, Error>(Error::Codec(e)),
                    Ok((message, _)) => if message.version == crate::tracker::VERSION {
                        first_message(stream) == Ok::<MessageValue, Error>(message)
                    } else {
                        first_message(stream) == Err::<MessageValue, Error>(
                            Error::Proto(
                                crate::tracker::proto::RpcError::NeedsProtocolVersion(
                                    crate::tracker::VERSION,
                                ),
                            ),
                        )
                    },
                }
            }
        }),
{
}

/// Messages of up to 64 KiB are read; longer ones are refused.
pub proof fn law_long_messages_are_refused(stream: Seq<u8>)
    requires
        stream.len() >= 4,
    ensures
        be_value(stream.take(4)) > 0 ==> (first_message(stream) == Err::<MessageValue, Error>(
            Error::IncomingMessageTooLong,
        ) <==> be_value(stream.take(4)) > 65536),
{
}

} // verus!

//! The tracker: its messages, its server state and its client state.

use crate::addr::SocketAddr;
use crate::io::{ConnEvent, ConnId};
use crate::proto::codec::{CodecError, Wire};
use crate::tracker::client::{
    after_send, reacts, sent, ClientAction, ClientError, ClientModel,
};
use crate::tracker::proto::{
    Command, Message, MessageValue, Payload, Request, RequestValue, Response,
};
use crate::tracker::server::{listed_peers, reply_to, ServerModel};
use crate::util::time::Instant;
use vstd::prelude::*;

pub mod client;
pub mod proto;
pub mod server;
pub mod timers;

verus! {

/// Version of the messages.
pub const VERSION: u16 = 1;

/// Longest datagram that a tracker sends.
pub const MAX_LEN: usize = 1200;

/// Seconds between two messages that keep a connection open.
pub const KEEPALIVE_INTERVAL: u64 = 30;

/// Hash of a value that peers provide.
pub type Key = [u8; 32];

/// Name of a topic.
pub type Topic = [u8; 32];

/// Public key of a peer.
pub type PeerId = [u8; 32];

/// Number of a request.
pub type RequestId = u64;

/// Where a peer can be reached.
#[derive(Debug, PartialEq, Eq)]
pub struct PeerInfo {
    /// Whether the address that a message came from belongs to `addrs`.
    pub use_from_addr: bool,
    pub addrs: Vec<SocketAddr>,
    pub relay: Option<SocketAddr>,
}

/// What a [`PeerInfo`] holds.
pub struct PeerInfoValue {
    pub use_from_addr: bool,
    pub addrs: Seq<SocketAddr>,
    pub relay: Option<SocketAddr>,
}

impl Default for PeerInfo {
    fn default() -> (r: PeerInfo)
        ensures
            r.value() == (PeerInfoValue {
                use_from_addr: true,
                addrs: Seq::empty(),
                relay: None,
            }),
    {
        let r = PeerInfo { use_from_addr: true, addrs: Vec::new(), relay: None };
        assert(r.addrs.value() =~= Seq::<SocketAddr>::empty());
        r
    }
}

impl PeerInfo {
    /// A peer that can be reached at `addr`.
    pub fn with_addr(addr: SocketAddr) -> (r: PeerInfo)
        ensures
            r.value() == (PeerInfoValue {
                use_from_addr: true,
                addrs: seq![addr],
                relay: None,
            }),
    {
        let mut r = PeerInfo::default();
        r.addrs.push(addr);
        assert(r.addrs.value() =~= seq![addr]);
        r
    }
}

impl Clone for PeerInfo {
    fn clone(&self) -> (r: PeerInfo)
        ensures
            r.value() == self.value(),
    {
        let mut addrs: Vec<SocketAddr> = Vec::new();
        let mut i: usize = 0;
        while i < self.addrs.len()
            invariant
                i <= self.addrs@.len(),
                addrs@ == self.addrs@.take(i as int),
            decreases self.addrs@.len() - i,
        {
            addrs.push(self.addrs[i]);
            assert(self.addrs@.take(i + 1) =~= self.addrs@.take(i as int).push(
                self.addrs@[i as int],
            ));
            i = i + 1;
        }
        assert(addrs@ =~= self.addrs@);
        PeerInfo { use_from_addr: self.use_from_addr, addrs, relay: self.relay }
    }
}

/// Where a tracker can be reached.
#[derive(Clone, Copy, Debug)]
pub struct TrackerInfo {
    pub addr: SocketAddr,
    pub peer_id: Option<PeerId>,
}

impl From<SocketAddr> for TrackerInfo {
    fn from(v: SocketAddr) -> (r: TrackerInfo) {
        TrackerInfo { addr: v, peer_id: None }
    }
}

impl vstd::std_specs::convert::FromSpecImpl<SocketAddr> for TrackerInfo {
    open spec fn obeys_from_spec() -> bool {
        true
    }

    open spec fn from_spec(v: SocketAddr) -> TrackerInfo {
        TrackerInfo { addr: v, peer_id: None }
    }
}

/// Why a message could not be handled.
#[derive(Clone, Copy, Debug, PartialEq, Eq, Structural)]
pub enum Error {
    /// The peer id does not match the signing key.
    WrongPeerId,
    /// The message could not be encoded or decoded.
    Codec(CodecError),
    /// The message may not be sent unsigned.
    MissingSignature,
    /// The operation is not supported.
    UnsupportedOperation,
    /// The message is not valid.
    InvalidMessage,
    /// The signature is not valid.
    InvalidSignature,
    /// The request timed out.
    Timeout,
    /// The message is too long.
    MessageTooLong,
    /// The message that a peer announced is too long.
    IncomingMessageTooLong,
    /// The message that was to be sent is too long.
    OutgoingMessageTooLong,
    /// Reading or writing failed.
    IO,
    /// The message breaks the protocol.
    Proto(proto::RpcError),
}

/// Why a command was refused.
#[derive(Clone, Copy, Debug, PartialEq, Eq, Structural)]
pub enum RpcError {
    /// The command is not supported.
    UnsupportedCommand,
    /// The command could not be decoded.
    BadEncoding(CodecError),
}

/// What a tracker receives.
#[derive(Debug)]
pub enum Event {
    Packet(SocketAddr, Message),
    Response(Response),
}

/// The outcome of reading a message from `bytes`.
pub open spec fn read_message_value(bytes: Seq<u8>) -> Result<MessageValue, Error> {
    match Message::parse(bytes) {
        Err(e) => Err(Error::Codec(e)),
        Ok((message, _rest)) => if message.version != VERSION {
            Err(Error::Proto(proto::RpcError::NeedsProtocolVersion(VERSION)))
        } else {
            Ok(message)
        },
    }
}

/// Decodes a message and checks its version.
pub fn parse_and_validate_message(bytes: &[u8]) -> (r: Result<Message, Error>)
    ensures
        match r {
            Ok(message) => read_message_value(bytes@) == Ok::<MessageValue, Error>(message.value()),
            Err(e) => read_message_value(bytes@) == Err::<MessageValue, Error>(e),
        },
{
    let message = match Message::take(bytes) {
        Ok((message, _rest)) => message,
        Err(e) => return Err(Error::Codec(e)),
    };
    match validate_message(&message) {
        Ok(()) => Ok(message),
        Err(e) => Err(Error::Proto(e)),
    }
}

/// Checks the version of a message.
pub fn validate_message(message: &Message) -> (r: Result<(), proto::RpcError>)
    ensures
        r == (if message.version == VERSION {
            Ok::<(), proto::RpcError>(())
        } else {
            Err::<(), proto::RpcError>(proto::RpcError::NeedsProtocolVersion(VERSION))
        }),
{
    if message.version != VERSION {
        return Err(proto::RpcError::NeedsProtocolVersion(VERSION));
    }
    Ok(())
}

/// An encoded message of the current version is read back, and one of any other version is
/// answered with the version that is needed.
pub proof fn law_message_roundtrip(message: MessageValue, rest: Seq<u8>)
    requires
        Message::encodable(message),
    ensures
        read_message_value(Message::bytes(message) + rest) == (if message.version == VERSION {
            Ok::<MessageValue, Error>(message)
        } else {
            Err::<MessageValue, Error>(
                Error::Proto(proto::RpcError::NeedsProtocolVersion(VERSION)),
            )
        }),
{
    Message::parse_inverts_bytes(message, rest);
}

/// What a client asks a tracker, the tracker answers: the reply to the request that the client
/// sent is awaited by the client, and ends the request.
pub proof fn law_request_is_answered<S, Tx>(
    c: ClientModel<S, Tx>,
    command: Command,
    response_tx: Option<Tx>,
    conn_id: ConnId,
    now: Instant,
    server: ServerModel,
    reply: Message,
    r: Result<ClientAction<Tx>, ClientError>,
)
    requires
        c.conns.dom().contains(conn_id),
        reply.payload matches Payload::Response(response) && response.value() == reply_to(
            server,
            RequestValue { request_id: c.upcoming, command, peer_info: None },
        ),
        reacts(
            after_send(c, response_tx, Some(conn_id), now),
            ConnEvent::Packet(conn_id, reply),
            now,
            r,
        ),
    ensures
        sent(c, command, Some(conn_id)) matches Ok((on, message)) && on == conn_id
            && message.payload == Payload::Request(
            Request { request_id: c.upcoming, command, peer_info: None },
        ),
        r matches Ok(ClientAction::Finish(request, response)) && request.response_tx == response_tx
            && response.value().peers == listed_peers(server, command),
{
}

impl Wire for PeerInfo {
    type Value = PeerInfoValue;

    open spec fn value(&self) -> PeerInfoValue {
        PeerInfoValue {
            use_from_addr: self.use_from_addr.value(),
            addrs: self.addrs.value(),
            relay: self.relay.value(),
        }
    }

    open spec fn encodable(v: PeerInfoValue) -> bool {
        &&& bool::encodable(v.use_from_addr)
        &&& Vec::<SocketAddr>::encodable(v.addrs)
        &&& Option::<SocketAddr>::encodable(v.relay)
    }

    open spec fn bytes(v: PeerInfoValue) -> Seq<u8> {
        bool::bytes(v.use_from_addr) + (Vec::<SocketAddr>::bytes(v.addrs) + Option::<
            SocketAddr,
        >::bytes(v.relay))
    }

    open spec fn parse(s: Seq<u8>) -> Result<(PeerInfoValue, Seq<u8>), CodecError> {
        match bool::parse(s) {
            Ok((use_from_addr, s1)) => match Vec::<SocketAddr>::parse(s1) {
                Ok((addrs, s2)) => match Option::<SocketAddr>::parse(s2) {
                    Ok((relay, rest)) => Ok((PeerInfoValue { use_from_addr, addrs, relay }, rest)),
                    Err(e) => Err(e),
                },
                Err(e) => Err(e),
            },
            Err(e) => Err(e),
        }
    }

    #[verifier::rlimit(40)]
    proof fn parse_inverts_bytes(v: PeerInfoValue, rest: Seq<u8>) {
        let s2 = Option::<SocketAddr>::bytes(v.relay) + rest;
        let s1 = Vec::<SocketAddr>::bytes(v.addrs) + s2;
        assert(Self::bytes(v) + rest =~= bool::bytes(v.use_from_addr) + s1);
        bool::parse_inverts_bytes(v.use_from_addr, s1);
        Vec::<SocketAddr>::parse_inverts_bytes(v.addrs, s2);
        Option::<SocketAddr>::parse_inverts_bytes(v.relay, rest);
    }

    fn put(&self, out: &mut Vec<u8>) {
        self.use_from_addr.put(out);
        self.addrs.put(out);
        self.relay.put(out);
        assert(out@ =~= old(out)@ + Self::bytes(self.value()));
    }

    fn take<'a>(input: &'a [u8]) -> (r: Result<(PeerInfo, &'a [u8]), CodecError>) {
        let (use_from_addr, s1) = match bool::take(input) {
            Ok(found) => found,
            Err(e) => return Err(e),
        };
        let (addrs, s2) = match Vec::<SocketAddr>::take(s1) {
            Ok(found) => found,
            Err(e) => return Err(e),
        };
        let (relay, rest) = match <Option<SocketAddr> as Wire>::take(s2) {
            Ok(found) => found,
            Err(e) => return Err(e),
        };
        Ok((PeerInfo { use_from_addr, addrs, relay }, rest))
    }
}

impl Wire for TrackerInfo {
    type Value = TrackerInfo;

    open spec fn value(&self) -> TrackerInfo {
        *self
    }

    open spec fn encodable(v: TrackerInfo) -> bool {
        &&& SocketAddr::encodable(v.addr)
        &&& Option::<PeerId>::encodable(v.peer_id)
    }

    open spec fn bytes(v: TrackerInfo) -> Seq<u8> {
        SocketAddr::bytes(v.addr) + Option::<PeerId>::bytes(v.peer_id)
    }

    open spec fn parse(s: Seq<u8>) -> Result<(TrackerInfo, Seq<u8>), CodecError> {
        match SocketAddr::parse(s) {
            Ok((addr, s1)) => match Option::<PeerId>::parse(s1) {
                Ok((peer_id, rest)) => Ok((TrackerInfo { addr, peer_id }, rest)),
                Err(e) => Err(e),
            },
            Err(e) => Err(e),
        }
    }

    proof fn parse_inverts_bytes(v: TrackerInfo, rest: Seq<u8>) {
        let s1 = Option::<PeerId>::bytes(v.peer_id) + rest;
        assert(Self::bytes(v) + rest =~= SocketAddr::bytes(v.addr) + s1);
        SocketAddr::parse_inverts_bytes(v.addr, s1);
        Option::<PeerId>::parse_inverts_bytes(v.peer_id, rest);
    }

    fn put(&self, out: &mut Vec<u8>) {
        self.addr.put(out);
        self.peer_id.put(out);
        assert(self.peer_id.value() == self.peer_id);
        assert(out@ =~= old(out)@ + Self::bytes(self.value()));
    }

    fn take<'a>(input: &'a [u8]) -> (r: Result<(TrackerInfo, &'a [u8]), CodecError>) {
        let (addr, s1) = match SocketAddr::take(input) {
            Ok(found) => found,
            Err(e) => return Err(e),
        };
        let (peer_id, rest) = match <Option<PeerId> as Wire>::take(s1) {
            Ok(found) => found,
            Err(e) => return Err(e),
        };
        assert(peer_id.value() == peer_id);
        Ok((TrackerInfo { addr, peer_id }, rest))
    }
}

} // verus!

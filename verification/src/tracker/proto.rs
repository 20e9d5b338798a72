//! Messages between trackers and their clients.

use crate::addr::SocketAddr;
use crate::proto::codec::{CodecError, Wire};
use crate::tracker::{Key, PeerId, PeerInfo, PeerInfoValue, Topic, VERSION};
use vstd::prelude::*;

verus! {

/// A message and its sender.
#[derive(Debug)]
pub struct Message {
    pub version: u16,
    pub from: PeerId,
    pub payload: Payload,
}

/// What a [`Message`] holds.
pub struct MessageValue {
    pub version: u16,
    pub from: PeerId,
    pub payload: PayloadValue,
}

impl Message {
    /// A message of the current version.
    pub fn new(from: PeerId, payload: Payload) -> (r: Message)
        ensures
            r == (Message { version: VERSION, from, payload }),
    {
        Message { version: VERSION, from, payload }
    }

    /// A message that reports an error.
    pub fn error(from: PeerId, request_id: Option<u64>, error: RpcError) -> (r: Message)
        ensures
            r == (Message {
                version: VERSION,
                from,
                payload: Payload::Error(ErrorMessage { request_id, error }),
            }),
    {
        Message::new(from, Payload::Error(ErrorMessage { request_id, error }))
    }

    /// A message that carries a request.
    pub fn request(from: PeerId, request: Request) -> (r: Message)
        ensures
            r == (Message { version: VERSION, from, payload: Payload::Request(request) }),
    {
        Message::new(from, Payload::Request(request))
    }

    /// A message that carries a response.
    pub fn response(from: PeerId, response: Response) -> (r: Message)
        ensures
            r == (Message { version: VERSION, from, payload: Payload::Response(response) }),
    {
        Message::new(from, Payload::Response(response))
    }

    /// The response, if this message carries one.
    pub fn as_response(&self) -> (r: Option<&Response>)
        ensures
            match self.payload {
                Payload::Response(response) => r == Some(&response),
                _ => r is None,
            },
    {
        match &self.payload {
            Payload::Response(response) => Some(response),
            _ => None,
        }
    }

    /// The response, if this message carries one.
    pub fn into_response(self) -> (r: Option<Response>)
        ensures
            match self.payload {
                Payload::Response(response) => r == Some(response),
                _ => r is None,
            },
    {
        match self.payload {
            Payload::Response(response) => Some(response),
            _ => None,
        }
    }
}

/// What a message carries.
#[derive(Debug)]
pub enum Payload {
    Request(Request),
    Response(Response),
    Error(ErrorMessage),
}

/// What a [`Payload`] holds.
pub enum PayloadValue {
    Request(RequestValue),
    Response(ResponseValue),
    Error(ErrorMessage),
}

/// A reported error, and the request that it is about.
#[derive(Clone, Copy, Debug)]
pub struct ErrorMessage {
    pub request_id: Option<u64>,
    pub error: RpcError,
}

/// Why a request was refused.
#[derive(Clone, Copy, Debug, PartialEq, Eq, Structural)]
pub enum RpcError {
    /// The sender has to speak this version.
    NeedsProtocolVersion(u16),
    /// A signature was refused.
    InvalidSignature,
    /// The request is not supported.
    UnsupportedOperation,
}

/// A decimal digit.
pub open spec fn digit(n: nat) -> char {
    (48 + n) as char
}

/// A number in decimal notation.
pub open spec fn decimal(n: nat) -> Seq<char>
    decreases n,
{
    if n < 10 {
        seq![digit(n)]
    } else {
        decimal(n / 10).push(digit(n % 10))
    }
}

/// A decimal digit as a string.
fn digit_str(n: u16) -> (r: &'static str)
    requires
        n < 10,
    ensures
        r@ == seq![digit(n as nat)],
{
    proof {
        reveal_strlit("0");
        reveal_strlit("1");
        reveal_strlit("2");
        reveal_strlit("3");
        reveal_strlit("4");
        reveal_strlit("5");
        reveal_strlit("6");
        reveal_strlit("7");
        reveal_strlit("8");
        reveal_strlit("9");
    }
    let r = match n {
        0 => "0",
        1 => "1",
        2 => "2",
        3 => "3",
        4 => "4",
        5 => "5",
        6 => "6",
        7 => "7",
        8 => "8",
        _ => "9",
    };
    assert(r@ =~= seq![digit(n as nat)]);
    r
}

/// A number in decimal notation.
fn decimal_string(n: u16) -> (r: String)
    ensures
        r@ == decimal(n as nat),
    decreases n,
{
    if n < 10 {
        digit_str(n).to_owned()
    } else {
        let mut r = decimal_string(n / 10);
        r.append(digit_str(n % 10));
        assert(r@ =~= decimal(n as nat));
        r
    }
}

/// How an error reads.
pub open spec fn error_text(error: RpcError) -> Seq<char> {
    match error {
        RpcError::NeedsProtocolVersion(version) => "NeedsProtocolVersion("@ + decimal(
            version as nat,
        ) + ")"@,
        RpcError::InvalidSignature => "InvalidSignature"@,
        RpcError::UnsupportedOperation => "UnsupportedOperation"@,
    }
}

impl RpcError {
    /// How the error reads.
    pub fn to_string(&self) -> (r: String)
        ensures
            r@ == error_text(*self),
    {
        match self {
            RpcError::NeedsProtocolVersion(version) => {
                let mut r = "NeedsProtocolVersion(".to_owned();
                r.append(decimal_string(*version).as_str());
                r.append(")");
                r
            },
            RpcError::InvalidSignature => "InvalidSignature".to_owned(),
            RpcError::UnsupportedOperation => "UnsupportedOperation".to_owned(),
        }
    }
}

/// A command to a tracker.
#[derive(Debug)]
pub struct Request {
    pub request_id: u64,
    pub command: Command,
    pub peer_info: Option<PeerInfo>,
}

/// What a [`Request`] holds.
pub struct RequestValue {
    pub request_id: u64,
    pub command: Command,
    pub peer_info: Option<PeerInfoValue>,
}

/// The reply of a tracker.
#[derive(Debug)]
pub struct Response {
    pub request_id: u64,
    pub error: Option<RpcError>,
    pub peers: Option<Vec<PeerInfo>>,
    pub fin: bool,
}

/// What a [`Response`] holds.
pub struct ResponseValue {
    pub request_id: u64,
    pub error: Option<RpcError>,
    pub peers: Option<Seq<PeerInfoValue>>,
    pub fin: bool,
}

impl Response {
    /// A reply that lists peers.
    pub fn with_peers(request_id: u64, peers: Vec<PeerInfo>, fin: bool) -> (r: Response)
        ensures
            r == (Response { request_id, error: None, peers: Some(peers), fin }),
    {
        Response { request_id, error: None, peers: Some(peers), fin }
    }

    /// A final reply that lists nothing.
    pub fn empty(request_id: u64) -> (r: Response)
        ensures
            r == (Response { request_id, error: None, peers: None, fin: true }),
    {
        Response { request_id, error: None, peers: None, fin: true }
    }
}

/// What a tracker is asked to do.
#[derive(Clone, Copy, Debug)]
pub enum Command {
    /// Register the sender.
    Hello(Hello),
    /// Keep the sender registered.
    Ping,
    /// Say where a peer can be reached.
    LookupPeer(LookupPeer),
    /// Say which peers provide a key.
    LookupKey(LookupKey),
    /// Record that the sender provides a key.
    ProvideKey(ProvideKey),
}

/// See [`Command::Hello`].
#[derive(Clone, Copy, Debug)]
pub struct Hello {}

/// See [`Command::LookupPeer`].
#[derive(Clone, Copy, Debug)]
pub struct LookupPeer {
    pub peer_id: PeerId,
    pub topic: Option<Topic>,
}

/// See [`Command::LookupKey`].
#[derive(Clone, Copy, Debug)]
pub struct LookupKey {
    pub key: Key,
    pub topic: Option<Topic>,
}

/// See [`Command::ProvideKey`].
#[derive(Clone, Copy, Debug)]
pub struct ProvideKey {
    pub key: Key,
    pub topic: Option<Key>,
}

impl Wire for Message {
    type Value = MessageValue;

    open spec fn value(&self) -> MessageValue {
        MessageValue {
            version: self.version.value(),
            from: self.from.value(),
            payload: self.payload.value(),
        }
    }

    open spec fn encodable(v: MessageValue) -> bool {
        &&& u16::encodable(v.version)
        &&& PeerId::encodable(v.from)
        &&& Payload::encodable(v.payload)
    }

    open spec fn bytes(v: MessageValue) -> Seq<u8> {
        u16::bytes(v.version) + (PeerId::bytes(v.from) + Payload::bytes(v.payload))
    }

    open spec fn parse(s: Seq<u8>) -> Result<(MessageValue, Seq<u8>), CodecError> {
        match u16::parse(s) {
            Ok((version, s1)) => match PeerId::parse(s1) {
                Ok((from, s2)) => match Payload::parse(s2) {
                    Ok((payload, rest)) => Ok((MessageValue { version, from, payload }, rest)),
                    Err(e) => Err(e),
                },
                Err(e) => Err(e),
            },
            Err(e) => Err(e),
        }
    }

    #[verifier::rlimit(40)]
    proof fn parse_inverts_bytes(v: MessageValue, rest: Seq<u8>) {
        let s2 = Payload::bytes(v.payload) + rest;
        let s1 = PeerId::bytes(v.from) + s2;
        assert(Self::bytes(v) + rest =~= u16::bytes(v.version) + s1);
        u16::parse_inverts_bytes(v.version, s1);
        PeerId::parse_inverts_bytes(v.from, s2);
        Payload::parse_inverts_bytes(v.payload, rest);
    }

    fn put(&self, out: &mut Vec<u8>) {
        self.version.put(out);
        self.from.put(out);
        self.payload.put(out);
        assert(out@ =~= old(out)@ + Self::bytes(self.value()));
    }

    fn take<'a>(input: &'a [u8]) -> (r: Result<(Message, &'a [u8]), CodecError>) {
        let (version, s1) = match u16::take(input) {
            Ok(found) => found,
            Err(e) => return Err(e),
        };
        let (from, s2) = match PeerId::take(s1) {
            Ok(found) => found,
            Err(e) => return Err(e),
        };
        let (payload, rest) = match Payload::take(s2) {
            Ok(found) => found,
            Err(e) => return Err(e),
        };
        Ok((Message { version, from, payload }, rest))
    }
}

impl Wire for Payload {
    type Value = PayloadValue;

    open spec fn value(&self) -> PayloadValue {
        match self {
            Payload::Request(x) => PayloadValue::Request(x.value()),
            Payload::Response(x) => PayloadValue::Response(x.value()),
            Payload::Error(x) => PayloadValue::Error(x.value()),
        }
    }

    open spec fn encodable(v: PayloadValue) -> bool {
        match v {
            PayloadValue::Request(x) => Request::encodable(x),
            PayloadValue::Response(x) => Response::encodable(x),
            PayloadValue::Error(x) => ErrorMessage::encodable(x),
        }
    }

    open spec fn bytes(v: PayloadValue) -> Seq<u8> {
        match v {
            PayloadValue::Request(x) => u32::bytes(0) + Request::bytes(x),
            PayloadValue::Response(x) => u32::bytes(1) + Response::bytes(x),
            PayloadValue::Error(x) => u32::bytes(2) + ErrorMessage::bytes(x),
        }
    }

    open spec fn parse(s: Seq<u8>) -> Result<(PayloadValue, Seq<u8>), CodecError> {
        match u32::parse(s) {
            Ok((variant, body)) => if variant == 0 {
                match Request::parse(body) {
                    Ok((x, rest)) => Ok((PayloadValue::Request(x), rest)),
                    Err(e) => Err(e),
                }
            } else if variant == 1 {
                match Response::parse(body) {
                    Ok((x, rest)) => Ok((PayloadValue::Response(x), rest)),
                    Err(e) => Err(e),
                }
            } else if variant == 2 {
                match ErrorMessage::parse(body) {
                    Ok((x, rest)) => Ok((PayloadValue::Error(x), rest)),
                    Err(e) => Err(e),
                }
            } else {
                Err(CodecError::SerdeDeCustom)
            },
            Err(e) => Err(e),
        }
    }

    #[verifier::rlimit(40)]
    proof fn parse_inverts_bytes(v: PayloadValue, rest: Seq<u8>) {
        match v {
            PayloadValue::Request(x) => {
                let body = Request::bytes(x) + rest;
                assert(Self::bytes(v) + rest =~= u32::bytes(0) + body);
                u32::parse_inverts_bytes(0, body);
                Request::parse_inverts_bytes(x, rest);
            },
            PayloadValue::Response(x) => {
                let body = Response::bytes(x) + rest;
                assert(Self::bytes(v) + rest =~= u32::bytes(1) + body);
                u32::parse_inverts_bytes(1, body);
                Response::parse_inverts_bytes(x, rest);
            },
            PayloadValue::Error(x) => {
                let body = ErrorMessage::bytes(x) + rest;
                assert(Self::bytes(v) + rest =~= u32::bytes(2) + body);
                u32::parse_inverts_bytes(2, body);
                ErrorMessage::parse_inverts_bytes(x, rest);
            },
        }
    }

    fn put(&self, out: &mut Vec<u8>) {
        match self {
            Payload::Request(x) => {
                0u32.put(out);
                x.put(out);
            },
            Payload::Response(x) => {
                1u32.put(out);
                x.put(out);
            },
            Payload::Error(x) => {
                2u32.put(out);
                x.put(out);
            },
        }
        assert(out@ =~= old(out)@ + Self::bytes(self.value()));
    }

    fn take<'a>(input: &'a [u8]) -> (r: Result<(Payload, &'a [u8]), CodecError>) {
        let (variant, body) = match u32::take(input) {
            Ok(found) => found,
            Err(e) => return Err(e),
        };
        if variant == 0 {
            match Request::take(body) {
                Ok((x, rest)) => Ok((Payload::Request(x), rest)),
                Err(e) => Err(e),
            }
        } else if variant == 1 {
            match Response::take(body) {
                Ok((x, rest)) => Ok((Payload::Response(x), rest)),
                Err(e) => Err(e),
            }
        } else if variant == 2 {
            match ErrorMessage::take(body) {
                Ok((x, rest)) => Ok((Payload::Error(x), rest)),
                Err(e) => Err(e),
            }
        } else {
            Err(CodecError::SerdeDeCustom)
        }
    }
}

impl Wire for ErrorMessage {
    type Value = ErrorMessage;

    open spec fn value(&self) -> ErrorMessage {
        *self
    }

    open spec fn encodable(v: ErrorMessage) -> bool {
        &&& Option::<u64>::encodable(v.request_id)
        &&& RpcError::encodable(v.error)
    }

    open spec fn bytes(v: ErrorMessage) -> Seq<u8> {
        Option::<u64>::bytes(v.request_id) + RpcError::bytes(v.error)
    }

    open spec fn parse(s: Seq<u8>) -> Result<(ErrorMessage, Seq<u8>), CodecError> {
        match Option::<u64>::parse(s) {
            Ok((request_id, s1)) => match RpcError::parse(s1) {
                Ok((error, rest)) => Ok((ErrorMessage { request_id, error }, rest)),
                Err(e) => Err(e),
            },
            Err(e) => Err(e),
        }
    }

    #[verifier::rlimit(40)]
    proof fn parse_inverts_bytes(v: ErrorMessage, rest: Seq<u8>) {
        let s1 = RpcError::bytes(v.error) + rest;
        assert(Self::bytes(v) + rest =~= Option::<u64>::bytes(v.request_id) + s1);
        Option::<u64>::parse_inverts_bytes(v.request_id, s1);
        RpcError::parse_inverts_bytes(v.error, rest);
    }

    fn put(&self, out: &mut Vec<u8>) {
        self.request_id.put(out);
        self.error.put(out);
        assert(self.request_id.value() == self.request_id);
        assert(out@ =~= old(out)@ + Self::bytes(self.value()));
    }

    fn take<'a>(input: &'a [u8]) -> (r: Result<(ErrorMessage, &'a [u8]), CodecError>) {
        let (request_id, s1) = match <Option<u64> as Wire>::take(input) {
            Ok(found) => found,
            Err(e) => return Err(e),
        };
        assert(request_id.value() == request_id);
        let (error, rest) = match RpcError::take(s1) {
            Ok(found) => found,
            Err(e) => return Err(e),
        };
        Ok((ErrorMessage { request_id, error }, rest))
    }
}

impl Wire for RpcError {
    type Value = RpcError;

    open spec fn value(&self) -> RpcError {
        *self
    }

    open spec fn encodable(v: RpcError) -> bool {
        match v {
            RpcError::NeedsProtocolVersion(x) => u16::encodable(x),
            RpcError::InvalidSignature => true,
            RpcError::UnsupportedOperation => true,
        }
    }

    open spec fn bytes(v: RpcError) -> Seq<u8> {
        match v {
            RpcError::NeedsProtocolVersion(x) => u32::bytes(0) + u16::bytes(x),
            RpcError::InvalidSignature => u32::bytes(1),
            RpcError::UnsupportedOperation => u32::bytes(2),
        }
    }

    open spec fn parse(s: Seq<u8>) -> Result<(RpcError, Seq<u8>), CodecError> {
        match u32::parse(s) {
            Ok((variant, body)) => if variant == 0 {
                match u16::parse(body) {
                    Ok((x, rest)) => Ok((RpcError::NeedsProtocolVersion(x), rest)),
                    Err(e) => Err(e),
                }
            } else if variant == 1 {
                Ok((RpcError::InvalidSignature, body))
            } else if variant == 2 {
                Ok((RpcError::UnsupportedOperation, body))
            } else {
                Err(CodecError::SerdeDeCustom)
            },
            Err(e) => Err(e),
        }
    }

    proof fn parse_inverts_bytes(v: RpcError, rest: Seq<u8>) {
        match v {
            RpcError::NeedsProtocolVersion(x) => {
                let body = u16::bytes(x) + rest;
                assert(Self::bytes(v) + rest =~= u32::bytes(0) + body);
                u32::parse_inverts_bytes(0, body);
                u16::parse_inverts_bytes(x, rest);
            },
            RpcError::InvalidSignature => {
                u32::parse_inverts_bytes(1, rest);
            },
            RpcError::UnsupportedOperation => {
                u32::parse_inverts_bytes(2, rest);
            },
        }
    }

    fn put(&self, out: &mut Vec<u8>) {
        match self {
            RpcError::NeedsProtocolVersion(x) => {
                0u32.put(out);
                x.put(out);
            },
            RpcError::InvalidSignature => {
                1u32.put(out);
            },
            RpcError::UnsupportedOperation => {
                2u32.put(out);
            },
        }
        assert(out@ =~= old(out)@ + Self::bytes(self.value()));
    }

    fn take<'a>(input: &'a [u8]) -> (r: Result<(RpcError, &'a [u8]), CodecError>) {
        let (variant, body) = match u32::take(input) {
            Ok(found) => found,
            Err(e) => return Err(e),
        };
        if variant == 0 {
            match u16::take(body) {
                Ok((x, rest)) => Ok((RpcError::NeedsProtocolVersion(x), rest)),
                Err(e) => Err(e),
            }
        } else if variant == 1 {
            Ok((RpcError::InvalidSignature, body))
        } else if variant == 2 {
            Ok((RpcError::UnsupportedOperation, body))
        } else {
            Err(CodecError::SerdeDeCustom)
        }
    }
}

impl Wire for Request {
    type Value = RequestValue;

    open spec fn value(&self) -> RequestValue {
        RequestValue {
            request_id: self.request_id.value(),
            command: self.command.value(),
            peer_info: self.peer_info.value(),
        }
    }

    open spec fn encodable(v: RequestValue) -> bool {
        &&& u64::encodable(v.request_id)
        &&& Command::encodable(v.command)
        &&& Option::<PeerInfo>::encodable(v.peer_info)
    }

    open spec fn bytes(v: RequestValue) -> Seq<u8> {
        u64::bytes(v.request_id) + (Command::bytes(v.command) + Option::<PeerInfo>::bytes(
            v.peer_info,
        ))
    }

    open spec fn parse(s: Seq<u8>) -> Result<(RequestValue, Seq<u8>), CodecError> {
        match u64::parse(s) {
            Ok((request_id, s1)) => match Command::parse(s1) {
                Ok((command, s2)) => match Option::<PeerInfo>::parse(s2) {
                    Ok((peer_info, rest)) => Ok(
                        (RequestValue { request_id, command, peer_info }, rest),
                    ),
                    Err(e) => Err(e),
                },
                Err(e) => Err(e),
            },
            Err(e) => Err(e),
        }
    }

    #[verifier::rlimit(40)]
    proof fn parse_inverts_bytes(v: RequestValue, rest: Seq<u8>) {
        let s2 = Option::<PeerInfo>::bytes(v.peer_info) + rest;
        let s1 = Command::bytes(v.command) + s2;
        assert(Self::bytes(v) + rest =~= u64::bytes(v.request_id) + s1);
        u64::parse_inverts_bytes(v.request_id, s1);
        Command::parse_inverts_bytes(v.command, s2);
        Option::<PeerInfo>::parse_inverts_bytes(v.peer_info, rest);
    }

    fn put(&self, out: &mut Vec<u8>) {
        self.request_id.put(out);
        self.command.put(out);
        self.peer_info.put(out);
        assert(out@ =~= old(out)@ + Self::bytes(self.value()));
    }

    fn take<'a>(input: &'a [u8]) -> (r: Result<(Request, &'a [u8]), CodecError>) {
        let (request_id, s1) = match u64::take(input) {
            Ok(found) => found,
            Err(e) => return Err(e),
        };
        let (command, s2) = match Command::take(s1) {
            Ok(found) => found,
            Err(e) => return Err(e),
        };
        let (peer_info, rest) = match <Option<PeerInfo> as Wire>::take(s2) {
            Ok(found) => found,
            Err(e) => return Err(e),
        };
        Ok((Request { request_id, command, peer_info }, rest))
    }
}

impl Wire for Response {
    type Value = ResponseValue;

    open spec fn value(&self) -> ResponseValue {
        ResponseValue {
            request_id: self.request_id.value(),
            error: self.error.value(),
            peers: self.peers.value(),
            fin: self.fin.value(),
        }
    }

    open spec fn encodable(v: ResponseValue) -> bool {
        &&& u64::encodable(v.request_id)
        &&& Option::<RpcError>::encodable(v.error)
        &&& Option::<Vec<PeerInfo>>::encodable(v.peers)
        &&& bool::encodable(v.fin)
    }

    open spec fn bytes(v: ResponseValue) -> Seq<u8> {
        u64::bytes(v.request_id) + (Option::<RpcError>::bytes(v.error) + (Option::<
            Vec<PeerInfo>,
        >::bytes(v.peers) + bool::bytes(v.fin)))
    }

    open spec fn parse(s: Seq<u8>) -> Result<(ResponseValue, Seq<u8>), CodecError> {
        match u64::parse(s) {
            Ok((request_id, s1)) => match Option::<RpcError>::parse(s1) {
                Ok((error, s2)) => match Option::<Vec<PeerInfo>>::parse(s2) {
                    Ok((peers, s3)) => match bool::parse(s3) {
                        Ok((fin, rest)) => Ok(
                            (ResponseValue { request_id, error, peers, fin }, rest),
                        ),
                        Err(e) => Err(e),
                    },
                    Err(e) => Err(e),
                },
                Err(e) => Err(e),
            },
            Err(e) => Err(e),
        }
    }

    #[verifier::rlimit(40)]
    proof fn parse_inverts_bytes(v: ResponseValue, rest: Seq<u8>) {
        let s3 = bool::bytes(v.fin) + rest;
        let s2 = Option::<Vec<PeerInfo>>::bytes(v.peers) + s3;
        let s1 = Option::<RpcError>::bytes(v.error) + s2;
        assert(Self::bytes(v) + rest =~= u64::bytes(v.request_id) + s1);
        u64::parse_inverts_bytes(v.request_id, s1);
        Option::<RpcError>::parse_inverts_bytes(v.error, s2);
        Option::<Vec<PeerInfo>>::parse_inverts_bytes(v.peers, s3);
        bool::parse_inverts_bytes(v.fin, rest);
    }

    fn put(&self, out: &mut Vec<u8>) {
        self.request_id.put(out);
        self.error.put(out);
        self.peers.put(out);
        self.fin.put(out);
        assert(out@ =~= old(out)@ + Self::bytes(self.value()));
    }

    fn take<'a>(input: &'a [u8]) -> (r: Result<(Response, &'a [u8]), CodecError>) {
        let (request_id, s1) = match u64::take(input) {
            Ok(found) => found,
            Err(e) => return Err(e),
        };
        let (error, s2) = match <Option<RpcError> as Wire>::take(s1) {
            Ok(found) => found,
            Err(e) => return Err(e),
        };
        let (peers, s3) = match <Option<Vec<PeerInfo>> as Wire>::take(s2) {
            Ok(found) => found,
            Err(e) => return Err(e),
        };
        let (fin, rest) = match bool::take(s3) {
            Ok(found) => found,
            Err(e) => return Err(e),
        };
        Ok((Response { request_id, error, peers, fin }, rest))
    }
}

impl Wire for Command {
    type Value = Command;

    open spec fn value(&self) -> Command {
        *self
    }

    open spec fn encodable(v: Command) -> bool {
        match v {
            Command::Hello(x) => Hello::encodable(x),
            Command::Ping => true,
            Command::LookupPeer(x) => LookupPeer::encodable(x),
            Command::LookupKey(x) => LookupKey::encodable(x),
            Command::ProvideKey(x) => ProvideKey::encodable(x),
        }
    }

    open spec fn bytes(v: Command) -> Seq<u8> {
        match v {
            Command::Hello(x) => u32::bytes(0) + Hello::bytes(x),
            Command::Ping => u32::bytes(1),
            Command::LookupPeer(x) => u32::bytes(2) + LookupPeer::bytes(x),
            Command::LookupKey(x) => u32::bytes(3) + LookupKey::bytes(x),
            Command::ProvideKey(x) => u32::bytes(4) + ProvideKey::bytes(x),
        }
    }

    open spec fn parse(s: Seq<u8>) -> Result<(Command, Seq<u8>), CodecError> {
        match u32::parse(s) {
            Ok((variant, body)) => if variant == 0 {
                match Hello::parse(body) {
                    Ok((x, rest)) => Ok((Command::Hello(x), rest)),
                    Err(e) => Err(e),
                }
            } else if variant == 1 {
                Ok((Command::Ping, body))
            } else if variant == 2 {
                match LookupPeer::parse(body) {
                    Ok((x, rest)) => Ok((Command::LookupPeer(x), rest)),
                    Err(e) => Err(e),
                }
            } else if variant == 3 {
                match LookupKey::parse(body) {
                    Ok((x, rest)) => Ok((Command::LookupKey(x), rest)),
                    Err(e) => Err(e),
                }
            } else if variant == 4 {
                match ProvideKey::parse(body) {
                    Ok((x, rest)) => Ok((Command::ProvideKey(x), rest)),
                    Err(e) => Err(e),
                }
            } else {
                Err(CodecError::SerdeDeCustom)
            },
            Err(e) => Err(e),
        }
    }

    #[verifier::rlimit(40)]
    proof fn parse_inverts_bytes(v: Command, rest: Seq<u8>) {
        match v {
            Command::Hello(x) => {
                let body = Hello::bytes(x) + rest;
                assert(Self::bytes(v) + rest =~= u32::bytes(0) + body);
                u32::parse_inverts_bytes(0, body);
                Hello::parse_inverts_bytes(x, rest);
            },
            Command::Ping => {
                u32::parse_inverts_bytes(1, rest);
            },
            Command::LookupPeer(x) => {
                let body = LookupPeer::bytes(x) + rest;
                assert(Self::bytes(v) + rest =~= u32::bytes(2) + body);
                u32::parse_inverts_bytes(2, body);
                LookupPeer::parse_inverts_bytes(x, rest);
            },
            Command::LookupKey(x) => {
                let body = LookupKey::bytes(x) + rest;
                assert(Self::bytes(v) + rest =~= u32::bytes(3) + body);
                u32::parse_inverts_bytes(3, body);
                LookupKey::parse_inverts_bytes(x, rest);
            },
            Command::ProvideKey(x) => {
                let body = ProvideKey::bytes(x) + rest;
                assert(Self::bytes(v) + rest =~= u32::bytes(4) + body);
                u32::parse_inverts_bytes(4, body);
                ProvideKey::parse_inverts_bytes(x, rest);
            },
        }
    }

    fn put(&self, out: &mut Vec<u8>) {
        match self {
            Command::Hello(x) => {
                0u32.put(out);
                x.put(out);
            },
            Command::Ping => {
                1u32.put(out);
            },
            Command::LookupPeer(x) => {
                2u32.put(out);
                x.put(out);
            },
            Command::LookupKey(x) => {
                3u32.put(out);
                x.put(out);
            },
            Command::ProvideKey(x) => {
                4u32.put(out);
                x.put(out);
            },
        }
        assert(out@ =~= old(out)@ + Self::bytes(self.value()));
    }

    fn take<'a>(input: &'a [u8]) -> (r: Result<(Command, &'a [u8]), CodecError>) {
        let (variant, body) = match u32::take(input) {
            Ok(found) => found,
            Err(e) => return Err(e),
        };
        if variant == 0 {
            match Hello::take(body) {
                Ok((x, rest)) => Ok((Command::Hello(x), rest)),
                Err(e) => Err(e),
            }
        } else if variant == 1 {
            Ok((Command::Ping, body))
        } else if variant == 2 {
            match LookupPeer::take(body) {
                Ok((x, rest)) => Ok((Command::LookupPeer(x), rest)),
                Err(e) => Err(e),
            }
        } else if variant == 3 {
            match LookupKey::take(body) {
                Ok((x, rest)) => Ok((Command::LookupKey(x), rest)),
                Err(e) => Err(e),
            }
        } else if variant == 4 {
            match ProvideKey::take(body) {
                Ok((x, rest)) => Ok((Command::ProvideKey(x), rest)),
                Err(e) => Err(e),
            }
        } else {
            Err(CodecError::SerdeDeCustom)
        }
    }
}

impl Wire for Hello {
    type Value = Hello;

    open spec fn value(&self) -> Hello {
        *self
    }

    open spec fn encodable(v: Hello) -> bool {
        true
    }

    open spec fn bytes(v: Hello) -> Seq<u8> {
        Seq::empty()
    }

    open spec fn parse(s: Seq<u8>) -> Result<(Hello, Seq<u8>), CodecError> {
        Ok((Hello {  }, s))
    }

    proof fn parse_inverts_bytes(v: Hello, rest: Seq<u8>) {
        assert(Self::bytes(v) + rest =~= rest);
    }

    fn put(&self, out: &mut Vec<u8>) {
        assert(out@ =~= old(out)@ + Self::bytes(self.value()));
    }

    fn take<'a>(input: &'a [u8]) -> (r: Result<(Hello, &'a [u8]), CodecError>) {
        Ok((Hello {  }, input))
    }
}

impl Wire for LookupPeer {
    type Value = LookupPeer;

    open spec fn value(&self) -> LookupPeer {
        *self
    }

    open spec fn encodable(v: LookupPeer) -> bool {
        &&& PeerId::encodable(v.peer_id)
        &&& Option::<Topic>::encodable(v.topic)
    }

    open spec fn bytes(v: LookupPeer) -> Seq<u8> {
        PeerId::bytes(v.peer_id) + Option::<Topic>::bytes(v.topic)
    }

    open spec fn parse(s: Seq<u8>) -> Result<(LookupPeer, Seq<u8>), CodecError> {
        match PeerId::parse(s) {
            Ok((peer_id, s1)) => match Option::<Topic>::parse(s1) {
                Ok((topic, rest)) => Ok((LookupPeer { peer_id, topic }, rest)),
                Err(e) => Err(e),
            },
            Err(e) => Err(e),
        }
    }

    proof fn parse_inverts_bytes(v: LookupPeer, rest: Seq<u8>) {
        let s1 = Option::<Topic>::bytes(v.topic) + rest;
        assert(Self::bytes(v) + rest =~= PeerId::bytes(v.peer_id) + s1);
        PeerId::parse_inverts_bytes(v.peer_id, s1);
        Option::<Topic>::parse_inverts_bytes(v.topic, rest);
    }

    fn put(&self, out: &mut Vec<u8>) {
        self.peer_id.put(out);
        self.topic.put(out);
        assert(self.topic.value() == self.topic);
        assert(out@ =~= old(out)@ + Self::bytes(self.value()));
    }

    fn take<'a>(input: &'a [u8]) -> (r: Result<(LookupPeer, &'a [u8]), CodecError>) {
        let (peer_id, s1) = match PeerId::take(input) {
            Ok(found) => found,
            Err(e) => return Err(e),
        };
        let (topic, rest) = match <Option<Topic> as Wire>::take(s1) {
            Ok(found) => found,
            Err(e) => return Err(e),
        };
        assert(topic.value() == topic);
        Ok((LookupPeer { peer_id, topic }, rest))
    }
}

impl Wire for LookupKey {
    type Value = LookupKey;

    open spec fn value(&self) -> LookupKey {
        *self
    }

    open spec fn encodable(v: LookupKey) -> bool {
        &&& Key::encodable(v.key)
        &&& Option::<Topic>::encodable(v.topic)
    }

    open spec fn bytes(v: LookupKey) -> Seq<u8> {
        Key::bytes(v.key) + Option::<Topic>::bytes(v.topic)
    }

    open spec fn parse(s: Seq<u8>) -> Result<(LookupKey, Seq<u8>), CodecError> {
        match Key::parse(s) {
            Ok((key, s1)) => match Option::<Topic>::parse(s1) {
                Ok((topic, rest)) => Ok((LookupKey { key, topic }, rest)),
                Err(e) => Err(e),
            },
            Err(e) => Err(e),
        }
    }

    proof fn parse_inverts_bytes(v: LookupKey, rest: Seq<u8>) {
        let s1 = Option::<Topic>::bytes(v.topic) + rest;
        assert(Self::bytes(v) + rest =~= Key::bytes(v.key) + s1);
        Key::parse_inverts_bytes(v.key, s1);
        Option::<Topic>::parse_inverts_bytes(v.topic, rest);
    }

    fn put(&self, out: &mut Vec<u8>) {
        self.key.put(out);
        self.topic.put(out);
        assert(self.topic.value() == self.topic);
        assert(out@ =~= old(out)@ + Self::bytes(self.value()));
    }

    fn take<'a>(input: &'a [u8]) -> (r: Result<(LookupKey, &'a [u8]), CodecError>) {
        let (key, s1) = match Key::take(input) {
            Ok(found) => found,
            Err(e) => return Err(e),
        };
        let (topic, rest) = match <Option<Topic> as Wire>::take(s1) {
            Ok(found) => found,
            Err(e) => return Err(e),
        };
        assert(topic.value() == topic);
        Ok((LookupKey { key, topic }, rest))
    }
}

impl Wire for ProvideKey {
    type Value = ProvideKey;

    open spec fn value(&self) -> ProvideKey {
        *self
    }

    open spec fn encodable(v: ProvideKey) -> bool {
        &&& Key::encodable(v.key)
        &&& Option::<Key>::encodable(v.topic)
    }

    open spec fn bytes(v: ProvideKey) -> Seq<u8> {
        Key::bytes(v.key) + Option::<Key>::bytes(v.topic)
    }

    open spec fn parse(s: Seq<u8>) -> Result<(ProvideKey, Seq<u8>), CodecError> {
        match Key::parse(s) {
            Ok((key, s1)) => match Option::<Key>::parse(s1) {
                Ok((topic, rest)) => Ok((ProvideKey { key, topic }, rest)),
                Err(e) => Err(e),
            },
            Err(e) => Err(e),
        }
    }

    proof fn parse_inverts_bytes(v: ProvideKey, rest: Seq<u8>) {
        let s1 = Option::<Key>::bytes(v.topic) + rest;
        assert(Self::bytes(v) + rest =~= Key::bytes(v.key) + s1);
        Key::parse_inverts_bytes(v.key, s1);
        Option::<Key>::parse_inverts_bytes(v.topic, rest);
    }

    fn put(&self, out: &mut Vec<u8>) {
        self.key.put(out);
        self.topic.put(out);
        assert(self.topic.value() == self.topic);
        assert(out@ =~= old(out)@ + Self::bytes(self.value()));
    }

    fn take<'a>(input: &'a [u8]) -> (r: Result<(ProvideKey, &'a [u8]), CodecError>) {
        let (key, s1) = match Key::take(input) {
            Ok(found) => found,
            Err(e) => return Err(e),
        };
        let (topic, rest) = match <Option<Key> as Wire>::take(s1) {
            Ok(found) => found,
            Err(e) => return Err(e),
        };
        assert(topic.value() == topic);
        Ok((ProvideKey { key, topic }, rest))
    }
}

/// A message is encoded as its version, its sender and what it carries, one behind the other; what
/// it carries as the number of its kind and then its fields.
pub proof fn law_message_encoding(message: MessageValue)
    ensures
        Message::bytes(message) == u16::bytes(message.version) + (message.from@ + (
        match message.payload {
            PayloadValue::Request(x) => u32::bytes(0) + (u64::bytes(x.request_id) + (Command::bytes(
                x.command,
            ) + Option::<PeerInfo>::bytes(x.peer_info))),
            PayloadValue::Response(x) => u32::bytes(1) + (u64::bytes(x.request_id) + (Option::<
                RpcError,
            >::bytes(x.error) + (Option::<Vec<PeerInfo>>::bytes(x.peers) + bool::bytes(x.fin)))),
            PayloadValue::Error(x) => u32::bytes(2) + (Option::<u64>::bytes(x.request_id)
                + RpcError::bytes(x.error)),
        })),
{
}

/// A command is encoded as its number and then its fields; reported errors likewise.
pub proof fn law_command_encoding(command: Command, error: RpcError)
    ensures
        Command::bytes(command) == (match command {
            Command::Hello(_) => u32::bytes(0),
            Command::Ping => u32::bytes(1),
            Command::LookupPeer(x) => u32::bytes(2) + (x.peer_id@ + Option::<Topic>::bytes(x.topic)),
            Command::LookupKey(x) => u32::bytes(3) + (x.key@ + Option::<Topic>::bytes(x.topic)),
            Command::ProvideKey(x) => u32::bytes(4) + (x.key@ + Option::<Key>::bytes(x.topic)),
        }),
        RpcError::bytes(error) == (match error {
            RpcError::NeedsProtocolVersion(x) => u32::bytes(0) + u16::bytes(x),
            RpcError::InvalidSignature => u32::bytes(1),
            RpcError::UnsupportedOperation => u32::bytes(2),
        }),
        Command::encodable(command),
        RpcError::encodable(error),
{
    if let Command::Hello(x) = command {
        assert(u32::bytes(0) + Hello::bytes(x) =~= u32::bytes(0));
    }
}

/// What a message holds is its version, its sender and what it carries.
pub proof fn law_messages_hold_what_they_carry(message: Message)
    ensures
        message.value().version == message.version,
        message.value().from == message.from,
        match message.payload {
            Payload::Request(x) => {
                &&& message.value().payload == PayloadValue::Request(x.value())
                &&& x.value().request_id == x.request_id
                &&& x.value().command == x.command
                &&& x.peer_info is None ==> x.value().peer_info is None
                &&& x.peer_info matches Some(info) ==> x.value().peer_info == Some(info.value())
            },
            Payload::Response(x) => {
                &&& message.value().payload == PayloadValue::Response(x.value())
                &&& x.value().request_id == x.request_id
                &&& x.value().error == x.error
                &&& x.value().fin == x.fin
                &&& x.peers is None ==> x.value().peers is None
                &&& x.peers matches Some(peers) ==> (x.value().peers matches Some(v) && v.len()
                    == peers@.len() && forall|i: int|
                    0 <= i < v.len() ==> #[trigger] v[i] == peers@[i].value())
            },
            Payload::Error(x) => message.value().payload == PayloadValue::Error(x),
        },
{
}

/// Where a peer can be reached is held as it is stated: whether its own address counts, all
/// addresses in order, and the relay.
pub proof fn law_peer_infos_hold_their_addresses(info: PeerInfo)
    ensures
        info.value().use_from_addr == info.use_from_addr,
        info.value().addrs == info.addrs@,
        info.value().relay == info.relay,
        PeerInfo::bytes(info.value()) == bool::bytes(info.use_from_addr) + (Vec::<
            SocketAddr,
        >::bytes(info.addrs@) + Option::<SocketAddr>::bytes(info.relay)),
{
    assert(info.addrs.value() =~= info.addrs@);
}

/// The value of a number in decimal notation.
pub open spec fn decimal_value(s: Seq<char>) -> int
    decreases s.len(),
{
    if s.len() == 0 {
        0
    } else {
        decimal_value(s.drop_last()) * 10 + (s.last() as int - '0' as int)
    }
}

/// The decimal notation of a number has its value and needs no leading zero.
pub proof fn law_decimals_have_their_value(n: nat)
    ensures
        decimal_value(decimal(n)) == n,
        decimal(n).len() > 0,
        decimal(n)[0] == '0' ==> n == 0,
        forall|i: int| 0 <= i < decimal(n).len() ==> '0' <= #[trigger] decimal(n)[i] <= '9',
    decreases n,
{
    reveal_with_fuel(decimal_value, 2);
    if n < 10 {
        assert(decimal(n).drop_last() =~= Seq::<char>::empty());
    } else {
        law_decimals_have_their_value(n / 10);
        assert(decimal(n).drop_last() =~= decimal(n / 10));
    }
}

/// A number that stands for no kind of payload, command or error is refused, wherever one is read.
pub proof fn law_unknown_kinds_are_refused(s: Seq<u8>, kind: u32, body: Seq<u8>)
    requires
        u32::parse(s) == Ok::<(u32, Seq<u8>), CodecError>((kind, body)),
    ensures
        kind > 2 ==> Payload::parse(s) == Err::<(PayloadValue, Seq<u8>), CodecError>(
            CodecError::SerdeDeCustom,
        ),
        kind > 4 ==> Command::parse(s) == Err::<(Command, Seq<u8>), CodecError>(
            CodecError::SerdeDeCustom,
        ),
        kind > 2 ==> RpcError::parse(s) == Err::<(RpcError, Seq<u8>), CodecError>(
            CodecError::SerdeDeCustom,
        ),
{
}

/// A message whose version, sender or payload cannot be read is refused for that reason, and one
/// whose fields can all be read is read.
pub proof fn law_messages_are_read_field_by_field(s: Seq<u8>)
    ensures
        match u16::parse(s) {
            Err(e) => Message::parse(s) == Err::<(MessageValue, Seq<u8>), CodecError>(e),
            Ok((version, s1)) => match <[u8; 32]>::parse(s1) {
                Err(e) => Message::parse(s) == Err::<(MessageValue, Seq<u8>), CodecError>(e),
                Ok((from, s2)) => match Payload::parse(s2) {
                    Err(e) => Message::parse(s) == Err::<(MessageValue, Seq<u8>), CodecError>(e),
                    Ok((payload, rest)) => Message::parse(s) == Ok::<
                        (MessageValue, Seq<u8>),
                        CodecError,
                    >((MessageValue { version, from, payload }, rest)),
                },
            },
        },
{
}

} // verus!

//! The server side.

use crate::io::quic::{ConnEvent2, IncomingActor};
use crate::proto::codec::{array_of, lemma_array_of, Wire};
use crate::proto::crypto::{ed25519_public, SigningKey};
use crate::proto::data::{
    carries, DataFramePayload, DataFramePayloadValue, QueryRequest, Request,
};
use crate::proto::wire::{
    AnnouncePayload, AnnouncePayloadValue, Announcement, AnnouncementValue, End, Frame,
    FramePayload, FramePayloadValue, FrameValue, ProvideHash, Rid, UnsignedFrame,
    UnsignedFrameValue,
};
use crate::proto::FrameError;
use crate::queue::{queued, total};
use crate::stream::StreamAddr;
use crate::tracker::server::{TrackerConfig, PEER_TTL};
use vstd::prelude::*;

verus! {

/// Connections that a server keeps at a time.
pub const MAX_CONNECTIONS: u32 = 4096;

/// Bidirectional streams that a client may keep open at a time.
pub const MAX_STREAMS: u32 = 10;

/// Unidirectional streams that a client may keep open at a time: its control stream.
pub const MAX_CONTROL_STREAMS: u32 = 1;

/// How a server runs.
pub struct Config {
    pub tracker: TrackerConfig,
    /// The name that the certificate is for.
    pub tls_server_name: String,
    /// Whether the server vouches for its certificate itself.
    pub tls_self_signed: bool,
}

impl Default for Config {
    fn default() -> (r: Config)
        ensures
            r.tracker.peer_ttl.total() == PEER_TTL * 1_000_000_000,
            r.tls_server_name@ == "localhost"@,
            r.tls_self_signed,
    {
        Config {
            tracker: TrackerConfig::default(),
            tls_server_name: "localhost".to_owned(),
            tls_self_signed: true,
        }
    }
}

/// Why a configuration is refused.
#[derive(Clone, Copy, Debug, PartialEq, Eq, Structural)]
pub enum ConfigError {
    /// Certificates can only be vouched for by the server itself.
    AcmeNotSupported,
}

/// Checks that the server can get a certificate.
pub fn check_certificate_source(self_signed: bool) -> (r: Result<(), ConfigError>)
    ensures
        r == (if self_signed {
            Ok::<(), ConfigError>(())
        } else {
            Err::<(), ConfigError>(ConfigError::AcmeNotSupported)
        }),
{
    if !self_signed {
        return Err(ConfigError::AcmeNotSupported);
    }
    Ok(())
}

/// The announcement that every query is answered with.
pub open spec fn sample_announcement() -> AnnouncementValue {
    AnnouncementValue {
        timestamp: 0,
        payload: AnnouncePayloadValue::ProvideHash(ProvideHash { target: sample_target() }),
    }
}

/// The hash that the answer to every query names.
pub open spec fn sample_target() -> [u8; 32] {
    array_of::<32>(Seq::new(32, |i: int| 9u8))
}

/// The reply to a query with number `rid`: a fixed announcement, signed with `signing_key`.
pub fn answer_query(rid: Option<Rid>, signing_key: &SigningKey) -> (r: Result<Frame, FrameError>)
    ensures
        r matches Ok(frame) && carries(
            frame.value(),
            rid,
            DataFramePayloadValue::Announce(sample_announcement()),
            *signing_key,
        ),
{
    let target = [9u8;32];
    proof {
        assert(target@ =~= Seq::new(32, |i: int| 9u8));
        lemma_array_of(target);
    }
    let payload = DataFramePayload::Announce(
        Announcement {
            timestamp: 0,
            payload: AnnouncePayload::ProvideHash(ProvideHash { target }),
        },
    );
    Frame::carrying(payload, rid, signing_key)
}

/// Whether a server handles an event: announcements are not handled.
pub open spec fn is_handled(event: ConnEvent2<Request>) -> bool {
    event matches ConnEvent2::FrameIncoming(frame) ==> !(frame.payload is Announce)
}

/// Whether an event is a query on a stream that replies can still be sent on.
pub open spec fn is_query<C>(actor: IncomingActor<C>, event: ConnEvent2<Request>) -> bool {
    &&& event matches ConnEvent2::FrameIncoming(frame)
    &&& frame.payload matches Request::Query(QueryRequest::Query(_))
    &&& !actor.outgoing.query.closing().contains(frame.stream)
}

/// The frame that ends the replies to a query with number `rid`.
pub open spec fn end_of_replies(rid: Option<Rid>) -> FrameValue {
    FrameValue { rid, payload: FramePayloadValue::Unsigned(UnsignedFrameValue::End(End {  })) }
}

/// The frame that ends the replies to a query with number `rid`.
pub fn end_query(rid: Option<Rid>) -> (r: Frame)
    ensures
        r.value() == end_of_replies(rid),
{
    let r = Frame { rid, payload: FramePayload::Unsigned(UnsignedFrame::End(End {  })) };
    assert(r.rid.value() == rid);
    r
}

/// Whether `after` is `before` with a query on `stream` answered: the announcement is queued, then
/// the end of the replies, and behind them the sending side is closed.
pub open spec fn answers<C>(
    before: IncomingActor<C>,
    stream: StreamAddr,
    rid: Option<Rid>,
    key: SigningKey,
    after: IncomingActor<C>,
) -> bool {
    let waiting = queued(before.outgoing.query.frames(), stream);
    let replies = queued(after.outgoing.query.frames(), stream);
    &&& after.connections() == before.connections()
    &&& after.incoming == before.incoming
    &&& after.outgoing.control == before.outgoing.control
    &&& after.outgoing.announce == before.outgoing.announce
    &&& after.outgoing.query.senders() == before.outgoing.query.senders()
    &&& after.outgoing.query.completed() == before.outgoing.query.completed()
    &&& after.outgoing.query.frames() == before.outgoing.query.frames().insert(stream, replies)
    &&& replies.len() == waiting.len() + 2
    &&& replies.take(waiting.len() as int) == waiting
    &&& carries(
        replies[waiting.len() as int].value(),
        rid,
        DataFramePayloadValue::Announce(sample_announcement()),
        key,
    )
    &&& replies[waiting.len() as int + 1].value() == end_of_replies(rid)
    &&& after.outgoing.query.closing() == before.outgoing.query.closing().insert(stream)
}

/// The client that queried gets the announcement and then the end of the replies, behind which
/// nothing more is queued for its stream.
pub proof fn law_query_ends<C>(
    before: IncomingActor<C>,
    stream: StreamAddr,
    rid: Option<Rid>,
    key: SigningKey,
    after: IncomingActor<C>,
    later: ConnEvent2<Request>,
)
    requires
        answers(before, stream, rid, key, after),
    ensures
        queued(after.outgoing.query.frames(), stream).last().value() == end_of_replies(rid),
        after.outgoing.query.closing().contains(stream),
        later matches ConnEvent2::FrameIncoming(frame) && frame.stream == stream ==> !is_query(
            after,
            later,
        ),
{
}

/// Handles an event. A query is answered on its stream, behind which the sending side of the
/// stream is closed, so that nothing more is sent on it; whatever else a client sends on a query
/// stream, and all control messages, are accepted.
pub fn handle_event<C>(
    actor: &mut IncomingActor<C>,
    event: ConnEvent2<Request>,
    signing_key: &SigningKey,
) -> (r: Result<(), FrameError>)
    requires
        old(actor).wf(),
        is_handled(event),
        is_query(*old(actor), event) ==> total(old(actor).outgoing.query.frames()) + 2
            <= usize::MAX,
    ensures
        final(actor).wf(),
        r == Ok::<(), FrameError>(()),
        if is_query(*old(actor), event) {
            event matches ConnEvent2::FrameIncoming(query) && answers(
                *old(actor),
                query.stream,
                query.meta.rid,
                *signing_key,
                *final(actor),
            )
        } else {
            *final(actor) == *old(actor)
        },
{
    match event {
        ConnEvent2::FrameIncoming(frame) => {
            match frame.payload {
                Request::Query(QueryRequest::Query(_)) => {},
                _ => return Ok(()),
            }
            if actor.outgoing.query.is_closing(&frame.stream) {
                return Ok(());
            }
            let ghost waiting = queued(actor.outgoing.query.frames(), frame.stream);
            let reply = match answer_query(frame.meta.rid, signing_key) {
                Ok(reply) => reply,
                Err(e) => return Err(e),
            };
            let end = end_query(frame.meta.rid);
            actor.reply_query(&frame.stream, reply);
            actor.reply_query(&frame.stream, end);
            actor.close_query(&frame.stream);
            proof {
                let replies = waiting.push(reply).push(end);
                assert(queued(actor.outgoing.query.frames(), frame.stream) == replies);
                assert(replies.take(waiting.len() as int) =~= waiting);
                assert(actor.outgoing.query.frames() =~= old(
                    actor,
                ).outgoing.query.frames().insert(frame.stream, replies));
            }
            Ok(())
        },
        _ => Ok(()),
    }
}

/// The announcement that every query is answered with has timestamp zero, and says that the value
/// is provided whose hash is nothing but nines.
pub proof fn law_sample_is_fixed(i: int)
    requires
        0 <= i < 32,
    ensures
        sample_announcement().timestamp == 0,
        sample_announcement().payload matches AnnouncePayloadValue::ProvideHash(provided)
            && provided.target@.len() == 32 && provided.target@[i] == 9,
{
    let nines = Seq::new(32, |i: int| 9u8);
    lemma_array_is(nines);
}

/// There is an array of every sequence of the right length.
proof fn lemma_array_is(s: Seq<u8>)
    requires
        s.len() == 32,
        forall|i: int| 0 <= i < 32 ==> s[i] == 9,
    ensures
        array_of::<32>(s)@ == s,
{
    let nines: [u8; 32] = [
        9, 9, 9, 9, 9, 9, 9, 9, 9, 9, 9, 9, 9, 9, 9, 9, 9, 9, 9, 9, 9, 9, 9, 9, 9, 9, 9, 9, 9, 9,
        9, 9,
    ];
    assert(nines@ =~= s);
    lemma_array_of(nines);
}

/// An event is answered exactly if it is a query on a stream that replies can still be sent on.
pub proof fn law_only_queries_are_answered<C>(
    actor: IncomingActor<C>,
    event: ConnEvent2<Request>,
)
    ensures
        is_query(actor, event) <==> (event matches ConnEvent2::FrameIncoming(frame) && (
        frame.payload matches Request::Query(req) && req is Query)
            && !actor.outgoing.query.closing().contains(frame.stream)),
{
}

/// A query is answered on its own stream, with its own number: behind what waits there come the
/// announcement and the end of the replies, and nothing comes behind that. All other streams keep
/// what is queued for them, and nothing else changes.
pub proof fn law_answer_is_confined<C>(
    before: IncomingActor<C>,
    stream: StreamAddr,
    rid: Option<Rid>,
    key: SigningKey,
    after: IncomingActor<C>,
    other: StreamAddr,
)
    requires
        answers(before, stream, rid, key, after),
        other != stream,
    ensures
        ({
            let waiting = if before.outgoing.query.frames().dom().contains(stream) {
                before.outgoing.query.frames()[stream]
            } else {
                Seq::empty()
            };
            let replies = after.outgoing.query.frames()[stream];
            &&& after.outgoing.query.frames().dom().contains(stream)
            &&& replies.len() == waiting.len() + 2
            &&& replies.take(waiting.len() as int) == waiting
            &&& replies[waiting.len() as int].value().rid == rid
            &&& replies[waiting.len() as int].value().payload matches FramePayloadValue::Signed(
                envelope,
            ) && envelope.issuer@ == ed25519_public(key.secret())
            &&& replies[waiting.len() as int + 1].value() == (FrameValue {
                rid,
                payload: FramePayloadValue::Unsigned(UnsignedFrameValue::End(End {  })),
            })
        }),
        after.outgoing.query.closing().contains(stream),
        after.outgoing.query.closing().contains(other)
            == before.outgoing.query.closing().contains(other),
        after.outgoing.query.frames().dom().contains(other)
            == before.outgoing.query.frames().dom().contains(other),
        after.outgoing.query.frames()[other] == before.outgoing.query.frames()[other],
        after.outgoing.query.senders() == before.outgoing.query.senders(),
        after.outgoing.query.completed() == before.outgoing.query.completed(),
        after.outgoing.control == before.outgoing.control,
        after.outgoing.announce == before.outgoing.announce,
        after.incoming == before.incoming,
        after.connections() == before.connections(),
{
}

/// Everything but announcements is handled.
pub proof fn law_all_but_announcements_are_handled(event: ConnEvent2<Request>)
    ensures
        is_handled(event) <==> !(event matches ConnEvent2::FrameIncoming(frame) && frame.payload
            is Announce),
{
}

} // verus!

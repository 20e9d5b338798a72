//! The state of a tracker client: its connections and its running requests.

use crate::io::{ConnEvent, ConnHandle, ConnId};
use crate::ordmap::{lemma_listing_exists, listing, OrdMap, Rank};
use crate::tracker::proto::{Command, Hello, Message, Payload, Request, Response};
use crate::tracker::{PeerId, RequestId, VERSION};
use crate::util::time::{lists_expired, unexpired, Clock, Duration, Instant, InstantMap};
use vstd::prelude::*;

verus! {

/// Seconds that a request may go without a response.
pub const REQUEST_TTL: u64 = 30;

/// Seconds between two checks for requests that timed out.
pub const TICK_INTERVAL: u64 = 5;

/// Responses that may wait for whoever sent a request.
pub const RESPONSE_CHANNEL_CAP: usize = 4;

/// Commands that may wait for the client.
pub const COMMAND_CHANNEL_CAP: usize = 64;

/// How long a request may go without a response.
pub open spec fn request_ttl() -> Duration {
    Duration { secs: REQUEST_TTL, nanos: 0 }
}

/// State for a single request: where its responses go, when it times out, and the connection
/// that it was sent on. `Tx` takes responses.
pub struct RequestState<Tx> {
    pub response_tx: Option<Tx>,
    pub ttl: Instant,
    pub conn_id: ConnId,
}

impl<Tx> RequestState<Tx> {
    /// A request that is sent at `now`.
    pub fn new(
        now: Instant,
        _request_id: RequestId,
        conn_id: ConnId,
        response_tx: Option<Tx>,
    ) -> (r: Self)
        requires
            now.fits(request_ttl()),
        ensures
            r == (RequestState { response_tx, ttl: now.after(request_ttl()), conn_id }),
    {
        RequestState {
            ttl: now.plus(Duration { secs: REQUEST_TTL, nanos: 0 }),
            response_tx,
            conn_id,
        }
    }

    /// Notes that a response came at `now`, and hands out where it goes.
    pub fn forward_response(&mut self, now: Instant) -> (r: Option<&Tx>)
        requires
            now.fits(request_ttl()),
        ensures
            *final(self) == (RequestState { ttl: now.after(request_ttl()), ..*old(self) }),
            match r {
                Some(tx) => old(self).response_tx == Some(*tx),
                None => old(self).response_tx is None,
            },
    {
        self.ttl = now.plus(Duration { secs: REQUEST_TTL, nanos: 0 });
        self.response_tx.as_ref()
    }
}

/// Table of all running requests. Also maintains a sorted list of requests by the time at which
/// they time out.
pub struct RequestMap<Tx> {
    next_request_id: RequestId,
    requests: OrdMap<RequestId, RequestState<Tx>>,
    by_ttl: InstantMap<RequestId>,
}

/// The requests with the instants at which they time out.
pub open spec fn timed_requests<Tx>(requests: Map<RequestId, RequestState<Tx>>) -> Set<
    (Instant, RequestId),
> {
    Set::new(
        |p: (Instant, RequestId)| requests.dom().contains(p.1) && requests[p.1].ttl == p.0,
    )
}

/// The requests that do not time out before `now`.
pub open spec fn running<Tx>(
    requests: Map<RequestId, RequestState<Tx>>,
    now: Instant,
) -> Map<RequestId, RequestState<Tx>> {
    Map::new(
        |id: RequestId| requests.dom().contains(id) && requests[id].ttl.nanos >= now.nanos,
        |id: RequestId| requests[id],
    )
}

/// The requests that were not sent on `conn_id`.
pub open spec fn on_other_conns<Tx>(
    requests: Map<RequestId, RequestState<Tx>>,
    conn_id: ConnId,
) -> Map<RequestId, RequestState<Tx>> {
    Map::new(
        |id: RequestId| requests.dom().contains(id) && requests[id].conn_id != conn_id,
        |id: RequestId| requests[id],
    )
}

/// The requests after a response to `id` came at `now`.
pub open spec fn after_response<Tx>(
    requests: Map<RequestId, RequestState<Tx>>,
    id: RequestId,
    fin: bool,
    now: Instant,
) -> Map<RequestId, RequestState<Tx>> {
    if !requests.dom().contains(id) {
        requests
    } else if fin {
        requests.remove(id)
    } else {
        requests.insert(id, RequestState { ttl: now.after(request_ttl()), ..requests[id] })
    }
}

/// Whether `r` is what removing `id` from `requests` gives.
pub open spec fn removed<Tx>(
    requests: Map<RequestId, RequestState<Tx>>,
    id: RequestId,
    r: Option<RequestState<Tx>>,
) -> bool {
    match r {
        Some(request) => requests.dom().contains(id) && request == requests[id],
        None => !requests.dom().contains(id),
    }
}

/// Whether `r` holds the requests that `expired` lists.
pub open spec fn holds_listed<Tx>(
    requests: Map<RequestId, RequestState<Tx>>,
    expired: Seq<(Instant, RequestId)>,
    r: Seq<RequestState<Tx>>,
) -> bool {
    &&& r.len() == expired.len()
    &&& forall|i: int| 0 <= i < r.len() ==> #[trigger] r[i] == requests[expired[i].1]
}

impl<Tx> View for RequestMap<Tx> {
    type V = Map<RequestId, RequestState<Tx>>;

    closed spec fn view(&self) -> Map<RequestId, RequestState<Tx>> {
        self.requests@
    }
}

impl<Tx> Default for RequestMap<Tx> {
    fn default() -> (r: Self)
        ensures
            r.wf(),
            r@ == Map::<RequestId, RequestState<Tx>>::empty(),
            r.upcoming() == 1,
    {
        let r = RequestMap {
            next_request_id: 1,
            requests: OrdMap::new(),
            by_ttl: InstantMap::new(),
        };
        assert(r.by_ttl@ =~= timed_requests(r.requests@));
        r
    }
}

impl<Tx> RequestMap<Tx> {
    /// Whether the sorted list holds exactly the running requests.
    pub closed spec fn wf(&self) -> bool {
        &&& self.requests.wf()
        &&& self.by_ttl.wf()
        &&& self.by_ttl@ == timed_requests(self.requests@)
    }

    /// The number of the next request.
    pub closed spec fn upcoming(&self) -> RequestId {
        self.next_request_id
    }

    /// A table without requests.
    pub fn new() -> (r: Self)
        ensures
            r.wf(),
            r@ == Map::<RequestId, RequestState<Tx>>::empty(),
            r.upcoming() == 1,
    {
        Self::default()
    }

    /// The number for a new request.
    pub fn next_id(&mut self) -> (r: RequestId)
        requires
            old(self).wf(),
            old(self).upcoming() < RequestId::MAX,
        ensures
            final(self).wf(),
            final(self)@ == old(self)@,
            r == old(self).upcoming(),
            final(self).upcoming() == r + 1,
    {
        let next_id = self.next_request_id;
        self.next_request_id = self.next_request_id + 1;
        next_id
    }

    /// Whether a number is left for a new request.
    pub fn has_next_id(&self) -> (r: bool)
        ensures
            r == (self.upcoming() < RequestId::MAX),
    {
        self.next_request_id < RequestId::MAX
    }

    /// Adds a request, in place of any other of that number.
    pub fn insert(&mut self, id: RequestId, request: RequestState<Tx>)
        requires
            old(self).wf(),
        ensures
            final(self).wf(),
            final(self)@ == old(self)@.insert(id, request),
            final(self).upcoming() == old(self).upcoming(),
    {
        let ghost before = *self;
        let ttl = request.ttl;
        if let Some(prior) = self.requests.insert(id, request) {
            self.by_ttl.remove(prior.ttl, &id);
        }
        self.by_ttl.insert(ttl, id);
        proof {
            assert forall|p: (Instant, RequestId)| #[trigger]
                self.by_ttl@.contains(p) == timed_requests(self.requests@).contains(p) by {
                assert(before.by_ttl@.contains(p) == timed_requests(before.requests@).contains(p));
            }
            assert(self.by_ttl@ =~= timed_requests(self.requests@));
        }
    }

    /// A running request.
    pub fn get(&self, id: &RequestId) -> (r: Option<&RequestState<Tx>>)
        requires
            self.wf(),
        ensures
            match r {
                Some(request) => self@.dom().contains(*id) && *request == self@[*id],
                None => !self@.dom().contains(*id),
            },
    {
        self.requests.get(id)
    }

    /// Removes all requests that were sent on a connection.
    pub fn remove_by_conn(&mut self, conn_id: &ConnId)
        requires
            old(self).wf(),
        ensures
            final(self).wf(),
            final(self)@ == on_other_conns(old(self)@, *conn_id),
            final(self).upcoming() == old(self).upcoming(),
    {
        let ghost before = *self;
        let mut ids: Vec<RequestId> = Vec::new();
        let mut i: usize = 0;
        proof {
            self.requests.lemma_keys();
        }
        while i < self.requests.len()
            invariant
                *self == before,
                before.wf(),
                i <= before.requests.keys().len(),
                forall|id: RequestId| #[trigger]
                    ids@.contains(id) <==> before.requests.keys().take(i as int).contains(id)
                        && before@[id].conn_id == *conn_id,
            decreases before.requests.keys().len() - i,
        {
            let id = self.requests.key_at(i);
            let ghost seen = ids@;
            if self.requests.value_at(i).conn_id == *conn_id {
                ids.push(id);
            }
            proof {
                let keys = before.requests.keys();
                assert(keys.take(i + 1) =~= keys.take(i as int).push(id));
                assert forall|k: RequestId| #[trigger] ids@.contains(k) == (keys.take(
                    i + 1,
                ).contains(k) && before@[k].conn_id == *conn_id) by {
                    crate::ordmap::lemma_push_contains(keys.take(i as int), id, k);
                    crate::ordmap::lemma_push_contains(seen, id, k);
                }
            }
            i = i + 1;
        }
        proof {
            assert(before.requests.keys().take(i as int) =~= before.requests.keys());
            before.requests.lemma_keys();
        }
        let mut j: usize = 0;
        while j < ids.len()
            invariant
                self.wf(),
                before.wf(),
                j <= ids@.len(),
                self.upcoming() == before.upcoming(),
                forall|id: RequestId| #[trigger]
                    ids@.contains(id) <==> before@.dom().contains(id) && before@[id].conn_id
                        == *conn_id,
                forall|id: RequestId| #[trigger]
                    self@.dom().contains(id) <==> before@.dom().contains(id) && !ids@.take(
                        j as int,
                    ).contains(id),
                forall|id: RequestId| #[trigger]
                    self@.dom().contains(id) ==> self@[id] == before@[id],
            decreases ids@.len() - j,
        {
            let id = ids[j];
            self.remove(&id);
            proof {
                assert(ids@.take(j + 1) =~= ids@.take(j as int).push(id));
                assert forall|k: RequestId| #[trigger] self@.dom().contains(k) == (
                before@.dom().contains(k) && !ids@.take(j + 1).contains(k)) by {
                    crate::ordmap::lemma_push_contains(ids@.take(j as int), id, k);
                }
            }
            j = j + 1;
        }
        assert(ids@.take(j as int) =~= ids@);
        assert(self@ =~= on_other_conns(before@, *conn_id));
    }

    /// Notes that a response to `id` came at `now`. The last response ends the request, which is
    /// then returned.
    pub fn forward_response(&mut self, now: Instant, id: RequestId, fin: bool) -> (r: Option<
        RequestState<Tx>,
    >)
        requires
            old(self).wf(),
            now.fits(request_ttl()),
        ensures
            final(self).wf(),
            final(self)@ == after_response(old(self)@, id, fin, now),
            final(self).upcoming() == old(self).upcoming(),
            match r {
                Some(request) => fin && old(self)@.dom().contains(id) && request
                    == (RequestState { ttl: now.after(request_ttl()), ..old(self)@[id] }),
                None => !fin || !old(self)@.dom().contains(id),
            },
    {
        let ghost before = *self;
        match self.remove(&id) {
            Some(mut request) => {
                request.forward_response(now);
                if fin {
                    return Some(request);
                }
                self.insert(id, request);
                assert(self@ =~= after_response(before@, id, fin, now));
                None
            },
            None => {
                assert(self@ =~= before@);
                None
            },
        }
    }

    /// Removes a request.
    pub fn remove(&mut self, id: &RequestId) -> (r: Option<RequestState<Tx>>)
        requires
            old(self).wf(),
        ensures
            final(self).wf(),
            final(self)@ == old(self)@.remove(*id),
            final(self).upcoming() == old(self).upcoming(),
            removed(old(self)@, *id, r),
    {
        let ghost before = *self;
        let request = self.requests.remove(id);
        match request {
            Some(request) => {
                self.by_ttl.remove(request.ttl, id);
                proof {
                    assert forall|p: (Instant, RequestId)| #[trigger]
                        self.by_ttl@.contains(p) == timed_requests(self.requests@).contains(p) by {
                        assert(before.by_ttl@.contains(p) == timed_requests(
                            before.requests@,
                        ).contains(p));
                    }
                    assert(self.by_ttl@ =~= timed_requests(self.requests@));
                }
                Some(request)
            },
            None => None,
        }
    }

    /// Removes and returns all requests whose TTL is lower than the passed in instant.
    pub fn drain_expired(&mut self, now: Instant) -> (r: Vec<RequestState<Tx>>)
        requires
            old(self).wf(),
        ensures
            final(self).wf(),
            final(self)@ == running(old(self)@, now),
            final(self).upcoming() == old(self).upcoming(),
            exists|expired: Seq<(Instant, RequestId)>| #[trigger]
                lists_expired(timed_requests(old(self)@), now, expired) && holds_listed(
                    old(self)@,
                    expired,
                    r@,
                ),
    {
        let ghost before = *self;
        let expired = self.by_ttl.drain_entries(now);
        let mut out: Vec<RequestState<Tx>> = Vec::new();
        let mut i: usize = 0;
        proof {
            lemma_expired_ids(before@, now, expired@);
        }
        while i < expired.len()
            invariant
                before.wf(),
                i <= expired@.len(),
                self.requests.wf(),
                self.by_ttl.wf(),
                self.next_request_id == before.next_request_id,
                self.by_ttl@ == unexpired(before.by_ttl@, now),
                lists_expired(timed_requests(before@), now, expired@),
                forall|j: int, k: int|
                    0 <= j < k < expired@.len() ==> (#[trigger] expired@[j]).1 != (
                    #[trigger] expired@[k]).1,
                forall|j: int|
                    0 <= j < expired@.len() ==> before@.dom().contains((#[trigger] expired@[j]).1),
                forall|id: RequestId| #[trigger]
                    self.requests@.dom().contains(id) <==> before@.dom().contains(id) && !(
                    exists|j: int| 0 <= j < i && #[trigger] expired@[j].1 == id),
                forall|id: RequestId| #[trigger]
                    self.requests@.dom().contains(id) ==> self.requests@[id] == before@[id],
                out@.len() == i,
                forall|j: int| 0 <= j < i ==> #[trigger] out@[j] == before@[expired@[j].1],
            decreases expired@.len() - i,
        {
            let id = expired[i].1;
            assert(self.requests@.dom().contains(id)) by {
                assert(before@.dom().contains(expired@[i as int].1));
            }
            if let Some(request) = self.requests.remove(&id) {
                out.push(request);
            }
            i = i + 1;
        }
        proof {
            assert(holds_listed(before@, expired@, out@));
            lemma_running(before@, now, expired@);
            assert(self.requests@ =~= running(before@, now));
            assert forall|p: (Instant, RequestId)| #[trigger]
                self.by_ttl@.contains(p) == timed_requests(self.requests@).contains(p) by {
                assert(before.by_ttl@.contains(p) == timed_requests(before.requests@).contains(p));
            }
            assert(self.by_ttl@ =~= timed_requests(self.requests@));
        }
        out
    }
}

/// No request is listed twice, and all that are listed are running.
proof fn lemma_expired_ids<Tx>(
    requests: Map<RequestId, RequestState<Tx>>,
    now: Instant,
    expired: Seq<(Instant, RequestId)>,
)
    requires
        lists_expired(timed_requests(requests), now, expired),
    ensures
        forall|j: int, k: int|
            0 <= j < k < expired.len() ==> (#[trigger] expired[j]).1 != (#[trigger] expired[k]).1,
        forall|j: int|
            0 <= j < expired.len() ==> requests.dom().contains((#[trigger] expired[j]).1)
                && requests[expired[j].1].ttl == expired[j].0,
{
    assert forall|j: int| 0 <= j < expired.len() implies requests.dom().contains(
        (#[trigger] expired[j]).1,
    ) && requests[expired[j].1].ttl == expired[j].0 by {
        assert(expired.contains(expired[j]));
    }
    assert forall|j: int, k: int| 0 <= j < k < expired.len() implies (#[trigger] expired[j]).1 != (
    #[trigger] expired[k]).1 by {
        assert(requests[expired[j].1].ttl == expired[j].0);
        assert(requests[expired[k].1].ttl == expired[k].0);
        assert(crate::util::time::timed_before(expired[j], expired[k]));
    }
}

/// A request is running exactly if it is not listed as expired.
proof fn lemma_running<Tx>(
    requests: Map<RequestId, RequestState<Tx>>,
    now: Instant,
    expired: Seq<(Instant, RequestId)>,
)
    requires
        lists_expired(timed_requests(requests), now, expired),
    ensures
        forall|id: RequestId|
            running(requests, now).dom().contains(id) <==> requests.dom().contains(id) && !(exists|
                j: int,
            |
                0 <= j < expired.len() && #[trigger] expired[j].1 == id),
{
    lemma_expired_ids(requests, now, expired);
    assert forall|id: RequestId| requests.dom().contains(id) implies (running(
        requests,
        now,
    ).dom().contains(id) <==> !(exists|j: int| 0 <= j < expired.len() && #[trigger] expired[j].1
        == id)) by {
        let entry = (requests[id].ttl, id);
        assert(timed_requests(requests).contains(entry));
        if expired.contains(entry) {
            let j = choose|n: int| 0 <= n < expired.len() && expired[n] == entry;
            assert(expired[j].1 == id);
        }
        if exists|j: int| 0 <= j < expired.len() && #[trigger] expired[j].1 == id {
            let j = choose|j: int| 0 <= j < expired.len() && #[trigger] expired[j].1 == id;
            assert(expired.contains(expired[j]));
            assert(expired[j] == entry);
        }
    }
}

/// Why a client could not send a request.
#[derive(Clone, Copy, Debug, PartialEq, Eq, Structural)]
pub enum ClientError {
    /// There are no connections to trackers.
    NoConnection,
    /// The connection is not open.
    InvalidConnection,
    /// The source of connection events is gone.
    ConnEventsClosed,
}

/// What a client does next.
pub enum ClientAction<Tx> {
    /// Nothing.
    Nothing,
    /// Sends a message on a connection.
    Send(ConnId, Message),
    /// Hands a response to whoever waits for it; more may follow.
    Respond(RequestId, Response),
    /// Hands the last response to a request that is over to whoever waits for it.
    Finish(RequestState<Tx>, Response),
    /// Tells all of these that their request timed out.
    TimedOut(Vec<Tx>),
    /// Stops.
    Stop,
}

/// What happens to a client.
pub enum ClientEvent<S, Tx> {
    /// It is time to look for requests that timed out.
    Tick,
    /// A command came, or no more will come.
    Command(Option<(Command, Tx)>),
    /// Something happened on a connection, or nothing more will.
    Conn(Option<ConnEvent<S>>),
}

/// A client. `S` sends on a connection, `Tx` takes responses.
pub struct ClientActor<S, Tx> {
    peer_id: PeerId,
    conns: OrdMap<ConnId, ConnHandle<S>>,
    requests: RequestMap<Tx>,
}

/// What a [`ClientActor`] holds.
#[verifier::ext_equal]
pub struct ClientModel<S, Tx> {
    pub peer_id: PeerId,
    pub conns: Map<ConnId, ConnHandle<S>>,
    pub requests: Map<RequestId, RequestState<Tx>>,
    /// The number of the next request.
    pub upcoming: RequestId,
}

/// The connection that a request is sent on: the given one, or else the first open one.
pub open spec fn chosen_conn<S, Tx>(c: ClientModel<S, Tx>, conn_id: Option<ConnId>) -> Option<
    ConnId,
> {
    match conn_id {
        Some(conn_id) => Some(conn_id),
        None => if listing(c.conns.dom()).len() > 0 {
            Some(listing(c.conns.dom())[0])
        } else {
            None
        },
    }
}

/// The client after it was asked to send a request: the request is running, if there was any
/// connection to choose.
pub open spec fn after_send<S, Tx>(
    c: ClientModel<S, Tx>,
    response_tx: Option<Tx>,
    conn_id: Option<ConnId>,
    now: Instant,
) -> ClientModel<S, Tx> {
    match chosen_conn(c, conn_id) {
        None => c,
        Some(conn_id) => ClientModel {
            requests: c.requests.insert(
                c.upcoming,
                RequestState { response_tx, ttl: now.after(request_ttl()), conn_id },
            ),
            upcoming: (c.upcoming + 1) as RequestId,
            ..c
        },
    }
}

/// The outcome of asking a client to send a request.
pub open spec fn sent<S, Tx>(
    c: ClientModel<S, Tx>,
    command: Command,
    conn_id: Option<ConnId>,
) -> Result<(ConnId, Message), ClientError> {
    match chosen_conn(c, conn_id) {
        None => Err(ClientError::NoConnection),
        Some(conn_id) => if c.conns.dom().contains(conn_id) {
            Ok(
                (
                    conn_id,
                    Message {
                        version: VERSION,
                        from: c.peer_id,
                        payload: Payload::Request(
                            Request { request_id: c.upcoming, command, peer_info: None },
                        ),
                    },
                ),
            )
        } else {
            Err(ClientError::InvalidConnection)
        },
    }
}

/// Whether a response on `conn_id` answers a running request that was sent on it.
pub open spec fn awaited<S, Tx>(
    c: ClientModel<S, Tx>,
    conn_id: ConnId,
    request_id: RequestId,
) -> bool {
    c.requests.dom().contains(request_id) && c.requests[request_id].conn_id == conn_id
}

/// The client after something happened on a connection.
pub open spec fn after_conn_event<S, Tx>(
    c: ClientModel<S, Tx>,
    event: ConnEvent<S>,
    now: Instant,
) -> ClientModel<S, Tx> {
    match event {
        ConnEvent::Open(conn_id, handle) => after_send(
            ClientModel { conns: c.conns.insert(conn_id, handle), ..c },
            None,
            Some(conn_id),
            now,
        ),
        ConnEvent::Packet(conn_id, message) => match message.payload {
            Payload::Response(response) => if awaited(c, conn_id, response.request_id) {
                ClientModel {
                    requests: after_response(
                        c.requests,
                        response.request_id,
                        response.fin,
                        now,
                    ),
                    ..c
                }
            } else {
                c
            },
            _ => c,
        },
        ConnEvent::Close(conn_id) => ClientModel {
            conns: c.conns.remove(conn_id),
            requests: on_other_conns(c.requests, conn_id),
            ..c
        },
    }
}

/// Whether `r` is what a client does after something happened on a connection: it says hello on
/// a new one, and hands on responses that are awaited.
pub open spec fn reacts<S, Tx>(
    c: ClientModel<S, Tx>,
    event: ConnEvent<S>,
    now: Instant,
    r: Result<ClientAction<Tx>, ClientError>,
) -> bool {
    match event {
        ConnEvent::Open(conn_id, _) => r == Ok::<ClientAction<Tx>, ClientError>(
            ClientAction::Send(
                conn_id,
                Message {
                    version: VERSION,
                    from: c.peer_id,
                    payload: Payload::Request(
                        Request {
                            request_id: c.upcoming,
                            command: Command::Hello(Hello {  }),
                            peer_info: None,
                        },
                    ),
                },
            ),
        ),
        ConnEvent::Packet(conn_id, message) => match message.payload {
            Payload::Response(response) => if awaited(c, conn_id, response.request_id) {
                if response.fin {
                    r == Ok::<ClientAction<Tx>, ClientError>(
                        ClientAction::Finish(
                            RequestState {
                                ttl: now.after(request_ttl()),
                                ..c.requests[response.request_id]
                            },
                            response,
                        ),
                    )
                } else {
                    r == Ok::<ClientAction<Tx>, ClientError>(
                        ClientAction::Respond(response.request_id, response),
                    )
                }
            } else {
                r == Ok::<ClientAction<Tx>, ClientError>(ClientAction::Nothing)
            },
            _ => r == Ok::<ClientAction<Tx>, ClientError>(ClientAction::Nothing),
        },
        ConnEvent::Close(_) => r == Ok::<ClientAction<Tx>, ClientError>(ClientAction::Nothing),
    }
}

/// The receivers of the requests that `expired` lists, in that order; requests without a receiver
/// are passed over.
pub open spec fn receivers<Tx>(states: Seq<RequestState<Tx>>) -> Seq<Tx>
    decreases states.len(),
{
    if states.len() == 0 {
        Seq::empty()
    } else {
        match states.last().response_tx {
            Some(tx) => receivers(states.drop_last()).push(tx),
            None => receivers(states.drop_last()),
        }
    }
}

/// Whether `txs` are the receivers of all requests that time out before `now`, ordered by the
/// time at which they time out.
pub open spec fn timed_out<Tx>(
    requests: Map<RequestId, RequestState<Tx>>,
    now: Instant,
    txs: Seq<Tx>,
) -> bool {
    exists|expired: Seq<(Instant, RequestId)>, states: Seq<RequestState<Tx>>|
        lists_expired(timed_requests(requests), now, expired) && #[trigger] holds_listed(
            requests,
            expired,
            states,
        ) && txs == receivers(states)
}

/// The client after an event.
pub open spec fn after_event<S, Tx>(
    c: ClientModel<S, Tx>,
    event: ClientEvent<S, Tx>,
    now: Instant,
) -> ClientModel<S, Tx> {
    match event {
        ClientEvent::Tick => ClientModel { requests: running(c.requests, now), ..c },
        ClientEvent::Command(Some((_, tx))) => after_send(c, Some(tx), None, now),
        ClientEvent::Conn(Some(event)) => after_conn_event(c, event, now),
        _ => c,
    }
}

/// Whether `r` is what a client does after an event.
pub open spec fn acts<S, Tx>(
    c: ClientModel<S, Tx>,
    event: ClientEvent<S, Tx>,
    now: Instant,
    r: Result<ClientAction<Tx>, ClientError>,
) -> bool {
    match event {
        ClientEvent::Tick => r matches Ok(ClientAction::TimedOut(txs)) && timed_out(
            c.requests,
            now,
            txs@,
        ),
        ClientEvent::Command(Some((command, _))) => r == (match sent(c, command, None) {
            Ok((conn_id, message)) => Ok::<ClientAction<Tx>, ClientError>(
                ClientAction::Send(conn_id, message),
            ),
            Err(e) => Err::<ClientAction<Tx>, ClientError>(e),
        }),
        ClientEvent::Conn(Some(event)) => reacts(c, event, now, r),
        _ => r == Ok::<ClientAction<Tx>, ClientError>(ClientAction::Stop),
    }
}

/// Whether a client makes a request when it handles an event.
pub open spec fn makes_request<S, Tx>(c: ClientModel<S, Tx>, event: ClientEvent<S, Tx>) -> bool {
    match event {
        ClientEvent::Command(Some(_)) => chosen_conn(c, None) is Some,
        ClientEvent::Conn(Some(ConnEvent::Open(_, _))) => true,
        _ => false,
    }
}

impl<S, Tx> ClientActor<S, Tx> {
    /// What this holds.
    pub closed spec fn model(&self) -> ClientModel<S, Tx> {
        ClientModel {
            peer_id: self.peer_id,
            conns: self.conns@,
            requests: self.requests@,
            upcoming: self.requests.upcoming(),
        }
    }

    /// Whether the tables are well-formed and all running requests have lower numbers than the
    /// next one.
    pub closed spec fn wf(&self) -> bool {
        &&& self.conns.wf()
        &&& self.requests.wf()
        &&& forall|id: RequestId| #[trigger]
            self.requests@.dom().contains(id) ==> id < self.requests.upcoming()
    }

    /// The connections are finitely many. The one that is chosen is open and the first of them, and
    /// there is one to choose exactly if one is open.
    pub proof fn lemma_wf(&self)
        requires
            self.wf(),
        ensures
            self.model().conns.dom().finite(),
            match chosen_conn(self.model(), None) {
                Some(conn_id) => {
                    &&& self.model().conns.dom().contains(conn_id)
                    &&& forall|other: ConnId| #[trigger]
                        self.model().conns.dom().contains(other) ==> conn_id <= other
                },
                None => self.model().conns.dom() == Set::<ConnId>::empty(),
            },
    {
        self.conns.lemma_keys();
        let keys = self.conns.keys();
        if keys.len() > 0 {
            assert forall|other: ConnId| #[trigger]
                self.model().conns.dom().contains(other) implies keys[0] <= other by {
                assert(keys.contains(other));
                let k = choose|n: int| 0 <= n < keys.len() && keys[n] == other;
                if k > 0 {
                    assert(keys[0].rank() < keys[k].rank());
                }
            }
        } else {
            assert forall|other: ConnId| !self.model().conns.dom().contains(other) by {
                assert(keys.contains(other) == self.conns@.dom().contains(other));
            }
            assert(self.model().conns.dom() =~= Set::<ConnId>::empty());
        }
    }

    /// The next request replaces no running one.
    pub proof fn law_next_request_is_new(&self)
        requires
            self.wf(),
        ensures
            !self.model().requests.dom().contains(self.model().upcoming),
    {
    }

    /// A client without connections.
    pub fn new(peer_id: PeerId) -> (r: Self)
        ensures
            r.wf(),
            r.model() == (ClientModel::<S, Tx> {
                peer_id,
                conns: Map::empty(),
                requests: Map::empty(),
                upcoming: 1,
            }),
    {
        ClientActor { peer_id, conns: OrdMap::new(), requests: RequestMap::new() }
    }

    /// Whether no connection is open.
    pub fn is_unconnected(&self) -> (r: bool)
        requires
            self.wf(),
        ensures
            r == (self.model().conns.dom().len() == 0),
    {
        proof {
            self.conns.lemma_keys();
        }
        self.conns.len() == 0
    }

    /// An open connection.
    pub fn conn(&self, conn_id: &ConnId) -> (r: Option<&ConnHandle<S>>)
        requires
            self.wf(),
        ensures
            match r {
                Some(handle) => self.model().conns.dom().contains(*conn_id) && *handle
                    == self.model().conns[*conn_id],
                None => !self.model().conns.dom().contains(*conn_id),
            },
    {
        self.conns.get(conn_id)
    }

    /// A running request.
    pub fn request(&self, id: &RequestId) -> (r: Option<&RequestState<Tx>>)
        requires
            self.wf(),
        ensures
            match r {
                Some(request) => self.model().requests.dom().contains(*id) && *request
                    == self.model().requests[*id],
                None => !self.model().requests.dom().contains(*id),
            },
    {
        self.requests.get(id)
    }

    /// Whether a number is left for a new request.
    pub fn can_send(&self) -> (r: bool)
        ensures
            r == (self.model().upcoming < RequestId::MAX),
    {
        self.requests.has_next_id()
    }

    /// Handles an event at the time that `clock` shows.
    pub fn step(&mut self, clock: &Clock, event: ClientEvent<S, Tx>) -> (r: Result<
        ClientAction<Tx>,
        ClientError,
    >)
        requires
            old(self).wf(),
            makes_request(old(self).model(), event) ==> old(self).model().upcoming
                < RequestId::MAX,
        ensures
            final(self).wf(),
            exists|now: Instant| #[trigger]
                after_event(old(self).model(), event, now) == final(self).model() && acts(
                    old(self).model(),
                    event,
                    now,
                    r,
                ),
    {
        let now = clock.now();
        assert(now.fits(request_ttl()));
        self.step_at(now, event)
    }

    /// Handles an event that came at `now`.
    pub fn step_at(&mut self, now: Instant, event: ClientEvent<S, Tx>) -> (r: Result<
        ClientAction<Tx>,
        ClientError,
    >)
        requires
            old(self).wf(),
            makes_request(old(self).model(), event) ==> old(self).model().upcoming
                < RequestId::MAX,
            now.fits(request_ttl()),
        ensures
            final(self).wf(),
            final(self).model() == after_event(old(self).model(), event, now),
            acts(old(self).model(), event, now, r),
    {
        match event {
            ClientEvent::Tick => Ok(ClientAction::TimedOut(self.handle_timeout(now))),
            ClientEvent::Command(Some((command, response_tx))) => {
                match self.handle_command(now, command, response_tx) {
                    Ok((conn_id, message)) => Ok(ClientAction::Send(conn_id, message)),
                    Err(e) => Err(e),
                }
            },
            ClientEvent::Command(None) => Ok(ClientAction::Stop),
            ClientEvent::Conn(Some(event)) => self.handle_conn_event(now, event),
            ClientEvent::Conn(None) => Ok(ClientAction::Stop),
        }
    }

    /// Handles the first event on a connection, which a client without connections waits for.
    pub fn first_step_at(&mut self, now: Instant, event: Option<ConnEvent<S>>) -> (r: Result<
        ClientAction<Tx>,
        ClientError,
    >)
        requires
            old(self).wf(),
            event matches Some(ConnEvent::Open(_, _)) ==> old(self).model().upcoming
                < RequestId::MAX,
            now.fits(request_ttl()),
        ensures
            final(self).wf(),
            match event {
                Some(event) => {
                    &&& final(self).model() == after_conn_event(old(self).model(), event, now)
                    &&& reacts(old(self).model(), event, now, r)
                },
                None => {
                    &&& final(self).model() == old(self).model()
                    &&& r == Err::<ClientAction<Tx>, ClientError>(ClientError::ConnEventsClosed)
                },
            },
    {
        match event {
            Some(event) => self.handle_conn_event(now, event),
            None => Err(ClientError::ConnEventsClosed),
        }
    }

    /// Handles what happened on a connection.
    pub fn handle_conn_event(&mut self, now: Instant, event: ConnEvent<S>) -> (r: Result<
        ClientAction<Tx>,
        ClientError,
    >)
        requires
            old(self).wf(),
            event is Open ==> old(self).model().upcoming < RequestId::MAX,
            now.fits(request_ttl()),
        ensures
            final(self).wf(),
            final(self).model() == after_conn_event(old(self).model(), event, now),
            reacts(old(self).model(), event, now, r),
    {
        let ghost before = *self;
        match event {
            ConnEvent::Open(conn_id, handle) => {
                self.conns.insert(conn_id, handle);
                let command = Command::Hello(Hello {  });
                match self.send_request(now, command, None, Some(conn_id)) {
                    Ok((conn_id, message)) => Ok(ClientAction::Send(conn_id, message)),
                    Err(e) => Err(e),
                }
            },
            ConnEvent::Packet(conn_id, message) => match message.payload {
                Payload::Response(response) => {
                    let request_id = response.request_id;
                    let expected = match self.requests.get(&request_id) {
                        Some(state) => state.conn_id == conn_id,
                        None => false,
                    };
                    if !expected {
                        return Ok(ClientAction::Nothing);
                    }
                    match self.requests.forward_response(now, request_id, response.fin) {
                        Some(request) => Ok(ClientAction::Finish(request, response)),
                        None => Ok(ClientAction::Respond(request_id, response)),
                    }
                },
                _ => Ok(ClientAction::Nothing),
            },
            ConnEvent::Close(conn_id) => {
                self.conns.remove(&conn_id);
                self.requests.remove_by_conn(&conn_id);
                Ok(ClientAction::Nothing)
            },
        }
    }

    /// Sends the request for a command on any connection.
    pub fn handle_command(&mut self, now: Instant, command: Command, response_tx: Tx) -> (r: Result<
        (ConnId, Message),
        ClientError,
    >)
        requires
            old(self).wf(),
            chosen_conn(old(self).model(), None) is Some ==> old(self).model().upcoming
                < RequestId::MAX,
            now.fits(request_ttl()),
        ensures
            final(self).wf(),
            final(self).model() == after_send(old(self).model(), Some(response_tx), None, now),
            r == sent(old(self).model(), command, None),
            match r {
                Ok((on, message)) => {
                    &&& old(self).model().conns.dom().contains(on)
                    &&& message.from == old(self).model().peer_id
                    &&& message.payload matches Payload::Request(request)
                    &&& request.command == command
                    &&& request.request_id == old(self).model().upcoming
                    &&& final(self).model().requests.dom().contains(request.request_id)
                    &&& final(self).model().requests[request.request_id].conn_id == on
                },
                Err(_) => true,
            },
    {
        self.send_request(now, command, Some(response_tx), None)
    }

    /// The first open connection.
    pub fn select_conn(&self) -> (r: Result<ConnId, ClientError>)
        requires
            self.wf(),
        ensures
            r == (match chosen_conn(self.model(), None) {
                Some(conn_id) => Ok::<ConnId, ClientError>(conn_id),
                None => Err::<ConnId, ClientError>(ClientError::NoConnection),
            }),
            match r {
                Ok(conn_id) => {
                    &&& self.model().conns.dom().contains(conn_id)
                    &&& forall|other: ConnId| #[trigger]
                        self.model().conns.dom().contains(other) ==> conn_id <= other
                },
                Err(_) => self.model().conns.dom() == Set::<ConnId>::empty(),
            },
    {
        proof {
            self.lemma_wf();
            self.conns.lemma_keys();
        }
        if self.conns.len() > 0 {
            Ok(self.conns.key_at(0))
        } else {
            Err(ClientError::NoConnection)
        }
    }

    /// Makes a request for `command` and gives the message to send and its connection.
    pub fn send_request(
        &mut self,
        now: Instant,
        command: Command,
        response_tx: Option<Tx>,
        conn_id: Option<ConnId>,
    ) -> (r: Result<(ConnId, Message), ClientError>)
        requires
            old(self).wf(),
            chosen_conn(old(self).model(), conn_id) is Some ==> old(self).model().upcoming
                < RequestId::MAX,
            now.fits(request_ttl()),
        ensures
            final(self).wf(),
            final(self).model() == after_send(old(self).model(), response_tx, conn_id, now),
            r == sent(old(self).model(), command, conn_id),
            match r {
                Ok((on, message)) => {
                    &&& old(self).model().conns.dom().contains(on)
                    &&& message.from == old(self).model().peer_id
                    &&& message.payload matches Payload::Request(request)
                    &&& request.command == command
                    &&& request.request_id == old(self).model().upcoming
                    &&& final(self).model().requests.dom().contains(request.request_id)
                    &&& final(self).model().requests[request.request_id].conn_id == on
                },
                Err(_) => true,
            },
    {
        let conn_id = match conn_id {
            Some(conn_id) => conn_id,
            None => match self.select_conn() {
                Ok(conn_id) => conn_id,
                Err(e) => return Err(e),
            },
        };
        let request_id = self.requests.next_id();
        let request = Request { command, peer_info: None, request_id };
        let message = Message::request(self.peer_id, request);
        let state = RequestState::new(now, request_id, conn_id, response_tx);
        self.requests.insert(request_id, state);
        if self.conns.contains(&conn_id) {
            Ok((conn_id, message))
        } else {
            Err(ClientError::InvalidConnection)
        }
    }

    /// Ends the requests that timed out before `now`, and gives those who wait for responses to
    /// them.
    pub fn handle_timeout(&mut self, now: Instant) -> (r: Vec<Tx>)
        requires
            old(self).wf(),
        ensures
            final(self).wf(),
            final(self).model() == (ClientModel {
                requests: running(old(self).model().requests, now),
                ..old(self).model()
            }),
            timed_out(old(self).model().requests, now, r@),
    {
        let ghost before = self.requests@;
        let mut states = self.requests.drain_expired(now);
        let ghost all = states@;
        let mut txs: Vec<Tx> = Vec::new();
        assert(txs@ =~= receivers(all.take(0)));
        while states.len() > 0
            invariant
                states@.len() <= all.len(),
                states@ == all.skip(all.len() - states@.len()),
                txs@ == receivers(all.take(all.len() - states@.len())),
            decreases states@.len(),
        {
            let ghost done = all.len() - states@.len();
            let state = states.remove(0);
            assert(state == all[done]);
            assert(all.take(done + 1).drop_last() =~= all.take(done));
            assert(all.take(done + 1).last() == all[done]);
            if let Some(tx) = state.response_tx {
                txs.push(tx);
            }
            assert(states@ =~= all.skip(done + 1));
        }
        assert(all.take(all.len() as int) =~= all);
        assert(timed_out(before, now, txs@));
        txs
    }
}

/// A response is handed on only if the request was sent on the connection that it came on.
pub proof fn law_foreign_response_is_ignored<S, Tx>(
    c: ClientModel<S, Tx>,
    conn_id: ConnId,
    message: Message,
    response: Response,
    now: Instant,
    r: Result<ClientAction<Tx>, ClientError>,
)
    requires
        message.payload == Payload::Response(response),
        !awaited(c, conn_id, response.request_id),
        reacts(c, ConnEvent::Packet(conn_id, message), now, r),
    ensures
        r == Ok::<ClientAction<Tx>, ClientError>(ClientAction::Nothing),
        after_conn_event(c, ConnEvent::Packet(conn_id, message), now) == c,
{
}

/// The last response to a request is handed on once: whatever comes for it later is ignored.
pub proof fn law_final_response_ends_request<S, Tx>(
    c: ClientModel<S, Tx>,
    conn_id: ConnId,
    message: Message,
    response: Response,
    now: Instant,
    later_on: ConnId,
)
    requires
        message.payload == Payload::Response(response),
        response.fin,
        awaited(c, conn_id, response.request_id),
    ensures
        !awaited(
            after_conn_event(c, ConnEvent::Packet(conn_id, message), now),
            later_on,
            response.request_id,
        ),
{
}

/// A request that was sent is awaited on its connection, and its receiver is kept until a final
/// response, a timeout or the end of the connection.
pub proof fn law_sent_request_is_awaited<S, Tx>(
    c: ClientModel<S, Tx>,
    command: Command,
    response_tx: Option<Tx>,
    conn_id: Option<ConnId>,
    now: Instant,
)
    requires
        sent(c, command, conn_id) is Ok,
    ensures
        awaited(
            after_send(c, response_tx, conn_id, now),
            sent(c, command, conn_id)->Ok_0.0,
            c.upcoming,
        ),
        after_send(c, response_tx, conn_id, now).requests[c.upcoming].response_tx == response_tx,
{
}

/// A closed connection leaves no requests behind, and leaves those on other connections alone.
pub proof fn law_close_ends_requests<S, Tx>(
    c: ClientModel<S, Tx>,
    conn_id: ConnId,
    other: ConnId,
    id: RequestId,
    now: Instant,
)
    requires
        other != conn_id,
    ensures
        !awaited(after_conn_event(c, ConnEvent::Close(conn_id), now), conn_id, id),
        awaited(after_conn_event(c, ConnEvent::Close(conn_id), now), other, id) == awaited(
            c,
            other,
            id,
        ),
{
}

/// After a tick no request is left that should have timed out, and no other request is lost.
pub proof fn law_tick_ends_late_requests<S, Tx>(c: ClientModel<S, Tx>, now: Instant, id: RequestId)
    ensures
        after_event::<S, Tx>(c, ClientEvent::Tick, now).requests.dom().contains(id) <==> (
        c.requests.dom().contains(id) && c.requests[id].ttl.nanos >= now.nanos),
{
}

/// A request that goes out carries exactly the command that was asked for and the next request
/// number, whether or not a connection was given. It goes out on the given connection, or else on
/// the lowest open one; it fails only if the given connection is not open, or none is.
pub proof fn law_request_carries_its_command<S, Tx>(
    c: ClientModel<S, Tx>,
    command: Command,
    conn_id: Option<ConnId>,
)
    requires
        c.conns.dom().finite(),
    ensures
        match sent(c, command, conn_id) {
            Ok((on, message)) => {
                &&& message.version == VERSION
                &&& message.from == c.peer_id
                &&& message.payload matches Payload::Request(request)
                &&& request.command == command
                &&& request.request_id == c.upcoming
                &&& request.peer_info is None
                &&& c.conns.dom().contains(on)
                &&& conn_id is Some ==> on == conn_id->0
                &&& conn_id is None ==> forall|other: ConnId| #[trigger]
                    c.conns.dom().contains(other) ==> on <= other
            },
            Err(ClientError::InvalidConnection) => conn_id is Some && !c.conns.dom().contains(
                conn_id->0,
            ),
            Err(e) => e == ClientError::NoConnection && conn_id is None && forall|other: ConnId|
                !c.conns.dom().contains(other),
        },
{
    let open = c.conns.dom();
    lemma_listing_exists(open);
    let keys = listing(open);
    assert forall|other: ConnId| #[trigger] open.contains(other) implies keys.len() > 0 && keys[0]
        <= other by {
        assert(keys.contains(other));
        let k = choose|n: int| 0 <= n < keys.len() && keys[n] == other;
        if k > 0 {
            assert(keys[0].rank() < keys[k].rank());
        }
    }
    if keys.len() > 0 {
        assert(keys.contains(keys[0]));
    }
}

/// Sending a request notes that request under its number, with its receiver, its connection and
/// the instant at which it times out, and changes nothing else. Where there is no connection to
/// choose, nothing changes at all.
pub proof fn law_sending_notes_one_request<S, Tx>(
    c: ClientModel<S, Tx>,
    response_tx: Option<Tx>,
    conn_id: Option<ConnId>,
    now: Instant,
    other: RequestId,
)
    requires
        c.conns.dom().finite(),
        c.upcoming < RequestId::MAX,
        now.fits(Duration { secs: REQUEST_TTL, nanos: 0 }),
        other != c.upcoming,
    ensures
        after_send(c, response_tx, conn_id, now).peer_id == c.peer_id,
        after_send(c, response_tx, conn_id, now).conns == c.conns,
        after_send(c, response_tx, conn_id, now).requests.dom().contains(other)
            == c.requests.dom().contains(other),
        after_send(c, response_tx, conn_id, now).requests[other] == c.requests[other],
        conn_id is None && c.conns.dom() == Set::<ConnId>::empty() ==> after_send(
            c,
            response_tx,
            conn_id,
            now,
        ) == c,
        conn_id is Some || c.conns.dom() != Set::<ConnId>::empty() ==> {
            let after = after_send(c, response_tx, conn_id, now);
            let request = after.requests[c.upcoming];
            &&& after.upcoming == c.upcoming + 1
            &&& after.requests.dom().contains(c.upcoming)
            &&& request.response_tx == response_tx
            &&& request.ttl.nanos == now.nanos + REQUEST_TTL * 1_000_000_000
            &&& conn_id is Some ==> request.conn_id == conn_id->0
            &&& conn_id is None ==> c.conns.dom().contains(request.conn_id)
        },
{
    let open = c.conns.dom();
    lemma_listing_exists(open);
    let keys = listing(open);
    if keys.len() > 0 {
        assert(keys.contains(keys[0]));
    } else {
        assert forall|k: ConnId| !open.contains(k) by {
            assert(keys.contains(k) == open.contains(k));
        }
        assert(open =~= Set::<ConnId>::empty());
    }
    if open == Set::<ConnId>::empty() && keys.len() > 0 {
        assert(open.contains(keys[0]));
    }
}

/// Requests that follow each other have different numbers, and the first is still awaited when
/// the second has been sent.
pub proof fn law_requests_do_not_collide<S, Tx>(
    c: ClientModel<S, Tx>,
    command: Command,
    response_tx: Option<Tx>,
    conn_id: Option<ConnId>,
    now: Instant,
    next_command: Command,
    next_tx: Option<Tx>,
    next_conn_id: Option<ConnId>,
    later: Instant,
)
    requires
        c.upcoming < RequestId::MAX,
        sent(c, command, conn_id) is Ok,
        sent(after_send(c, response_tx, conn_id, now), next_command, next_conn_id) is Ok,
    ensures
        ({
            let between = after_send(c, response_tx, conn_id, now);
            let after = after_send(between, next_tx, next_conn_id, later);
            let first = sent(c, command, conn_id)->Ok_0.1.payload->Request_0;
            let second = sent(between, next_command, next_conn_id)->Ok_0.1.payload->Request_0;
            &&& second.request_id == first.request_id + 1
            &&& first.command == command
            &&& second.command == next_command
            &&& after.requests.dom().contains(first.request_id)
            &&& after.requests[first.request_id].response_tx == response_tx
            &&& after.requests.dom().contains(second.request_id)
            &&& after.requests[second.request_id].response_tx == next_tx
        }),
{
}

/// A command that a client is handed goes out as a request with that command, and its receiver
/// waits for the response.
pub proof fn law_command_is_sent<S, Tx>(
    c: ClientModel<S, Tx>,
    command: Command,
    tx: Tx,
    now: Instant,
    r: Result<ClientAction<Tx>, ClientError>,
)
    requires
        c.conns.dom().finite(),
        acts(c, ClientEvent::Command(Some((command, tx))), now, r),
    ensures
        match r {
            Ok(ClientAction::Send(on, message)) => {
                &&& c.conns.dom().contains(on)
                &&& message.from == c.peer_id
                &&& message.payload matches Payload::Request(request)
                &&& request.command == command
                &&& request.request_id == c.upcoming
                &&& after_event(c, ClientEvent::Command(Some((command, tx))), now).requests.dom().contains(
                    c.upcoming,
                )
                &&& after_event(
                    c,
                    ClientEvent::Command(Some((command, tx))),
                    now,
                ).requests[c.upcoming].response_tx == Some(tx)
                &&& after_event(
                    c,
                    ClientEvent::Command(Some((command, tx))),
                    now,
                ).requests[c.upcoming].conn_id == on
            },
            Ok(_) => false,
            Err(e) => e == ClientError::NoConnection && c.conns.dom() == Set::<ConnId>::empty()
                && after_event(c, ClientEvent::Command(Some((command, tx))), now) == c,
        },
{
    law_request_carries_its_command(c, command, None);
    if sent(c, command, None) is Err {
        assert(c.conns.dom() =~= Set::<ConnId>::empty());
    }
}

/// A client without a source of commands or of connection events stops and changes nothing.
pub proof fn law_client_stops<S, Tx>(
    c: ClientModel<S, Tx>,
    event: ClientEvent<S, Tx>,
    now: Instant,
    r: Result<ClientAction<Tx>, ClientError>,
)
    requires
        event is Command && event->Command_0 is None || event is Conn && event->Conn_0 is None,
        acts(c, event, now, r),
    ensures
        r == Ok::<ClientAction<Tx>, ClientError>(ClientAction::Stop),
        after_event(c, event, now) == c,
{
}

/// A client that is told of something on a connection reacts as if it were told directly.
pub proof fn law_conn_events_are_handled<S, Tx>(
    c: ClientModel<S, Tx>,
    event: ConnEvent<S>,
    now: Instant,
    r: Result<ClientAction<Tx>, ClientError>,
)
    ensures
        acts(c, ClientEvent::Conn(Some(event)), now, r) == reacts(c, event, now, r),
        after_event(c, ClientEvent::Conn(Some(event)), now) == after_conn_event(c, event, now),
{
}

/// A new connection is open from then on, and the client says hello on it: with the next request
/// number, in its own name. Other connections and requests stay as they are.
pub proof fn law_new_connection_is_greeted<S, Tx>(
    c: ClientModel<S, Tx>,
    conn_id: ConnId,
    handle: ConnHandle<S>,
    now: Instant,
    r: Result<ClientAction<Tx>, ClientError>,
    other: ConnId,
    id: RequestId,
)
    requires
        c.upcoming < RequestId::MAX,
        now.fits(Duration { secs: REQUEST_TTL, nanos: 0 }),
        reacts(c, ConnEvent::Open(conn_id, handle), now, r),
        other != conn_id,
        id != c.upcoming,
    ensures
        r matches Ok(ClientAction::Send(on, message)) && on == conn_id && message.from == c.peer_id
            && message.version == VERSION && message.payload == Payload::Request(
            Request {
                request_id: c.upcoming,
                command: Command::Hello(Hello {  }),
                peer_info: None,
            },
        ),
        ({
            let after = after_conn_event(c, ConnEvent::Open(conn_id, handle), now);
            &&& after.peer_id == c.peer_id
            &&& after.upcoming == c.upcoming + 1
            &&& after.conns.dom().contains(conn_id)
            &&& after.conns[conn_id] == handle
            &&& after.conns.dom().contains(other) == c.conns.dom().contains(other)
            &&& after.conns[other] == c.conns[other]
            &&& after.requests.dom().contains(c.upcoming)
            &&& after.requests[c.upcoming].response_tx is None
            &&& after.requests[c.upcoming].conn_id == conn_id
            &&& after.requests[c.upcoming].ttl.nanos == now.nanos + REQUEST_TTL * 1_000_000_000
            &&& after.requests.dom().contains(id) == c.requests.dom().contains(id)
            &&& after.requests[id] == c.requests[id]
        }),
{
}

/// A response to a running request, on the connection that the request was sent on, is handed to
/// whoever waits for it, unchanged. The last one ends the request; any other gives it time until
/// the next. All other requests and the connections stay as they are.
pub proof fn law_response_reaches_its_receiver<S, Tx>(
    c: ClientModel<S, Tx>,
    conn_id: ConnId,
    message: Message,
    response: Response,
    now: Instant,
    r: Result<ClientAction<Tx>, ClientError>,
    other: RequestId,
)
    requires
        message.payload == Payload::Response(response),
        c.requests.dom().contains(response.request_id),
        c.requests[response.request_id].conn_id == conn_id,
        now.fits(Duration { secs: REQUEST_TTL, nanos: 0 }),
        reacts(c, ConnEvent::Packet(conn_id, message), now, r),
        other != response.request_id,
    ensures
        match r {
            Ok(ClientAction::Finish(request, handed)) => response.fin && handed == response
                && request.response_tx == c.requests[response.request_id].response_tx
                && request.conn_id == conn_id,
            Ok(ClientAction::Respond(id, handed)) => !response.fin && handed == response && id
                == response.request_id,
            _ => false,
        },
        ({
            let after = after_conn_event(c, ConnEvent::Packet(conn_id, message), now);
            let id = response.request_id;
            &&& after.peer_id == c.peer_id
            &&& after.upcoming == c.upcoming
            &&& after.conns == c.conns
            &&& after.requests.dom().contains(id) == !response.fin
            &&& !response.fin ==> after.requests[id].response_tx == c.requests[id].response_tx
            &&& !response.fin ==> after.requests[id].conn_id == conn_id
            &&& !response.fin ==> after.requests[id].ttl.nanos == now.nanos + REQUEST_TTL
                * 1_000_000_000
            &&& after.requests.dom().contains(other) == c.requests.dom().contains(other)
            &&& after.requests[other] == c.requests[other]
        }),
{
}

/// Whatever else comes on a connection changes nothing and is handed to nobody: a request, a
/// reported error, or a response that no running request of that connection waits for.
pub proof fn law_other_packets_are_ignored<S, Tx>(
    c: ClientModel<S, Tx>,
    conn_id: ConnId,
    message: Message,
    now: Instant,
    r: Result<ClientAction<Tx>, ClientError>,
)
    requires
        reacts(c, ConnEvent::Packet(conn_id, message), now, r),
        message.payload matches Payload::Response(response) ==> !(c.requests.dom().contains(
            response.request_id,
        ) && c.requests[response.request_id].conn_id == conn_id),
    ensures
        r == Ok::<ClientAction<Tx>, ClientError>(ClientAction::Nothing),
        after_conn_event(c, ConnEvent::Packet(conn_id, message), now) == c,
{
}

/// A connection that closes is gone, and with it the requests that were sent on it. Every other
/// connection and every other request stays as it is, and nothing is sent.
pub proof fn law_close_is_confined<S, Tx>(
    c: ClientModel<S, Tx>,
    conn_id: ConnId,
    now: Instant,
    r: Result<ClientAction<Tx>, ClientError>,
    other: ConnId,
    id: RequestId,
)
    requires
        reacts(c, ConnEvent::Close(conn_id), now, r),
        other != conn_id,
    ensures
        r == Ok::<ClientAction<Tx>, ClientError>(ClientAction::Nothing),
        ({
            let after = after_conn_event(c, ConnEvent::Close(conn_id), now);
            &&& after.peer_id == c.peer_id
            &&& after.upcoming == c.upcoming
            &&& !after.conns.dom().contains(conn_id)
            &&& after.conns.dom().contains(other) == c.conns.dom().contains(other)
            &&& after.conns[other] == c.conns[other]
            &&& after.requests.dom().contains(id) == (c.requests.dom().contains(id)
                && c.requests[id].conn_id != conn_id)
            &&& after.requests.dom().contains(id) ==> after.requests[id] == c.requests[id]
        }),
{
}

/// A tick leaves the connections, the next request number and every request alone that is not
/// late.
pub proof fn law_tick_keeps_the_rest<S, Tx>(c: ClientModel<S, Tx>, now: Instant, id: RequestId)
    ensures
        after_event::<S, Tx>(c, ClientEvent::Tick, now).peer_id == c.peer_id,
        after_event::<S, Tx>(c, ClientEvent::Tick, now).conns == c.conns,
        after_event::<S, Tx>(c, ClientEvent::Tick, now).upcoming == c.upcoming,
        c.requests.dom().contains(id) && c.requests[id].ttl.nanos >= now.nanos ==> after_event::<
            S,
            Tx,
        >(c, ClientEvent::Tick, now).requests.dom().contains(id) && after_event::<S, Tx>(
            c,
            ClientEvent::Tick,
            now,
        ).requests[id] == c.requests[id],
{
}

/// Whether one of the listed entries is about `id`.
spec fn lists_id(expired: Seq<(Instant, RequestId)>, id: RequestId) -> bool {
    exists|j: int| 0 <= j < expired.len() && (#[trigger] expired[j]).1 == id
}

/// The receivers of a list of requests are those of its members that have one, in order.
proof fn lemma_receivers<Tx>(
    requests: Map<RequestId, RequestState<Tx>>,
    expired: Seq<(Instant, RequestId)>,
    states: Seq<RequestState<Tx>>,
) -> (ids: Seq<RequestId>)
    requires
        holds_listed(requests, expired, states),
        forall|i: int, j: int|
            0 <= i < j < expired.len() ==> (#[trigger] expired[i]).1 != (#[trigger] expired[j]).1,
        forall|i: int, j: int|
            0 <= i < j < expired.len() ==> (#[trigger] expired[i]).0.nanos <= (
            #[trigger] expired[j]).0.nanos,
        forall|i: int|
            0 <= i < expired.len() ==> requests[(#[trigger] expired[i]).1].ttl == expired[i].0,
    ensures
        ids.len() == receivers(states).len(),
        ids.no_duplicates(),
        forall|i: int|
            0 <= i < ids.len() ==> requests[#[trigger] ids[i]].response_tx == Some(
                receivers(states)[i],
            ),
        forall|id: RequestId| #[trigger]
            ids.contains(id) <==> requests[id].response_tx is Some && lists_id(expired, id),
        forall|i: int, j: int|
            0 <= i < j < ids.len() ==> requests[#[trigger] ids[i]].ttl.nanos
                <= requests[#[trigger] ids[j]].ttl.nanos,
    decreases states.len(),
{
    if states.len() == 0 {
        Seq::empty()
    } else {
        let fewer = expired.drop_last();
        let last = expired.last().1;
        assert(holds_listed(requests, fewer, states.drop_last())) by {
            assert forall|i: int| 0 <= i < fewer.len() implies #[trigger] states.drop_last()[i]
                == requests[fewer[i].1] by {
                assert(states[i] == requests[expired[i].1]);
            }
        }
        assert forall|i: int| 0 <= i < fewer.len() implies requests[(#[trigger] fewer[i]).1].ttl
            == fewer[i].0 by {
            assert(expired[i] == fewer[i]);
        }
        let before = lemma_receivers(requests, fewer, states.drop_last());
        assert(states.last() == requests[last]) by {
            assert(states[states.len() - 1] == requests[expired[expired.len() - 1].1]);
        }
        assert forall|id: RequestId| #[trigger]
            lists_id(expired, id) == (id == last || lists_id(fewer, id)) by {
            if lists_id(expired, id) {
                let j = choose|j: int| 0 <= j < expired.len() && (#[trigger] expired[j]).1 == id;
                if j < fewer.len() {
                    assert(fewer[j].1 == id);
                }
            }
            if lists_id(fewer, id) {
                let j = choose|j: int| 0 <= j < fewer.len() && (#[trigger] fewer[j]).1 == id;
                assert(expired[j].1 == id);
            }
            assert(expired[expired.len() - 1].1 == last);
        }
        match requests[last].response_tx {
            Some(tx) => {
                let ids = before.push(last);
                assert forall|id: RequestId| #[trigger]
                    ids.contains(id) == (before.contains(id) || id == last) by {
                    crate::ordmap::lemma_push_contains(before, last, id);
                }
                assert forall|i: int| 0 <= i < before.len() implies #[trigger] before[i] != last
                    && requests[before[i]].ttl.nanos <= requests[last].ttl.nanos by {
                    assert(before.contains(before[i]));
                    let j = choose|j: int|
                        0 <= j < fewer.len() && (#[trigger] fewer[j]).1 == before[i];
                    assert(expired[j].1 != expired[expired.len() - 1].1);
                    assert(expired[j].0.nanos <= expired[expired.len() - 1].0.nanos);
                }
                ids
            },
            None => before,
        }
    }
}

/// On a tick exactly the receivers of the late requests are told, each request once, those first
/// that timed out first.
pub proof fn law_tick_tells_late_receivers<S, Tx>(
    c: ClientModel<S, Tx>,
    now: Instant,
    r: Result<ClientAction<Tx>, ClientError>,
) -> (ids: Seq<RequestId>)
    requires
        acts(c, ClientEvent::<S, Tx>::Tick, now, r),
    ensures
        ids.no_duplicates(),
        forall|id: RequestId| #[trigger]
            ids.contains(id) <==> c.requests.dom().contains(id) && c.requests[id].ttl.nanos
                < now.nanos && c.requests[id].response_tx is Some,
        r matches Ok(ClientAction::TimedOut(txs)) && txs@.len() == ids.len() && forall|i: int|
            0 <= i < ids.len() ==> c.requests[#[trigger] ids[i]].response_tx == Some(txs@[i]),
        forall|i: int, j: int|
            0 <= i < j < ids.len() ==> c.requests[#[trigger] ids[i]].ttl.nanos
                <= c.requests[#[trigger] ids[j]].ttl.nanos,
{
    let requests = c.requests;
    let txs = r->Ok_0->TimedOut_0;
    let (expired, states) = choose|
        expired: Seq<(Instant, RequestId)>,
        states: Seq<RequestState<Tx>>,
    |
        lists_expired(timed_requests(requests), now, expired) && #[trigger] holds_listed(
            requests,
            expired,
            states,
        ) && txs@ == receivers(states);
    lemma_expired_ids(requests, now, expired);
    assert forall|i: int| 0 <= i < expired.len() implies requests[(#[trigger] expired[i]).1].ttl
        == expired[i].0 && requests.dom().contains(expired[i].1) && expired[i].0.nanos
        < now.nanos by {
        assert(expired.contains(expired[i]));
    }
    let ids = lemma_receivers(requests, expired, states);
    assert forall|id: RequestId|
        requests.dom().contains(id) && requests[id].ttl.nanos < now.nanos implies #[trigger] lists_id(
        expired,
        id,
    ) by {
        let entry = (requests[id].ttl, id);
        assert(timed_requests(requests).contains(entry));
        assert(expired.contains(entry));
        let j = choose|j: int| 0 <= j < expired.len() && expired[j] == entry;
        assert(expired[j].1 == id);
    }
    ids
}

/// A response concerns the request that it names and no other: the last one ends it, any other
/// gives it a new deadline and leaves its receiver and its connection as they are. A response to a
/// request that is not running changes nothing.
pub proof fn law_responses_concern_their_request<Tx>(
    requests: Map<RequestId, RequestState<Tx>>,
    id: RequestId,
    fin: bool,
    now: Instant,
    other: RequestId,
)
    requires
        other != id,
        now.fits(Duration { secs: REQUEST_TTL, nanos: 0 }),
    ensures
        ({
            let after = after_response(requests, id, fin, now);
            &&& after.dom().contains(other) == requests.dom().contains(other)
            &&& after[other] == requests[other]
            &&& after.dom().contains(id) <==> requests.dom().contains(id) && !fin
            &&& requests.dom().contains(id) && !fin ==> after[id].response_tx
                == requests[id].response_tx && after[id].conn_id == requests[id].conn_id
                && after[id].ttl.nanos == now.nanos + REQUEST_TTL * 1_000_000_000
        }),
{
}

/// A request that is removed is handed back as it was; one that is not running is not.
pub proof fn law_removed_request_is_handed_back<Tx>(
    requests: Map<RequestId, RequestState<Tx>>,
    id: RequestId,
    r: Option<RequestState<Tx>>,
)
    requires
        removed(requests, id, r),
    ensures
        r is Some <==> requests.dom().contains(id),
        r is Some ==> r->0 == requests[id],
{
}

/// A request is made for a command as long as any connection is open, for every new connection, and
/// for nothing else.
pub proof fn law_when_requests_are_made<S, Tx>(c: ClientModel<S, Tx>, event: ClientEvent<S, Tx>)
    requires
        c.conns.dom().finite(),
    ensures
        makes_request(c, event) <==> (match event {
            ClientEvent::Command(Some(_)) => c.conns.dom() != Set::<ConnId>::empty(),
            ClientEvent::Conn(Some(ConnEvent::Open(_, _))) => true,
            _ => false,
        }),
{
    let open = c.conns.dom();
    lemma_listing_exists(open);
    let keys = listing(open);
    if keys.len() > 0 {
        assert(keys.contains(keys[0]));
    } else {
        assert forall|k: ConnId| !open.contains(k) by {
            assert(keys.contains(k) == open.contains(k));
        }
        assert(open =~= Set::<ConnId>::empty());
    }
}

/// A request waits thirty seconds for a response: it is late at every later instant, and at no
/// earlier one.
pub proof fn law_requests_wait_thirty_seconds<S, Tx>(
    c: ClientModel<S, Tx>,
    response_tx: Option<Tx>,
    conn_id: ConnId,
    now: Instant,
    later: Instant,
)
    requires
        now.fits(Duration { secs: 30, nanos: 0 }),
    ensures
        after_event::<S, Tx>(
            after_send(c, response_tx, Some(conn_id), now),
            ClientEvent::Tick,
            later,
        ).requests.dom().contains(c.upcoming) <==> later.nanos <= now.nanos + 30_000_000_000,
{
}

} // verus!

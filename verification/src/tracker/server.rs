//! The state of a tracker: who is registered, and who provides what.

use crate::addr::SocketAddr;
use crate::io::{ConnEvent, ConnHandle, ConnId};
use crate::ordmap::{listing, OrdMap, Rank};
use crate::proto::codec::Wire;
use crate::tracker::proto::{
    Command, Message, Payload, ProvideKey, Request, RequestValue, Response, ResponseValue,
};
use crate::tracker::{Key, PeerId, PeerInfo, PeerInfoValue, Topic};
use crate::util::time::{
    kept, lists_expired_keys, swapped, timed_keys, Clock, Duration, ExpirationMap, Instant,
    Interval,
};
use vstd::prelude::*;

verus! {

/// Default TTL for peers until they have to renew to the tracker, in seconds.
pub const PEER_TTL: u64 = 300;

/// Seconds between two checks for peers that have to be forgotten.
pub const TICK_INTERVAL: u64 = 5;

/// How a tracker behaves.
#[derive(Clone, Copy, Debug)]
pub struct TrackerConfig {
    /// How long a peer stays registered that does not renew.
    pub peer_ttl: Duration,
}

impl Default for TrackerConfig {
    fn default() -> (r: TrackerConfig)
        ensures
            r.peer_ttl.total() == PEER_TTL * 1_000_000_000,
    {
        TrackerConfig { peer_ttl: Duration::from_secs(PEER_TTL) }
    }
}

/// When a peer provided something.
#[derive(Clone, Copy, Debug)]
pub struct ProvideState {
    last_provide: Instant,
}

impl ProvideState {
    /// When the peer last provided it.
    pub closed spec fn at(self) -> Instant {
        self.last_provide
    }

    /// Provided at `now`.
    pub fn new(now: Instant) -> (r: ProvideState)
        ensures
            r.at() == now,
    {
        ProvideState { last_provide: now }
    }

    /// Notes that it was provided again.
    pub fn provide_now(&mut self, now: Instant)
        ensures
            final(self).at() == now,
    {
        self.last_provide = now;
    }
}

/// What is known of a key.
pub struct KeyState {
    topics: OrdMap<Topic, ProvideState>,
    peers: OrdMap<PeerId, ProvideState>,
}

/// What a [`KeyState`] holds: when the key was last provided under each topic, and by each peer.
#[verifier::ext_equal]
pub struct KeyModel {
    pub topics: Map<Topic, Instant>,
    pub peers: Map<PeerId, Instant>,
}

/// The instants of provide states.
spec fn instants<K>(states: Map<K, ProvideState>) -> Map<K, Instant> {
    states.map_values(|s: ProvideState| s.at())
}

/// A key that nobody provides.
pub open spec fn unprovided() -> KeyModel {
    KeyModel { topics: Map::empty(), peers: Map::empty() }
}

impl Default for KeyState {
    fn default() -> (r: KeyState)
        ensures
            r.wf(),
            r.model() == unprovided(),
    {
        let r = KeyState { topics: OrdMap::new(), peers: OrdMap::new() };
        assert(r.model() =~= unprovided());
        r
    }
}

impl KeyState {
    /// Whether both maps are well-formed.
    pub closed spec fn wf(&self) -> bool {
        self.topics.wf() && self.peers.wf()
    }

    /// What this holds.
    pub closed spec fn model(&self) -> KeyModel {
        KeyModel { topics: instants(self.topics@), peers: instants(self.peers@) }
    }

    /// Notes that `peer` provides the key, perhaps under a topic.
    fn provide(&mut self, peer: PeerId, topic: Option<Topic>, now: Instant)
        requires
            old(self).wf(),
        ensures
            final(self).wf(),
            final(self).model() == provided(old(self).model(), peer, topic, now),
    {
        self.peers.insert(peer, ProvideState::new(now));
        if let Some(topic) = topic {
            self.topics.insert(topic, ProvideState::new(now));
        }
        assert(self.model() =~= provided(old(self).model(), peer, topic, now));
    }
}

/// The state of a key after `peer` provided it.
pub open spec fn provided(
    key: KeyModel,
    peer: PeerId,
    topic: Option<Topic>,
    now: Instant,
) -> KeyModel {
    KeyModel {
        peers: key.peers.insert(peer, now),
        topics: match topic {
            Some(topic) => key.topics.insert(topic, now),
            None => key.topics,
        },
    }
}

/// A registered peer.
pub struct PeerState {
    info: PeerInfo,
    last_seen: Instant,
}

/// What a [`PeerState`] holds.
pub struct PeerModel {
    pub info: PeerInfoValue,
    pub last_seen: Instant,
}

impl PeerState {
    /// What this holds.
    pub closed spec fn model(&self) -> PeerModel {
        PeerModel { info: self.info.value(), last_seen: self.last_seen }
    }

    /// A peer that was seen at `now`.
    pub fn new(info: PeerInfo, now: Instant) -> (r: PeerState)
        ensures
            r.model() == (PeerModel { info: info.value(), last_seen: now }),
    {
        PeerState { info, last_seen: now }
    }
}

/// Tracker server state.
///
/// Maintains tables of peers and provided keys. Tracks how long peers stay registered.
pub struct ServerState {
    peer_id: PeerId,
    keys: OrdMap<Key, KeyState>,
    peers: OrdMap<PeerId, PeerState>,
    peers_ttl: ExpirationMap<PeerId>,
    tick_interval: Interval,
    clock: Clock,
}

/// What a [`ServerState`] holds.
#[verifier::ext_equal]
pub struct ServerModel {
    /// The id of the tracker itself.
    pub peer_id: PeerId,
    pub keys: Map<Key, KeyModel>,
    pub peers: Map<PeerId, PeerModel>,
    /// When each registered peer is to be forgotten.
    pub expiry: Map<PeerId, Instant>,
    /// How long a peer stays registered that does not renew.
    pub lifetime: Duration,
    /// Time between two checks.
    pub period: Duration,
    /// When the next check is due.
    pub deadline: Instant,
}

/// A tracker that knows nobody and does its first check one interval after `now`.
pub open spec fn fresh_server(peer_id: PeerId, config: TrackerConfig, now: Instant) -> ServerModel {
    let period = Duration { secs: TICK_INTERVAL, nanos: 0 };
    ServerModel {
        peer_id,
        keys: Map::empty(),
        peers: Map::empty(),
        expiry: Map::empty(),
        lifetime: config.peer_ttl,
        period,
        deadline: now.after(period),
    }
}

/// What a peer states about itself, with the address that the statement came from.
pub open spec fn located(info: PeerInfoValue, from_addr: Option<SocketAddr>) -> PeerInfoValue {
    match from_addr {
        Some(addr) => if info.use_from_addr {
            PeerInfoValue { addrs: info.addrs.push(addr), ..info }
        } else {
            info
        },
        None => info,
    }
}

/// The tracker after a registered peer was heard of: it stays registered for another lifetime.
pub open spec fn renewed(s: ServerModel, from: PeerId, now: Instant) -> ServerModel {
    if s.peers.dom().contains(from) {
        ServerModel {
            peers: s.peers.insert(from, PeerModel { last_seen: now, ..s.peers[from] }),
            expiry: s.expiry.insert(from, now.after(s.lifetime)),
            ..s
        }
    } else {
        s
    }
}

/// The tracker after a peer registered.
pub open spec fn registered(
    s: ServerModel,
    from: PeerId,
    info: PeerInfoValue,
    now: Instant,
) -> ServerModel {
    ServerModel {
        peers: s.peers.insert(from, PeerModel { info, last_seen: now }),
        expiry: s.expiry.insert(from, now.after(s.lifetime)),
        ..s
    }
}

/// The infos of those of `ids` that are registered.
pub open spec fn infos_of(ids: Seq<PeerId>, peers: Map<PeerId, PeerModel>) -> Seq<PeerInfoValue>
    decreases ids.len(),
{
    if ids.len() == 0 {
        Seq::empty()
    } else {
        let before = infos_of(ids.drop_last(), peers);
        if peers.dom().contains(ids.last()) {
            before.push(peers[ids.last()].info)
        } else {
            before
        }
    }
}

/// Listing peers reads nothing but who is registered with which info.
proof fn lemma_infos_of(
    ids: Seq<PeerId>,
    a: Map<PeerId, PeerModel>,
    b: Map<PeerId, PeerModel>,
)
    requires
        a.dom() == b.dom(),
        forall|id: PeerId| #[trigger] a.dom().contains(id) ==> a[id].info == b[id].info,
    ensures
        infos_of(ids, a) == infos_of(ids, b),
    decreases ids.len(),
{
    if ids.len() > 0 {
        lemma_infos_of(ids.drop_last(), a, b);
    }
}

/// Renewing a registration changes no reply.
proof fn lemma_renewed_reply(s: ServerModel, from: PeerId, now: Instant, command: Command)
    ensures
        listed_peers(renewed(s, from, now), command) == listed_peers(s, command),
{
    let r = renewed(s, from, now);
    assert(r.peers.dom() =~= s.peers.dom());
    if let Command::LookupKey(cmd) = command {
        lemma_infos_of(listing(s.keys[cmd.key].peers.dom()), r.peers, s.peers);
    }
}

/// The tracker after a command.
pub open spec fn after_command(
    s: ServerModel,
    from: PeerId,
    command: Command,
    info: Option<PeerInfoValue>,
    now: Instant,
) -> ServerModel {
    match command {
        Command::Hello(_) => match info {
            Some(info) => registered(s, from, info, now),
            None => s,
        },
        Command::ProvideKey(cmd) => {
            let key = if s.keys.dom().contains(cmd.key) {
                s.keys[cmd.key]
            } else {
                unprovided()
            };
            ServerModel { keys: s.keys.insert(cmd.key, provided(key, from, cmd.topic, now)), ..s }
        },
        _ => s,
    }
}

/// The peers that a tracker lists in reply to a command.
pub open spec fn listed_peers(s: ServerModel, command: Command) -> Option<Seq<PeerInfoValue>> {
    match command {
        Command::LookupPeer(cmd) => if s.peers.dom().contains(cmd.peer_id) {
            Some(seq![s.peers[cmd.peer_id].info])
        } else {
            None
        },
        Command::LookupKey(cmd) => if s.keys.dom().contains(cmd.key) {
            Some(infos_of(listing(s.keys[cmd.key].peers.dom()), s.peers))
        } else {
            None
        },
        _ => None,
    }
}

/// What a peer states about itself in a request, with the address that the request came from.
pub open spec fn stated_info(request: RequestValue, from_addr: Option<SocketAddr>) -> Option<
    PeerInfoValue,
> {
    match request.peer_info {
        Some(info) => Some(located(info, from_addr)),
        None => None,
    }
}

/// The tracker after a request.
pub open spec fn after_request(
    s: ServerModel,
    from: PeerId,
    request: RequestValue,
    from_addr: Option<SocketAddr>,
    now: Instant,
) -> ServerModel {
    after_command(
        renewed(s, from, now),
        from,
        request.command,
        stated_info(request, from_addr),
        now,
    )
}

/// The reply to a request.
pub open spec fn reply_to(s: ServerModel, request: RequestValue) -> ResponseValue {
    ResponseValue {
        request_id: request.request_id,
        error: None,
        peers: listed_peers(s, request.command),
        fin: true,
    }
}

/// The tracker after a check at `now`: peers that expired before are forgotten, and the next
/// check is due one interval later if this one was due.
pub open spec fn after_timeout(s: ServerModel, now: Instant) -> ServerModel {
    let expiry = kept(s.expiry, now);
    ServerModel {
        expiry,
        peers: s.peers.restrict(expiry.dom()),
        deadline: if s.deadline.nanos <= now.nanos {
            now.after(s.period)
        } else {
            s.deadline
        },
        ..s
    }
}

impl ServerState {
    /// What this holds.
    pub closed spec fn model(&self) -> ServerModel {
        ServerModel {
            peer_id: self.peer_id,
            keys: self.keys@.map_values(|k: KeyState| k.model()),
            peers: self.peers@.map_values(|p: PeerState| p.model()),
            expiry: self.peers_ttl@,
            lifetime: self.peers_ttl.lifetime(),
            period: self.tick_interval.period(),
            deadline: self.tick_interval.deadline(),
        }
    }

    /// Whether the tables are well-formed, exactly the registered peers expire, and checks come
    /// every [`TICK_INTERVAL`].
    pub closed spec fn wf(&self) -> bool {
        &&& self.tick_interval.period() == (Duration { secs: TICK_INTERVAL, nanos: 0 })
        &&& self.keys.wf()
        &&& forall|k: Key| #[trigger] self.keys@.dom().contains(k) ==> self.keys@[k].wf()
        &&& self.peers.wf()
        &&& self.peers_ttl.wf()
        &&& self.peers@.dom() == self.peers_ttl@.dom()
    }

    /// Exactly the registered peers expire, every key has finitely many providers, and checks come
    /// every [`TICK_INTERVAL`].
    pub proof fn lemma_wf(&self)
        requires
            self.wf(),
        ensures
            self.model().peers.dom() == self.model().expiry.dom(),
            self.model().period == (Duration { secs: TICK_INTERVAL, nanos: 0 }),
            self.model().period.total() == TICK_INTERVAL * 1_000_000_000,
            forall|k: Key| #[trigger]
                self.model().keys.dom().contains(k)
                    ==> self.model().keys[k].peers.dom().finite(),
    {
        assert(self.model().peers.dom() =~= self.peers@.dom());
        assert forall|k: Key| #[trigger] self.model().keys.dom().contains(k) implies self.model()
            .keys[k].peers.dom().finite() by {
            assert(self.keys@.dom().contains(k));
            self.keys@[k].peers.lemma_keys();
            assert(self.model().keys[k].peers.dom() =~= self.keys@[k].peers@.dom());
        }
    }

    /// A tracker with the default configuration.
    pub fn new(peer_id: PeerId) -> (r: Self)
        ensures
            r.wf(),
            exists|config: TrackerConfig, now: Instant|
                config.peer_ttl.total() == PEER_TTL * 1_000_000_000 && #[trigger] fresh_server(
                    peer_id,
                    config,
                    now,
                ) == r.model(),
    {
        Self::with_config(peer_id, TrackerConfig::default())
    }

    /// A tracker that knows nobody yet.
    pub fn with_config(peer_id: PeerId, config: TrackerConfig) -> (r: Self)
        ensures
            r.wf(),
            exists|now: Instant| #[trigger] fresh_server(peer_id, config, now) == r.model(),
    {
        let clock = Clock::start();
        let now = clock.now();
        let period = Duration { secs: TICK_INTERVAL, nanos: 0 };
        assert(now.fits(period));
        Self::with_clock(peer_id, config, clock, now)
    }

    /// A tracker that knows nobody at `now`, and reads `clock` from now on.
    pub fn with_clock(peer_id: PeerId, config: TrackerConfig, clock: Clock, now: Instant) -> (r:
        Self)
        requires
            now.fits(Duration { secs: TICK_INTERVAL, nanos: 0 }),
        ensures
            r.wf(),
            r.model() == fresh_server(peer_id, config, now),
            r.time_source() == clock,
    {
        let r = ServerState {
            peer_id,
            keys: OrdMap::new(),
            peers: OrdMap::new(),
            peers_ttl: ExpirationMap::new(config.peer_ttl),
            tick_interval: Interval::new(now, Duration { secs: TICK_INTERVAL, nanos: 0 }),
            clock,
        };
        assert(r.peers@.dom() =~= r.peers_ttl@.dom());
        assert(r.model() =~= fresh_server(peer_id, config, now));
        r
    }

    /// The id of the tracker itself.
    pub fn peer_id(&self) -> (r: &PeerId)
        ensures
            *r == self.model().peer_id,
    {
        &self.peer_id
    }

    /// The clock that the tracker reads.
    pub closed spec fn time_source(&self) -> Clock {
        self.clock
    }

    /// The clock that the tracker reads.
    pub fn clock(&self) -> (r: Clock)
        ensures
            r == self.time_source(),
    {
        self.clock
    }

    /// Forgets the peers that expired before `now`. The next check lies ahead.
    pub fn handle_timeout(&mut self, now: Instant)
        requires
            old(self).wf(),
            now.fits(old(self).model().period),
        ensures
            final(self).wf(),
            final(self).model() == after_timeout(old(self).model(), now),
            final(self).model().deadline.nanos > now.nanos,
            final(self).time_source() == old(self).time_source(),
    {
        let ghost before = *self;
        let expired = self.peers_ttl.drain_expired(now);
        let mut i: usize = 0;
        while i < expired.len()
            invariant
                i <= expired@.len(),
                before.wf(),
                self.keys == before.keys,
                self.peer_id == before.peer_id,
                self.tick_interval == before.tick_interval,
                self.clock == before.clock,
                self.peers_ttl.wf(),
                self.peers_ttl@ == kept(before.peers_ttl@, now),
                self.peers_ttl.lifetime() == before.peers_ttl.lifetime(),
                lists_expired_keys(before.peers_ttl@, now, expired@),
                self.peers.wf(),
                forall|id: PeerId| #[trigger]
                    self.peers@.dom().contains(id) <==> before.peers@.dom().contains(id) && !(
                    exists|j: int| 0 <= j < i && #[trigger] expired@[j].0 == id),
                forall|id: PeerId| #[trigger]
                    self.peers@.dom().contains(id) ==> self.peers@[id] == before.peers@[id],
            decreases expired@.len() - i,
        {
            self.peers.remove(&expired[i].0);
            i = i + 1;
        }
        if self.tick_interval.next_tick().nanos <= now.nanos {
            self.tick_interval.reset(now);
        }
        proof {
            before.lemma_wf();
            before.lemma_expired(now, expired@);
            assert forall|id: PeerId| #[trigger]
                self.peers@.dom().contains(id) == self.peers_ttl@.dom().contains(id) by {
                assert(before.peers_ttl@.dom().contains(id) == before.peers@.dom().contains(id));
            }
            assert(self.peers@.dom() =~= self.peers_ttl@.dom());
            assert(self.model().peers =~= after_timeout(before.model(), now).peers);
            assert(self.model() =~= after_timeout(before.model(), now));
        }
    }

    /// A peer is among the expired ones exactly if its entry is not kept.
    proof fn lemma_expired(&self, now: Instant, expired: Seq<(PeerId, Instant)>)
        requires
            self.wf(),
            lists_expired_keys(self.peers_ttl@, now, expired),
        ensures
            forall|id: PeerId|
                self.peers_ttl@.dom().contains(id) ==> (kept(self.peers_ttl@, now).dom().contains(
                    id,
                ) <==> !(exists|j: int| 0 <= j < expired.len() && #[trigger] expired[j].0 == id)),
    {
        let items = self.peers_ttl@;
        let flipped = swapped(expired);
        assert forall|id: PeerId| items.dom().contains(id) implies (kept(items, now).dom().contains(
            id,
        ) <==> !(exists|j: int| 0 <= j < expired.len() && #[trigger] expired[j].0 == id)) by {
            let entry = (items[id], id);
            assert(timed_keys(items).contains(entry));
            if flipped.contains(entry) {
                let j = flipped.index_of(entry);
                assert(flipped[j] == entry);
                assert(expired[j].0 == id);
            }
            if exists|j: int| 0 <= j < expired.len() && #[trigger] expired[j].0 == id {
                let j = choose|j: int| 0 <= j < expired.len() && #[trigger] expired[j].0 == id;
                assert(flipped[j] == (expired[j].1, id));
                assert(flipped.contains(flipped[j]));
                assert(timed_keys(items).contains(flipped[j]));
                assert(flipped[j] == entry);
            }
        }
    }

    /// When [`ServerState::handle_timeout`] is due next.
    pub fn poll_timeout(&self) -> (r: Instant)
        ensures
            r == self.model().deadline,
    {
        self.tick_interval.next_tick()
    }

    /// Handles a request at the current time.
    pub fn handle_request(
        &mut self,
        from: PeerId,
        request: Request,
        from_addr: Option<SocketAddr>,
    ) -> (r: Response)
        requires
            old(self).wf(),
        ensures
            final(self).wf(),
            exists|now: Instant| #[trigger]
                after_request(old(self).model(), from, request.value(), from_addr, now)
                    == final(self).model(),
            r.value() == reply_to(old(self).model(), request.value()),
            final(self).time_source() == old(self).time_source(),
    {
        let now = self.clock.now();
        assert(now.fits(self.model().lifetime));
        self.handle_request_at(now, from, request, from_addr)
    }

    /// Handles a request that arrived at `now`.
    pub fn handle_request_at(
        &mut self,
        now: Instant,
        from: PeerId,
        request: Request,
        from_addr: Option<SocketAddr>,
    ) -> (r: Response)
        requires
            old(self).wf(),
            now.fits(old(self).model().lifetime),
        ensures
            final(self).wf(),
            final(self).model() == after_request(
                old(self).model(),
                from,
                request.value(),
                from_addr,
                now,
            ),
            r.value() == reply_to(old(self).model(), request.value()),
            final(self).time_source() == old(self).time_source(),
    {
        let request_id = request.request_id;
        let info = match request.peer_info {
            Some(info) => Some(Self::locate(info, from_addr)),
            None => None,
        };
        self.renew(from, now);
        let ghost s = self.model();
        proof {
            lemma_renewed_reply(old(self).model(), from, now, request.command);
        }
        match request.command {
            Command::Hello(_) => {
                if let Some(info) = info {
                    self.register(from, info, now);
                }
                Response::empty(request_id)
            },
            Command::Ping => Response::empty(request_id),
            Command::LookupPeer(cmd) => match self.peers.get(&cmd.peer_id) {
                None => Response::empty(request_id),
                Some(peer) => {
                    let mut peers: Vec<PeerInfo> = Vec::new();
                    peers.push(peer.info.clone());
                    assert(peers.value() =~= seq![s.peers[cmd.peer_id].info]);
                    Response::with_peers(request_id, peers, true)
                },
            },
            Command::ProvideKey(cmd) => {
                self.provide(from, cmd, now);
                Response::empty(request_id)
            },
            Command::LookupKey(cmd) => match self.keys.get(&cmd.key) {
                Some(state) => {
                    let peers = self.peer_infos(&state.peers);
                    assert(s.keys[cmd.key].peers.dom() =~= state.peers@.dom());
                    Response::with_peers(request_id, peers, true)
                },
                None => Response::empty(request_id),
            },
        }
    }

    /// Adds the address that a statement came from, if the peer wants that.
    fn locate(info: PeerInfo, from_addr: Option<SocketAddr>) -> (r: PeerInfo)
        ensures
            r.value() == located(info.value(), from_addr),
    {
        let mut info = info;
        let ghost before = info.value();
        if let Some(from_addr) = from_addr {
            if info.use_from_addr {
                info.addrs.push(from_addr);
                assert(info.addrs.value() =~= before.addrs.push(from_addr));
            }
        }
        info
    }

    /// Notes that a peer was heard of.
    fn renew(&mut self, from: PeerId, now: Instant)
        requires
            old(self).wf(),
            now.fits(old(self).model().lifetime),
        ensures
            final(self).wf(),
            final(self).model() == renewed(old(self).model(), from, now),
            final(self).keys == old(self).keys,
            final(self).time_source() == old(self).time_source(),
    {
        let ghost before = *self;
        if let Some(peer) = self.peers.remove(&from) {
            self.peers.insert(from, PeerState { info: peer.info, last_seen: now });
            self.peers_ttl.renew(from, now);
            assert(self.peers@.dom() =~= self.peers_ttl@.dom());
            assert(self.model().peers =~= renewed(before.model(), from, now).peers);
        }
        assert(self.model() =~= renewed(before.model(), from, now));
    }

    /// Registers a peer.
    fn register(&mut self, from: PeerId, info: PeerInfo, now: Instant)
        requires
            old(self).wf(),
            now.fits(old(self).model().lifetime),
        ensures
            final(self).wf(),
            final(self).model() == registered(old(self).model(), from, info.value(), now),
            final(self).time_source() == old(self).time_source(),
    {
        let ghost before = *self;
        self.peers.insert(from, PeerState::new(info, now));
        self.peers_ttl.renew(from, now);
        assert(self.peers@.dom() =~= self.peers_ttl@.dom());
        assert(self.model().peers =~= registered(before.model(), from, info.value(), now).peers);
        assert(self.model() =~= registered(before.model(), from, info.value(), now));
    }

    /// Notes that a peer provides a key.
    fn provide(&mut self, from: PeerId, cmd: ProvideKey, now: Instant)
        requires
            old(self).wf(),
        ensures
            final(self).wf(),
            final(self).model() == after_command(
                old(self).model(),
                from,
                Command::ProvideKey(cmd),
                None,
                now,
            ),
            forall|key: Key|
                key != cmd.key ==> #[trigger] final(self).model().keys.dom().contains(key)
                    == old(self).model().keys.dom().contains(key),
            forall|key: Key|
                key != cmd.key ==> #[trigger] final(self).model().keys[key]
                    == old(self).model().keys[key],
            final(self).time_source() == old(self).time_source(),
    {
        let ghost before = *self;
        let mut key = match self.keys.remove(&cmd.key) {
            Some(key) => key,
            None => KeyState::default(),
        };
        key.provide(from, cmd.topic, now);
        self.keys.insert(cmd.key, key);
        proof {
            let after = after_command(before.model(), from, Command::ProvideKey(cmd), None, now);
            assert(self.model().keys =~= after.keys);
            assert(self.model() =~= after);
        }
    }

    /// The infos of those of `providers` that are registered.
    fn peer_infos(&self, providers: &OrdMap<PeerId, ProvideState>) -> (r: Vec<PeerInfo>)
        requires
            self.wf(),
            providers.wf(),
        ensures
            r.value() == infos_of(listing(providers@.dom()), self.model().peers),
    {
        let mut infos: Vec<PeerInfo> = Vec::new();
        let ghost ids = providers.keys();
        let ghost peers = self.model().peers;
        let mut i: usize = 0;
        assert(infos.value() =~= infos_of(ids.take(0), peers));
        while i < providers.len()
            invariant
                self.wf(),
                peers == self.model().peers,
                ids == providers.keys(),
                i <= ids.len(),
                infos.value() == infos_of(ids.take(i as int), peers),
            decreases ids.len() - i,
        {
            let id = providers.key_at(i);
            assert(ids.take(i + 1).drop_last() =~= ids.take(i as int));
            if let Some(state) = self.peers.get(&id) {
                let ghost before = infos.value();
                infos.push(state.info.clone());
                assert(infos.value() =~= before.push(peers[id].info));
            }
            i = i + 1;
        }
        proof {
            assert(ids.take(i as int) =~= ids);
            providers.lemma_keys();
        }
        infos
    }
}

/// Every reply names its request, is final and reports no error.
pub proof fn law_reply_is_final(s: ServerModel, request: RequestValue)
    ensures
        reply_to(s, request).request_id == request.request_id,
        reply_to(s, request).fin,
        reply_to(s, request).error is None,
{
}

/// A peer that said hello is found, with what it stated and the address that it came from,
/// whoever asks.
pub proof fn law_registered_peer_is_found(
    s: ServerModel,
    from: PeerId,
    hello: RequestValue,
    from_addr: Option<SocketAddr>,
    now: Instant,
    lookup: RequestValue,
)
    requires
        hello.command is Hello,
        hello.peer_info is Some,
        lookup.command matches Command::LookupPeer(cmd) && cmd.peer_id == from,
    ensures
        reply_to(after_request(s, from, hello, from_addr, now), lookup).peers == Some(
            seq![located(hello.peer_info->0, from_addr)],
        ),
{
}

/// A registered peer expires one lifetime after the last request that it sent.
pub proof fn law_requests_renew(
    s: ServerModel,
    from: PeerId,
    request: RequestValue,
    from_addr: Option<SocketAddr>,
    now: Instant,
)
    requires
        s.peers.dom().contains(from) || (request.command is Hello && request.peer_info is Some),
    ensures
        after_request(s, from, request, from_addr, now).peers.dom().contains(from),
        after_request(s, from, request, from_addr, now).peers[from].last_seen == now,
        after_request(s, from, request, from_addr, now).expiry[from] == now.after(s.lifetime),
{
}

/// A request of one peer leaves the registrations of all others alone.
pub proof fn law_requests_are_isolated(
    s: ServerModel,
    from: PeerId,
    request: RequestValue,
    from_addr: Option<SocketAddr>,
    now: Instant,
    other: PeerId,
)
    requires
        other != from,
    ensures
        after_request(s, from, request, from_addr, now).peers.dom().contains(other)
            == s.peers.dom().contains(other),
        after_request(s, from, request, from_addr, now).peers[other] == s.peers[other],
        after_request(s, from, request, from_addr, now).expiry[other] == s.expiry[other],
{
}

/// A check forgets exactly the peers that expired before, and a forgotten peer is not found.
pub proof fn law_expired_peer_is_forgotten(
    s: ServerModel,
    id: PeerId,
    now: Instant,
    lookup: RequestValue,
)
    requires
        s.peers.dom() == s.expiry.dom(),
        s.peers.dom().contains(id),
        lookup.command matches Command::LookupPeer(cmd) && cmd.peer_id == id,
    ensures
        reply_to(after_timeout(s, now), lookup).peers == (if s.expiry[id].nanos < now.nanos {
            None::<Seq<PeerInfoValue>>
        } else {
            Some(seq![s.peers[id].info])
        }),
{
}

/// Checks and requests keep the tables in step: exactly the registered peers expire.
pub proof fn law_tables_stay_in_step(
    s: ServerModel,
    from: PeerId,
    request: RequestValue,
    from_addr: Option<SocketAddr>,
    now: Instant,
)
    requires
        s.peers.dom() == s.expiry.dom(),
    ensures
        after_request(s, from, request, from_addr, now).peers.dom() == after_request(
            s,
            from,
            request,
            from_addr,
            now,
        ).expiry.dom(),
        after_timeout(s, now).peers.dom() == after_timeout(s, now).expiry.dom(),
{
    let r = after_request(s, from, request, from_addr, now);
    assert(r.peers.dom() =~= r.expiry.dom());
    let t = after_timeout(s, now);
    assert(t.peers.dom() =~= t.expiry.dom());
}

/// After a check at `now`, the next one is due later; one that was due comes a [`TICK_INTERVAL`]
/// after it.
pub proof fn law_next_check_lies_ahead(state: ServerState, now: Instant)
    requires
        state.wf(),
        now.fits(state.model().period),
    ensures
        after_timeout(state.model(), now).deadline.nanos > now.nanos,
        state.model().deadline.nanos <= now.nanos ==> after_timeout(
            state.model(),
            now,
        ).deadline.nanos == now.nanos + TICK_INTERVAL * 1_000_000_000,
{
    state.lemma_wf();
}

/// Listing peers lists everyone among `ids` who is registered.
proof fn lemma_infos_contain(ids: Seq<PeerId>, peers: Map<PeerId, PeerModel>, id: PeerId)
    requires
        ids.contains(id),
        peers.dom().contains(id),
    ensures
        infos_of(ids, peers).contains(peers[id].info),
    decreases ids.len(),
{
    let before = infos_of(ids.drop_last(), peers);
    if ids.last() == id {
        assert(before.push(peers[id].info).last() == peers[id].info);
        assert(infos_of(ids, peers).contains(peers[id].info));
    } else {
        let i = choose|n: int| 0 <= n < ids.len() && ids[n] == id;
        assert(ids.drop_last()[i] == id);
        lemma_infos_contain(ids.drop_last(), peers, id);
        let j = choose|n: int| 0 <= n < before.len() && before[n] == peers[id].info;
        assert(infos_of(ids, peers)[j] == peers[id].info);
    }
}

/// A key that a registered peer provided is found, and the reply lists that peer.
pub proof fn law_provided_key_is_found(
    s: ServerModel,
    from: PeerId,
    provide: RequestValue,
    from_addr: Option<SocketAddr>,
    now: Instant,
    lookup: RequestValue,
    key: Key,
)
    requires
        s.peers.dom().contains(from),
        provide.command matches Command::ProvideKey(cmd) && cmd.key == key,
        lookup.command matches Command::LookupKey(cmd) && cmd.key == key,
        s.keys.dom().contains(key) ==> s.keys[key].peers.dom().finite(),
    ensures
        reply_to(after_request(s, from, provide, from_addr, now), lookup).peers matches Some(peers)
            && peers.contains(s.peers[from].info),
{
    let after = after_request(s, from, provide, from_addr, now);
    let providers = after.keys[key].peers.dom();
    assert(providers.contains(from));
    if s.keys.dom().contains(key) {
        assert(providers =~= s.keys[key].peers.dom().insert(from));
    } else {
        assert(providers =~= Set::empty().insert(from));
    }
    crate::ordmap::lemma_listing_exists(providers);
    assert(listing(providers).contains(from));
    lemma_infos_contain(listing(providers), after.peers, from);
}

/// A key that nobody provided is not found.
pub proof fn law_unknown_key_is_not_found(s: ServerModel, lookup: RequestValue)
    requires
        lookup.command matches Command::LookupKey(cmd) && !s.keys.dom().contains(cmd.key),
    ensures
        reply_to(s, lookup).peers is None,
{
}

/// A request changes what is known of no key but the one that it provides: every other key is
/// known after the request exactly if it was before, with the same providers and topics.
pub proof fn law_other_keys_stay(
    s: ServerModel,
    from: PeerId,
    request: RequestValue,
    from_addr: Option<SocketAddr>,
    now: Instant,
    key: Key,
)
    requires
        request.command matches Command::ProvideKey(cmd) ==> cmd.key != key,
    ensures
        after_request(s, from, request, from_addr, now).keys.dom().contains(key)
            == s.keys.dom().contains(key),
        after_request(s, from, request, from_addr, now).keys[key] == s.keys[key],
{
}

/// A provided key is known, and the sender is one of its providers from then on. All earlier
/// providers and topics stay, each with its own instant, and no other is added but the topic that
/// the command names.
pub proof fn law_providers_are_added(
    s: ServerModel,
    from: PeerId,
    request: RequestValue,
    from_addr: Option<SocketAddr>,
    now: Instant,
    key: Key,
    provider: PeerId,
    topic: Topic,
)
    requires
        request.command matches Command::ProvideKey(cmd) && cmd.key == key,
    ensures
        ({
            let after = after_request(s, from, request, from_addr, now).keys;
            let known = s.keys.dom().contains(key);
            let named = request.command->ProvideKey_0.topic;
            &&& after.dom().contains(key)
            &&& after[key].peers.dom().contains(provider) <==> provider == from || (known
                && s.keys[key].peers.dom().contains(provider))
            &&& after[key].peers[from] == now
            &&& known && provider != from && s.keys[key].peers.dom().contains(provider)
                ==> after[key].peers[provider] == s.keys[key].peers[provider]
            &&& after[key].topics.dom().contains(topic) <==> named == Some(topic) || (known
                && s.keys[key].topics.dom().contains(topic))
            &&& named == Some(topic) ==> after[key].topics[topic] == now
            &&& known && named != Some(topic) && s.keys[key].topics.dom().contains(topic)
                ==> after[key].topics[topic] == s.keys[key].topics[topic]
        }),
{
}

/// Whatever a peer asks, a lookup of a key that it did not provide by this gets the same reply
/// before and after, unless a peer registers by it.
pub proof fn law_lookup_of_other_key_is_unchanged(
    s: ServerModel,
    from: PeerId,
    request: RequestValue,
    from_addr: Option<SocketAddr>,
    now: Instant,
    lookup: RequestValue,
)
    requires
        lookup.command is LookupKey,
        !(request.command is Hello && request.peer_info is Some),
        request.command matches Command::ProvideKey(cmd) ==> cmd.key
            != lookup.command->LookupKey_0.key,
    ensures
        reply_to(after_request(s, from, request, from_addr, now), lookup) == reply_to(s, lookup),
{
    let after = after_request(s, from, request, from_addr, now);
    let key = lookup.command->LookupKey_0.key;
    law_other_keys_stay(s, from, request, from_addr, now, key);
    assert(after.peers.dom() =~= s.peers.dom());
    lemma_infos_of(listing(s.keys[key].peers.dom()), after.peers, s.peers);
}

/// A request changes who is registered only if the sender says hello and states where it can be
/// reached. What is then registered is what it stated, with the address that the request came
/// from added at the end if there is one and the sender asked for it. Any other request of a
/// registered peer keeps what it stated. The tracker's own settings never change.
pub proof fn law_only_hello_registers(
    s: ServerModel,
    from: PeerId,
    request: RequestValue,
    from_addr: Option<SocketAddr>,
    now: Instant,
)
    requires
        now.fits(s.lifetime),
    ensures
        ({
            let after = after_request(s, from, request, from_addr, now);
            let hello = request.command is Hello && request.peer_info is Some;
            let stated = request.peer_info->0;
            &&& after.peer_id == s.peer_id
            &&& after.lifetime == s.lifetime
            &&& after.period == s.period
            &&& after.deadline == s.deadline
            &&& after.peers.dom().contains(from) <==> hello || s.peers.dom().contains(from)
            &&& hello ==> {
                let info = after.peers[from].info;
                &&& info.use_from_addr == stated.use_from_addr
                &&& info.relay == stated.relay
                &&& info.addrs == (if stated.use_from_addr && from_addr is Some {
                    stated.addrs.push(from_addr->0)
                } else {
                    stated.addrs
                })
            }
            &&& !hello && s.peers.dom().contains(from) ==> after.peers[from].info
                == s.peers[from].info
            &&& hello || s.peers.dom().contains(from) ==> after.peers[from].last_seen == now
                && after.expiry.dom().contains(from) && after.expiry[from].nanos == now.nanos
                + s.lifetime.total()
            &&& !hello && !s.peers.dom().contains(from) ==> after.expiry == s.expiry
                && after.peers == s.peers
        }),
{
}

/// A request of one peer changes neither whether another is registered nor what is registered of
/// it nor when it expires.
pub proof fn law_other_registrations_stay(
    s: ServerModel,
    from: PeerId,
    request: RequestValue,
    from_addr: Option<SocketAddr>,
    now: Instant,
    other: PeerId,
)
    requires
        other != from,
    ensures
        ({
            let after = after_request(s, from, request, from_addr, now);
            &&& after.peers.dom().contains(other) == s.peers.dom().contains(other)
            &&& after.peers[other].info == s.peers[other].info
            &&& after.peers[other].last_seen == s.peers[other].last_seen
            &&& after.expiry.dom().contains(other) == s.expiry.dom().contains(other)
            &&& after.expiry[other] == s.expiry[other]
        }),
{
}

/// Listing peers lists those of `ids` that are registered, in order and each once.
proof fn lemma_infos_exact(ids: Seq<PeerId>, peers: Map<PeerId, PeerModel>) -> (found: Seq<PeerId>)
    requires
        crate::ordmap::ascending(ids),
    ensures
        crate::ordmap::ascending(found),
        found.len() == infos_of(ids, peers).len(),
        forall|i: int|
            0 <= i < found.len() ==> infos_of(ids, peers)[i] == peers[#[trigger] found[i]].info,
        forall|id: PeerId| #[trigger]
            found.contains(id) <==> ids.contains(id) && peers.dom().contains(id),
    decreases ids.len(),
{
    if ids.len() == 0 {
        Seq::empty()
    } else {
        let fewer = ids.drop_last();
        let last = ids.last();
        assert(crate::ordmap::ascending(fewer)) by {
            assert forall|i: int, j: int| 0 <= i < j < fewer.len() implies (
            #[trigger] fewer[i]).rank() < (#[trigger] fewer[j]).rank() by {
                assert(ids[i].rank() < ids[j].rank());
            }
        }
        let before = lemma_infos_exact(fewer, peers);
        assert(ids =~= fewer.push(last));
        assert forall|id: PeerId| #[trigger]
            ids.contains(id) == (fewer.contains(id) || id == last) by {
            crate::ordmap::lemma_push_contains(fewer, last, id);
        }
        if peers.dom().contains(last) {
            let found = before.push(last);
            assert forall|id: PeerId| #[trigger]
                found.contains(id) == (before.contains(id) || id == last) by {
                crate::ordmap::lemma_push_contains(before, last, id);
            }
            assert forall|i: int| 0 <= i < before.len() implies (#[trigger] before[i]).rank()
                < last.rank() by {
                assert(before.contains(before[i]));
                let j = choose|n: int| 0 <= n < fewer.len() && fewer[n] == before[i];
                assert(ids[j].rank() < ids[ids.len() - 1].rank());
            }
            found
        } else {
            before
        }
    }
}

/// The reply to a lookup of a known key lists exactly the registered providers of that key, each
/// once, each with what is registered of it. Without a topic or with one, the reply is the same.
pub proof fn law_lookup_lists_the_providers(s: ServerModel, lookup: RequestValue) -> (found: Seq<
    PeerId,
>)
    requires
        lookup.command is LookupKey,
        s.keys.dom().contains(lookup.command->LookupKey_0.key),
        s.keys[lookup.command->LookupKey_0.key].peers.dom().finite(),
    ensures
        found.no_duplicates(),
        forall|id: PeerId| #[trigger]
            found.contains(id) <==> s.keys[lookup.command->LookupKey_0.key].peers.dom().contains(id)
                && s.peers.dom().contains(id),
        reply_to(s, lookup).peers matches Some(peers) && peers.len() == found.len() && forall|
            i: int,
        |
            0 <= i < found.len() ==> peers[i] == s.peers[#[trigger] found[i]].info,
{
    let providers = s.keys[lookup.command->LookupKey_0.key].peers.dom();
    crate::ordmap::lemma_listing_exists(providers);
    let found = lemma_infos_exact(listing(providers), s.peers);
    assert forall|i: int, j: int| 0 <= i < j < found.len() implies found[i] != found[j] by {
        assert(found[i].rank() < found[j].rank());
    }
    found
}

/// A lookup of a peer is answered with what is registered of that peer and nothing else, or with
/// no peers if it is not registered. Every other command but a lookup is answered without peers.
pub proof fn law_lookup_finds_the_peer(s: ServerModel, request: RequestValue)
    ensures
        match request.command {
            Command::LookupPeer(cmd) => match reply_to(s, request).peers {
                Some(peers) => s.peers.dom().contains(cmd.peer_id) && peers.len() == 1 && peers[0]
                    == s.peers[cmd.peer_id].info,
                None => !s.peers.dom().contains(cmd.peer_id),
            },
            Command::LookupKey(cmd) => reply_to(s, request).peers is Some
                == s.keys.dom().contains(cmd.key),
            Command::Hello(_) => reply_to(s, request).peers is None,
            Command::Ping => reply_to(s, request).peers is None,
            Command::ProvideKey(_) => reply_to(s, request).peers is None,
        },
{
}

/// What is provided stays provided while the provider is registered: after any further request of
/// anybody, a lookup still lists the provider, with what is then registered of it.
pub proof fn law_provider_stays_listed(
    s: ServerModel,
    provider: PeerId,
    key: Key,
    from: PeerId,
    request: RequestValue,
    from_addr: Option<SocketAddr>,
    now: Instant,
    lookup: RequestValue,
)
    requires
        s.keys.dom().contains(key),
        s.keys[key].peers.dom().finite(),
        s.keys[key].peers.dom().contains(provider),
        s.peers.dom().contains(provider),
        lookup.command matches Command::LookupKey(cmd) && cmd.key == key,
    ensures
        ({
            let after = after_request(s, from, request, from_addr, now);
            reply_to(after, lookup).peers matches Some(peers) && peers.contains(
                after.peers[provider].info,
            )
        }),
{
    let after = after_request(s, from, request, from_addr, now);
    let providers = after.keys[key].peers.dom();
    assert(providers.contains(provider));
    assert(providers =~= s.keys[key].peers.dom() || providers =~= s.keys[key].peers.dom().insert(
        from,
    ));
    assert(providers.finite());
    assert(after.peers.dom().contains(provider));
    crate::ordmap::lemma_listing_exists(providers);
    assert(listing(providers).contains(provider));
    lemma_infos_contain(listing(providers), after.peers, provider);
}

/// A check changes nothing but who is registered and when the next check is due: every peer that
/// has not expired keeps its registration, and all keys keep their providers and topics.
pub proof fn law_check_forgets_only_the_expired(s: ServerModel, now: Instant, id: PeerId)
    requires
        s.peers.dom() == s.expiry.dom(),
    ensures
        ({
            let after = after_timeout(s, now);
            &&& after.peer_id == s.peer_id
            &&& after.lifetime == s.lifetime
            &&& after.period == s.period
            &&& after.keys == s.keys
            &&& after.peers.dom().contains(id) <==> s.peers.dom().contains(id)
                && s.expiry[id].nanos >= now.nanos
            &&& after.peers.dom().contains(id) ==> after.peers[id] == s.peers[id]
            &&& after.expiry.dom().contains(id) <==> after.peers.dom().contains(id)
            &&& after.expiry.dom().contains(id) ==> after.expiry[id] == s.expiry[id]
            &&& s.deadline.nanos > now.nanos ==> after.deadline == s.deadline
            &&& s.deadline.nanos <= now.nanos && now.fits(s.period) ==> after.deadline.nanos
                == now.nanos + s.period.total()
        }),
{
}

/// A registered peer that is heard of at `now` is found until a lifetime has passed.
pub proof fn law_renewed_peer_outlives_checks(
    s: ServerModel,
    from: PeerId,
    request: RequestValue,
    from_addr: Option<SocketAddr>,
    now: Instant,
    later: Instant,
)
    requires
        s.peers.dom() == s.expiry.dom(),
        s.peers.dom().contains(from),
        now.fits(s.lifetime),
    ensures
        after_timeout(
            after_request(s, from, request, from_addr, now),
            later,
        ).peers.dom().contains(from) <==> later.nanos <= now.nanos + s.lifetime.total(),
{
}

/// A new tracker knows no peer and no key, keeps peers as long as it is configured to, and does
/// its first check one [`TICK_INTERVAL`] after it was started.
pub proof fn law_new_tracker_knows_nobody(
    peer_id: PeerId,
    config: TrackerConfig,
    now: Instant,
    id: PeerId,
    key: Key,
)
    requires
        now.fits(Duration { secs: TICK_INTERVAL, nanos: 0 }),
    ensures
        ({
            let s = fresh_server(peer_id, config, now);
            &&& s.peer_id == peer_id
            &&& !s.peers.dom().contains(id)
            &&& !s.expiry.dom().contains(id)
            &&& !s.keys.dom().contains(key)
            &&& s.lifetime == config.peer_ttl
            &&& s.period.total() == TICK_INTERVAL * 1_000_000_000
            &&& s.deadline.nanos == now.nanos + TICK_INTERVAL * 1_000_000_000
            &&& s.period.total() == 5_000_000_000
        }),
{
}

/// A tracker with its open connections. `S` sends on a connection.
pub struct ServerActor<S> {
    state: ServerState,
    conns: OrdMap<ConnId, ConnHandle<S>>,
}

/// The open connections after an event.
pub open spec fn conns_after<S>(
    conns: Map<ConnId, ConnHandle<S>>,
    event: ConnEvent<S>,
) -> Map<ConnId, ConnHandle<S>> {
    match event {
        ConnEvent::Open(conn_id, handle) => conns.insert(conn_id, handle),
        ConnEvent::Packet(conn_id, message) => match message.payload {
            Payload::Request(_) => conns,
            _ => conns.remove(conn_id),
        },
        ConnEvent::Close(conn_id) => conns.remove(conn_id),
    }
}

/// The request in an event: requests count only on open connections.
pub open spec fn request_in<S>(conns: Map<ConnId, ConnHandle<S>>, event: ConnEvent<S>) -> Option<
    (PeerId, RequestValue, Option<SocketAddr>),
> {
    match event {
        ConnEvent::Packet(conn_id, message) => match message.payload {
            Payload::Request(request) => if conns.dom().contains(conn_id) {
                Some((message.from, request.value(), Some(conns[conn_id].remote_address)))
            } else {
                None
            },
            _ => None,
        },
        _ => None,
    }
}

/// Whether `r` is what a tracker in state `s` sends after an event: the reply to a request, on
/// the connection of the request, and nothing otherwise.
pub open spec fn replies<S>(
    s: ServerModel,
    conns: Map<ConnId, ConnHandle<S>>,
    event: ConnEvent<S>,
    r: Option<(ConnId, Message)>,
) -> bool {
    match request_in(conns, event) {
        Some((from, request, addr)) => {
            &&& r matches Some((conn_id, message))
            &&& event matches ConnEvent::Packet(asked_on, _)
            &&& conn_id == asked_on
            &&& message.version == crate::tracker::VERSION
            &&& message.from == s.peer_id
            &&& message.payload matches Payload::Response(response)
            &&& response.value() == reply_to(s, request)
        },
        None => r is None,
    }
}

/// The tracker after an event.
pub open spec fn server_after<S>(
    s: ServerModel,
    conns: Map<ConnId, ConnHandle<S>>,
    event: ConnEvent<S>,
    now: Instant,
) -> ServerModel {
    match request_in(conns, event) {
        Some((from, request, addr)) => after_request(s, from, request, addr, now),
        None => s,
    }
}

impl<S> ServerActor<S> {
    /// The state of the tracker.
    pub closed spec fn server(&self) -> ServerModel {
        self.state.model()
    }

    /// The open connections.
    pub closed spec fn connections(&self) -> Map<ConnId, ConnHandle<S>> {
        self.conns@
    }

    /// Whether the tables are well-formed.
    pub closed spec fn wf(&self) -> bool {
        self.state.wf() && self.conns.wf()
    }

    /// A tracker without connections.
    pub fn new(state: ServerState) -> (r: Self)
        requires
            state.wf(),
        ensures
            r.wf(),
            r.server() == state.model(),
            r.connections() == Map::<ConnId, ConnHandle<S>>::empty(),
            r.time_source() == state.time_source(),
    {
        ServerActor { state, conns: OrdMap::new() }
    }

    /// An open connection.
    pub fn conn(&self, conn_id: &ConnId) -> (r: Option<&ConnHandle<S>>)
        requires
            self.wf(),
        ensures
            match r {
                Some(handle) => self.connections().dom().contains(*conn_id) && *handle
                    == self.connections()[*conn_id],
                None => !self.connections().dom().contains(*conn_id),
            },
    {
        self.conns.get(conn_id)
    }

    /// When [`ServerActor::handle_timeout`] is due next.
    pub fn poll_timeout(&self) -> (r: Instant)
        ensures
            r == self.server().deadline,
    {
        self.state.poll_timeout()
    }

    /// The clock that the tracker reads.
    pub closed spec fn time_source(&self) -> Clock {
        self.state.time_source()
    }

    /// The clock that the tracker reads.
    pub fn clock(&self) -> (r: Clock)
        ensures
            r == self.time_source(),
    {
        self.state.clock()
    }

    /// Forgets the peers that expired before `now`. The next check lies ahead.
    pub fn handle_timeout(&mut self, now: Instant)
        requires
            old(self).wf(),
            now.fits(old(self).server().period),
        ensures
            final(self).wf(),
            final(self).server() == after_timeout(old(self).server(), now),
            final(self).server().deadline.nanos > now.nanos,
            final(self).connections() == old(self).connections(),
            final(self).time_source() == old(self).time_source(),
    {
        self.state.handle_timeout(now);
    }

    /// Handles an event at the current time, and returns a message to send and its connection.
    pub fn handle_event(&mut self, event: ConnEvent<S>) -> (r: Option<(ConnId, Message)>)
        requires
            old(self).wf(),
        ensures
            final(self).wf(),
            final(self).connections() == conns_after(old(self).connections(), event),
            final(self).time_source() == old(self).time_source(),
            exists|now: Instant| #[trigger]
                server_after(old(self).server(), old(self).connections(), event, now)
                    == final(self).server(),
            replies(old(self).server(), old(self).connections(), event, r),
    {
        let now = self.state.clock().now();
        assert(now.fits(self.server().lifetime));
        self.handle_event_at(now, event)
    }

    /// Handles an event that came at `now`, and returns a message to send and its connection.
    pub fn handle_event_at(&mut self, now: Instant, event: ConnEvent<S>) -> (r: Option<
        (ConnId, Message),
    >)
        requires
            old(self).wf(),
            now.fits(old(self).server().lifetime),
        ensures
            final(self).wf(),
            final(self).connections() == conns_after(old(self).connections(), event),
            final(self).time_source() == old(self).time_source(),
            final(self).server() == server_after(
                old(self).server(),
                old(self).connections(),
                event,
                now,
            ),
            replies(old(self).server(), old(self).connections(), event, r),
    {
        match event {
            ConnEvent::Open(conn_id, handle) => {
                self.conns.insert(conn_id, handle);
                None
            },
            ConnEvent::Packet(conn_id, message) => {
                // Packets on connections that are not open are dropped.
                let addr = match self.conns.get(&conn_id) {
                    Some(handle) => handle.remote_address(),
                    None => {
                        assert(self.conns@.remove(conn_id) =~= self.conns@);
                        return None;
                    },
                };
                match message.payload {
                    Payload::Request(request) => {
                        let response = self.state.handle_request_at(
                            now,
                            message.from,
                            request,
                            Some(addr),
                        );
                        let peer_id = *self.state.peer_id();
                        Some((conn_id, Message::response(peer_id, response)))
                    },
                    Payload::Response(_) => {
                        self.conns.remove(&conn_id);
                        None
                    },
                    Payload::Error(_) => {
                        self.conns.remove(&conn_id);
                        None
                    },
                }
            },
            ConnEvent::Close(conn_id) => {
                self.conns.remove(&conn_id);
                None
            },
        }
    }
}

/// A connection is open from the event that opens it to the one that closes it, and no other
/// connection is touched by either. A peer that sends anything but requests loses its connection.
pub proof fn law_events_open_and_close_conns<S>(
    conns: Map<ConnId, ConnHandle<S>>,
    event: ConnEvent<S>,
    other: ConnId,
)
    requires
        match event {
            ConnEvent::Open(conn_id, _) => other != conn_id,
            ConnEvent::Packet(conn_id, _) => other != conn_id,
            ConnEvent::Close(conn_id) => other != conn_id,
        },
    ensures
        conns_after(conns, event).dom().contains(other) == conns.dom().contains(other),
        conns_after(conns, event)[other] == conns[other],
        match event {
            ConnEvent::Open(conn_id, handle) => conns_after(conns, event).dom().contains(conn_id)
                && conns_after(conns, event)[conn_id] == handle,
            ConnEvent::Packet(conn_id, message) => {
                &&& conns_after(conns, event).dom().contains(conn_id) <==> conns.dom().contains(
                    conn_id,
                ) && message.payload is Request
                &&& message.payload is Request ==> conns_after(conns, event)[conn_id]
                    == conns[conn_id]
            },
            ConnEvent::Close(conn_id) => !conns_after(conns, event).dom().contains(conn_id),
        },
{
}

/// A request on an open connection is answered on that connection, by the tracker, with the reply
/// to that request, and is handled with the address of the connection. Every other event is
/// answered with nothing and leaves the tracker as it is.
pub proof fn law_requests_are_answered_in_place<S>(
    s: ServerModel,
    conns: Map<ConnId, ConnHandle<S>>,
    event: ConnEvent<S>,
    now: Instant,
    r: Option<(ConnId, Message)>,
)
    requires
        replies(s, conns, event, r),
    ensures
        match event {
            ConnEvent::Packet(conn_id, message) => match message.payload {
                Payload::Request(request) => if conns.dom().contains(conn_id) {
                    &&& r matches Some((on, reply))
                    &&& on == conn_id
                    &&& reply.version == crate::tracker::VERSION
                    &&& reply.from == s.peer_id
                    &&& reply.payload matches Payload::Response(response)
                    &&& response.request_id == request.request_id
                    &&& response.fin
                    &&& response.error is None
                    &&& response.value() == reply_to(s, request.value())
                    &&& server_after(s, conns, event, now) == after_request(
                        s,
                        message.from,
                        request.value(),
                        Some(conns[conn_id].remote_address),
                        now,
                    )
                } else {
                    r is None && server_after(s, conns, event, now) == s
                },
                _ => r is None && server_after(s, conns, event, now) == s,
            },
            _ => r is None && server_after(s, conns, event, now) == s,
        },
{
}

/// By default a peer that does not renew is forgotten by the first check that comes more than five
/// minutes after it was last heard of.
pub proof fn law_peers_stay_five_minutes(
    s: ServerModel,
    from: PeerId,
    request: RequestValue,
    from_addr: Option<SocketAddr>,
    now: Instant,
    check: Instant,
)
    requires
        s.peers.dom() == s.expiry.dom(),
        s.peers.dom().contains(from),
        s.lifetime.total() == PEER_TTL * 1_000_000_000,
        now.fits(s.lifetime),
    ensures
        after_timeout(
            after_request(s, from, request, from_addr, now),
            check,
        ).peers.dom().contains(from) <==> check.nanos <= now.nanos + 300_000_000_000,
{
}

} // verus!

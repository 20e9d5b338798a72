//! Points in time, intervals and maps whose entries expire.

use crate::ordmap::{OrdMap, Rank};
use vstd::prelude::*;

verus! {

/// A span of time in seconds and further nanoseconds.
#[derive(Clone, Copy, Debug)]
pub struct Duration {
    pub secs: u64,
    pub nanos: u32,
}

impl Duration {
    /// The whole span in nanoseconds.
    pub open spec fn total(self) -> int {
        self.secs * 1_000_000_000 + self.nanos
    }

    /// A span of whole seconds.
    pub fn from_secs(secs: u64) -> (r: Duration)
        ensures
            r.total() == secs * 1_000_000_000,
    {
        Duration { secs, nanos: 0 }
    }

    /// A span of milliseconds.
    pub fn from_millis(millis: u64) -> (r: Duration)
        ensures
            r.total() == millis * 1_000_000,
    {
        Duration { secs: millis / 1000, nanos: (millis % 1000) as u32 * 1_000_000 }
    }

    /// The whole span in nanoseconds.
    pub fn as_nanos(&self) -> (r: u128)
        ensures
            r == self.total(),
    {
        self.secs as u128 * 1_000_000_000 + self.nanos as u128
    }
}

/// A point in time, in nanoseconds since the clock was started.
#[derive(Clone, Copy, Debug, PartialEq, Eq, Structural)]
pub struct Instant {
    pub nanos: u128,
}

impl Instant {
    /// The instant that a clock reads when `span` has elapsed since it was started.
    pub fn since_start(span: Duration) -> (r: Instant)
        ensures
            r.nanos == span.total(),
    {
        Instant { nanos: span.as_nanos() }
    }

    /// Whether the instant `span` after this one can be represented.
    pub open spec fn fits(self, span: Duration) -> bool {
        self.nanos + span.total() <= u128::MAX
    }

    /// The instant `span` after this one.
    pub open spec fn after(self, span: Duration) -> Instant {
        Instant { nanos: (self.nanos + span.total()) as u128 }
    }

    /// The instant `span` after this one.
    pub fn plus(&self, span: Duration) -> (r: Instant)
        requires
            self.fits(span),
        ensures
            r == self.after(span),
    {
        Instant { nanos: self.nanos + span.as_nanos() }
    }
}

impl Rank for Instant {
    open spec fn rank(self) -> int {
        self.nanos as int
    }

    proof fn rank_is_injective(a: Self, b: Self) {
    }

    fn precedes(&self, other: &Self) -> (r: bool) {
        self.nanos < other.nanos
    }
}

/// The monotonic clock of the standard library.
#[verifier::external_type_specification]
#[verifier::external_body]
pub struct ExStdInstant(std::time::Instant);

/// Calls `std::time::Instant::now`. Nothing is claimed of the reading.
#[verifier::external_body]
fn std_now() -> (r: std::time::Instant) {
    std::time::Instant::now()
}

/// Calls `std::time::Instant::elapsed` and splits the span into whole seconds and nanoseconds, of
/// which there is less than a second. How long the span is depends on the time of the call, and
/// nothing is claimed of it.
#[verifier::external_body]
fn std_elapsed(start: &std::time::Instant) -> (r: (u64, u32))
    ensures
        r.1 < 1_000_000_000,
{
    let span = start.elapsed();
    (span.as_secs(), span.subsec_nanos())
}

/// A source of [`Instant`]s that all count from one start.
#[derive(Clone, Copy)]
pub struct Clock {
    start: std::time::Instant,
}

impl Clock {
    /// A clock that starts now.
    pub fn start() -> Clock {
        Clock { start: std_now() }
    }

    /// The current time, which is [`Instant::since_start`] of whole seconds and less than a second
    /// more. Readings leave room to add any [`Duration`].
    pub fn now(&self) -> (r: Instant)
        ensures
            exists|elapsed: Duration|
                elapsed.nanos < 1_000_000_000 && r.nanos == #[trigger] elapsed.total(),
            forall|span: Duration| r.fits(span),
    {
        let (secs, nanos) = std_elapsed(&self.start);
        let elapsed = Duration { secs, nanos };
        let now = Instant::since_start(elapsed);
        assert(now.nanos == elapsed.total());
        now
    }
}

/// A recurring deadline.
#[derive(Debug)]
pub struct Interval {
    interval: Duration,
    next: Instant,
}

impl Interval {
    /// Time between two ticks.
    pub closed spec fn period(&self) -> Duration {
        self.interval
    }

    /// The next deadline.
    pub closed spec fn deadline(&self) -> Instant {
        self.next
    }

    /// An interval whose first deadline is one period after the current time.
    pub fn from_now(clock: &Clock, interval: Duration) -> (r: Self)
        ensures
            r.period() == interval,
            r.deadline().nanos >= interval.total(),
    {
        let now = clock.now();
        assert(now.fits(interval));
        Self::new(now, interval)
    }

    /// An interval whose first deadline is one period after `now`.
    pub fn new(now: Instant, interval: Duration) -> (r: Self)
        requires
            now.fits(interval),
        ensures
            r.period() == interval,
            r.deadline() == now.after(interval),
    {
        Interval { interval, next: now.plus(interval) }
    }

    /// Whether `now` lies after the deadline.
    pub fn has_elapsed(&self, now: Instant) -> (r: bool)
        ensures
            r == (now.nanos > self.deadline().nanos),
    {
        now.nanos > self.next.nanos
    }

    /// Moves the deadline to one period after `now`.
    pub fn reset(&mut self, now: Instant)
        requires
            now.fits(old(self).period()),
        ensures
            final(self).period() == old(self).period(),
            final(self).deadline() == now.after(old(self).period()),
    {
        self.next = now.plus(self.interval);
    }

    /// The deadline.
    pub fn next_tick(&self) -> (r: Instant)
        ensures
            r == self.deadline(),
    {
        self.next
    }
}

/// A value that carries its own deadline.
pub trait HasTtl<K> {
    fn id(&self) -> K;

    fn ttl(&self) -> Instant;

    fn set_ttl(&self, ttl: Instant) -> Instant;
}

/// Whether one timed value comes before another: by time, then by rank.
pub open spec fn timed_before<T: Rank>(a: (Instant, T), b: (Instant, T)) -> bool {
    a.0.nanos < b.0.nanos || (a.0.nanos == b.0.nanos && a.1.rank() < b.1.rank())
}

/// Whether `out` lists in order exactly those of `timed` that lie before `now`.
pub open spec fn lists_expired<T: Rank>(
    timed: Set<(Instant, T)>,
    now: Instant,
    out: Seq<(Instant, T)>,
) -> bool {
    &&& forall|i: int, j: int|
        0 <= i < j < out.len() ==> timed_before(#[trigger] out[i], #[trigger] out[j])
    &&& forall|p: (Instant, T)| #[trigger]
        out.contains(p) <==> timed.contains(p) && p.0.nanos < now.nanos
}

/// Those of `timed` that do not lie before `now`.
pub open spec fn unexpired<T>(timed: Set<(Instant, T)>, now: Instant) -> Set<(Instant, T)> {
    timed.filter(|p: (Instant, T)| p.0.nanos >= now.nanos)
}

/// Values grouped by the instant that they are filed under.
pub struct InstantMap<T> {
    inner: OrdMap<Instant, OrdMap<T, ()>>,
}

impl<T: Rank> View for InstantMap<T> {
    type V = Set<(Instant, T)>;

    closed spec fn view(&self) -> Set<(Instant, T)> {
        Set::new(
            |p: (Instant, T)|
                self.inner@.dom().contains(p.0) && self.inner@[p.0]@.dom().contains(p.1),
        )
    }
}

impl<T: Rank> Default for InstantMap<T> {
    fn default() -> (r: Self)
        ensures
            r.wf(),
            r@ == Set::<(Instant, T)>::empty(),
    {
        let r = InstantMap { inner: OrdMap::new() };
        assert(r@ =~= Set::<(Instant, T)>::empty());
        r
    }
}

impl<T: Rank> InstantMap<T> {
    /// Whether every group is sorted and not empty.
    pub closed spec fn wf(&self) -> bool {
        &&& self.inner.wf()
        &&& forall|t: Instant| #[trigger]
            self.inner@.dom().contains(t) ==> self.inner@[t].wf() && self.inner@[t].keys().len() > 0
    }

    /// An empty map.
    pub fn new() -> (r: Self)
        ensures
            r.wf(),
            r@ == Set::<(Instant, T)>::empty(),
    {
        Self::default()
    }

    /// Files `value` under `instant`.
    pub fn insert(&mut self, instant: Instant, value: T)
        requires
            old(self).wf(),
        ensures
            final(self).wf(),
            final(self)@ == old(self)@.insert((instant, value)),
    {
        let ghost before = *self;
        let mut group = match self.inner.remove(&instant) {
            Some(group) => group,
            None => OrdMap::new(),
        };
        let ghost prior = group;
        group.insert(value, ());
        proof {
            group.lemma_keys();
            assert(group@.dom().contains(value));
            assert(group.keys().contains(value));
        }
        self.inner.insert(instant, group);
        proof {
            assert forall|p: (Instant, T)| self@.contains(p) == before@.insert(
                (instant, value),
            ).contains(p) by {
                if p.0 == instant {
                    assert(prior@.dom().contains(p.1) == before@.contains(p));
                }
            }
            assert(self@ =~= before@.insert((instant, value)));
        }
    }

    /// Moves `value` from one instant to another.
    pub fn update(&mut self, old_instant: Instant, new_instant: Instant, value: T)
        requires
            old(self).wf(),
        ensures
            final(self).wf(),
            final(self)@ == old(self)@.remove((old_instant, value)).insert((new_instant, value)),
    {
        self.remove(old_instant, &value);
        self.insert(new_instant, value);
    }

    /// Removes `value` from the group of `instant`.
    pub fn remove(&mut self, instant: Instant, value: &T)
        requires
            old(self).wf(),
        ensures
            final(self).wf(),
            final(self)@ == old(self)@.remove((instant, *value)),
    {
        let ghost before = *self;
        match self.inner.remove(&instant) {
            Some(mut group) => {
                let ghost prior = group;
                group.remove(value);
                if group.len() > 0 {
                    self.inner.insert(instant, group);
                } else {
                    proof {
                        group.lemma_keys();
                    }
                }
                proof {
                    assert forall|p: (Instant, T)| self@.contains(p) == before@.remove(
                        (instant, *value),
                    ).contains(p) by {
                        if p.0 == instant {
                            assert(prior@.dom().contains(p.1) == before@.contains(p));
                            assert(group@.dom().contains(p.1) == (prior@.dom().contains(p.1) && p.1
                                != *value));
                            assert(group.keys().contains(p.1) ==> group.keys().len() > 0);
                        }
                    }
                    assert(self@ =~= before@.remove((instant, *value)));
                }
            },
            None => {
                assert(self@ =~= before@.remove((instant, *value)));
            },
        }
    }
}

impl<T: Rank> InstantMap<T> {
    /// Removes all values filed under an instant before `now` and returns them with that
    /// instant, in order.
    pub fn drain_entries(&mut self, now: Instant) -> (r: Vec<(Instant, T)>)
        requires
            old(self).wf(),
        ensures
            final(self).wf(),
            lists_expired(old(self)@, now, r@),
            final(self)@ == unexpired(old(self)@, now),
    {
        let ghost before = *self;
        let mut out: Vec<(Instant, T)> = Vec::new();
        while self.inner.len() > 0 && self.inner.key_at(0).nanos < now.nanos
            invariant
                self.wf(),
                forall|i: int, j: int|
                    0 <= i < j < out@.len() ==> timed_before(
                        #[trigger] out@[i],
                        #[trigger] out@[j],
                    ),
                forall|p: (Instant, T)| #[trigger]
                    out@.contains(p) <==> before@.contains(p) && !self@.contains(p),
                forall|p: (Instant, T)| #[trigger] out@.contains(p) ==> p.0.nanos < now.nanos,
                forall|p: (Instant, T)| #[trigger] self@.contains(p) ==> before@.contains(p),
                forall|p: (Instant, T), q: (Instant, T)| #[trigger]
                    out@.contains(p) && #[trigger] self@.contains(q) ==> p.0.nanos < q.0.nanos,
            decreases self.inner.keys().len(),
        {
            let ghost was = *self;
            let ghost out0 = out@;
            proof {
                self.inner.lemma_keys();
            }
            match self.inner.pop_first() {
                Some((t, group)) => {
                    proof {
                        group.lemma_keys();
                        self.lemma_popped(was, t);
                    }
                    let mut i: usize = 0;
                    while i < group.len()
                        invariant
                            group.wf(),
                            i <= group.keys().len(),
                            out@.len() == out0.len() + i,
                            forall|j: int| 0 <= j < out0.len() ==> out@[j] == #[trigger] out0[j],
                            forall|j: int|
                                0 <= j < i ==> #[trigger] out@[out0.len() + j] == (
                                    t,
                                    group.keys()[j],
                                ),
                        decreases group.keys().len() - i,
                    {
                        out.push((t, group.key_at(i)));
                        i = i + 1;
                    }
                    proof {
                        lemma_appended(before@, was, *self, now, out0, out@, t, group.keys());
                    }
                },
                None => {},
            }
        }
        proof {
            self.inner.lemma_keys();
            assert forall|p: (Instant, T)| #[trigger] self@.contains(p) implies p.0.nanos
                >= now.nanos by {
                let keys = self.inner.keys();
                assert(keys.contains(p.0));
                let j = keys.index_of(p.0);
                if j > 0 {
                    assert(keys[0].rank() < keys[j].rank());
                }
            }
            assert forall|p: (Instant, T)| unexpired(before@, now).contains(
                p,
            ) implies self@.contains(p) by {
                assert(out@.contains(p) || self@.contains(p));
            }
            assert(self@ =~= unexpired(before@, now));
        }
        out
    }

    /// Popping the first group removes exactly the values of that instant, which is the lowest.
    proof fn lemma_popped(&self, was: Self, t: Instant)
        requires
            was.wf(),
            was.inner.keys().len() > 0,
            t == was.inner.keys()[0],
            self.inner.wf(),
            self.inner@ == was.inner@.remove(t),
        ensures
            self.wf(),
            forall|p: (Instant, T)| #[trigger]
                self@.contains(p) <==> was@.contains(p) && p.0 != t,
            forall|p: (Instant, T)| #[trigger] self@.contains(p) ==> t.nanos < p.0.nanos,
            was.inner@.dom().contains(t),
    {
        was.inner.lemma_keys();
        let keys = was.inner.keys();
        assert forall|p: (Instant, T)| #[trigger] self@.contains(p) implies t.nanos
            < p.0.nanos by {
            assert(was.inner@.dom().contains(p.0));
            assert(keys.contains(p.0));
            let j = keys.index_of(p.0);
            assert(keys[0].rank() < keys[j].rank());
        }
    }

    /// Removes all values filed under an instant before `now` and returns them in order.
    pub fn drain_expired(&mut self, now: Instant) -> (r: Vec<T>)
        requires
            old(self).wf(),
        ensures
            final(self).wf(),
            final(self)@ == unexpired(old(self)@, now),
            exists|entries: Seq<(Instant, T)>| #[trigger]
                lists_expired(old(self)@, now, entries) && r@ == values_of(entries),
    {
        let entries = self.drain_entries(now);
        let mut out: Vec<T> = Vec::new();
        let mut i: usize = 0;
        while i < entries.len()
            invariant
                i <= entries@.len(),
                out@.len() == i,
                forall|j: int| 0 <= j < i ==> #[trigger] out@[j] == entries@[j].1,
            decreases entries@.len() - i,
        {
            out.push(entries[i].1);
            i = i + 1;
        }
        assert(out@ =~= values_of(entries@));
        out
    }
}

/// The values of timed entries, without their instants.
pub open spec fn values_of<T>(entries: Seq<(Instant, T)>) -> Seq<T> {
    entries.map_values(|e: (Instant, T)| e.1)
}

/// Appending the group of the lowest remaining instant keeps the drained list sorted and complete.
proof fn lemma_appended<T: Rank>(
    all: Set<(Instant, T)>,
    was: InstantMap<T>,
    rest: InstantMap<T>,
    now: Instant,
    out0: Seq<(Instant, T)>,
    out: Seq<(Instant, T)>,
    t: Instant,
    group: Seq<T>,
)
    requires
        was.wf(),
        was.inner@.dom().contains(t),
        t.nanos < now.nanos,
        group == was.inner@[t].keys(),
        forall|i: int, j: int|
            0 <= i < j < out0.len() ==> timed_before(#[trigger] out0[i], #[trigger] out0[j]),
        forall|p: (Instant, T)| #[trigger]
            out0.contains(p) <==> all.contains(p) && !was@.contains(p),
        forall|p: (Instant, T)| #[trigger] out0.contains(p) ==> p.0.nanos < now.nanos,
        forall|p: (Instant, T)| #[trigger] was@.contains(p) ==> all.contains(p),
        forall|p: (Instant, T), q: (Instant, T)| #[trigger]
            out0.contains(p) && #[trigger] was@.contains(q) ==> p.0.nanos < q.0.nanos,
        forall|p: (Instant, T)| #[trigger] rest@.contains(p) <==> was@.contains(p) && p.0 != t,
        forall|p: (Instant, T)| #[trigger] rest@.contains(p) ==> t.nanos < p.0.nanos,
        out.len() == out0.len() + group.len(),
        forall|j: int| 0 <= j < out0.len() ==> out[j] == #[trigger] out0[j],
        forall|j: int|
            0 <= j < group.len() ==> #[trigger] out[out0.len() + j] == (t, group[j]),
    ensures
        forall|i: int, j: int|
            0 <= i < j < out.len() ==> timed_before(#[trigger] out[i], #[trigger] out[j]),
        forall|p: (Instant, T)| #[trigger]
            out.contains(p) <==> all.contains(p) && !rest@.contains(p),
        forall|p: (Instant, T)| #[trigger] out.contains(p) ==> p.0.nanos < now.nanos,
        forall|p: (Instant, T), q: (Instant, T)| #[trigger]
            out.contains(p) && #[trigger] rest@.contains(q) ==> p.0.nanos < q.0.nanos,
{
    let n = out0.len() as int;
    was.inner@[t].lemma_keys();
    assert forall|j: int| 0 <= j < group.len() implies was@.contains((t, #[trigger] group[j])) by {
        assert(group.contains(group[j]));
    }
    assert forall|i: int| 0 <= i < out.len() implies (i < n && out[i] == out0[i] && out0.contains(
        out0[i],
    )) || (i >= n && #[trigger] out[i] == (t, group[i - n]) && was@.contains(out[i])) by {
        if i >= n {
            assert(out[n + (i - n)] == (t, group[i - n]));
        } else {
            assert(out[i] == out0[i]);
        }
    }
    assert forall|i: int, j: int| 0 <= i < j < out.len() implies timed_before(
        #[trigger] out[i],
        #[trigger] out[j],
    ) by {
        if j < n {
            assert(timed_before(out0[i], out0[j]));
        } else if i < n {
            assert(out0.contains(out[i]) && was@.contains(out[j]));
        } else {
            assert(group[i - n].rank() < group[j - n].rank());
        }
    }
    assert forall|p: (Instant, T)| out.contains(p) == (out0.contains(p) || (was@.contains(p) && p.0
        == t)) by {
        if out.contains(p) {
            let i = out.index_of(p);
            assert(out[i] == p);
        }
        if out0.contains(p) {
            let i = out0.index_of(p);
            assert(out[i] == p);
        }
        if was@.contains(p) && p.0 == t {
            assert(group.contains(p.1));
            let j = group.index_of(p.1);
            assert(out[n + j] == p);
        }
    }
}

/// Keys with an instant at which each expires.
pub struct ExpirationMap<K> {
    items: OrdMap<K, Instant>,
    ttls: InstantMap<K>,
    default_ttl: Duration,
}

/// The entries of `items`, as timed keys.
pub open spec fn timed_keys<K>(items: Map<K, Instant>) -> Set<(Instant, K)> {
    Set::new(|p: (Instant, K)| items.dom().contains(p.1) && items[p.1] == p.0)
}

/// The entries of `items` that do not lie before `now`.
pub open spec fn kept<K>(items: Map<K, Instant>, now: Instant) -> Map<K, Instant> {
    Map::new(
        |k: K| items.dom().contains(k) && items[k].nanos >= now.nanos,
        |k: K| items[k],
    )
}

/// Whether `out` lists in order exactly the entries of `items` that lie before `now`.
pub open spec fn lists_expired_keys<K: Rank>(
    items: Map<K, Instant>,
    now: Instant,
    out: Seq<(K, Instant)>,
) -> bool {
    lists_expired(timed_keys(items), now, swapped(out))
}

/// Timed keys with the instant first.
pub open spec fn swapped<K>(out: Seq<(K, Instant)>) -> Seq<(Instant, K)> {
    out.map_values(|e: (K, Instant)| (e.1, e.0))
}

impl<K: Rank> View for ExpirationMap<K> {
    type V = Map<K, Instant>;

    closed spec fn view(&self) -> Map<K, Instant> {
        self.items@
    }
}

impl<K: Rank> ExpirationMap<K> {
    /// Whether the index by instant lists exactly the entries.
    pub closed spec fn wf(&self) -> bool {
        &&& self.items.wf()
        &&& self.ttls.wf()
        &&& self.ttls@ == timed_keys(self.items@)
    }

    /// The lifetime that [`ExpirationMap::renew`] grants.
    pub closed spec fn lifetime(&self) -> Duration {
        self.default_ttl
    }

    /// The keys in the order in which [`ExpirationMap::iter`] lists them.
    pub closed spec fn keys(&self) -> Seq<K> {
        self.items.keys()
    }

    /// An empty map whose keys live for `ttl` when they are renewed.
    pub fn new(ttl: Duration) -> (r: Self)
        ensures
            r.wf(),
            r@ == Map::<K, Instant>::empty(),
            r.lifetime() == ttl,
    {
        let r = ExpirationMap { items: OrdMap::new(), ttls: InstantMap::new(), default_ttl: ttl };
        assert(r.ttls@ =~= timed_keys(r.items@));
        r
    }

    /// Lets `id` expire at `ttl`.
    pub fn insert(&mut self, id: K, ttl: Instant)
        requires
            old(self).wf(),
        ensures
            final(self).wf(),
            final(self)@ == old(self)@.insert(id, ttl),
            final(self).lifetime() == old(self).lifetime(),
    {
        let ghost before = *self;
        let known = match self.items.get(&id) {
            Some(old_ttl) => Some(*old_ttl),
            None => None,
        };
        match known {
            Some(old_ttl) => self.ttls.update(old_ttl, ttl, id),
            None => self.ttls.insert(ttl, id),
        }
        self.items.insert(id, ttl);
        assert(self.ttls@ =~= timed_keys(self.items@));
    }

    /// Lets `id` expire one lifetime after `now`.
    pub fn renew(&mut self, id: K, now: Instant)
        requires
            old(self).wf(),
            now.fits(old(self).lifetime()),
        ensures
            final(self).wf(),
            final(self)@ == old(self)@.insert(id, now.after(old(self).lifetime())),
            final(self).lifetime() == old(self).lifetime(),
    {
        let ttl = now.plus(self.default_ttl);
        self.insert(id, ttl);
    }

    /// Forgets `id` and returns when it would have expired.
    pub fn remove(&mut self, id: &K) -> (r: Option<Instant>)
        requires
            old(self).wf(),
        ensures
            final(self).wf(),
            final(self)@ == old(self)@.remove(*id),
            final(self).lifetime() == old(self).lifetime(),
            match r {
                Some(ttl) => old(self)@.dom().contains(*id) && ttl == old(self)@[*id],
                None => !old(self)@.dom().contains(*id),
            },
    {
        match self.items.remove(id) {
            None => None,
            Some(ttl) => {
                self.ttls.remove(ttl, id);
                assert(self.ttls@ =~= timed_keys(self.items@));
                Some(ttl)
            },
        }
    }

    /// Removes all keys that expire before `now` and returns them with their instants, ordered
    /// by instant and then by key.
    pub fn drain_expired(&mut self, now: Instant) -> (r: Vec<(K, Instant)>)
        requires
            old(self).wf(),
        ensures
            final(self).wf(),
            final(self)@ == kept(old(self)@, now),
            final(self).lifetime() == old(self).lifetime(),
            lists_expired_keys(old(self)@, now, r@),
    {
        let ghost before = *self;
        let entries = self.ttls.drain_entries(now);
        let mut out: Vec<(K, Instant)> = Vec::new();
        let mut i: usize = 0;
        while i < entries.len()
            invariant
                i <= entries@.len(),
                before.wf(),
                lists_expired(before.ttls@, now, entries@),
                self.items.wf(),
                self.default_ttl == before.default_ttl,
                self.ttls.wf(),
                self.ttls@ == unexpired(before.ttls@, now),
                forall|k: K| #[trigger]
                    self.items@.dom().contains(k) <==> before.items@.dom().contains(k) && !(exists|
                        j: int,
                    |
                        0 <= j < i && (#[trigger] entries@[j]).1 == k),
                forall|k: K| #[trigger]
                    self.items@.dom().contains(k) ==> self.items@[k] == before.items@[k],
                out@.len() == i,
                forall|j: int| 0 <= j < i ==> #[trigger] out@[j] == (entries@[j].1, entries@[j].0),
            decreases entries@.len() - i,
        {
            let (t, id) = entries[i];
            proof {
                assert(entries@[i as int] == (t, id));
                assert(entries@.contains((t, id)));
                assert(before.ttls@.contains((t, id)));
                assert forall|j: int| 0 <= j < i implies (#[trigger] entries@[j]).1 != id by {
                    assert(entries@.contains(entries@[j]));
                    assert(timed_before(entries@[j], entries@[i as int]));
                }
            }
            match self.items.remove(&id) {
                Some(ttl) => {
                    out.push((id, ttl));
                },
                None => {},
            }
            i = i + 1;
        }
        proof {
            assert(swapped(out@) =~= entries@);
            assert forall|k: K| self.items@.dom().contains(k) <==> kept(
                before.items@,
                now,
            ).dom().contains(k) by {
                if before.items@.dom().contains(k) {
                    let p = (before.items@[k], k);
                    assert(before.ttls@.contains(p));
                    assert(entries@.contains(p) <==> p.0.nanos < now.nanos);
                    if entries@.contains(p) {
                        let j = entries@.index_of(p);
                        assert(entries@[j].1 == k);
                    }
                    if exists|j: int| 0 <= j < entries@.len() && (#[trigger] entries@[j]).1 == k {
                        let j = choose|j: int|
                            0 <= j < entries@.len() && (#[trigger] entries@[j]).1 == k;
                        assert(entries@.contains(entries@[j]));
                    }
                }
            }
            assert(self.items@ =~= kept(before.items@, now));
            assert(self.ttls@ =~= timed_keys(self.items@));
        }
        out
    }

    /// The entries in ascending key order.
    pub fn iter(&self) -> (r: Vec<(K, Instant)>)
        requires
            self.wf(),
        ensures
            r@.len() == self.keys().len(),
            forall|i: int|
                0 <= i < r@.len() ==> #[trigger] r@[i] == (self.keys()[i], self@[self.keys()[i]]),
            crate::ordmap::ascending(self.keys()),
            forall|k: K| #[trigger] self.keys().contains(k) <==> self@.dom().contains(k),
    {
        proof {
            self.items.lemma_keys();
        }
        let mut out: Vec<(K, Instant)> = Vec::new();
        let mut i: usize = 0;
        while i < self.items.len()
            invariant
                self.items.wf(),
                i <= self.items.keys().len(),
                out@.len() == i,
                forall|j: int|
                    0 <= j < i ==> #[trigger] out@[j] == (
                        self.items.keys()[j],
                        self.items@[self.items.keys()[j]],
                    ),
            decreases self.items.keys().len() - i,
        {
            out.push((self.items.key_at(i), *self.items.value_at(i)));
            i = i + 1;
        }
        out
    }
}

/// What is drained and what stays make up all that was filed: an entry is drained exactly if it
/// lies before `now`, each once, those first that lie earlier.
pub proof fn law_drained_is_what_expired<T: Rank>(
    timed: Set<(Instant, T)>,
    now: Instant,
    out: Seq<(Instant, T)>,
    entry: (Instant, T),
)
    requires
        lists_expired(timed, now, out),
    ensures
        out.contains(entry) <==> timed.contains(entry) && entry.0.nanos < now.nanos,
        unexpired(timed, now).contains(entry) <==> timed.contains(entry) && entry.0.nanos
            >= now.nanos,
        forall|i: int, j: int|
            0 <= i < j < out.len() ==> #[trigger] out[i] != #[trigger] out[j] && out[i].0.nanos
                <= out[j].0.nanos,
        values_of(out).len() == out.len(),
        forall|i: int| 0 <= i < out.len() ==> #[trigger] values_of(out)[i] == out[i].1,
{
    assert forall|i: int, j: int| 0 <= i < j < out.len() implies #[trigger] out[i]
        != #[trigger] out[j] && out[i].0.nanos <= out[j].0.nanos by {
        assert(timed_before(out[i], out[j]));
    }
}

/// Of keys that expire, those are kept whose instant does not lie before `now`, each with its
/// instant; the others are listed, each with its instant, those first that expired first.
pub proof fn law_keys_expire_at_their_instant<K: Rank>(
    items: Map<K, Instant>,
    now: Instant,
    out: Seq<(K, Instant)>,
    key: K,
)
    requires
        lists_expired_keys(items, now, out),
    ensures
        kept(items, now).dom().contains(key) <==> items.dom().contains(key) && items[key].nanos
            >= now.nanos,
        kept(items, now).dom().contains(key) ==> kept(items, now)[key] == items[key],
        items.dom().contains(key) && items[key].nanos < now.nanos ==> out.contains(
            (key, items[key]),
        ),
        forall|i: int|
            0 <= i < out.len() ==> items.dom().contains((#[trigger] out[i]).0) && items[out[i].0]
                == out[i].1 && out[i].1.nanos < now.nanos,
        forall|i: int, j: int|
            0 <= i < j < out.len() ==> (#[trigger] out[i]).0 != (#[trigger] out[j]).0
                && out[i].1.nanos <= out[j].1.nanos,
{
    let flipped = swapped(out);
    assert forall|i: int| 0 <= i < out.len() implies items.dom().contains((#[trigger] out[i]).0)
        && items[out[i].0] == out[i].1 && out[i].1.nanos < now.nanos by {
        assert(flipped[i] == (out[i].1, out[i].0));
        assert(flipped.contains(flipped[i]));
    }
    if items.dom().contains(key) && items[key].nanos < now.nanos {
        let entry = (items[key], key);
        assert(timed_keys(items).contains(entry));
        assert(flipped.contains(entry));
        let k = choose|n: int| 0 <= n < flipped.len() && flipped[n] == entry;
        assert(out[k] == (key, items[key]));
    }
    assert forall|i: int, j: int| 0 <= i < j < out.len() implies (#[trigger] out[i]).0 != (
    #[trigger] out[j]).0 && out[i].1.nanos <= out[j].1.nanos by {
        assert(timed_before(flipped[i], flipped[j]));
        assert(items[out[i].0] == out[i].1);
        assert(items[out[j].0] == out[j].1);
    }
}

/// The instant a span after another lies exactly that span later.
pub proof fn law_spans_are_added(now: Instant, span: Duration)
    ensures
        span.total() == span.secs * 1_000_000_000 + span.nanos,
        now.fits(span) <==> now.nanos + span.total() <= u128::MAX,
        now.fits(span) ==> now.after(span).nanos == now.nanos + span.total(),
{
}

} // verus!

//! An ordered map kept in one sorted vector.
//!
//! Keys are ordered by an integer rank, lookups use binary search, and the entries can be
//! walked by position in ascending key order.

use vstd::prelude::*;

verus! {

/// A copyable key that is identified by an integer rank.
pub trait Rank: Copy {
    /// Position of the key in the order of all keys.
    spec fn rank(self) -> int;

    /// Two keys with the same rank are the same key.
    proof fn rank_is_injective(a: Self, b: Self)
        requires
            a.rank() == b.rank(),
        ensures
            a == b,
    ;

    /// Whether this key comes before `other`.
    fn precedes(&self, other: &Self) -> (r: bool)
        ensures
            r == (self.rank() < other.rank()),
    ;
}

impl Rank for u64 {
    open spec fn rank(self) -> int {
        self as int
    }

    proof fn rank_is_injective(a: Self, b: Self) {
    }

    fn precedes(&self, other: &Self) -> (r: bool) {
        *self < *other
    }
}

impl Rank for usize {
    open spec fn rank(self) -> int {
        self as int
    }

    proof fn rank_is_injective(a: Self, b: Self) {
    }

    fn precedes(&self, other: &Self) -> (r: bool) {
        *self < *other
    }
}

/// The big-endian value of a byte string.
pub open spec fn be_value(s: Seq<u8>) -> int
    decreases s.len(),
{
    if s.len() == 0 {
        0
    } else {
        be_value(s.drop_last()) * 256 + s.last()
    }
}

/// Two byte strings of one length that agree up to `i` and differ there are ordered by that byte.
proof fn lemma_be_value_order(a: Seq<u8>, b: Seq<u8>, i: int)
    requires
        a.len() == b.len(),
        0 <= i < a.len(),
        a.take(i) == b.take(i),
        a[i] < b[i],
    ensures
        be_value(a) < be_value(b),
    decreases a.len(),
{
    if i == a.len() - 1 {
        assert(a.drop_last() =~= a.take(i));
        assert(b.drop_last() =~= b.take(i));
    } else {
        assert(a.drop_last().take(i) =~= a.take(i));
        assert(b.drop_last().take(i) =~= b.take(i));
        lemma_be_value_order(a.drop_last(), b.drop_last(), i);
    }
}

impl Rank for [u8; 32] {
    open spec fn rank(self) -> int {
        be_value(self@)
    }

    proof fn rank_is_injective(a: Self, b: Self) {
        if a@ != b@ {
            lemma_first_difference(a@, b@);
        }
        assert(a =~= b);
    }

    fn precedes(&self, other: &Self) -> (r: bool) {
        let mut i: usize = 0;
        while i < 32
            invariant
                i <= 32,
                self@.take(i as int) == other@.take(i as int),
            decreases 32 - i,
        {
            if self[i] < other[i] {
                proof {
                    lemma_be_value_order(self@, other@, i as int);
                }
                return true;
            }
            if self[i] > other[i] {
                proof {
                    lemma_be_value_order(other@, self@, i as int);
                }
                return false;
            }
            assert(self@.take(i + 1) =~= self@.take(i as int).push(self@[i as int]));
            assert(other@.take(i + 1) =~= other@.take(i as int).push(other@[i as int]));
            i = i + 1;
        }
        assert(self@ =~= self@.take(32));
        assert(other@ =~= other@.take(32));
        false
    }
}

/// Distinct byte strings of one length have distinct values.
proof fn lemma_first_difference(a: Seq<u8>, b: Seq<u8>)
    requires
        a.len() == b.len(),
        a != b,
    ensures
        be_value(a) != be_value(b),
    decreases a.len(),
{
    if a.len() == 0 {
        assert(a =~= b);
    } else if a.drop_last() != b.drop_last() {
        lemma_first_difference(a.drop_last(), b.drop_last());
    } else if a.last() == b.last() {
        assert(a =~= a.drop_last().push(a.last()));
        assert(b =~= b.drop_last().push(b.last()));
    }
}

/// Whether the ranks of `keys` strictly increase.
pub open spec fn ascending<K: Rank>(keys: Seq<K>) -> bool {
    forall|i: int, j: int|
        0 <= i < j < keys.len() ==> (#[trigger] keys[i]).rank() < (#[trigger] keys[j]).rank()
}

/// Whether `keys` lists the members of `set` in ascending order.
pub open spec fn lists<K: Rank>(keys: Seq<K>, set: Set<K>) -> bool {
    &&& ascending(keys)
    &&& forall|k: K| #[trigger] keys.contains(k) <==> set.contains(k)
}

/// The members of `set` in ascending order.
pub open spec fn listing<K: Rank>(set: Set<K>) -> Seq<K> {
    choose|keys: Seq<K>| lists(keys, set)
}

/// Ascending sequences with the same members are the same.
pub proof fn lemma_ascending_unique<K: Rank>(a: Seq<K>, b: Seq<K>)
    requires
        ascending(a),
        ascending(b),
        forall|k: K| #[trigger] a.contains(k) <==> b.contains(k),
    ensures
        a == b,
    decreases a.len(),
{
    if a.len() == 0 {
        if b.len() > 0 {
            assert(b.contains(b[0]));
            assert(a.contains(b[0]));
        }
        assert(a =~= b);
    } else {
        assert(a.contains(a.last()));
        assert(b.contains(a.last()));
        let j = choose|n: int| 0 <= n < b.len() && b[n] == a.last();
        assert(b[j] == a.last());
        assert(b.contains(b.last()));
        assert(a.contains(b.last()));
        let i = choose|n: int| 0 <= n < a.len() && a[n] == b.last();
        assert(a[i] == b.last());
        if j < b.len() - 1 {
            assert(b[j].rank() < b[b.len() - 1].rank());
            if i < a.len() - 1 {
                assert(a[i].rank() < a[a.len() - 1].rank());
            }
        }
        assert(a.last() == b.last());
        let a1 = a.drop_last();
        let b1 = b.drop_last();
        assert forall|k: K| #[trigger] a1.contains(k) == b1.contains(k) by {
            if a1.contains(k) {
                let x = choose|n: int| 0 <= n < a1.len() && a1[n] == k;
                assert(0 <= x < a1.len());
                assert(a1[x] == k);
                assert(a[x] == k);
                assert(a.contains(k));
                assert(b.contains(k));
                let y = choose|n: int| 0 <= n < b.len() && b[n] == k;
                assert(b[y] == k);
                assert(a[x].rank() < a[a.len() - 1].rank());
                assert(y < b.len() - 1);
                assert(b1[y] == k);
            }
            if b1.contains(k) {
                let x = choose|n: int| 0 <= n < b1.len() && b1[n] == k;
                assert(0 <= x < b1.len());
                assert(b1[x] == k);
                assert(b[x] == k);
                assert(b.contains(k));
                assert(a.contains(k));
                let y = choose|n: int| 0 <= n < a.len() && a[n] == k;
                assert(a[y] == k);
                assert(b[x].rank() < b[b.len() - 1].rank());
                assert(y < a.len() - 1);
                assert(a1[y] == k);
            }
        }
        lemma_ascending_unique(a1, b1);
        assert(a =~= a1.push(a.last()));
        assert(b =~= b1.push(b.last()));
    }
}

/// Every finite set can be listed.
pub proof fn lemma_listing_exists<K: Rank>(set: Set<K>)
    requires
        set.finite(),
    ensures
        lists(listing(set), set),
    decreases set.len(),
{
    if set.len() == 0 {
        let keys = Seq::<K>::empty();
        assert(set =~= Set::empty());
        assert(lists(keys, set));
    } else {
        let k = set.choose();
        let rest = set.remove(k);
        lemma_listing_exists(rest);
        let before = listing(rest);
        lemma_listing_inserted(before, rest, k);
        assert(rest.insert(k) =~= set);
    }
}

/// A listing can be extended by one more key.
proof fn lemma_listing_inserted<K: Rank>(keys: Seq<K>, set: Set<K>, k: K)
    requires
        lists(keys, set),
        !set.contains(k),
    ensures
        exists|longer: Seq<K>| lists(longer, set.insert(k)),
    decreases keys.len(),
{
    if keys.len() == 0 {
        let longer = seq![k];
        assert forall|x: K| #[trigger] longer.contains(x) == set.insert(k).contains(x) by {
            if x == k {
                assert(longer[0] == k);
            }
            if set.contains(x) {
                assert(keys.contains(x));
            }
        }
        assert(lists(longer, set.insert(k)));
    } else {
        let last = keys.last();
        assert(keys.contains(last));
        if last.rank() < k.rank() {
            let longer = keys.push(k);
            assert forall|i: int, j: int| 0 <= i < j < longer.len() implies (
            #[trigger] longer[i]).rank() < (#[trigger] longer[j]).rank() by {
                if j == keys.len() {
                    if i < keys.len() - 1 {
                        assert(keys[i].rank() < keys[keys.len() - 1].rank());
                    }
                } else {
                    assert(keys[i].rank() < keys[j].rank());
                }
            }
            assert forall|x: K| #[trigger] longer.contains(x) == set.insert(k).contains(x) by {
                lemma_push_contains(keys, k, x);
            }
            assert(lists(longer, set.insert(k)));
        } else {
            if last.rank() == k.rank() {
                K::rank_is_injective(last, k);
            }
            let shorter = keys.drop_last();
            let fewer = set.remove(last);
            assert(keys =~= shorter.push(last));
            assert(ascending(shorter)) by {
                assert forall|i: int, j: int| 0 <= i < j < shorter.len() implies (
                #[trigger] shorter[i]).rank() < (#[trigger] shorter[j]).rank() by {
                    assert(keys[i].rank() < keys[j].rank());
                }
            }
            assert forall|x: K| #[trigger] shorter.contains(x) == fewer.contains(x) by {
                lemma_push_contains(shorter, last, x);
                if shorter.contains(x) {
                    let i = choose|n: int| 0 <= n < shorter.len() && shorter[n] == x;
                    assert(keys[i].rank() < keys[keys.len() - 1].rank());
                }
            }
            lemma_listing_inserted(shorter, fewer, k);
            let middle = choose|longer: Seq<K>| lists(longer, fewer.insert(k));
            let longer = middle.push(last);
            assert forall|i: int, j: int| 0 <= i < j < longer.len() implies (
            #[trigger] longer[i]).rank() < (#[trigger] longer[j]).rank() by {
                if j == middle.len() {
                    let x = middle[i];
                    assert(middle.contains(x));
                    assert(fewer.insert(k).contains(x));
                    if x != k {
                        assert(shorter.contains(x));
                        let n = choose|n: int| 0 <= n < shorter.len() && shorter[n] == x;
                        assert(keys[n].rank() < keys[keys.len() - 1].rank());
                    }
                } else {
                    assert(middle[i].rank() < middle[j].rank());
                }
            }
            assert forall|x: K| #[trigger] longer.contains(x) == set.insert(k).contains(x) by {
                lemma_push_contains(middle, last, x);
                assert(middle.contains(x) == fewer.insert(k).contains(x));
            }
            assert(lists(longer, set.insert(k)));
        }
    }
}

/// Appending adds one member.
pub proof fn lemma_push_contains<K>(keys: Seq<K>, k: K, x: K)
    ensures
        keys.push(k).contains(x) <==> keys.contains(x) || x == k,
{
    let longer = keys.push(k);
    if keys.contains(x) {
        let i = choose|n: int| 0 <= n < keys.len() && keys[n] == x;
        assert(longer[i] == x);
    }
    if x == k {
        assert(longer[keys.len() as int] == x);
    }
    if longer.contains(x) {
        let i = choose|n: int| 0 <= n < longer.len() && longer[n] == x;
        if i < keys.len() {
            assert(keys[i] == x);
        }
    }
}

/// Whatever lists a set is its listing.
pub proof fn lemma_listing<K: Rank>(keys: Seq<K>, set: Set<K>)
    requires
        lists(keys, set),
    ensures
        listing(set) == keys,
{
    lemma_ascending_unique(listing(set), keys);
}

/// A map from `K` to `V`, sorted by key.
pub struct OrdMap<K, V> {
    entries: Vec<(K, V)>,
}

impl<K: Rank, V> View for OrdMap<K, V> {
    type V = Map<K, V>;

    closed spec fn view(&self) -> Map<K, V> {
        Map::new(
            |k: K| self.keys().contains(k),
            |k: K| self.entries@[self.keys().index_of(k)].1,
        )
    }
}

impl<K: Rank, V> OrdMap<K, V> {
    /// The keys in ascending order.
    pub closed spec fn keys(&self) -> Seq<K> {
        Seq::new(self.entries@.len(), |i: int| self.entries@[i].0)
    }

    /// Whether the entries are sorted without repetition.
    pub closed spec fn wf(&self) -> bool {
        ascending(self.keys())
    }

    /// The keys of a well-formed map are sorted and are exactly the domain of its view.
    pub proof fn lemma_keys(&self)
        requires
            self.wf(),
        ensures
            ascending(self.keys()),
            self.keys().no_duplicates(),
            forall|k: K| #[trigger] self.keys().contains(k) <==> self@.dom().contains(k),
            forall|i: int|
                0 <= i < self.keys().len() ==> self@.dom().contains(#[trigger] self.keys()[i]),
            self@.dom().finite(),
            self@.dom().len() == self.keys().len(),
            self.keys() == listing(self@.dom()),
    {
        let keys = self.keys();
        assert forall|i: int, j: int| 0 <= i < keys.len() && 0 <= j < keys.len() && i != j implies
            keys[i] != keys[j] by {
            if i < j {
                assert(keys[i].rank() < keys[j].rank());
            } else {
                assert(keys[j].rank() < keys[i].rank());
            }
        }
        assert(self@.dom() =~= keys.to_set());
        keys.unique_seq_to_set();
        vstd::seq_lib::seq_to_set_is_finite(keys);
        lemma_listing(keys, self@.dom());
    }

    /// The entry at position `i` is what the view maps its key to.
    proof fn lemma_at(&self, i: int)
        requires
            self.wf(),
            0 <= i < self.entries@.len(),
        ensures
            self@.dom().contains(self.entries@[i].0),
            self@[self.entries@[i].0] == self.entries@[i].1,
    {
        let keys = self.keys();
        let k = self.entries@[i].0;
        assert(keys[i] == k);
        assert(keys.contains(k));
        let j = keys.index_of(k);
        if i < j {
            assert(keys[i].rank() < keys[j].rank());
        }
        if j < i {
            assert(keys[j].rank() < keys[i].rank());
        }
    }

    /// An empty map.
    pub fn new() -> (r: Self)
        ensures
            r.wf(),
            r@ == Map::<K, V>::empty(),
            r.keys().len() == 0,
    {
        let r = OrdMap { entries: Vec::new() };
        assert(r@ =~= Map::<K, V>::empty());
        r
    }

    /// Number of entries.
    pub fn len(&self) -> (r: usize)
        ensures
            r == self.keys().len(),
    {
        self.entries.len()
    }

    /// Position of the first entry whose key does not precede `key`.
    fn position(&self, key: &K) -> (r: usize)
        requires
            self.wf(),
        ensures
            r <= self.entries@.len(),
            forall|i: int| 0 <= i < r ==> (#[trigger] self.entries@[i]).0.rank() < key.rank(),
            forall|i: int|
                r <= i < self.entries@.len() ==> (#[trigger] self.entries@[i]).0.rank()
                    >= key.rank(),
    {
        let mut lo: usize = 0;
        let mut hi: usize = self.entries.len();
        while lo < hi
            invariant
                self.wf(),
                lo <= hi <= self.entries@.len(),
                forall|i: int| 0 <= i < lo ==> (#[trigger] self.entries@[i]).0.rank() < key.rank(),
                forall|i: int|
                    hi <= i < self.entries@.len() ==> (#[trigger] self.entries@[i]).0.rank()
                        >= key.rank(),
            decreases hi - lo,
        {
            let mid: usize = lo + (hi - lo) / 2;
            let ghost keys = self.keys();
            assert(keys[mid as int] == self.entries@[mid as int].0);
            if self.entries[mid].0.precedes(key) {
                assert forall|i: int| 0 <= i < mid + 1 implies (
                #[trigger] self.entries@[i]).0.rank() < key.rank() by {
                    if i < mid {
                        assert(keys[i].rank() < keys[mid as int].rank());
                    }
                }
                lo = mid + 1;
            } else {
                assert forall|i: int| mid <= i < self.entries@.len() implies (
                #[trigger] self.entries@[i]).0.rank() >= key.rank() by {
                    if i > mid {
                        assert(keys[mid as int].rank() < keys[i].rank());
                    }
                }
                hi = mid;
            }
        }
        lo
    }

    /// Position of `key`, if it is present.
    fn find(&self, key: &K) -> (r: Option<usize>)
        requires
            self.wf(),
        ensures
            match r {
                Some(i) => i < self.entries@.len() && self.entries@[i as int].0 == *key
                    && self@.dom().contains(*key) && self@[*key] == self.entries@[i as int].1,
                None => !self@.dom().contains(*key),
            },
    {
        let i = self.position(key);
        if i < self.entries.len() && !key.precedes(&self.entries[i].0) {
            proof {
                assert(self.entries@[i as int].0.rank() == key.rank());
                K::rank_is_injective(self.entries@[i as int].0, *key);
                self.lemma_at(i as int);
            }
            Some(i)
        } else {
            proof {
                if self.keys().contains(*key) {
                    let j = self.keys().index_of(*key);
                    assert(self.entries@[j].0 == *key);
                    if i < j {
                        assert(self.keys()[i as int].rank() < self.keys()[j].rank());
                    }
                }
            }
            None
        }
    }

    /// Whether `key` is present.
    pub fn contains(&self, key: &K) -> (r: bool)
        requires
            self.wf(),
        ensures
            r == self@.dom().contains(*key),
    {
        match self.find(key) {
            Some(_) => true,
            None => false,
        }
    }

    /// The value of `key`.
    pub fn get(&self, key: &K) -> (r: Option<&V>)
        requires
            self.wf(),
        ensures
            match r {
                Some(v) => self@.dom().contains(*key) && *v == self@[*key],
                None => !self@.dom().contains(*key),
            },
    {
        match self.find(key) {
            Some(i) => Some(&self.entries[i].1),
            None => None,
        }
    }

    /// The key at position `i` of the ascending order.
    pub fn key_at(&self, i: usize) -> (r: K)
        requires
            i < self.keys().len(),
        ensures
            r == self.keys()[i as int],
    {
        self.entries[i].0
    }

    /// The value at position `i` of the ascending order.
    pub fn value_at(&self, i: usize) -> (r: &V)
        requires
            self.wf(),
            i < self.keys().len(),
        ensures
            *r == self@[self.keys()[i as int]],
    {
        proof {
            self.lemma_at(i as int);
        }
        &self.entries[i].1
    }

    /// Maps `key` to `value` and returns what it was mapped to before.
    pub fn insert(&mut self, key: K, value: V) -> (r: Option<V>)
        requires
            old(self).wf(),
        ensures
            final(self).wf(),
            final(self)@ == old(self)@.insert(key, value),
            match r {
                Some(v) => old(self)@.dom().contains(key) && v == old(self)@[key],
                None => !old(self)@.dom().contains(key),
            },
    {
        let ghost before = *self;
        let found = self.find(&key);
        match found {
            Some(i) => {
                let removed = self.entries.remove(i);
                self.entries.insert(i, (key, value));
                proof {
                    assert(self.entries@ =~= before.entries@.update(i as int, (key, value)));
                    self.lemma_updated(before, i as int, value);
                }
                Some(removed.1)
            },
            None => {
                let i = self.position(&key);
                self.entries.insert(i, (key, value));
                proof {
                    self.lemma_inserted(before, i as int, key, value);
                }
                None
            },
        }
    }

    /// Replacing the value at a position keeps the keys and changes one mapping.
    proof fn lemma_updated(&self, before: Self, i: int, value: V)
        requires
            before.wf(),
            0 <= i < before.entries@.len(),
            self.entries@ == before.entries@.update(i, (before.entries@[i].0, value)),
        ensures
            self.wf(),
            self.keys() == before.keys(),
            self@ == before@.insert(before.entries@[i].0, value),
    {
        let key = before.entries@[i].0;
        assert(self.keys() =~= before.keys());
        before.lemma_at(i);
        self.lemma_at(i);
        assert forall|k: K| #[trigger] self@.dom().contains(k) implies self@[k] == before@.insert(
            key,
            value,
        )[k] by {
            let j = self.keys().index_of(k);
            assert(self.keys()[j] == k);
            assert(self.entries@[j].0 == k);
            self.lemma_at(j);
            before.lemma_at(j);
        }
        assert(self@ =~= before@.insert(key, value));
    }

    /// Inserting a new key at its position keeps the order and adds one mapping.
    proof fn lemma_inserted(&self, before: Self, i: int, key: K, value: V)
        requires
            before.wf(),
            !before@.dom().contains(key),
            0 <= i <= before.entries@.len(),
            forall|j: int| 0 <= j < i ==> (#[trigger] before.entries@[j]).0.rank() < key.rank(),
            forall|j: int|
                i <= j < before.entries@.len() ==> (#[trigger] before.entries@[j]).0.rank()
                    >= key.rank(),
            self.entries@ == before.entries@.insert(i, (key, value)),
        ensures
            self.wf(),
            self@ == before@.insert(key, value),
    {
        let old_keys = before.keys();
        let keys = self.keys();
        assert forall|j: int| i <= j < before.entries@.len() implies (
        #[trigger] before.entries@[j]).0.rank() > key.rank() by {
            if before.entries@[j].0.rank() == key.rank() {
                K::rank_is_injective(before.entries@[j].0, key);
                before.lemma_at(j);
            }
        }
        assert forall|a: int, b: int| 0 <= a < b < keys.len() implies (#[trigger] keys[a]).rank()
            < (#[trigger] keys[b]).rank() by {
            let a0 = if a < i { a } else { a - 1 };
            let b0 = if b < i { b } else { b - 1 };
            if a != i {
                assert(keys[a] == before.entries@[a0].0);
            }
            if b != i {
                assert(keys[b] == before.entries@[b0].0);
            }
            if a != i && b != i {
                assert(old_keys[a0].rank() < old_keys[b0].rank());
            }
        }
        assert(self.wf());
        assert forall|k: K| self@.dom().contains(k) == before@.insert(key, value).dom().contains(
            k,
        ) by {
            if self.keys().contains(k) {
                let j = keys.index_of(k);
                if j != i {
                    before.lemma_at(if j < i { j } else { j - 1 });
                }
            }
            if before.keys().contains(k) {
                let j = old_keys.index_of(k);
                self.lemma_at(if j < i { j } else { j + 1 });
            }
            self.lemma_at(i);
        }
        assert forall|k: K| #[trigger] self@.dom().contains(k) implies self@[k]
            == before@.insert(key, value)[k] by {
            let j = keys.index_of(k);
            self.lemma_at(j);
            if j != i {
                before.lemma_at(if j < i { j } else { j - 1 });
            }
        }
        assert(self@ =~= before@.insert(key, value));
    }

    /// Removes `key` and returns what it was mapped to.
    pub fn remove(&mut self, key: &K) -> (r: Option<V>)
        requires
            old(self).wf(),
        ensures
            final(self).wf(),
            final(self)@ == old(self)@.remove(*key),
            match r {
                Some(v) => old(self)@.dom().contains(*key) && v == old(self)@[*key],
                None => !old(self)@.dom().contains(*key) && *final(self) == *old(self),
            },
    {
        let ghost before = *self;
        let found = self.find(key);
        match found {
            Some(i) => {
                let removed = self.entries.remove(i);
                proof {
                    self.lemma_removed(before, i as int);
                }
                Some(removed.1)
            },
            None => {
                assert(self@ =~= before@.remove(*key));
                None
            },
        }
    }

    /// Removing the entry at a position keeps the order and removes one mapping.
    proof fn lemma_removed(&self, before: Self, i: int)
        requires
            before.wf(),
            0 <= i < before.entries@.len(),
            self.entries@ == before.entries@.remove(i),
        ensures
            self.wf(),
            self@ == before@.remove(before.entries@[i].0),
            self.keys() == before.keys().remove(i),
    {
        let key = before.entries@[i].0;
        let old_keys = before.keys();
        let keys = self.keys();
        assert(keys =~= old_keys.remove(i));
        assert forall|a: int, b: int| 0 <= a < b < keys.len() implies (#[trigger] keys[a]).rank()
            < (#[trigger] keys[b]).rank() by {
            let a0 = if a < i { a } else { a + 1 };
            let b0 = if b < i { b } else { b + 1 };
            assert(old_keys[a0].rank() < old_keys[b0].rank());
        }
        assert(self.wf());
        before.lemma_at(i);
        assert forall|k: K| self@.dom().contains(k) == before@.remove(key).dom().contains(k) by {
            if keys.contains(k) {
                let j = keys.index_of(k);
                let j0 = if j < i { j } else { j + 1 };
                before.lemma_at(j0);
                if j0 < i {
                    assert(old_keys[j0].rank() < old_keys[i].rank());
                } else {
                    assert(old_keys[i].rank() < old_keys[j0].rank());
                }
            }
            if before.keys().contains(k) && k != key {
                let j = old_keys.index_of(k);
                assert(j != i);
                self.lemma_at(if j < i { j } else { j - 1 });
            }
        }
        assert forall|k: K| #[trigger] self@.dom().contains(k) implies self@[k] == before@.remove(
            key,
        )[k] by {
            let j = keys.index_of(k);
            self.lemma_at(j);
            before.lemma_at(if j < i { j } else { j + 1 });
        }
        assert(self@ =~= before@.remove(key));
    }

    /// Removes and returns the entry with the lowest key.
    pub fn pop_first(&mut self) -> (r: Option<(K, V)>)
        requires
            old(self).wf(),
        ensures
            final(self).wf(),
            match r {
                Some(kv) => {
                    &&& old(self).keys().len() > 0
                    &&& kv.0 == old(self).keys()[0]
                    &&& kv.1 == old(self)@[kv.0]
                    &&& final(self)@ == old(self)@.remove(kv.0)
                    &&& final(self).keys() == old(self).keys().drop_first()
                },
                None => old(self).keys().len() == 0 && *final(self) == *old(self),
            },
    {
        if self.entries.len() == 0 {
            return None;
        }
        let ghost before = *self;
        let first = self.entries.remove(0);
        proof {
            before.lemma_at(0);
            self.lemma_removed(before, 0);
            assert(before.keys().remove(0) =~= before.keys().drop_first());
        }
        Some(first)
    }

    /// A mutable reference to the value of `key`.
    pub fn get_mut(&mut self, key: &K) -> (r: Option<&mut V>)
        requires
            old(self).wf(),
        ensures
            match r {
                Some(v) => {
                    &&& old(self)@.dom().contains(*key)
                    &&& *v == old(self)@[*key]
                    &&& final(self).keys() == old(self).keys()
                    &&& final(self)@ == old(self)@.insert(*key, *final(v))
                    &&& final(self).wf()
                },
                None => !old(self)@.dom().contains(*key) && *final(self) == *old(self),
            },
    {
        let ghost before = *self;
        match self.find(key) {
            Some(i) => {
                proof {
                    assert forall|after: Self, e: (K, V)|
                        #![trigger after.keys(), before.entries@.update(i as int, e)]
                        after.entries@ == before.entries@.update(i as int, e) && e.0
                            == *key implies {
                        &&& after.wf()
                        &&& after.keys() == before.keys()
                        &&& after@ == before@.insert(*key, e.1)
                    } by {
                        after.lemma_updated(before, i as int, e.1);
                    }
                }
                let entry = &mut self.entries[i];
                Some(&mut entry.1)
            },
            None => None,
        }
    }
}

} // verus!

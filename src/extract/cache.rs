//! A bounded cache with expiry, for results of costly outside calls such as
//! summaries. Entries expire a fixed time after insertion; when the cache is
//! full, inserting a new key first evicts the oldest entry.
use std::time::{Duration, Instant};
use vstd::prelude::*;
use vstd::utf8::encode_utf8;

use crate::loader::document::{hex_encode, hex_of, sha256, sha256_of};
use crate::text::{push_bytes, str_eq};

verus! {

#[verifier::external_type_specification]
#[verifier::external_body]
pub struct ExInstant(Instant);

/// Relies on `Instant::now`: the current instant of the monotonic clock.
#[verifier::external_body]
fn instant_now() -> (r: Instant) {
    Instant::now()
}

/// Relies on `Instant::elapsed` and `Duration::as_millis`: the whole
/// milliseconds since `origin`. Nothing is assumed of the value.
#[verifier::external_body]
fn millis_since(origin: &Instant) -> (r: u128) {
    origin.elapsed().as_millis()
}

/// Relies on `Duration::as_millis`: the whole milliseconds of `d`. Nothing is
/// assumed of the value.
#[verifier::external_body]
fn duration_millis(d: &Duration) -> (r: u128) {
    d.as_millis()
}

/// Counters of cache activity.
#[derive(Clone, Copy, Debug, PartialEq, Eq, Structural)]
pub struct CacheStats {
    pub hits: u64,
    pub misses: u64,
    pub evictions: u64,
    pub expirations: u64,
}

impl Default for CacheStats {
    fn default() -> (r: Self)
        ensures
            r == (CacheStats { hits: 0, misses: 0, evictions: 0, expirations: 0 }),
    {
        CacheStats { hits: 0, misses: 0, evictions: 0, expirations: 0 }
    }
}

/// `x + 1`, staying at `u64::MAX`.
pub open spec fn bump(x: u64) -> u64 {
    if x < u64::MAX {
        (x + 1) as u64
    } else {
        x
    }
}

fn bump_exec(x: u64) -> (r: u64)
    ensures
        r == bump(x),
{
    if x < u64::MAX {
        x + 1
    } else {
        x
    }
}

/// A cached value and when it was stored, in milliseconds of the cache's clock.
pub struct CacheSlot<V> {
    pub value: V,
    pub created_at: u128,
}

struct CacheEntry<V> {
    key: String,
    value: V,
    created_at: u128,
}

/// Whether an entry stored at `created_at` has expired at `now`: more than
/// `ttl` milliseconds have passed.
pub open spec fn expired(now: u128, created_at: u128, ttl: u128) -> bool {
    now > created_at && now - created_at > ttl
}

/// A cache of at most `max_size` entries (when `max_size` is at least 1)
/// keyed by string, whose entries expire `ttl` milliseconds after insertion.
pub struct LruCache<V> {
    entries: Vec<CacheEntry<V>>,
    model: Ghost<Map<Seq<char>, CacheSlot<V>>>,
    max_size: usize,
    ttl_millis: u128,
    stats: CacheStats,
    origin: Instant,
}

impl<V> View for LruCache<V> {
    type V = Map<Seq<char>, CacheSlot<V>>;

    closed spec fn view(&self) -> Map<Seq<char>, CacheSlot<V>> {
        self.model@
    }
}

impl<V> LruCache<V> {
    /// The entries hold distinct keys and agree with the map they stand for.
    pub closed spec fn wf(&self) -> bool {
        &&& forall|i: int, j: int|
            0 <= i < j < self.entries@.len() ==> self.entries@[i].key@ != self.entries@[j].key@
        &&& forall|i: int|
            0 <= i < self.entries@.len() ==> #[trigger] self.model@.contains_key(
                self.entries@[i].key@,
            ) && self.model@[self.entries@[i].key@] == (CacheSlot {
                value: self.entries@[i].value,
                created_at: self.entries@[i].created_at,
            })
        &&& forall|k: Seq<char>|
            #[trigger] self.model@.contains_key(k) ==> exists|i: int|
                0 <= i < self.entries@.len() && self.entries@[i].key@ == k
        &&& self.model@.dom().finite()
        &&& self.model@.dom().len() == self.entries@.len()
    }

    /// The capacity.
    pub closed spec fn spec_max_size(&self) -> usize {
        self.max_size
    }

    /// The time to live, in milliseconds.
    pub closed spec fn spec_ttl(&self) -> u128 {
        self.ttl_millis
    }

    /// The activity counters.
    pub closed spec fn spec_stats(&self) -> CacheStats {
        self.stats
    }

    /// An empty cache of capacity `max_size` whose entries live `ttl_millis`
    /// milliseconds.
    pub fn with_ttl_millis(max_size: usize, ttl_millis: u128) -> (r: Self)
        ensures
            r.wf(),
            r@ == Map::<Seq<char>, CacheSlot<V>>::empty(),
            r.spec_max_size() == max_size,
            r.spec_ttl() == ttl_millis,
            r.spec_stats() == (CacheStats { hits: 0, misses: 0, evictions: 0, expirations: 0 }),
    {
        LruCache {
            entries: Vec::new(),
            model: Ghost(Map::empty()),
            max_size,
            ttl_millis,
            stats: CacheStats { hits: 0, misses: 0, evictions: 0, expirations: 0 },
            origin: instant_now(),
        }
    }

    /// An empty cache of capacity `max_size` whose entries live for `ttl`.
    pub fn new(max_size: usize, ttl: Duration) -> (r: Self)
        ensures
            r.wf(),
            r@ == Map::<Seq<char>, CacheSlot<V>>::empty(),
            r.spec_max_size() == max_size,
            r.spec_stats() == (CacheStats { hits: 0, misses: 0, evictions: 0, expirations: 0 }),
    {
        Self::with_ttl_millis(max_size, duration_millis(&ttl))
    }

    /// An empty cache of 100 entries that live one hour.
    pub fn default_settings() -> (r: Self)
        ensures
            r.wf(),
            r@ == Map::<Seq<char>, CacheSlot<V>>::empty(),
            r.spec_max_size() == 100,
            r.spec_ttl() == 3_600_000,
            r.spec_stats() == (CacheStats { hits: 0, misses: 0, evictions: 0, expirations: 0 }),
    {
        Self::with_ttl_millis(100, 3_600_000)
    }

    /// The current time of the cache's clock, in milliseconds.
    fn clock(&self) -> u128 {
        millis_since(&self.origin)
    }

    fn find(&self, key: &str) -> (r: Option<usize>)
        requires
            self.wf(),
        ensures
            match r {
                Some(i) => i < self.entries@.len() && self.entries@[i as int].key@ == key@
                    && self@.contains_key(key@),
                None => !self@.contains_key(key@),
            },
    {
        let mut i: usize = 0;
        while i < self.entries.len()
            invariant
                i <= self.entries@.len(),
                self.wf(),
                forall|j: int| 0 <= j < i ==> self.entries@[j].key@ != key@,
            decreases self.entries@.len() - i,
        {
            if str_eq(self.entries[i].key.as_str(), key) {
                assert(self.model@.contains_key(self.entries@[i as int].key@));
                return Some(i);
            }
            i = i + 1;
        }
        None
    }

    /// Removes the entry at position `i` and hands back its value.
    fn remove_at(&mut self, i: usize) -> (r: V)
        requires
            old(self).wf(),
            i < old(self).entries@.len(),
        ensures
            final(self).wf(),
            final(self)@ == old(self)@.remove(old(self).entries@[i as int].key@),
            r == old(self)@[old(self).entries@[i as int].key@].value,
            final(self).entries@ == old(self).entries@.remove(i as int),
            final(self).max_size == old(self).max_size,
            final(self).ttl_millis == old(self).ttl_millis,
            final(self).stats == old(self).stats,
    {
        let ghost key = self.entries@[i as int].key@;
        let ghost m = self.model@.remove(key);
        let ghost old_entries = self.entries@;
        proof {
            assert(self.model@.contains_key(key));
        }
        let e = self.entries.remove(i);
        self.model = Ghost(m);
        proof {
            assert forall|k2: Seq<char>| #[trigger] m.contains_key(k2) implies exists|j: int|
                0 <= j < self.entries@.len() && self.entries@[j].key@ == k2 by {
                let j = choose|j: int| 0 <= j < old_entries.len() && old_entries[j].key@ == k2;
                if j < i {
                    assert(self.entries@[j].key@ == k2);
                } else {
                    assert(self.entries@[j - 1].key@ == k2);
                }
            }
            assert forall|a: int, b: int|
                0 <= a < b < self.entries@.len() implies self.entries@[a].key@
                != self.entries@[b].key@ by {
                let oa = if a < i { a } else { a + 1 };
                let ob = if b < i { b } else { b + 1 };
                assert(self.entries@[a] == old_entries[oa]);
                assert(self.entries@[b] == old_entries[ob]);
            }
            assert forall|a: int| 0 <= a < self.entries@.len() implies #[trigger] m.contains_key(
                self.entries@[a].key@,
            ) && m[self.entries@[a].key@] == (CacheSlot {
                value: self.entries@[a].value,
                created_at: self.entries@[a].created_at,
            }) by {
                let oa = if a < i { a } else { a + 1 };
                assert(self.entries@[a] == old_entries[oa]);
                assert(old(self).model@.contains_key(old_entries[oa].key@));
                assert(old_entries[oa].key@ != old_entries[i as int].key@);
            }
        }
        e.value
    }

    /// Stores `value` under `key` at time `now`, replacing any entry of that key.
    fn put(&mut self, key: String, value: V, now: u128)
        requires
            old(self).wf(),
        ensures
            final(self).wf(),
            final(self)@ == old(self)@.insert(key@, CacheSlot { value, created_at: now }),
            final(self).max_size == old(self).max_size,
            final(self).ttl_millis == old(self).ttl_millis,
            final(self).stats == old(self).stats,
    {
        let ghost slot = CacheSlot { value, created_at: now };
        let ghost m = self.model@.insert(key@, slot);
        let ghost old_entries = self.entries@;
        match self.find(key.as_str()) {
            Some(i) => {
                self.entries.set(i, CacheEntry { key, value, created_at: now });
                self.model = Ghost(m);
                proof {
                    assert(m.dom() =~= old(self).model@.dom());
                    assert forall|a: int| 0 <= a < self.entries@.len() implies self.entries@[a].key@
                        == old_entries[a].key@ by {}
                    assert forall|a: int| 0 <= a < self.entries@.len() implies #[trigger] m.contains_key(
                        self.entries@[a].key@,
                    ) && m[self.entries@[a].key@] == (CacheSlot {
                        value: self.entries@[a].value,
                        created_at: self.entries@[a].created_at,
                    }) by {
                        assert(old(self).model@.contains_key(old_entries[a].key@));
                    }
                    assert forall|k2: Seq<char>| #[trigger] m.contains_key(k2) implies exists|j: int|
                        0 <= j < self.entries@.len() && self.entries@[j].key@ == k2 by {
                        let j = choose|j: int|
                            0 <= j < old_entries.len() && old_entries[j].key@ == k2;
                        assert(self.entries@[j].key@ == k2);
                    }
                }
            },
            None => {
                let ghost k = key@;
                self.entries.push(CacheEntry { key, value, created_at: now });
                self.model = Ghost(m);
                proof {
                    let n = old_entries.len() as int;
                    assert(self.entries@[n].key@ == k);
                    assert(m.dom() =~= old(self).model@.dom().insert(k));
                    assert forall|a: int| 0 <= a < n implies old_entries[a].key@ != k by {
                        assert(old(self).model@.contains_key(old_entries[a].key@));
                    }
                    assert forall|a: int, b: int|
                        0 <= a < b < self.entries@.len() implies self.entries@[a].key@
                        != self.entries@[b].key@ by {
                        assert(self.entries@[a] == old_entries[a]);
                        if b < n {
                            assert(self.entries@[b] == old_entries[b]);
                        }
                    }
                    assert forall|a: int| 0 <= a < self.entries@.len() implies #[trigger] m.contains_key(
                        self.entries@[a].key@,
                    ) && m[self.entries@[a].key@] == (CacheSlot {
                        value: self.entries@[a].value,
                        created_at: self.entries@[a].created_at,
                    }) by {
                        if a < n {
                            assert(self.entries@[a] == old_entries[a]);
                            assert(old(self).model@.contains_key(old_entries[a].key@));
                        }
                    }
                    assert forall|k2: Seq<char>| #[trigger] m.contains_key(k2) implies exists|j: int|
                        0 <= j < self.entries@.len() && self.entries@[j].key@ == k2 by {
                        if k2 != k {
                            let j = choose|j: int|
                                0 <= j < old_entries.len() && old_entries[j].key@ == k2;
                            assert(self.entries@[j].key@ == k2);
                        }
                    }
                }
            },
        }
    }
}

/// `x + n`, staying at `u64::MAX`.
pub open spec fn add_capped(x: u64, n: int) -> u64 {
    if x + n <= u64::MAX {
        (x + n) as u64
    } else {
        u64::MAX
    }
}

/// The key under which a summary of `content` by `model` is cached: the
/// hexadecimal SHA-256 digest of the content followed by the model name.
pub open spec fn summary_key(content: Seq<char>, model: Seq<char>) -> Seq<char> {
    hex_of(sha256_of(encode_utf8(content) + encode_utf8(model)))
}

impl<V> LruCache<V> {
    /// The oldest entry's key: stored no later than any other.
    pub open spec fn is_oldest(&self, k: Seq<char>) -> bool {
        &&& self@.contains_key(k)
        &&& forall|k2: Seq<char>|
            #[trigger] self@.contains_key(k2) ==> self@[k].created_at <= self@[k2].created_at
    }

    /// `after` is this cache after storing `value` under `key` at `now`.
    pub open spec fn stored(self, after: Self, key: Seq<char>, value: V, now: u128) -> bool {
        let slot = CacheSlot { value, created_at: now };
        let st = self.spec_stats();
        &&& after.wf()
        &&& after.spec_max_size() == self.spec_max_size()
        &&& after.spec_ttl() == self.spec_ttl()
        &&& if self@.contains_key(key) || self@.dom().len() < self.spec_max_size()
            || self@.dom().len() == 0 {
            after@ == self@.insert(key, slot) && after.spec_stats() == st
        } else {
            exists|victim: Seq<char>|
                #[trigger] self.is_oldest(victim) && after@ == self@.remove(victim).insert(key, slot)
                    && after.spec_stats() == (CacheStats { evictions: bump(st.evictions), ..st })
        }
    }

    /// Generates the cache key of `content` read by `model`: the hexadecimal
    /// SHA-256 digest of the two, one after the other.
    pub fn generate_key(content: &str, model: &str) -> (r: String)
        ensures
            r@ == summary_key(content@, model@),
    {
        let mut data: Vec<u8> = Vec::new();
        push_bytes(&mut data, content.as_bytes());
        push_bytes(&mut data, model.as_bytes());
        let digest = sha256(data.as_slice());
        hex_encode(digest.as_slice())
    }

    /// Evicts the entry stored earliest (the first such one in insertion
    /// order); no effect on an empty cache.
    fn evict_oldest(&mut self)
        requires
            old(self).wf(),
        ensures
            final(self).wf(),
            final(self).max_size == old(self).max_size,
            final(self).ttl_millis == old(self).ttl_millis,
            old(self)@.dom().len() == 0 ==> final(self)@ == old(self)@ && final(self).stats
                == old(self).stats,
            old(self)@.dom().len() > 0 ==> exists|victim: Seq<char>|
                #[trigger] old(self).is_oldest(victim) && final(self)@ == old(self)@.remove(victim)
                    && final(self).stats == (CacheStats {
                    evictions: bump(old(self).stats.evictions),
                    ..old(self).stats
                }),
    {
        if self.entries.len() == 0 {
            assert(self.wf());
            return;
        }
        let mut m: usize = 0;
        let mut i: usize = 1;
        while i < self.entries.len()
            invariant
                1 <= i <= self.entries@.len(),
                m < i,
                self.wf(),
                self.entries@ == old(self).entries@,
                self.model@ == old(self).model@,
                self.stats == old(self).stats,
                self.max_size == old(self).max_size,
                self.ttl_millis == old(self).ttl_millis,
                forall|j: int| 0 <= j < i ==> self.entries@[m as int].created_at <= self.entries@[j].created_at,
            decreases self.entries@.len() - i,
        {
            if self.entries[i].created_at < self.entries[m].created_at {
                m = i;
            }
            i = i + 1;
        }
        let ghost victim = self.entries@[m as int].key@;
        proof {
            assert(self.model@.contains_key(victim));
            assert forall|k2: Seq<char>| #[trigger] self@.contains_key(k2) implies self@[victim].created_at
                <= self@[k2].created_at by {
                let j = choose|j: int| 0 <= j < self.entries@.len() && self.entries@[j].key@ == k2;
                assert(self.model@.contains_key(self.entries@[j].key@));
            }
            assert(old(self).is_oldest(victim));
        }
        self.remove_at(m);
        assert(self.wf());
        let ev = bump_exec(self.stats.evictions);
        self.stats.evictions = ev;
        assert(self.wf());
    }

    /// Stores `value` under `key` at time `now`. A new key in a full cache
    /// first evicts the oldest entry.
    pub fn insert_at(&mut self, key: String, value: V, now: u128)
        requires
            old(self).wf(),
        ensures
            old(self).stored(*final(self), key@, value, now),
    {
        let full = self.entries.len() >= self.max_size;
        if full && self.find(key.as_str()).is_none() {
            self.evict_oldest();
        }
        self.put(key, value, now);
    }

    /// Stores `value` under `key`, stamped with the current time. A new key in
    /// a full cache first evicts the oldest entry.
    pub fn insert(&mut self, key: String, value: V)
        requires
            old(self).wf(),
        ensures
            exists|now: u128| #[trigger] old(self).stored(*final(self), key@, value, now),
    {
        let now = self.clock();
        self.insert_at(key, value, now);
    }

    /// Removes the entry of `key` and hands back its value.
    pub fn remove(&mut self, key: &str) -> (r: Option<V>)
        requires
            old(self).wf(),
        ensures
            final(self).wf(),
            final(self)@ == old(self)@.remove(key@),
            final(self).spec_max_size() == old(self).spec_max_size(),
            final(self).spec_ttl() == old(self).spec_ttl(),
            final(self).spec_stats() == old(self).spec_stats(),
            old(self)@.contains_key(key@) ==> r == Some(old(self)@[key@].value),
            !old(self)@.contains_key(key@) ==> r is None,
    {
        match self.find(key) {
            Some(i) => Some(self.remove_at(i)),
            None => {
                proof {
                    assert(self.model@.remove(key@) =~= self.model@);
                }
                None
            },
        }
    }

    /// Removes every entry; the counters stay.
    pub fn clear(&mut self)
        ensures
            final(self).wf(),
            final(self)@ == Map::<Seq<char>, CacheSlot<V>>::empty(),
            final(self).spec_max_size() == old(self).spec_max_size(),
            final(self).spec_ttl() == old(self).spec_ttl(),
            final(self).spec_stats() == old(self).spec_stats(),
    {
        self.entries.clear();
        self.model = Ghost(Map::empty());
    }

    /// Number of entries.
    pub fn len(&self) -> (r: usize)
        requires
            self.wf(),
        ensures
            r == self@.dom().len(),
    {
        self.entries.len()
    }

    /// Whether the cache holds no entry.
    pub fn is_empty(&self) -> (r: bool)
        requires
            self.wf(),
        ensures
            r == (self@.dom().len() == 0),
    {
        self.len() == 0
    }

    /// The activity counters.
    pub fn stats(&self) -> (r: CacheStats)
        ensures
            r == self.spec_stats(),
    {
        self.stats
    }

    /// `after` is this cache with every entry expired at `now` removed, each
    /// counted as an expiration; nothing else changes.
    pub open spec fn cleaned(self, after: Self, now: u128) -> bool {
        &&& after.wf()
        &&& forall|k: Seq<char>|
            #[trigger] after@.contains_key(k) <==> (self@.contains_key(k) && !expired(
                now,
                self@[k].created_at,
                self.spec_ttl(),
            ))
        &&& forall|k: Seq<char>| #[trigger] after@.contains_key(k) ==> after@[k] == self@[k]
        &&& after.spec_max_size() == self.spec_max_size()
        &&& after.spec_ttl() == self.spec_ttl()
        &&& after.spec_stats() == (CacheStats {
            expirations: add_capped(self.spec_stats().expirations, self@.dom().len() - after@.dom().len()),
            ..self.spec_stats()
        })
    }

    /// Removes every entry that has expired at `now`, counting each as an
    /// expiration.
    pub fn cleanup_expired_at(&mut self, now: u128)
        requires
            old(self).wf(),
        ensures
            old(self).cleaned(*final(self), now),
    {
        let ghost m0 = self.model@;
        let ghost st0 = self.stats;
        let mut i: usize = 0;
        while i < self.entries.len()
            invariant
                i <= self.entries@.len(),
                self.wf(),
                self.max_size == old(self).max_size,
                self.ttl_millis == old(self).ttl_millis,
                m0 == old(self).model@,
                st0 == old(self).stats,
                forall|j: int| 0 <= j < i ==> !expired(now, #[trigger] self.entries@[j].created_at, self.ttl_millis),
                forall|k: Seq<char>| #[trigger] self.model@.contains_key(k) ==> m0.contains_key(k) && self.model@[k] == m0[k],
                forall|k: Seq<char>| m0.contains_key(k) && !(#[trigger] self.model@.contains_key(k)) ==> expired(now, m0[k].created_at, self.ttl_millis),
                self.model@.dom().len() <= m0.dom().len(),
                self.stats == (CacheStats {
                    expirations: add_capped(st0.expirations, m0.dom().len() - self.model@.dom().len()),
                    ..st0
                }),
            decreases self.entries@.len() - i,
        {
            if now > self.entries[i].created_at && now - self.entries[i].created_at > self.ttl_millis {
                let ghost k = self.entries@[i as int].key@;
                let ghost before = self.model@;
                let ghost before_entries = self.entries@;
                proof {
                    assert(before.contains_key(k));
                }
                self.remove_at(i);
                self.stats.expirations = bump_exec(self.stats.expirations);
                proof {
                    assert forall|j: int| 0 <= j < i implies !expired(now, #[trigger] self.entries@[j].created_at, self.ttl_millis) by {
                        assert(self.entries@[j] == before_entries[j]);
                    }
                }
            } else {
                i = i + 1;
            }
        }
        proof {
            assert forall|k: Seq<char>| m0.contains_key(k) && !expired(now, m0[k].created_at, self.ttl_millis)
                implies #[trigger] self.model@.contains_key(k) by {
                if !self.model@.contains_key(k) {
                }
            }
            assert forall|k: Seq<char>| #[trigger] self.model@.contains_key(k) implies !expired(now, m0[k].created_at, self.ttl_millis) by {
                let j = choose|j: int| 0 <= j < self.entries@.len() && self.entries@[j].key@ == k;
                assert(self.model@.contains_key(self.entries@[j].key@));
            }
        }
    }

    /// Removes every expired entry, counting each as an expiration.
    pub fn cleanup_expired(&mut self)
        requires
            old(self).wf(),
        ensures
            exists|now: u128| #[trigger] old(self).cleaned(*final(self), now),
    {
        let now = self.clock();
        self.cleanup_expired_at(now);
    }
}

impl<V> LruCache<V> {
    /// `after` is this cache after looking up `key` at `now`; `hit` says
    /// whether a live entry was found. An absent key is a miss; an expired
    /// entry is dropped and counts as a miss and an expiration; a live entry
    /// is a hit and changes nothing else.
    pub open spec fn lookup_effect(self, after: Self, key: Seq<char>, now: u128, hit: bool) -> bool {
        let st = self.spec_stats();
        &&& after.wf()
        &&& after.spec_max_size() == self.spec_max_size()
        &&& after.spec_ttl() == self.spec_ttl()
        &&& if !self@.contains_key(key) {
            !hit && after@ == self@ && after.spec_stats() == (CacheStats {
                misses: bump(st.misses),
                ..st
            })
        } else if expired(now, self@[key].created_at, self.spec_ttl()) {
            !hit && after@ == self@.remove(key) && after.spec_stats() == (CacheStats {
                misses: bump(st.misses),
                expirations: bump(st.expirations),
                ..st
            })
        } else {
            hit && after@ == self@ && after.spec_stats() == (CacheStats { hits: bump(st.hits), ..st })
        }
    }

    /// Looks up `key` at `now`, counting the outcome; the position of the
    /// live entry on a hit.
    fn lookup_at(&mut self, key: &str, now: u128) -> (r: Option<usize>)
        requires
            old(self).wf(),
        ensures
            old(self).lookup_effect(*final(self), key@, now, r is Some),
            r matches Some(i) ==> i < final(self).entries@.len() && final(self).entries@[i as int].value
                == old(self)@[key@].value,
    {
        match self.find(key) {
            None => {
                self.stats.misses = bump_exec(self.stats.misses);
                None
            },
            Some(i) => {
                let created = self.entries[i].created_at;
                if now > created && now - created > self.ttl_millis {
                    self.remove_at(i);
                    self.stats.expirations = bump_exec(self.stats.expirations);
                    self.stats.misses = bump_exec(self.stats.misses);
                    None
                } else {
                    proof {
                        assert(self.model@.contains_key(self.entries@[i as int].key@));
                    }
                    self.stats.hits = bump_exec(self.stats.hits);
                    Some(i)
                }
            },
        }
    }
}

impl<V: Clone> LruCache<V> {
    /// `after` is this cache after looking up `key` at `now`, with result `r`:
    /// a miss for an absent key; a miss that drops the entry for an expired
    /// one; otherwise a hit that hands back a clone of the value.
    pub open spec fn looked_up(self, after: Self, key: Seq<char>, now: u128, r: Option<V>) -> bool {
        &&& self.lookup_effect(after, key, now, r is Some)
        &&& r is Some ==> cloned(self@[key].value, r->0)
    }

    /// Looks up `key` at time `now`.
    pub fn get_at(&mut self, key: &str, now: u128) -> (r: Option<V>)
        requires
            old(self).wf(),
        ensures
            old(self).looked_up(*final(self), key@, now, r),
    {
        match self.lookup_at(key, now) {
            Some(i) => Some(self.entries[i].value.clone()),
            None => None,
        }
    }

    /// Looks up `key` at the current time.
    pub fn get(&mut self, key: &str) -> (r: Option<V>)
        requires
            old(self).wf(),
        ensures
            exists|now: u128| #[trigger] old(self).looked_up(*final(self), key@, now, r),
    {
        let now = self.clock();
        self.get_at(key, now)
    }
}

/// A cached summary.
#[derive(Clone, Debug)]
pub struct CachedSummary {
    pub text: String,
    pub model: String,
    pub tokens_used: Option<usize>,
}

impl CachedSummary {
    /// An exact copy.
    pub fn duplicate(&self) -> (r: Self)
        ensures
            r == *self,
    {
        CachedSummary { text: self.text.clone(), model: self.model.clone(), tokens_used: self.tokens_used }
    }
}

/// The cache of summaries, keyed by content and model.
pub type SummaryCache = LruCache<CachedSummary>;

impl LruCache<CachedSummary> {
    /// An empty summary cache of 200 entries that live two hours.
    pub fn for_summaries() -> (r: Self)
        ensures
            r.wf(),
            r@ == Map::<Seq<char>, CacheSlot<CachedSummary>>::empty(),
            r.spec_max_size() == 200,
            r.spec_ttl() == 7_200_000,
            r.spec_stats() == (CacheStats { hits: 0, misses: 0, evictions: 0, expirations: 0 }),
    {
        Self::with_ttl_millis(200, 7_200_000)
    }

    /// `after` is this cache after looking up the summary of `content` by
    /// `model` at `now`, with result `r`: as a lookup of its key, and a hit
    /// hands back the stored summary itself.
    pub open spec fn summary_looked_up(
        self,
        after: Self,
        content: Seq<char>,
        model: Seq<char>,
        now: u128,
        r: Option<CachedSummary>,
    ) -> bool {
        let key = summary_key(content, model);
        &&& self.lookup_effect(after, key, now, r is Some)
        &&& r is Some ==> r->0 == self@[key].value
    }

    /// The cached summary of `content` by `model` at time `now`, if any and
    /// not expired.
    pub fn get_summary_at(&mut self, content: &str, model: &str, now: u128) -> (r: Option<
        CachedSummary,
    >)
        requires
            old(self).wf(),
        ensures
            old(self).summary_looked_up(*final(self), content@, model@, now, r),
    {
        let key = Self::generate_key(content, model);
        match self.lookup_at(key.as_str(), now) {
            Some(i) => Some(self.entries[i].value.duplicate()),
            None => None,
        }
    }

    /// The cached summary of `content` by `model`, if any and not expired.
    pub fn get_summary(&mut self, content: &str, model: &str) -> (r: Option<CachedSummary>)
        requires
            old(self).wf(),
        ensures
            exists|now: u128|
                #[trigger] old(self).summary_looked_up(*final(self), content@, model@, now, r),
    {
        let now = self.clock();
        self.get_summary_at(content, model, now)
    }

    /// Caches `summary` as the summary of `content` by `model`.
    pub fn cache_summary(&mut self, content: &str, model: &str, summary: CachedSummary)
        requires
            old(self).wf(),
        ensures
            exists|now: u128|
                #[trigger] old(self).stored(*final(self), summary_key(content@, model@), summary, now),
    {
        let key = Self::generate_key(content, model);
        self.insert(key, summary);
    }
}

} // verus!

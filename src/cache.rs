//! A key-value store of serialized values with a memory budget, expiry and a
//! choice of eviction policy.
//!
//! Values are held as the text their owner serialized them to; typing them is
//! the caller's business. Times are whole seconds since the epoch and are
//! handed in by the caller, so that every operation is a function of its
//! arguments.
use vstd::prelude::*;
use vstd::utf8::encode_utf8;
use crate::table::{
    keyed, keys_distinct, has_key, index_of, lookup, put, without, find_key, put_key,
    lemma_index_of, lemma_put_distinct, lemma_remove_distinct,
};

verus! {

/// Bytes in a megabyte, as the budget counts them.
pub const BYTES_PER_MB: u64 = 1048576;

/// The budget of a cache made by `RedisCache::new`.
pub const DEFAULT_MEMORY_LIMIT_MB: u64 = 50;

/// A stored value with the second it was stored at and its lifetime in seconds.
#[derive(Debug, Clone)]
pub struct CacheEntry<T> {
    pub value: T,
    pub timestamp: u64,
    pub ttl: u64,
}

/// Which entry gives way when the budget would be exceeded.
#[derive(Debug, Clone, Copy, PartialEq, Eq, Structural)]
pub enum CachePolicy {
    /// The entry stored longest ago.
    AllKeysLRU,
    /// Same as `AllKeysLRU`: every entry carries a lifetime.
    VolatileLRU,
    /// The first entry in storage order.
    AllKeysRandom,
    /// Same as `AllKeysRandom`.
    VolatileRandom,
    /// The unexpired entry with the least lifetime left (an entry whose age
    /// equals its lifetime has none left and still counts); none when every
    /// entry has expired.
    VolatileTTL,
}

/// The entries of a cache, each key given by its characters.
pub type Entries = Seq<(Seq<char>, CacheEntry<String>)>;

/// What a value counts against the budget: the bytes of its UTF-8 text, as
/// `str::len` reports them.
pub open spec fn value_size(v: Seq<char>) -> nat {
    (encode_utf8(v).len() as usize) as nat
}

/// The sum of the sizes of all stored values.
pub open spec fn total_size(s: Entries) -> nat
    decreases s.len(),
{
    if s.len() == 0 {
        0
    } else {
        total_size(s.drop_last()) + value_size(s.last().1.value@)
    }
}

/// Seconds from `since` to `now`; zero where the clock reads earlier.
pub open spec fn elapsed(now: u64, since: u64) -> int {
    if now >= since {
        now - since
    } else {
        0
    }
}

/// An entry older than its lifetime counts as absent.
pub open spec fn is_expired(e: CacheEntry<String>, now: u64) -> bool {
    elapsed(now, e.timestamp) > e.ttl
}

/// An entry that time-based eviction may pick: not yet expired.
pub open spec fn has_time_left(e: CacheEntry<String>, now: u64) -> bool {
    elapsed(now, e.timestamp) <= e.ttl
}

/// Seconds of lifetime left.
pub open spec fn time_left(e: CacheEntry<String>, now: u64) -> int {
    e.ttl - elapsed(now, e.timestamp)
}

/// Position `i` holds the first of the oldest entries.
pub open spec fn is_oldest(s: Entries, i: int) -> bool {
    &&& 0 <= i < s.len()
    &&& forall|j: int| 0 <= j < s.len() ==> s[i].1.timestamp <= #[trigger] s[j].1.timestamp
    &&& forall|j: int| 0 <= j < i ==> s[i].1.timestamp < #[trigger] s[j].1.timestamp
}

/// Position `i` holds the first of the live entries with the least lifetime left.
pub open spec fn is_soonest_to_expire(s: Entries, now: u64, i: int) -> bool {
    &&& 0 <= i < s.len()
    &&& has_time_left(s[i].1, now)
    &&& forall|j: int|
        0 <= j < s.len() && has_time_left(#[trigger] s[j].1, now) ==> time_left(s[i].1, now)
            <= time_left(s[j].1, now)
    &&& forall|j: int|
        0 <= j < i && has_time_left(#[trigger] s[j].1, now) ==> time_left(s[i].1, now)
            < time_left(s[j].1, now)
}

/// Position `i` holds the entry that `policy` evicts at second `now`.
pub open spec fn is_victim(policy: CachePolicy, s: Entries, now: u64, i: int) -> bool {
    match policy {
        CachePolicy::AllKeysLRU | CachePolicy::VolatileLRU => is_oldest(s, i),
        CachePolicy::AllKeysRandom | CachePolicy::VolatileRandom => 0 == i < s.len(),
        CachePolicy::VolatileTTL => is_soonest_to_expire(s, now, i),
    }
}

/// Some entry is to be evicted.
pub open spec fn has_victim(policy: CachePolicy, s: Entries, now: u64) -> bool {
    exists|i: int| is_victim(policy, s, now, i)
}

/// The entries once `policy` has evicted its victim, if it has one.
pub open spec fn after_eviction(policy: CachePolicy, s: Entries, now: u64) -> Entries {
    if has_victim(policy, s, now) {
        s.remove(choose|i: int| is_victim(policy, s, now, i))
    } else {
        s
    }
}

/// A value of `size` bytes may join `usage` bytes under a budget of `limit_mb`.
pub open spec fn fits(usage: nat, size: nat, limit_mb: u64) -> bool {
    usage / (BYTES_PER_MB as nat) + size / (BYTES_PER_MB as nat) <= limit_mb
}

/// The entries after storing `e` under `k`, evicting once first where it would not fit.
pub open spec fn after_set(
    policy: CachePolicy,
    limit_mb: u64,
    s: Entries,
    k: Seq<char>,
    e: CacheEntry<String>,
) -> Entries {
    let room = if fits(total_size(s), value_size(e.value@), limit_mb) {
        s
    } else {
        after_eviction(policy, s, e.timestamp)
    };
    put(room, k, e)
}

/// The value stored under `k` at second `now`, unless absent or expired.
pub open spec fn live_value(s: Entries, k: Seq<char>, now: u64) -> Option<String> {
    match lookup(s, k) {
        Some(e) => if is_expired(e, now) {
            None
        } else {
            Some(e.value)
        },
        None => None,
    }
}

/// The entries after reading `k` at second `now`: an expired entry is dropped.
pub open spec fn after_get(s: Entries, k: Seq<char>, now: u64) -> Entries {
    match lookup(s, k) {
        Some(e) => if is_expired(e, now) {
            without(s, k)
        } else {
            s
        },
        None => s,
    }
}

/// Each policy names at most one victim.
pub proof fn lemma_victim_unique(policy: CachePolicy, s: Entries, now: u64, i: int, j: int)
    requires
        is_victim(policy, s, now, i),
        is_victim(policy, s, now, j),
    ensures
        i == j,
{
    match policy {
        CachePolicy::AllKeysLRU | CachePolicy::VolatileLRU => {
            if i < j {
                assert(s[j].1.timestamp < s[i].1.timestamp);
            } else if j < i {
                assert(s[i].1.timestamp < s[j].1.timestamp);
            }
        },
        CachePolicy::AllKeysRandom | CachePolicy::VolatileRandom => {},
        CachePolicy::VolatileTTL => {
            if i < j {
                assert(has_time_left(s[i].1, now));
            } else if j < i {
                assert(has_time_left(s[j].1, now));
            }
        },
    }
}

/// A value stored at `now` reads back at once; once more than its lifetime
/// has passed it reads as absent, and the read drops it from the entries.
pub proof fn lemma_set_then_get(
    policy: CachePolicy,
    limit_mb: u64,
    s: Entries,
    k: Seq<char>,
    v: String,
    ttl: u64,
    now: u64,
    later: u64,
)
    requires
        keys_distinct(s),
        elapsed(later, now) > ttl,
    ensures
        live_value(
            after_set(policy, limit_mb, s, k, CacheEntry { value: v, timestamp: now, ttl: ttl }),
            k,
            now,
        ) == Some(v),
        live_value(
            after_set(policy, limit_mb, s, k, CacheEntry { value: v, timestamp: now, ttl: ttl }),
            k,
            later,
        ) is None,
        !has_key(
            after_get(
                after_set(policy, limit_mb, s, k, CacheEntry { value: v, timestamp: now, ttl: ttl }),
                k,
                later,
            ),
            k,
        ),
        after_get(
            after_set(policy, limit_mb, s, k, CacheEntry { value: v, timestamp: now, ttl: ttl }),
            k,
            later,
        ).len() + 1 == after_set(
            policy,
            limit_mb,
            s,
            k,
            CacheEntry { value: v, timestamp: now, ttl: ttl },
        ).len(),
{
    let e = CacheEntry { value: v, timestamp: now, ttl: ttl };
    let room = if fits(total_size(s), value_size(e.value@), limit_mb) {
        s
    } else {
        after_eviction(policy, s, now)
    };
    if !fits(total_size(s), value_size(e.value@), limit_mb) && has_victim(policy, s, now) {
        let i = choose|i: int| is_victim(policy, s, now, i);
        lemma_remove_distinct(s, i);
    }
    lemma_put_distinct(room, k, e);
    let t = put(room, k, e);
    let j = index_of(t, k);
    assert(t[j].0 == k);
    lemma_remove_distinct(t, j);
}

/// Under least-recently-stored eviction, a new key whose value does not fit
/// takes the place of the oldest entry: that entry is gone, every other entry
/// stays with its value, and the new one is stored last.
pub proof fn lemma_lru_evicts_oldest(
    limit_mb: u64,
    s: Entries,
    i: int,
    k: Seq<char>,
    e: CacheEntry<String>,
)
    requires
        keys_distinct(s),
        is_oldest(s, i),
        !has_key(s, k),
        !fits(total_size(s), value_size(e.value@), limit_mb),
    ensures
        after_set(CachePolicy::AllKeysLRU, limit_mb, s, k, e) == s.remove(i).push((k, e)),
        !has_key(after_set(CachePolicy::AllKeysLRU, limit_mb, s, k, e), s[i].0),
        forall|j: int|
            0 <= j < s.len() && j != i ==> lookup(
                after_set(CachePolicy::AllKeysLRU, limit_mb, s, k, e),
                #[trigger] s[j].0,
            ) == Some(s[j].1),
        lookup(after_set(CachePolicy::AllKeysLRU, limit_mb, s, k, e), k) == Some(e),
{
    let p = CachePolicy::AllKeysLRU;
    assert(is_victim(p, s, e.timestamp, i));
    let c = choose|c: int| is_victim(p, s, e.timestamp, c);
    lemma_victim_unique(p, s, e.timestamp, i, c);
    let room = s.remove(i);
    lemma_remove_distinct(s, i);
    assert(!has_key(room, k)) by {
        if has_key(room, k) {
            let a = index_of(room, k);
            assert(room[a].0 == k);
            let a2 = if a < i { a } else { a + 1 };
            assert(room[a] == s[a2]);
        }
    }
    let t = room.push((k, e));
    lemma_put_distinct(room, k, e);
    assert(s[i].0 != k) by {
        assert(s[i].0 == s[i].0);
    }
    assert(!has_key(t, s[i].0)) by {
        if has_key(t, s[i].0) {
            let a = index_of(t, s[i].0);
            assert(t[a].0 == s[i].0);
            if a < room.len() {
                assert(room[a].0 == s[i].0);
            }
        }
    }
    assert forall|j: int| 0 <= j < s.len() && j != i implies lookup(t, #[trigger] s[j].0) == Some(
        s[j].1,
    ) by {
        let j2 = if j < i { j } else { j - 1 };
        assert(room[j2] == s[j]);
        assert(t[j2] == s[j]);
        lemma_index_of(t, j2);
    }
}

proof fn lemma_total_push(s: Entries, x: (Seq<char>, CacheEntry<String>))
    ensures
        total_size(s.push(x)) == total_size(s) + value_size(x.1.value@),
{
    assert(s.push(x).drop_last() =~= s);
}

proof fn lemma_total_update(s: Entries, i: int, x: (Seq<char>, CacheEntry<String>))
    requires
        0 <= i < s.len(),
    ensures
        total_size(s.update(i, x)) + value_size(s[i].1.value@) == total_size(s) + value_size(
            x.1.value@,
        ),
    decreases s.len(),
{
    if i == s.len() - 1 {
        assert(s.update(i, x).drop_last() =~= s.drop_last());
    } else {
        assert(s.update(i, x).drop_last() =~= s.drop_last().update(i, x));
        lemma_total_update(s.drop_last(), i, x);
    }
}

proof fn lemma_total_remove(s: Entries, i: int)
    requires
        0 <= i < s.len(),
    ensures
        total_size(s.remove(i)) + value_size(s[i].1.value@) == total_size(s),
    decreases s.len(),
{
    if i == s.len() - 1 {
        assert(s.remove(i) =~= s.drop_last());
    } else {
        assert(s.remove(i).drop_last() =~= s.drop_last().remove(i));
        lemma_total_remove(s.drop_last(), i);
    }
}

/// Seconds from `since` to `now`; zero where the clock reads earlier.
fn seconds_between(now: u64, since: u64) -> (r: u64)
    ensures
        r == elapsed(now, since),
{
    if now >= since {
        now - since
    } else {
        0
    }
}

/// Picks the position of the entry that `policy` evicts at second `now`.
pub fn select_victim(
    policy: CachePolicy,
    entries: &Vec<(String, CacheEntry<String>)>,
    now: u64,
) -> (r: Option<usize>)
    ensures
        match r {
            Some(i) => is_victim(policy, keyed(entries@), now, i as int),
            None => !has_victim(policy, keyed(entries@), now),
        },
{
    let ghost s = keyed(entries@);
    let n = entries.len();
    match policy {
        CachePolicy::AllKeysLRU | CachePolicy::VolatileLRU => {
            if n == 0 {
                return None;
            }
            let mut best: usize = 0;
            let mut i: usize = 1;
            while i < n
                invariant
                    s == keyed(entries@),
                    n == entries@.len(),
                    0 <= best < i <= n,
                    forall|j: int| 0 <= j < i ==> s[best as int].1.timestamp <= #[trigger] s[j].1.timestamp,
                    forall|j: int| 0 <= j < best ==> s[best as int].1.timestamp < #[trigger] s[j].1.timestamp,
                decreases n - i,
            {
                if entries[i].1.timestamp < entries[best].1.timestamp {
                    best = i;
                }
                i = i + 1;
            }
            Some(best)
        },
        CachePolicy::AllKeysRandom | CachePolicy::VolatileRandom => {
            if n == 0 {
                None
            } else {
                Some(0)
            }
        },
        CachePolicy::VolatileTTL => {
            let mut best: Option<usize> = None;
            let mut best_left: u64 = 0;
            let mut i: usize = 0;
            while i < n
                invariant
                    s == keyed(entries@),
                    n == entries@.len(),
                    0 <= i <= n,
                    match best {
                        Some(b) => {
                            &&& b < i
                            &&& has_time_left(s[b as int].1, now)
                            &&& best_left == time_left(s[b as int].1, now)
                            &&& forall|j: int|
                                0 <= j < i && has_time_left(#[trigger] s[j].1, now) ==> best_left
                                    <= time_left(s[j].1, now)
                            &&& forall|j: int|
                                0 <= j < b && has_time_left(#[trigger] s[j].1, now) ==> best_left
                                    < time_left(s[j].1, now)
                        },
                        None => forall|j: int| 0 <= j < i ==> !has_time_left(#[trigger] s[j].1, now),
                    },
                decreases n - i,
            {
                let e = &entries[i].1;
                let age = seconds_between(now, e.timestamp);
                if age <= e.ttl {
                    let left = e.ttl - age;
                    match best {
                        Some(_) => {
                            if left < best_left {
                                best = Some(i);
                                best_left = left;
                            }
                        },
                        None => {
                            best = Some(i);
                            best_left = left;
                        },
                    }
                }
                i = i + 1;
            }
            proof {
                if best.is_none() && has_victim(policy, s, now) {
                    let v = choose|v: int| is_victim(policy, s, now, v);
                    assert(has_time_left(s[v].1, now));
                }
            }
            best
        },
    }
}

/// A store of serialized values under string keys, with a memory budget in
/// megabytes and an eviction policy.
pub struct RedisCache {
    memory_limit_mb: u64,
    policy: CachePolicy,
    entries: Vec<(String, CacheEntry<String>)>,
    memory_usage: u64,
}

impl View for RedisCache {
    type V = Entries;

    closed spec fn view(&self) -> Entries {
        keyed(self.entries@)
    }
}

impl RedisCache {
    /// Keys are distinct and the usage counter is the sum of the value sizes.
    pub open spec fn wf(&self) -> bool {
        &&& keys_distinct(self@)
        &&& self.usage_counter() == total_size(self@)
    }

    /// The bytes the cache counts as used.
    pub closed spec fn usage_counter(&self) -> nat {
        self.memory_usage as nat
    }

    /// The budget in megabytes.
    pub closed spec fn limit_mb(&self) -> u64 {
        self.memory_limit_mb
    }

    /// The eviction policy.
    pub closed spec fn eviction_policy(&self) -> CachePolicy {
        self.policy
    }

    /// An empty cache with a budget of 50 MB, evicting the oldest entry.
    pub fn new() -> (r: Self)
        ensures
            r.wf(),
            r@ == Seq::<(Seq<char>, CacheEntry<String>)>::empty(),
            r.limit_mb() == DEFAULT_MEMORY_LIMIT_MB,
            r.eviction_policy() == CachePolicy::AllKeysLRU,
    {
        Self::with_policy(DEFAULT_MEMORY_LIMIT_MB, CachePolicy::AllKeysLRU)
    }

    /// An empty cache with the given budget, evicting the oldest entry.
    pub fn with_memory_limit(memory_limit_mb: u64) -> (r: Self)
        ensures
            r.wf(),
            r@ == Seq::<(Seq<char>, CacheEntry<String>)>::empty(),
            r.limit_mb() == memory_limit_mb,
            r.eviction_policy() == CachePolicy::AllKeysLRU,
    {
        Self::with_policy(memory_limit_mb, CachePolicy::AllKeysLRU)
    }

    /// An empty cache with the given budget and eviction policy.
    pub fn with_policy(memory_limit_mb: u64, policy: CachePolicy) -> (r: Self)
        ensures
            r.wf(),
            r@ == Seq::<(Seq<char>, CacheEntry<String>)>::empty(),
            r.limit_mb() == memory_limit_mb,
            r.eviction_policy() == policy,
    {
        let r = RedisCache { memory_limit_mb, policy, entries: Vec::new(), memory_usage: 0 };
        assert(r@ =~= Seq::<(Seq<char>, CacheEntry<String>)>::empty());
        r
    }

    /// Stores `value` under `key` at second `now` with a lifetime of `ttl`
    /// seconds. Where the value would not fit the budget, the policy's victim
    /// is evicted first (one entry at most); the value is stored either way.
    pub fn set(&mut self, key: &str, value: String, ttl: u64, now: u64)
        requires
            old(self).wf(),
            total_size(old(self)@) + value_size(value@) <= u64::MAX,
        ensures
            final(self).wf(),
            final(self)@ == after_set(
                old(self).eviction_policy(),
                old(self).limit_mb(),
                old(self)@,
                key@,
                CacheEntry { value: value, timestamp: now, ttl: ttl },
            ),
            final(self).limit_mb() == old(self).limit_mb(),
            final(self).eviction_policy() == old(self).eviction_policy(),
    {
        let size = value.as_str().len() as u64;
        assert(size == value_size(value@));
        if !self.can_store_entry(size) {
            self.evict_entries(now);
        }
        let ghost s1 = self@;
        let old_size: u64 = match find_key(&self.entries, key) {
            Some(i) => {
                proof {
                    lemma_total_update(
                        s1,
                        i as int,
                        (key@, CacheEntry { value: value, timestamp: now, ttl: ttl }),
                    );
                    lemma_total_remove(s1, i as int);
                }
                self.entries[i].1.value.as_str().len() as u64
            },
            None => 0,
        };
        let entry = CacheEntry { value, timestamp: now, ttl };
        let ghost e = entry;
        put_key(&mut self.entries, key, entry);
        proof {
            if !has_key(s1, key@) {
                lemma_total_push(s1, (key@, e));
            }
        }
        assert(old_size <= self.memory_usage);
        self.memory_usage = self.memory_usage - old_size + size;
    }

    /// The value under `key` at second `now`. An expired entry is dropped and
    /// reads as absent.
    pub fn get(&mut self, key: &str, now: u64) -> (r: Option<String>)
        requires
            old(self).wf(),
        ensures
            final(self).wf(),
            r == live_value(old(self)@, key@, now),
            final(self)@ == after_get(old(self)@, key@, now),
            final(self).limit_mb() == old(self).limit_mb(),
            final(self).eviction_policy() == old(self).eviction_policy(),
    {
        match find_key(&self.entries, key) {
            None => None,
            Some(i) => {
                let age = seconds_between(now, self.entries[i].1.timestamp);
                if age > self.entries[i].1.ttl {
                    self.remove_at(i);
                    None
                } else {
                    Some(self.entries[i].1.value.clone())
                }
            },
        }
    }

    /// Drops the entry under `key`; tells whether there was one.
    pub fn remove(&mut self, key: &str) -> (r: bool)
        requires
            old(self).wf(),
        ensures
            final(self).wf(),
            r == has_key(old(self)@, key@),
            final(self)@ == without(old(self)@, key@),
            final(self).limit_mb() == old(self).limit_mb(),
            final(self).eviction_policy() == old(self).eviction_policy(),
    {
        match find_key(&self.entries, key) {
            None => false,
            Some(i) => {
                self.remove_at(i);
                true
            },
        }
    }

    /// Drops every entry.
    pub fn clear(&mut self)
        ensures
            final(self).wf(),
            final(self)@ == Seq::<(Seq<char>, CacheEntry<String>)>::empty(),
            final(self).limit_mb() == old(self).limit_mb(),
            final(self).eviction_policy() == old(self).eviction_policy(),
    {
        self.entries.clear();
        self.memory_usage = 0;
        assert(self@ =~= Seq::<(Seq<char>, CacheEntry<String>)>::empty());
    }

    /// The bytes of all stored values, in whole megabytes rounded down.
    pub fn get_memory_usage_mb(&self) -> (r: u64)
        requires
            self.wf(),
        ensures
            r == total_size(self@) / (BYTES_PER_MB as nat),
    {
        self.memory_usage / BYTES_PER_MB
    }

    /// The bytes of all stored values.
    pub fn get_memory_usage_bytes(&self) -> (r: u64)
        requires
            self.wf(),
        ensures
            r == total_size(self@),
    {
        self.memory_usage
    }

    /// The number of stored entries, expired ones not yet dropped included.
    pub fn get_entry_count(&self) -> (r: usize)
        ensures
            r == self@.len(),
    {
        self.entries.len()
    }

    /// The budget in megabytes.
    pub fn get_memory_limit_mb(&self) -> (r: u64)
        ensures
            r == self.limit_mb(),
    {
        self.memory_limit_mb
    }

    /// Whether a value of `entry_size` bytes fits the budget, in whole megabytes.
    fn can_store_entry(&self, entry_size: u64) -> (r: bool)
        requires
            self.wf(),
        ensures
            r == fits(total_size(self@), entry_size as nat, self.limit_mb()),
    {
        let current_mb = self.memory_usage / BYTES_PER_MB;
        let entry_mb = entry_size / BYTES_PER_MB;
        assert(current_mb <= 17592186044415 && entry_mb <= 17592186044415) by (nonlinear_arith)
            requires
                current_mb == self.memory_usage / 1048576,
                entry_mb == entry_size / 1048576,
        ;
        current_mb + entry_mb <= self.memory_limit_mb
    }

    /// Evicts the policy's victim at second `now`, if it has one.
    fn evict_entries(&mut self, now: u64)
        requires
            old(self).wf(),
        ensures
            final(self).wf(),
            final(self)@ == after_eviction(old(self).policy, old(self)@, now),
            final(self).memory_usage <= old(self).memory_usage,
            final(self).memory_limit_mb == old(self).memory_limit_mb,
            final(self).policy == old(self).policy,
    {
        let ghost s = self@;
        match select_victim(self.policy, &self.entries, now) {
            Some(i) => {
                proof {
                    let c = choose|v: int| is_victim(self.policy, s, now, v);
                    lemma_victim_unique(self.policy, s, now, i as int, c);
                }
                self.remove_at(i);
            },
            None => {},
        }
    }

    /// Drops the entry at position `i`.
    fn remove_at(&mut self, i: usize)
        requires
            old(self).wf(),
            i < old(self)@.len(),
        ensures
            final(self).wf(),
            final(self)@ == old(self)@.remove(i as int),
            final(self)@ == without(old(self)@, old(self)@[i as int].0),
            final(self).memory_usage <= old(self).memory_usage,
            final(self).memory_limit_mb == old(self).memory_limit_mb,
            final(self).policy == old(self).policy,
    {
        let ghost s = self@;
        proof {
            lemma_total_remove(s, i as int);
            lemma_remove_distinct(s, i as int);
            lemma_index_of(s, i as int);
        }
        let (_, gone) = self.entries.remove(i);
        let size = gone.value.as_str().len() as u64;
        assert(keyed(self.entries@) =~= s.remove(i as int));
        self.memory_usage = self.memory_usage - size;
    }
}

} // verus!

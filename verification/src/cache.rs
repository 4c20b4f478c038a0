use vstd::prelude::*;
use crate::time::now_millis;

verus! {

/// How long a hit counter may age before `reset_hit_counts` zeroes it:
/// five minutes, in milliseconds.
pub const HIT_RESET_INTERVAL_MS: u64 = 300000;

/// A cached value with its eviction bookkeeping: a hit counter and the
/// wall-clock instant of the counter's last reset.
pub struct CacheEntry<V> {
    pub key: u64,
    pub value: V,
    pub hits: u64,
    pub last_hit_reset: u64,
}

/// A bounded associative store with hit-count-aware eviction and a coarse
/// recency order. Capacity can grow by doubling up to a maximum; when it
/// cannot grow, the entry with the fewest hits leaves.
pub struct LruCache<V> {
    pub current_capacity: usize,
    pub max_capacity: usize,
    pub entries: Vec<CacheEntry<V>>,
    pub access_order: Vec<u64>,
    pub item_size: usize,
    pub hit_reset_interval: u64,
}

/// A key's position among the entries, or -1 when absent.
pub open spec fn find_key<V>(entries: Seq<CacheEntry<V>>, k: u64) -> int
    decreases entries.len(),
{
    if entries.len() == 0 {
        -1
    } else if entries[0].key == k {
        0
    } else {
        let r = find_key(entries.drop_first(), k);
        if r < 0 {
            -1
        } else {
            r + 1
        }
    }
}

/// Whether some entry carries the key.
pub open spec fn has_key<V>(entries: Seq<CacheEntry<V>>, k: u64) -> bool {
    exists|i: int| 0 <= i < entries.len() && entries[i].key == k
}

/// `find_key` finds exactly the present keys, at an index that carries them.
pub proof fn lemma_find_key_properties<V>(entries: Seq<CacheEntry<V>>, k: u64)
    ensures
        has_key(entries, k) <==> 0 <= find_key(entries, k) < entries.len(),
        !has_key(entries, k) <==> find_key(entries, k) == -1,
        0 <= find_key(entries, k) ==> entries[find_key(entries, k)].key == k,
    decreases entries.len(),
{
    if entries.len() > 0 && entries[0].key != k {
        lemma_find_key_properties(entries.drop_first(), k);
        assert forall|i: int| 0 <= i < entries.len() && entries[i].key == k implies has_key(
            entries.drop_first(),
            k,
        ) by {
            assert(entries.drop_first()[i - 1].key == k);
        }
    }
}

/// The recency sequence with every occurrence of one key removed.
pub open spec fn drop_key(s: Seq<u64>, k: u64) -> Seq<u64>
    decreases s.len(),
{
    if s.len() == 0 {
        Seq::empty()
    } else if s.last() == k {
        drop_key(s.drop_last(), k)
    } else {
        drop_key(s.drop_last(), k) + seq![s.last()]
    }
}

/// `drop_key` removes exactly the dropped key's occurrences.
pub proof fn lemma_drop_key_contains(s: Seq<u64>, k: u64, q: u64)
    ensures
        drop_key(s, k).contains(q) <==> (s.contains(q) && q != k),
    decreases s.len(),
{
    if s.len() > 0 {
        lemma_drop_key_contains(s.drop_last(), k, q);
        if s.last() != k {
            assert(drop_key(s, k).last() == s.last());
            assert(drop_key(s, k).drop_last() =~= drop_key(s.drop_last(), k));
        }
        if s.contains(q) && q != k {
            let i = choose|i: int| 0 <= i < s.len() && s[i] == q;
            if i < s.len() - 1 {
                assert(s.drop_last()[i] == q);
            }
        }
        if drop_key(s, k).contains(q) {
            if s.last() == k {
                assert(drop_key(s.drop_last(), k).contains(q));
            } else {
                let i = choose|i: int| 0 <= i < drop_key(s, k).len() && drop_key(s, k)[i] == q;
                if i < drop_key(s, k).len() - 1 {
                    assert(drop_key(s.drop_last(), k)[i] == q);
                }
            }
        }
        if s.drop_last().contains(q) {
            let i = choose|i: int| 0 <= i < s.len() - 1 && s.drop_last()[i] == q;
            assert(s[i] == q);
        }
    }
}

/// `drop_key` keeps the remaining values distinct.
pub proof fn lemma_drop_key_nodup(s: Seq<u64>, k: u64)
    requires
        forall|i: int, j: int| 0 <= i < j < s.len() ==> s[i] != s[j],
    ensures
        forall|i: int, j: int|
            0 <= i < j < drop_key(s, k).len() ==> drop_key(s, k)[i] != drop_key(s, k)[j],
    decreases s.len(),
{
    if s.len() > 0 {
        assert forall|i: int, j: int| 0 <= i < j < s.drop_last().len() implies s.drop_last()[i]
            != s.drop_last()[j] by {
            assert(s.drop_last()[i] == s[i]);
            assert(s.drop_last()[j] == s[j]);
        }
        lemma_drop_key_nodup(s.drop_last(), k);
        if s.last() != k {
            assert forall|i: int, j: int| 0 <= i < j < drop_key(s, k).len() implies drop_key(
                s,
                k,
            )[i] != drop_key(s, k)[j] by {
                if j == drop_key(s, k).len() - 1 {
                    lemma_drop_key_contains(s.drop_last(), k, drop_key(s, k)[i]);
                    assert(drop_key(s, k)[i] == drop_key(s.drop_last(), k)[i]);
                    assert(drop_key(s.drop_last(), k).contains(drop_key(s, k)[i])) by {
                        assert(drop_key(s.drop_last(), k)[i] == drop_key(s, k)[i]);
                    }
                    if s.drop_last().contains(s.last()) {
                        let t = choose|t: int| 0 <= t < s.len() - 1 && s.drop_last()[t] == s.last();
                        assert(s[t] == s[s.len() - 1]);
                        assert(false);
                    }
                } else {
                    assert(drop_key(s, k)[i] == drop_key(s.drop_last(), k)[i]);
                    assert(drop_key(s, k)[j] == drop_key(s.drop_last(), k)[j]);
                }
            }
        }
    }
}

impl<V> LruCache<V> {
    /// Entry keys are distinct.
    pub open spec fn keys_distinct(self) -> bool {
        forall|i: int, j: int|
            0 <= i < j < self.entries@.len() ==> self.entries@[i].key != self.entries@[j].key
    }

    /// Recency values are distinct.
    pub open spec fn order_distinct(self) -> bool {
        forall|i: int, j: int|
            0 <= i < j < self.access_order@.len() ==> self.access_order@[i]
                != self.access_order@[j]
    }

    /// Every entry key is in the recency sequence and back: together with
    /// distinctness, each key appears exactly once in both.
    pub open spec fn order_matches(self) -> bool {
        forall|k: u64| has_key(self.entries@, k) <==> #[trigger] self.access_order@.contains(k)
    }

    /// The cache invariant: the capacity law and the key bookkeeping.
    pub open spec fn wf(self) -> bool {
        &&& self.entries@.len() <= self.current_capacity <= self.max_capacity
        &&& 1 <= self.current_capacity
        &&& self.keys_distinct()
        &&& self.order_distinct()
        &&& self.order_matches()
    }

    /// How many entries are resident.
    pub open spec fn spec_len(self) -> nat {
        self.entries@.len()
    }

    /// A fixed-capacity cache, with no room to grow.
    pub fn new(initial_capacity: usize) -> (r: Self)
        requires
            initial_capacity >= 1,
        ensures
            r.wf(),
            r.spec_len() == 0,
            r.current_capacity == initial_capacity,
            r.max_capacity == initial_capacity,
            r.item_size == 0,
    {
        LruCache {
            current_capacity: initial_capacity,
            max_capacity: initial_capacity,
            entries: Vec::new(),
            access_order: Vec::new(),
            item_size: 0,
            hit_reset_interval: HIT_RESET_INTERVAL_MS,
        }
    }

    /// A cache that may double its capacity up to `max_capacity`.
    pub fn with_growth(initial_capacity: usize, max_capacity: usize, item_size: usize) -> (r: Self)
        requires
            1 <= initial_capacity <= max_capacity,
        ensures
            r.wf(),
            r.spec_len() == 0,
            r.current_capacity == initial_capacity,
            r.max_capacity == max_capacity,
            r.item_size == item_size,
    {
        LruCache {
            current_capacity: initial_capacity,
            max_capacity,
            entries: Vec::new(),
            access_order: Vec::new(),
            item_size,
            hit_reset_interval: HIT_RESET_INTERVAL_MS,
        }
    }

    /// Double the capacity, up to the maximum; reports whether it grew.
    /// A cache built without an item size never grows.
    pub fn try_expand(&mut self) -> (r: bool)
        requires
            old(self).wf(),
        ensures
            final(self).wf(),
            final(self).entries@ == old(self).entries@,
            final(self).access_order@ == old(self).access_order@,
            final(self).max_capacity == old(self).max_capacity,
            final(self).item_size == old(self).item_size,
            final(self).current_capacity >= old(self).current_capacity,
            r == (old(self).current_capacity < old(self).max_capacity && old(self).item_size > 0),
            r ==> final(self).current_capacity == if 2 * old(self).current_capacity <= old(
                self,
            ).max_capacity {
                2 * old(self).current_capacity
            } else {
                old(self).max_capacity as int
            },
            !r ==> final(self).current_capacity == old(self).current_capacity,
    {
        if self.current_capacity < self.max_capacity && self.item_size > 0 {
            let new_capacity = if self.current_capacity <= self.max_capacity / 2 {
                self.current_capacity * 2
            } else {
                self.max_capacity
            };
            self.current_capacity = new_capacity;
            true
        } else {
            false
        }
    }

    /// How many entries are resident.
    pub fn len(&self) -> (r: usize)
        ensures
            r == self.spec_len(),
    {
        self.entries.len()
    }

    pub fn is_empty(&self) -> (r: bool)
        ensures
            r == (self.spec_len() == 0),
    {
        self.entries.len() == 0
    }

    /// Whether a key is resident.
    pub fn contains(&self, key: &u64) -> (r: bool)
        ensures
            r == has_key(self.entries@, *key),
    {
        let mut i: usize = 0;
        while i < self.entries.len()
            invariant
                i <= self.entries@.len(),
                forall|j: int| 0 <= j < i ==> self.entries@[j].key != *key,
            decreases self.entries@.len() - i,
        {
            if self.entries[i].key == *key {
                return true;
            }
            i = i + 1;
        }
        false
    }

    /// Drop everything; capacity is unchanged.
    pub fn clear(&mut self)
        requires
            old(self).wf(),
        ensures
            final(self).wf(),
            final(self).spec_len() == 0,
            final(self).access_order@.len() == 0,
            final(self).current_capacity == old(self).current_capacity,
            final(self).max_capacity == old(self).max_capacity,
    {
        self.entries.clear();
        self.access_order.clear();
    }

    pub fn current_capacity(&self) -> (r: usize)
        ensures
            r == self.current_capacity,
    {
        self.current_capacity
    }

    pub fn max_capacity(&self) -> (r: usize)
        ensures
            r == self.max_capacity,
    {
        self.max_capacity
    }

    /// The hit count recorded for a key.
    pub fn get_hit_count(&self, key: &u64) -> (r: Option<u64>)
        requires
            self.wf(),
        ensures
            r is Some <==> has_key(self.entries@, *key),
            r matches Some(h) ==> exists|i: int|
                0 <= i < self.entries@.len() && (#[trigger] self.entries@[i]).key == *key
                    && self.entries@[i].hits == h,
    {
        let mut i: usize = 0;
        while i < self.entries.len()
            invariant
                i <= self.entries@.len(),
                forall|j: int| 0 <= j < i ==> self.entries@[j].key != *key,
            decreases self.entries@.len() - i,
        {
            if self.entries[i].key == *key {
                return Some(self.entries[i].hits);
            }
            i = i + 1;
        }
        None
    }
}


impl<V> LruCache<V> {
    /// Index of a key among the entries.
    fn find_index(&self, key: u64) -> (r: Option<usize>)
        ensures
            r == if has_key(self.entries@, key) {
                Some(find_key(self.entries@, key) as usize)
            } else {
                None::<usize>
            },
            r matches Some(i) && 0 <= i < self.entries@.len() && self.entries@[i as int].key
                == key || (r is None && !has_key(self.entries@, key)),
    {
        proof {
            lemma_find_key_properties(self.entries@, key);
        }
        let mut i: usize = 0;
        while i < self.entries.len()
            invariant
                i <= self.entries@.len(),
                forall|j: int| 0 <= j < i ==> self.entries@[j].key != key,
            decreases self.entries@.len() - i,
        {
            if self.entries[i].key == key {
                proof {
                    lemma_find_key_prefix(self.entries@, key, i as int);
                }
                return Some(i);
            }
            i = i + 1;
        }
        None
    }

    /// Remove every occurrence of a key from the recency sequence.
    fn remove_from_order(&mut self, key: u64)
        ensures
            final(self).access_order@ == drop_key(old(self).access_order@, key),
            final(self).entries@ == old(self).entries@,
            final(self).current_capacity == old(self).current_capacity,
            final(self).max_capacity == old(self).max_capacity,
            final(self).item_size == old(self).item_size,
            final(self).hit_reset_interval == old(self).hit_reset_interval,
    {
        let ghost s = self.access_order@;
        let mut kept: Vec<u64> = Vec::new();
        let mut i: usize = 0;
        while i < self.access_order.len()
            invariant
                s == self.access_order@,
                i <= s.len(),
                kept@ == drop_key(s.take(i as int), key),
            decreases s.len() - i,
        {
            proof {
                assert(s.take(i + 1).drop_last() =~= s.take(i as int));
                assert(s.take(i + 1).last() == s[i as int]);
            }
            let v = self.access_order[i];
            if v != key {
                kept.push(v);
            }
            i = i + 1;
        }
        proof {
            assert(s.take(s.len() as int) =~= s);
        }
        self.access_order = kept;
    }

    /// Look a key up: on a hit the entry's hit counter rises by one
    /// (saturating) and the key moves to the back of the recency sequence.
    pub fn get(&mut self, key: &u64) -> (r: Option<&V>)
        requires
            old(self).wf(),
        ensures
            final(self).wf(),
            final(self).current_capacity == old(self).current_capacity,
            final(self).max_capacity == old(self).max_capacity,
            final(self).spec_len() == old(self).spec_len(),
            !has_key(old(self).entries@, *key) ==> r is None && *final(self) == *old(self),
            has_key(old(self).entries@, *key) ==> ({
                let i = find_key(old(self).entries@, *key);
                let e = old(self).entries@[i];
                &&& r matches Some(v) && *v == e.value
                &&& final(self).entries@ == old(self).entries@.update(
                    i,
                    CacheEntry {
                        key: e.key,
                        value: e.value,
                        hits: if e.hits < u64::MAX {
                            (e.hits + 1) as u64
                        } else {
                            e.hits
                        },
                        last_hit_reset: e.last_hit_reset,
                    },
                )
                &&& final(self).access_order@ == drop_key(old(self).access_order@, *key) + seq![
                    *key,
                ]
            }),
    {
        proof {
            lemma_find_key_properties(old(self).entries@, *key);
        }
        let idx = match self.find_index(*key) {
            Some(i) => i,
            None => {
                return None;
            },
        };
        let e = self.entries.remove(idx);
        let new_hits = if e.hits < u64::MAX {
            e.hits + 1
        } else {
            e.hits
        };
        let e2 = CacheEntry { key: e.key, value: e.value, hits: new_hits, last_hit_reset: e.last_hit_reset };
        self.entries.insert(idx, e2);
        proof {
            let i = idx as int;
            assert(self.entries@ =~= old(self).entries@.update(
                i,
                CacheEntry {
                    key: old(self).entries@[i].key,
                    value: old(self).entries@[i].value,
                    hits: if old(self).entries@[i].hits < u64::MAX {
                        (old(self).entries@[i].hits + 1) as u64
                    } else {
                        old(self).entries@[i].hits
                    },
                    last_hit_reset: old(self).entries@[i].last_hit_reset,
                },
            ));
        }
        self.remove_from_order(*key);
        self.access_order.push(*key);
        proof {
            lemma_drop_key_nodup(old(self).access_order@, *key);
            lemma_drop_key_contains(old(self).access_order@, *key, *key);
            let dropped = drop_key(old(self).access_order@, *key);
            assert(self.access_order@ =~= dropped + seq![*key]);
            assert forall|q: u64| has_key(self.entries@, q) <==> #[trigger] self.access_order@.contains(q) by {
                lemma_drop_key_contains(old(self).access_order@, *key, q);
                assert(has_key(self.entries@, q) <==> has_key(old(self).entries@, q)) by {
                    lemma_same_keys_update(old(self).entries@, self.entries@, q);
                }
                if q == *key {
                    assert(self.access_order@[self.access_order@.len() - 1] == q);
                    assert(self.access_order@.contains(q));
                } else {
                    if dropped.contains(q) {
                        let t = choose|t: int| 0 <= t < dropped.len() && dropped[t] == q;
                        assert(self.access_order@[t] == q);
                    }
                    if self.access_order@.contains(q) {
                        let t = choose|t: int|
                            0 <= t < self.access_order@.len() && self.access_order@[t] == q;
                        assert(dropped[t] == q);
                    }
                    assert(old(self).access_order@.contains(q) <==> has_key(
                        old(self).entries@,
                        q,
                    ));
                }
            }
            assert forall|a: int, b: int|
                0 <= a < b < self.access_order@.len() implies self.access_order@[a]
                != self.access_order@[b] by {
                if b < self.access_order@.len() - 1 {
                    assert(self.access_order@[a] == dropped[a]);
                    assert(self.access_order@[b] == dropped[b]);
                } else {
                    assert(self.access_order@[a] == dropped[a]);
                    assert(dropped.contains(dropped[a]));
                }
            }
        }
        Some(&self.entries[idx].value)
    }

    /// Remove a key and hand its value back.
    pub fn remove(&mut self, key: &u64) -> (r: Option<V>)
        requires
            old(self).wf(),
        ensures
            final(self).wf(),
            final(self).current_capacity == old(self).current_capacity,
            final(self).max_capacity == old(self).max_capacity,
            !has_key(old(self).entries@, *key) ==> r is None && *final(self) == *old(self),
            has_key(old(self).entries@, *key) ==> ({
                let i = find_key(old(self).entries@, *key);
                &&& r matches Some(v) && v == old(self).entries@[i].value
                &&& final(self).entries@ == old(self).entries@.remove(i)
                &&& final(self).access_order@ == drop_key(old(self).access_order@, *key)
            }),
    {
        proof {
            lemma_find_key_properties(old(self).entries@, *key);
        }
        let idx = match self.find_index(*key) {
            Some(i) => i,
            None => {
                return None;
            },
        };
        self.remove_from_order(*key);
        let e = self.entries.remove(idx);
        proof {
            lemma_drop_key_nodup(old(self).access_order@, *key);
            lemma_wf_after_remove(*old(self), *self, idx as int, *key);
        }
        Some(e.value)
    }
}

/// Two entry sequences that differ by one in-place update carry the
/// same keys.
proof fn lemma_same_keys_update<V>(a: Seq<CacheEntry<V>>, b: Seq<CacheEntry<V>>, q: u64)
    requires
        a.len() == b.len(),
        forall|i: int| 0 <= i < a.len() ==> a[i].key == b[i].key,
    ensures
        has_key(a, q) <==> has_key(b, q),
{
    if has_key(a, q) {
        let i = choose|i: int| 0 <= i < a.len() && a[i].key == q;
        assert(b[i].key == q);
    }
    if has_key(b, q) {
        let i = choose|i: int| 0 <= i < b.len() && b[i].key == q;
        assert(a[i].key == q);
    }
}

/// After removing one key's entry and its recency slot, the cache
/// invariant holds again.
proof fn lemma_wf_after_remove<V>(prev: LruCache<V>, cur: LruCache<V>, idx: int, key: u64)
    requires
        prev.wf(),
        0 <= idx < prev.entries@.len(),
        prev.entries@[idx].key == key,
        cur.entries@ == prev.entries@.remove(idx),
        cur.access_order@ == drop_key(prev.access_order@, key),
        cur.current_capacity == prev.current_capacity,
        cur.max_capacity == prev.max_capacity,
    ensures
        cur.wf(),
{
    lemma_drop_key_nodup(prev.access_order@, key);
    assert forall|q: u64| has_key(cur.entries@, q) <==> #[trigger] cur.access_order@.contains(
        q,
    ) by {
        lemma_drop_key_contains(prev.access_order@, key, q);
        if has_key(cur.entries@, q) {
            let i = choose|i: int| 0 <= i < cur.entries@.len() && cur.entries@[i].key == q;
            if i < idx {
                assert(prev.entries@[i].key == q);
            } else {
                assert(prev.entries@[i + 1].key == q);
            }
            assert(q != key);
            assert(has_key(prev.entries@, q));
        }
        if cur.access_order@.contains(q) {
            assert(q != key && prev.access_order@.contains(q));
            assert(has_key(prev.entries@, q));
            let i = choose|i: int| 0 <= i < prev.entries@.len() && prev.entries@[i].key == q;
            assert(i != idx);
            if i < idx {
                assert(cur.entries@[i].key == q);
            } else {
                assert(cur.entries@[i - 1].key == q);
            }
            assert(has_key(cur.entries@, q));
        }
    }
    assert forall|a: int, b: int| 0 <= a < b < cur.entries@.len() implies cur.entries@[a].key
        != cur.entries@[b].key by {
        let pa = if a < idx {
            a
        } else {
            a + 1
        };
        let pb = if b < idx {
            b
        } else {
            b + 1
        };
        assert(cur.entries@[a].key == prev.entries@[pa].key);
        assert(cur.entries@[b].key == prev.entries@[pb].key);
    }
}

/// `find_key` agrees with the first matching scan position.
proof fn lemma_find_key_prefix<V>(entries: Seq<CacheEntry<V>>, key: u64, i: int)
    requires
        0 <= i < entries.len(),
        entries[i].key == key,
        forall|j: int| 0 <= j < i ==> entries[j].key != key,
    ensures
        find_key(entries, key) == i,
    decreases i,
{
    if i > 0 {
        lemma_find_key_prefix(entries.drop_first(), key, i - 1);
    }
}


/// The capacity law: a well-formed cache never holds more entries than its
/// current capacity, which never exceeds the maximum; and every key appears
/// exactly once among the entries and once in the recency sequence.
pub proof fn lemma_cache_capacity_law<V>(c: LruCache<V>)
    requires
        c.wf(),
    ensures
        c.spec_len() <= c.current_capacity <= c.max_capacity,
        c.keys_distinct(),
        c.order_distinct(),
        c.order_matches(),
{
}

/// The pointwise effect of a hit-count sweep at instant `now`: entries whose
/// last reset is at least the interval old are zeroed and restamped, the
/// rest are untouched. Keys, values and the recency order never change.
pub open spec fn reset_model<V>(prev: LruCache<V>, cur: LruCache<V>, now: u64) -> bool {
    &&& cur.entries@.len() == prev.entries@.len()
    &&& forall|i: int|
        0 <= i < prev.entries@.len() ==> {
            let e = #[trigger] prev.entries@[i];
            let f = cur.entries@[i];
            &&& f.key == e.key
            &&& f.value == e.value
            &&& if now >= e.last_hit_reset + prev.hit_reset_interval {
                f.hits == 0 && f.last_hit_reset == now
            } else {
                f == e
            }
        }
}

impl<V> LruCache<V> {
    /// Append a fresh entry for an absent key; the key joins the back of
    /// the recency sequence with a zero hit counter.
    fn push_entry(&mut self, key: u64, value: V, now: u64)
        requires
            old(self).wf(),
            !has_key(old(self).entries@, key),
            old(self).entries@.len() < old(self).current_capacity,
        ensures
            final(self).wf(),
            final(self).entries@ == old(self).entries@.push(
                CacheEntry { key, value, hits: 0u64, last_hit_reset: now },
            ),
            final(self).access_order@ == old(self).access_order@.push(key),
            final(self).current_capacity == old(self).current_capacity,
            final(self).max_capacity == old(self).max_capacity,
            final(self).item_size == old(self).item_size,
            final(self).hit_reset_interval == old(self).hit_reset_interval,
    {
        self.entries.push(CacheEntry { key, value, hits: 0, last_hit_reset: now });
        self.access_order.push(key);
        proof {
            assert(!old(self).access_order@.contains(key));
            assert forall|a: int, b: int|
                0 <= a < b < self.entries@.len() implies self.entries@[a].key
                != self.entries@[b].key by {
                if b < self.entries@.len() - 1 {
                    assert(self.entries@[a] == old(self).entries@[a]);
                    assert(self.entries@[b] == old(self).entries@[b]);
                } else {
                    assert(self.entries@[a] == old(self).entries@[a]);
                    assert(has_key(old(self).entries@, old(self).entries@[a].key));
                }
            }
            assert forall|a: int, b: int|
                0 <= a < b < self.access_order@.len() implies self.access_order@[a]
                != self.access_order@[b] by {
                if b < self.access_order@.len() - 1 {
                    assert(self.access_order@[a] == old(self).access_order@[a]);
                    assert(self.access_order@[b] == old(self).access_order@[b]);
                } else {
                    assert(self.access_order@[a] == old(self).access_order@[a]);
                    assert(old(self).access_order@.contains(old(self).access_order@[a]));
                }
            }
            assert forall|q: u64|
                has_key(self.entries@, q) <==> #[trigger] self.access_order@.contains(q) by {
                if q == key {
                    assert(self.entries@[self.entries@.len() - 1].key == q);
                    assert(self.access_order@[self.access_order@.len() - 1] == q);
                } else {
                    if has_key(self.entries@, q) {
                        let i = choose|i: int|
                            0 <= i < self.entries@.len() && self.entries@[i].key == q;
                        assert(old(self).entries@[i].key == q);
                    }
                    if old(self).access_order@.contains(q) {
                        let t = choose|t: int|
                            0 <= t < old(self).access_order@.len() && old(self).access_order@[t]
                                == q;
                        assert(self.access_order@[t] == q);
                    }
                    if self.access_order@.contains(q) {
                        let t = choose|t: int|
                            0 <= t < self.access_order@.len() && self.access_order@[t] == q;
                        assert(old(self).access_order@[t] == q);
                    }
                    if has_key(old(self).entries@, q) {
                        let i = choose|i: int|
                            0 <= i < old(self).entries@.len() && old(self).entries@[i].key == q;
                        assert(self.entries@[i].key == q);
                    }
                }
            }
        }
    }

    /// Drop the entry with the fewest hits (ties go to the earliest entry)
    /// and report its key.
    fn evict_lowest_hits(&mut self) -> (r: u64)
        requires
            old(self).wf(),
            old(self).entries@.len() > 0,
        ensures
            final(self).wf(),
            final(self).current_capacity == old(self).current_capacity,
            final(self).max_capacity == old(self).max_capacity,
            final(self).item_size == old(self).item_size,
            final(self).hit_reset_interval == old(self).hit_reset_interval,
            final(self).access_order@ == drop_key(old(self).access_order@, r),
            exists|bi: int|
                0 <= bi < old(self).entries@.len() && (#[trigger] old(self).entries@[bi]).key == r
                    && (forall|j: int|
                    0 <= j < old(self).entries@.len() ==> (#[trigger] old(self).entries@[j]).hits
                        >= old(self).entries@[bi].hits) && final(self).entries@ == old(
                    self,
                ).entries@.remove(bi),
    {
        let mut best: usize = 0;
        let mut i: usize = 1;
        while i < self.entries.len()
            invariant
                best < i <= self.entries@.len(),
                forall|j: int| 0 <= j < i ==> (#[trigger] self.entries@[j]).hits
                    >= self.entries@[best as int].hits,
            decreases self.entries@.len() - i,
        {
            if self.entries[i].hits < self.entries[best].hits {
                best = i;
            }
            i = i + 1;
        }
        let k = self.entries[best].key;
        self.remove_from_order(k);
        let ghost mid = *self;
        let _ = self.entries.remove(best);
        proof {
            lemma_wf_after_remove(*old(self), *self, best as int, k);
        }
        k
    }

    /// Insert a value. A present key is replaced in place and moved to the
    /// back of the recency sequence. An absent key at full capacity first
    /// tries to double the capacity (reporting expansion); when the cache
    /// cannot grow, the entry with the fewest hits is evicted and its key
    /// reported. Returns the displaced value, the expansion flag, and the
    /// evicted key.
    pub fn insert(&mut self, key: u64, value: V) -> (r: (Option<V>, bool, Option<u64>))
        requires
            old(self).wf(),
        ensures
            final(self).wf(),
            final(self).max_capacity == old(self).max_capacity,
            final(self).item_size == old(self).item_size,
            final(self).current_capacity >= old(self).current_capacity,
            has_key(final(self).entries@, key),
            r.0 is Some <==> has_key(old(self).entries@, key),
            r.1 == (!has_key(old(self).entries@, key) && old(self).spec_len() == old(
                self,
            ).current_capacity && old(self).current_capacity < old(self).max_capacity && old(
                self,
            ).item_size > 0),
            !r.1 ==> final(self).current_capacity == old(self).current_capacity,
            r.1 ==> final(self).current_capacity == (if 2 * old(self).current_capacity <= old(
                self,
            ).max_capacity {
                2 * old(self).current_capacity
            } else {
                old(self).max_capacity as int
            }),
            r.2 is Some <==> (!has_key(old(self).entries@, key) && old(self).spec_len() == old(
                self,
            ).current_capacity && !(old(self).current_capacity < old(self).max_capacity && old(
                self,
            ).item_size > 0)),
            r.2 matches Some(ek) ==> exists|bi: int|
                0 <= bi < old(self).entries@.len() && (#[trigger] old(self).entries@[bi]).key == ek
                    && (forall|j: int|
                    0 <= j < old(self).entries@.len() ==> (#[trigger] old(self).entries@[j]).hits
                        >= old(self).entries@[bi].hits) && exists|t: u64|
                    final(self).entries@ == old(self).entries@.remove(bi).push(
                        CacheEntry { key, value, hits: 0u64, last_hit_reset: t },
                    ),
            r.0 matches Some(v) ==> v == old(self).entries@[find_key(old(self).entries@, key)].value
                && exists|t: u64|
                final(self).entries@ == old(self).entries@.remove(
                    find_key(old(self).entries@, key),
                ).push(CacheEntry { key, value, hits: 0u64, last_hit_reset: t }),
            r.0 is None && r.2 is None ==> exists|t: u64|
                final(self).entries@ == old(self).entries@.push(
                    CacheEntry { key, value, hits: 0u64, last_hit_reset: t },
                ),
            r.2 is None ==> final(self).access_order@ == drop_key(old(self).access_order@, key)
                + seq![key],
            r.2 matches Some(ek) ==> final(self).access_order@ == drop_key(
                drop_key(old(self).access_order@, ek),
                key,
            ) + seq![key],
    {
        proof {
            lemma_find_key_properties(old(self).entries@, key);
        }
        let now = now_millis();
        match self.find_index(key) {
            Some(idx) => {
                let e = self.entries.remove(idx);
                self.remove_from_order(key);
                proof {
                    lemma_wf_after_remove(*old(self), *self, idx as int, key);
                    assert forall|j: int|
                        0 <= j < self.entries@.len() implies (#[trigger] self.entries@[j]).key
                        != key by {
                        if j < idx {
                            assert(self.entries@[j] == old(self).entries@[j]);
                        } else {
                            assert(self.entries@[j] == old(self).entries@[j + 1]);
                        }
                    }
                }
                self.push_entry(key, value, now);
                proof {
                    assert(self.entries@[self.entries@.len() - 1].key == key);
                    lemma_drop_key_contains(old(self).access_order@, key, key);
                    assert(self.access_order@ =~= drop_key(old(self).access_order@, key) + seq![
                        key,
                    ]);
                }
                (Some(e.value), false, None)
            },
            None => {
                let mut expanded = false;
                let mut evicted: Option<u64> = None;
                if self.entries.len() >= self.current_capacity {
                    if self.try_expand() {
                        expanded = true;
                    } else {
                        let victim = self.evict_lowest_hits();
                        evicted = Some(victim);
                    }
                }
                let ghost mid = *self;
                proof {
                    assert forall|j: int|
                        0 <= j < mid.entries@.len() implies (#[trigger] mid.entries@[j]).key
                        != key by {
                        if !has_key(old(self).entries@, key) {
                            match evicted {
                                Some(_) => {
                                    let bi = choose|bi: int|
                                        0 <= bi < old(self).entries@.len() && mid.entries@ == old(
                                            self,
                                        ).entries@.remove(bi);
                                },
                                None => {},
                            }
                            assert(has_key(mid.entries@, key) ==> has_key(
                                old(self).entries@,
                                key,
                            )) by {
                                lemma_remove_keeps_keys(old(self).entries@, mid.entries@, key);
                            }
                            if mid.entries@[j].key == key {
                                assert(has_key(mid.entries@, key));
                            }
                        }
                    }
                }
                self.push_entry(key, value, now);
                proof {
                    assert(self.entries@[self.entries@.len() - 1].key == key);
                    match evicted {
                        None => {
                            lemma_drop_key_absent(old(self).access_order@, key);
                            assert(self.access_order@ =~= drop_key(old(self).access_order@, key)
                                + seq![key]);
                        },
                        Some(ek) => {
                            lemma_drop_key_absent(drop_key(old(self).access_order@, ek), key);
                            assert(self.access_order@ =~= drop_key(
                                drop_key(old(self).access_order@, ek),
                                key,
                            ) + seq![key]);
                        },
                    }
                }
                (None, expanded, evicted)
            },
        }
    }

    /// Zero the hit counter of every entry whose last reset is at least the
    /// reset interval old, stamping it with `now`.
    pub fn reset_hit_counts_at(&mut self, now: u64)
        requires
            old(self).wf(),
        ensures
            final(self).wf(),
            reset_model(*old(self), *final(self), now),
            final(self).access_order@ == old(self).access_order@,
            final(self).current_capacity == old(self).current_capacity,
            final(self).max_capacity == old(self).max_capacity,
            final(self).item_size == old(self).item_size,
            final(self).hit_reset_interval == old(self).hit_reset_interval,
    {
        let interval = self.hit_reset_interval;
        let mut i: usize = 0;
        while i < self.entries.len()
            invariant
                i <= self.entries@.len(),
                self.entries@.len() == old(self).entries@.len(),
                self.access_order@ == old(self).access_order@,
                self.current_capacity == old(self).current_capacity,
                self.max_capacity == old(self).max_capacity,
                self.item_size == old(self).item_size,
                self.hit_reset_interval == old(self).hit_reset_interval,
                interval == old(self).hit_reset_interval,
                forall|j: int| i <= j < self.entries@.len() ==> #[trigger] self.entries@[j] == old(
                    self,
                ).entries@[j],
                forall|j: int|
                    0 <= j < i ==> {
                        let e = #[trigger] old(self).entries@[j];
                        let f = self.entries@[j];
                        &&& f.key == e.key
                        &&& f.value == e.value
                        &&& if now >= e.last_hit_reset + old(self).hit_reset_interval {
                            f.hits == 0 && f.last_hit_reset == now
                        } else {
                            f == e
                        }
                    },
            decreases self.entries@.len() - i,
        {
            let stale = now >= self.entries[i].last_hit_reset && now
                - self.entries[i].last_hit_reset >= interval;
            if stale {
                let ghost pre = self.entries@;
                let e = self.entries.remove(i);
                self.entries.insert(
                    i,
                    CacheEntry { key: e.key, value: e.value, hits: 0, last_hit_reset: now },
                );
                proof {
                    assert(self.entries@ =~= pre.update(
                        i as int,
                        CacheEntry {
                            key: pre[i as int].key,
                            value: pre[i as int].value,
                            hits: 0u64,
                            last_hit_reset: now,
                        },
                    ));
                }
            }
            i = i + 1;
        }
        proof {
            assert forall|q: u64|
                has_key(self.entries@, q) <==> has_key(old(self).entries@, q) by {
                lemma_same_keys_update(old(self).entries@, self.entries@, q);
            }
            assert forall|a: int, b: int|
                0 <= a < b < self.entries@.len() implies self.entries@[a].key
                != self.entries@[b].key by {
                assert(self.entries@[a].key == old(self).entries@[a].key);
                assert(self.entries@[b].key == old(self).entries@[b].key);
            }
        }
    }

    /// Sweep the hit counters against the wall clock now.
    pub fn reset_hit_counts(&mut self)
        requires
            old(self).wf(),
        ensures
            final(self).wf(),
            exists|t: u64| reset_model(*old(self), *final(self), t),
            final(self).access_order@ == old(self).access_order@,
            final(self).current_capacity == old(self).current_capacity,
            final(self).max_capacity == old(self).max_capacity,
    {
        let now = now_millis();
        self.reset_hit_counts_at(now);
    }

    /// The resident pairs, in entry order.
    pub fn iter(&self) -> (r: Vec<(u64, &V)>)
        ensures
            r@.len() == self.entries@.len(),
            forall|i: int|
                0 <= i < r@.len() ==> (#[trigger] r@[i]).0 == self.entries@[i].key && r@[i].1
                    == self.entries@[i].value,
    {
        let mut out: Vec<(u64, &V)> = Vec::new();
        let mut i: usize = 0;
        while i < self.entries.len()
            invariant
                i <= self.entries@.len(),
                out@.len() == i,
                forall|j: int|
                    0 <= j < i ==> (#[trigger] out@[j]).0 == self.entries@[j].key && out@[j].1
                        == self.entries@[j].value,
            decreases self.entries@.len() - i,
        {
            let e = &self.entries[i];
            out.push((e.key, &e.value));
            i = i + 1;
        }
        out
    }
}

/// A key present after removing one entry was present before.
proof fn lemma_remove_keeps_keys<V>(prev: Seq<CacheEntry<V>>, cur: Seq<CacheEntry<V>>, key: u64)
    requires
        cur == prev || exists|bi: int| 0 <= bi < prev.len() && cur == prev.remove(bi),
    ensures
        has_key(cur, key) ==> has_key(prev, key),
{
    if has_key(cur, key) {
        if cur != prev {
            let bi = choose|bi: int| 0 <= bi < prev.len() && cur == prev.remove(bi);
            let i = choose|i: int| 0 <= i < cur.len() && cur[i].key == key;
            if i < bi {
                assert(prev[i].key == key);
            } else {
                assert(prev[i + 1].key == key);
            }
        }
    }
}

/// Removing a key leaves a sequence that never held it untouched.
proof fn lemma_drop_key_absent(s: Seq<u64>, k: u64)
    requires
        !s.contains(k),
    ensures
        drop_key(s, k) == s,
    decreases s.len(),
{
    if s.len() > 0 {
        assert(s[s.len() - 1] != k);
        assert(!s.drop_last().contains(k)) by {
            if s.drop_last().contains(k) {
                let t = choose|t: int| 0 <= t < s.len() - 1 && s.drop_last()[t] == k;
                assert(s[t] == k);
            }
        }
        lemma_drop_key_absent(s.drop_last(), k);
        assert(drop_key(s, k) =~= s);
    }
}

} // verus!

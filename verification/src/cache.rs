//! Expiring key-value caches with single-flight recomputation.
//!
//! A cache entry serves only while both its absolute age and its idle time
//! are within bounds. A lookup of a cold key hands exactly one caller the
//! task of recomputing; every further lookup of that key is told to await
//! the computation already in flight, until its completion is recorded.
//! Time is an explicit argument, so expiry is exact and testable.
use vstd::prelude::*;

verus! {

/// How a cache is configured: absolute time-to-live since insertion,
/// maximum idle time since last access, and an optional entry capacity.
#[derive(Debug, Clone, Copy)]
pub struct CacheConfig {
    pub ttl: u64,
    pub idle: u64,
    pub capacity: Option<u64>,
}

impl CacheConfig {
    /// A capacity bound, where there is one, must admit at least one entry.
    pub open spec fn wf(self) -> bool {
        match self.capacity {
            Some(c) => c >= 1,
            None => true,
        }
    }
}

/// One cached value with its insertion and last-access stamps.
#[derive(Debug)]
pub struct CacheEntry<V> {
    pub value: V,
    pub inserted: u64,
    pub last_access: u64,
}

/// Whether an entry still serves at `now`: neither its absolute age nor its
/// idle time has passed its bound.
pub open spec fn entry_fresh<V>(e: CacheEntry<V>, config: CacheConfig, now: u64) -> bool {
    now <= e.inserted + config.ttl && now <= e.last_access + config.idle
}

/// What a lookup found: a fresh value to serve, the task of starting the one
/// computation, or an order to await the computation already in flight.
#[derive(Debug, Clone, Copy, PartialEq, Eq, Structural)]
pub enum CacheOutcome {
    Fresh,
    StartCompute,
    AwaitPending,
}

/// The first entry under `k`, scanning left to right.
pub open spec fn seq_find<V>(s: Seq<(u64, CacheEntry<V>)>, k: u64) -> Option<CacheEntry<V>>
    decreases s.len(),
{
    if s.len() == 0 {
        None
    } else if s[0].0 == k {
        Some(s[0].1)
    } else {
        seq_find(s.drop_first(), k)
    }
}

/// Pairwise distinct keys.
pub open spec fn keys_unique<V>(s: Seq<(u64, CacheEntry<V>)>) -> bool {
    forall|a: int, b: int| 0 <= a < b < s.len() ==> s[a].0 != s[b].0
}

/// Pairwise distinct values.
pub open spec fn vals_unique(s: Seq<u64>) -> bool {
    forall|a: int, b: int| 0 <= a < b < s.len() ==> s[a] != s[b]
}

proof fn lemma_seq_find_skip<V>(s: Seq<(u64, CacheEntry<V>)>, k: u64, i: int)
    requires
        0 <= i <= s.len(),
        forall|j: int| 0 <= j < i ==> s[j].0 != k,
    ensures
        seq_find(s, k) == seq_find(s.skip(i), k),
    decreases i,
{
    if i > 0 {
        assert(s.skip(1) =~= s.drop_first());
        assert forall|j: int| 0 <= j < i - 1 implies s.drop_first()[j].0 != k by {
            assert(s.drop_first()[j] == s[j + 1]);
        }
        lemma_seq_find_skip(s.drop_first(), k, i - 1);
        assert(s.drop_first().skip(i - 1) =~= s.skip(i));
    } else {
        assert(s.skip(0) =~= s);
    }
}

proof fn lemma_seq_find_absent<V>(s: Seq<(u64, CacheEntry<V>)>, k: u64)
    requires
        forall|j: int| 0 <= j < s.len() ==> s[j].0 != k,
    ensures
        seq_find(s, k) is None,
{
    lemma_seq_find_skip(s, k, s.len() as int);
    assert(s.skip(s.len() as int) =~= Seq::<(u64, CacheEntry<V>)>::empty());
}

proof fn lemma_seq_find_push<V>(s: Seq<(u64, CacheEntry<V>)>, p: (u64, CacheEntry<V>), k: u64)
    ensures
        seq_find(s.push(p), k) == (if seq_find(s, k) is Some {
            seq_find(s, k)
        } else if k == p.0 {
            Some(p.1)
        } else {
            None
        }),
    decreases s.len(),
{
    if s.len() == 0 {
        let t = s.push(p);
        assert(t.len() == 1);
        assert(t[0] == p);
        assert(seq_find(s, k) is None);
        if k == p.0 {
            assert(seq_find(t, k) == Some(p.1));
        } else {
            assert(t.drop_first() =~= Seq::<(u64, CacheEntry<V>)>::empty());
            assert(seq_find(t.drop_first(), k) is None);
            assert(seq_find(t, k) is None);
        }
    } else {
        let t = s.push(p);
        assert(t.drop_first() =~= s.drop_first().push(p));
        lemma_seq_find_push(s.drop_first(), p, k);
        assert(t[0] == s[0]);
        if s[0].0 == k {
            assert(seq_find(t, k) == Some(s[0].1));
            assert(seq_find(s, k) == Some(s[0].1));
        } else {
            assert(seq_find(t, k) == seq_find(s.drop_first().push(p), k));
            assert(seq_find(s, k) == seq_find(s.drop_first(), k));
        }
    }
}

proof fn lemma_seq_find_at<V>(s: Seq<(u64, CacheEntry<V>)>, i: int)
    requires
        0 <= i < s.len(),
        forall|j: int| 0 <= j < i ==> s[j].0 != s[i].0,
    ensures
        seq_find(s, s[i].0) == Some(s[i].1),
{
    lemma_seq_find_skip(s, s[i].0, i);
    assert(s.skip(i)[0] == s[i]);
}

proof fn lemma_keys_unique_remove<V>(s: Seq<(u64, CacheEntry<V>)>, i: int)
    requires
        0 <= i < s.len(),
        keys_unique(s),
    ensures
        keys_unique(s.remove(i)),
        seq_find(s.remove(i), s[i].0) is None,
        forall|k: u64| k != s[i].0 ==> seq_find(s.remove(i), k) == seq_find(s, k),
{
    let t = s.remove(i);
    assert forall|a: int, b: int| 0 <= a < b < t.len() implies t[a].0 != t[b].0 by {
        let a2: int = if a < i {
            a
        } else {
            a + 1
        };
        let b2: int = if b < i {
            b
        } else {
            b + 1
        };
        assert(t[a] == s[a2] && t[b] == s[b2]);
    }
    assert forall|j: int| 0 <= j < t.len() implies t[j].0 != s[i].0 by {
        if j < i {
            assert(t[j] == s[j]);
        } else {
            assert(t[j] == s[j + 1]);
        }
    }
    lemma_seq_find_absent(t, s[i].0);
    assert forall|k: u64| k != s[i].0 implies seq_find(t, k) == seq_find(s, k) by {
        lemma_seq_find_frame(s, t, i, k);
    }
}

proof fn lemma_seq_find_frame<V>(
    s: Seq<(u64, CacheEntry<V>)>,
    t: Seq<(u64, CacheEntry<V>)>,
    i: int,
    k: u64,
)
    requires
        0 <= i < s.len(),
        t == s.remove(i),
        k != s[i].0,
    ensures
        seq_find(t, k) == seq_find(s, k),
    decreases s.len(),
{
    if i == 0 {
        assert(t =~= s.drop_first());
    } else {
        assert(s.len() >= 2);
        assert(t[0] == s[0]);
        if s[0].0 == k {
        } else {
            assert(t.drop_first() =~= s.drop_first().remove(i - 1));
            assert(s.drop_first()[i - 1] == s[i]);
            lemma_seq_find_frame(s.drop_first(), t.drop_first(), i - 1, k);
        }
    }
}

proof fn lemma_vals_unique_remove(s: Seq<u64>, i: int)
    requires
        0 <= i < s.len(),
        vals_unique(s),
    ensures
        vals_unique(s.remove(i)),
        !s.remove(i).contains(s[i]),
        forall|x: u64| x != s[i] ==> s.remove(i).contains(x) == s.contains(x),
{
    let t = s.remove(i);
    assert forall|a: int, b: int| 0 <= a < b < t.len() implies t[a] != t[b] by {
        let a2: int = if a < i {
            a
        } else {
            a + 1
        };
        let b2: int = if b < i {
            b
        } else {
            b + 1
        };
        assert(t[a] == s[a2] && t[b] == s[b2]);
    }
    assert forall|j: int| 0 <= j < t.len() implies t[j] != s[i] by {
        if j < i {
            assert(t[j] == s[j]);
        } else {
            assert(t[j] == s[j + 1]);
        }
    }
    if t.contains(s[i]) {
        let j = choose|j: int| 0 <= j < t.len() && t[j] == s[i];
        assert(false);
    }
    assert forall|x: u64| x != s[i] implies t.contains(x) == s.contains(x) by {
        if s.contains(x) {
            let j = choose|j: int| 0 <= j < s.len() && s[j] == x;
            if j < i {
                assert(t[j] == x);
            } else {
                assert(t[j - 1] == x);
            }
        }
        if t.contains(x) {
            let j = choose|j: int| 0 <= j < t.len() && t[j] == x;
            if j < i {
                assert(s[j] == x);
            } else {
                assert(s[j + 1] == x);
            }
        }
    }
}

proof fn lemma_seq_find_none_no_index<V>(s: Seq<(u64, CacheEntry<V>)>, k: u64)
    requires
        seq_find(s, k) is None,
    ensures
        forall|j: int| 0 <= j < s.len() ==> s[j].0 != k,
    decreases s.len(),
{
    if s.len() > 0 {
        lemma_seq_find_none_no_index(s.drop_first(), k);
        assert forall|j: int| 0 <= j < s.len() implies s[j].0 != k by {
            if j > 0 {
                assert(s.drop_first()[j - 1] == s[j]);
            }
        }
    }
}

proof fn lemma_seq_find_index<V>(s: Seq<(u64, CacheEntry<V>)>, k: u64)
    requires
        seq_find(s, k) is Some,
    ensures
        exists|j: int| 0 <= j < s.len() && s[j].0 == k && s[j].1 == seq_find(s, k)->Some_0,
    decreases s.len(),
{
    if s[0].0 == k {
        assert(s[0].0 == k && s[0].1 == seq_find(s, k)->Some_0);
    } else {
        lemma_seq_find_index(s.drop_first(), k);
        let j = choose|j: int|
            0 <= j < s.drop_first().len() && s.drop_first()[j].0 == k && s.drop_first()[j].1
                == seq_find(s.drop_first(), k)->Some_0;
        assert(s[j + 1].0 == k && s[j + 1].1 == seq_find(s, k)->Some_0);
    }
}

proof fn lemma_contains_push(s: Seq<u64>, x: u64)
    ensures
        forall|y: u64| s.push(x).contains(y) == (s.contains(y) || y == x),
        vals_unique(s) && !s.contains(x) ==> vals_unique(s.push(x)),
{
    let t = s.push(x);
    assert forall|y: u64| t.contains(y) == (s.contains(y) || y == x) by {
        if t.contains(y) {
            let j = choose|j: int| 0 <= j < t.len() && t[j] == y;
            if j < s.len() {
                assert(s[j] == y);
            }
        }
        if s.contains(y) {
            let j = choose|j: int| 0 <= j < s.len() && s[j] == y;
            assert(t[j] == y);
        }
        if y == x {
            assert(t[t.len() - 1] == y);
        }
    }
    if vals_unique(s) && !s.contains(x) {
        assert forall|a: int, b: int| 0 <= a < b < t.len() implies t[a] != t[b] by {
            if b < s.len() {
                assert(t[a] == s[a] && t[b] == s[b]);
            } else {
                assert(t[b] == x && t[a] == s[a]);
                assert(s.contains(s[a]));
            }
        }
    }
}

/// A key-value cache with per-entry expiry and a single-flight marker per
/// key in recomputation.
#[derive(Debug)]
pub struct TtlCache<V> {
    config: CacheConfig,
    entries: Vec<(u64, CacheEntry<V>)>,
    pending: Vec<u64>,
}

impl<V> TtlCache<V> {
    pub closed spec fn spec_config(self) -> CacheConfig {
        self.config
    }

    /// The entry stored under `key`, fresh or not.
    pub closed spec fn spec_lookup(self, key: u64) -> Option<CacheEntry<V>> {
        seq_find(self.entries@, key)
    }

    /// Whether a computation for `key` is in flight.
    pub closed spec fn is_pending(self, key: u64) -> bool {
        self.pending@.contains(key)
    }

    /// The number of resident entries.
    pub closed spec fn spec_len(self) -> nat {
        self.entries@.len()
    }

    /// Keys are unique, pending markers are unique, and the capacity bound
    /// holds.
    pub closed spec fn wf(self) -> bool {
        &&& self.config.wf()
        &&& keys_unique(self.entries@)
        &&& vals_unique(self.pending@)
        &&& match self.config.capacity {
            Some(c) => self.entries@.len() <= c,
            None => true,
        }
    }

    /// An empty cache under `config`.
    pub fn new(config: CacheConfig) -> (r: TtlCache<V>)
        requires
            config.wf(),
        ensures
            r.wf(),
            r.spec_config() == config,
            forall|k: u64| r.spec_lookup(k) is None,
            forall|k: u64| !r.is_pending(k),
            r.spec_len() == 0,
    {
        let r = TtlCache { config, entries: Vec::new(), pending: Vec::new() };
        proof {
            assert forall|k: u64| r.spec_lookup(k) is None by {
                lemma_seq_find_absent(r.entries@, k);
            }
        }
        r
    }

    /// The index of `key` among the entries, if it is resident.
    fn find_index(&self, key: u64) -> (r: Option<usize>)
        ensures
            match r {
                Some(i) => i < self.entries@.len() && self.entries@[i as int].0 == key
                    && self.spec_lookup(key) == Some(self.entries@[i as int].1),
                None => self.spec_lookup(key) is None,
            },
    {
        let mut i: usize = 0;
        let n = self.entries.len();
        while i < n
            invariant
                0 <= i <= n == self.entries@.len(),
                forall|j: int| 0 <= j < i ==> self.entries@[j].0 != key,
            decreases n - i,
        {
            if self.entries[i].0 == key {
                proof {
                    lemma_seq_find_at(self.entries@, i as int);
                }
                return Some(i);
            }
            i = i + 1;
        }
        proof {
            lemma_seq_find_absent(self.entries@, key);
        }
        None
    }

    fn pending_index(&self, key: u64) -> (r: Option<usize>)
        ensures
            match r {
                Some(i) => i < self.pending@.len() && self.pending@[i as int] == key
                    && self.is_pending(key),
                None => !self.is_pending(key),
            },
    {
        let mut i: usize = 0;
        let n = self.pending.len();
        while i < n
            invariant
                0 <= i <= n == self.pending@.len(),
                forall|j: int| 0 <= j < i ==> self.pending@[j] != key,
            decreases n - i,
        {
            if self.pending[i] == key {
                return Some(i);
            }
            i = i + 1;
        }
        proof {
            if self.pending@.contains(key) {
                let j = choose|j: int| 0 <= j < self.pending@.len() && self.pending@[j] == key;
                assert(false);
            }
        }
        None
    }

    /// Looks `key` up at time `now`.
    ///
    /// A fresh entry is served and its idle clock restarts. A cold or
    /// expired key hands exactly one caller the computation: the first such
    /// lookup is told to start computing and installs the in-flight marker;
    /// every further lookup of the key is told to await that flight, until
    /// [`Self::finish_compute`] records its completion. The laws
    /// [`lemma_single_flight`] and [`lemma_no_stale_serve`] are proved from
    /// this contract.
    pub fn begin_get(&mut self, key: u64, now: u64) -> (o: CacheOutcome)
        requires
            old(self).wf(),
        ensures
            final(self).wf(),
            begin_get_post(*old(self), *final(self), key, now, o),
    {
        let found = self.find_index(key);
        match found {
            Some(i) => {
                let fresh_ttl = now <= self.entries[i].1.inserted || now - self.entries[i].1.inserted
                    <= self.config.ttl;
                let fresh_idle = now <= self.entries[i].1.last_access || now
                    - self.entries[i].1.last_access <= self.config.idle;
                if fresh_ttl && fresh_idle {
                    let ghost s0 = self.entries@;
                    let kv = self.entries.remove(i);
                    proof {
                        lemma_keys_unique_remove(s0, i as int);
                        lemma_seq_find_none_no_index(s0.remove(i as int), key);
                    }
                    let e1 = CacheEntry {
                        value: kv.1.value,
                        inserted: kv.1.inserted,
                        last_access: now,
                    };
                    self.entries.push((key, e1));
                    proof {
                        let ghost s1 = s0.remove(i as int);
                        assert forall|k2: u64| true implies seq_find(self.entries@, k2) == (
                        if k2 == key {
                            Some(
                                CacheEntry {
                                    value: s0[i as int].1.value,
                                    inserted: s0[i as int].1.inserted,
                                    last_access: now,
                                },
                            )
                        } else {
                            seq_find(s0, k2)
                        }) by {
                            lemma_seq_find_push(s1, (key, e1), k2);
                        }
                        assert forall|a: int, b: int|
                            0 <= a < b < self.entries@.len() implies self.entries@[a].0
                            != self.entries@[b].0 by {
                            if b < s1.len() {
                                assert(self.entries@[a] == s1[a] && self.entries@[b] == s1[b]);
                            } else {
                                assert(self.entries@[a] == s1[a]);
                            }
                        }
                    }
                    CacheOutcome::Fresh
                } else {
                    self.note_pending(key)
                }
            },
            None => self.note_pending(key),
        }
    }

    /// Tells a caller of a cold key to await the in-flight computation, or
    /// to start the one computation, installing the marker.
    fn note_pending(&mut self, key: u64) -> (o: CacheOutcome)
        requires
            old(self).wf(),
        ensures
            final(self).wf(),
            final(self).spec_config() == old(self).spec_config(),
            forall|k2: u64| final(self).spec_lookup(k2) == old(self).spec_lookup(k2),
            forall|k2: u64| k2 != key ==> final(self).is_pending(k2) == old(self).is_pending(k2),
            final(self).is_pending(key),
            o == (if old(self).is_pending(key) {
                CacheOutcome::AwaitPending
            } else {
                CacheOutcome::StartCompute
            }),
            final(self).spec_len() == old(self).spec_len(),
    {
        match self.pending_index(key) {
            Some(_) => CacheOutcome::AwaitPending,
            None => {
                proof {
                    lemma_contains_push(self.pending@, key);
                }
                self.pending.push(key);
                CacheOutcome::StartCompute
            },
        }
    }

    /// Clears the in-flight marker for `key`, reporting whether it was set.
    fn clear_pending(&mut self, key: u64) -> (was: bool)
        requires
            old(self).wf(),
        ensures
            final(self).wf(),
            final(self).spec_config() == old(self).spec_config(),
            was == old(self).is_pending(key),
            !final(self).is_pending(key),
            forall|k2: u64| k2 != key ==> final(self).is_pending(k2) == old(self).is_pending(k2),
            forall|k2: u64| final(self).spec_lookup(k2) == old(self).spec_lookup(k2),
            final(self).spec_len() == old(self).spec_len(),
    {
        match self.pending_index(key) {
            Some(j) => {
                let ghost p0 = self.pending@;
                self.pending.remove(j);
                proof {
                    lemma_vals_unique_remove(p0, j as int);
                }
                true
            },
            None => false,
        }
    }

    /// Replaces the entry already stored under `key` (at entry index `i`)
    /// with a value computed at `now`.
    fn replace_value(&mut self, i: usize, key: u64, v: V, now: u64)
        requires
            old(self).wf(),
            i < old(self).entries@.len(),
            old(self).entries@[i as int].0 == key,
        ensures
            final(self).wf(),
            final(self).spec_config() == old(self).spec_config(),
            forall|k2: u64| final(self).is_pending(k2) == old(self).is_pending(k2),
            final(self).spec_lookup(key) == Some(
                CacheEntry { value: v, inserted: now, last_access: now },
            ),
            forall|k2: u64| k2 != key ==> final(self).spec_lookup(k2) == old(self).spec_lookup(k2),
            final(self).spec_len() == old(self).spec_len(),
    {
        let ghost s0 = self.entries@;
        let _old = self.entries.remove(i);
        proof {
            lemma_keys_unique_remove(s0, i as int);
            lemma_seq_find_none_no_index(s0.remove(i as int), key);
        }
        let ghost s1 = self.entries@;
        let e1 = CacheEntry { value: v, inserted: now, last_access: now };
        self.entries.push((key, e1));
        proof {
            assert forall|k2: u64| k2 != key implies seq_find(self.entries@, k2) == seq_find(
                s0,
                k2,
            ) by {
                lemma_seq_find_push(s1, (key, e1), k2);
            }
            assert(seq_find(self.entries@, key) == Some(e1)) by {
                lemma_seq_find_push(s1, (key, e1), key);
            }
            assert forall|a: int, b: int|
                0 <= a < b < self.entries@.len() implies self.entries@[a].0
                != self.entries@[b].0 by {
                if b < s1.len() {
                    assert(self.entries@[a] == s1[a] && self.entries@[b] == s1[b]);
                } else {
                    assert(self.entries@[a] == s1[a]);
                }
            }
        }
    }

    /// Appends an entry for a key not yet resident; room must exist.
    fn append_value(&mut self, key: u64, v: V, now: u64)
        requires
            old(self).wf(),
            old(self).spec_lookup(key) is None,
            match old(self).spec_config().capacity {
                Some(c) => old(self).spec_len() < c,
                None => true,
            },
        ensures
            final(self).wf(),
            final(self).spec_config() == old(self).spec_config(),
            forall|k2: u64| final(self).is_pending(k2) == old(self).is_pending(k2),
            final(self).spec_lookup(key) == Some(
                CacheEntry { value: v, inserted: now, last_access: now },
            ),
            forall|k2: u64| k2 != key ==> final(self).spec_lookup(k2) == old(self).spec_lookup(k2),
            final(self).spec_len() == old(self).spec_len() + 1,
    {
        let ghost s0 = self.entries@;
        proof {
            lemma_seq_find_none_no_index(s0, key);
        }
        let e1 = CacheEntry { value: v, inserted: now, last_access: now };
        self.entries.push((key, e1));
        proof {
            assert forall|k2: u64| k2 != key implies seq_find(self.entries@, k2) == seq_find(
                s0,
                k2,
            ) by {
                lemma_seq_find_push(s0, (key, e1), k2);
            }
            assert(seq_find(self.entries@, key) == Some(e1)) by {
                lemma_seq_find_push(s0, (key, e1), key);
            }
            assert forall|a: int, b: int|
                0 <= a < b < self.entries@.len() implies self.entries@[a].0
                != self.entries@[b].0 by {
                if b < s0.len() {
                    assert(self.entries@[a] == s0[a] && self.entries@[b] == s0[b]);
                } else {
                    assert(self.entries@[a] == s0[a]);
                }
            }
        }
    }

    /// The index of the entry longest unaccessed.
    fn min_access_index(&self) -> (m: usize)
        requires
            self.entries@.len() > 0,
        ensures
            m < self.entries@.len(),
            forall|j: int|
                0 <= j < self.entries@.len() ==> self.entries@[m as int].1.last_access
                    <= self.entries@[j].1.last_access,
    {
        let mut m: usize = 0;
        let mut i: usize = 1;
        let n = self.entries.len();
        while i < n
            invariant
                0 <= m < i <= n == self.entries@.len(),
                forall|j: int|
                    0 <= j < i ==> self.entries@[m as int].1.last_access
                        <= self.entries@[j].1.last_access,
            decreases n - i,
        {
            if self.entries[i].1.last_access < self.entries[m].1.last_access {
                m = i;
            }
            i = i + 1;
        }
        m
    }

    /// Removes the entry longest unaccessed, to make room.
    fn evict_lru(&mut self) -> (victim: u64)
        requires
            old(self).wf(),
            old(self).spec_len() > 0,
        ensures
            final(self).wf(),
            final(self).spec_config() == old(self).spec_config(),
            forall|k2: u64| final(self).is_pending(k2) == old(self).is_pending(k2),
            old(self).spec_lookup(victim) is Some,
            final(self).spec_lookup(victim) is None,
            forall|k2: u64|
                k2 != victim ==> final(self).spec_lookup(k2) == old(self).spec_lookup(k2),
            forall|k2: u64|
                #[trigger] old(self).spec_lookup(k2) is Some ==> old(self).spec_lookup(
                    victim,
                )->Some_0.last_access <= old(self).spec_lookup(k2)->Some_0.last_access,
            final(self).spec_len() == old(self).spec_len() - 1,
    {
        let ghost s0 = self.entries@;
        let m = self.min_access_index();
        let victim = self.entries[m].0;
        proof {
            lemma_seq_find_at(s0, m as int);
            lemma_keys_unique_remove(s0, m as int);
            assert forall|k2: u64|
                #[trigger] seq_find(s0, k2) is Some implies s0[m as int].1.last_access <= seq_find(
                s0,
                k2,
            )->Some_0.last_access by {
                lemma_seq_find_index(s0, k2);
            }
        }
        self.entries.remove(m);
        victim
    }

    /// Records the outcome of the one in-flight computation for `key` at
    /// time `now`: a value replaces whatever was stored and both clocks
    /// restart; a failure stores nothing, so the next lookup retries. Either
    /// way the in-flight marker is cleared and every waiter may read the
    /// outcome. When a bounded cache is full, the entry longest unaccessed
    /// makes room. The law [`lemma_failed_compute_not_cached`] is proved
    /// from this contract.
    pub fn finish_compute(&mut self, key: u64, value: Option<V>, now: u64) -> (was_pending: bool)
        requires
            old(self).wf(),
        ensures
            final(self).wf(),
            finish_compute_post(*old(self), *final(self), key, value, now, was_pending),
    {
        let was = self.clear_pending(key);
        if !was {
            return false;
        }
        match value {
            Some(v) => {
                match self.find_index(key) {
                    Some(i) => {
                        self.replace_value(i, key, v, now);
                    },
                    None => {
                        let needs_evict = match self.config.capacity {
                            Some(c) => self.entries.len() as u64 >= c,
                            None => false,
                        };
                        if needs_evict {
                            let victim = self.evict_lru();
                            self.append_value(key, v, now);
                            proof {
                                assert(evicted_to_fit(*old(self), *self, key)) by {
                                    assert(victim != key);
                                    assert(old(self).spec_lookup(victim) is Some);
                                    assert(self.spec_lookup(victim) is None);
                                }
                            }
                        } else {
                            self.append_value(key, v, now);
                        }
                    },
                }
            },
            None => {},
        }
        true
    }

    /// A reference to the value stored under `key`, fresh or not.
    pub fn peek(&self, key: u64) -> (r: Option<&V>)
        ensures
            match r {
                Some(v) => self.spec_lookup(key) is Some && *v == self.spec_lookup(key)->Some_0.value,
                None => self.spec_lookup(key) is None,
            },
    {
        match self.find_index(key) {
            Some(i) => Some(&self.entries[i].1.value),
            None => None,
        }
    }
}

/// Whether the entry under `key` in `pre` may be served at `now`.
pub open spec fn served_fresh<V>(pre: TtlCache<V>, key: u64, now: u64) -> bool {
    match pre.spec_lookup(key) {
        Some(e) => entry_fresh(e, pre.spec_config(), now),
        None => false,
    }
}

/// Everything [`TtlCache::begin_get`] promises: how the outcome is decided
/// by the prior state, and how the state changes.
pub open spec fn begin_get_post<V>(
    pre: TtlCache<V>,
    post: TtlCache<V>,
    key: u64,
    now: u64,
    o: CacheOutcome,
) -> bool {
    &&& post.spec_config() == pre.spec_config()
    &&& (o == CacheOutcome::Fresh <==> served_fresh(pre, key, now))
    &&& (o == CacheOutcome::AwaitPending <==> !served_fresh(pre, key, now) && pre.is_pending(key))
    &&& (o == CacheOutcome::StartCompute <==> !served_fresh(pre, key, now) && !pre.is_pending(key))
    &&& forall|k2: u64| k2 != key ==> post.spec_lookup(k2) == pre.spec_lookup(k2)
    &&& forall|k2: u64| k2 != key ==> post.is_pending(k2) == pre.is_pending(k2)
    &&& match o {
        CacheOutcome::Fresh => {
            &&& match pre.spec_lookup(key) {
                Some(e) => post.spec_lookup(key) == Some(
                    CacheEntry { value: e.value, inserted: e.inserted, last_access: now },
                ),
                None => false,
            }
            &&& post.is_pending(key) == pre.is_pending(key)
        },
        CacheOutcome::AwaitPending => {
            &&& post.spec_lookup(key) == pre.spec_lookup(key)
            &&& post.is_pending(key)
        },
        CacheOutcome::StartCompute => {
            &&& post.spec_lookup(key) == pre.spec_lookup(key)
            &&& post.is_pending(key)
        },
    }
    &&& post.spec_len() == pre.spec_len()
}

/// A bounded cache was full for a new key: one resident entry, among those
/// longest unaccessed, made room, and nothing else changed.
pub open spec fn evicted_to_fit<V>(pre: TtlCache<V>, post: TtlCache<V>, key: u64) -> bool {
    exists|kv: u64|
        {
            &&& kv != key
            &&& #[trigger] pre.spec_lookup(kv) is Some
            &&& post.spec_lookup(kv) is None
            &&& forall|k2: u64|
                k2 != key && k2 != kv ==> post.spec_lookup(k2) == pre.spec_lookup(k2)
            &&& forall|k2: u64|
                #[trigger] pre.spec_lookup(k2) is Some ==> pre.spec_lookup(kv)->Some_0.last_access
                    <= pre.spec_lookup(k2)->Some_0.last_access
        }
}

/// Everything [`TtlCache::finish_compute`] promises.
pub open spec fn finish_compute_post<V>(
    pre: TtlCache<V>,
    post: TtlCache<V>,
    key: u64,
    value: Option<V>,
    now: u64,
    was_pending: bool,
) -> bool {
    &&& post.spec_config() == pre.spec_config()
    &&& was_pending == pre.is_pending(key)
    &&& !post.is_pending(key)
    &&& forall|k2: u64| k2 != key ==> post.is_pending(k2) == pre.is_pending(k2)
    &&& match value {
        Some(v) => if was_pending {
            &&& post.spec_lookup(key) == Some(
                CacheEntry { value: v, inserted: now, last_access: now },
            )
            &&& (pre.spec_lookup(key) is Some || (match pre.spec_config().capacity {
                Some(c) => pre.spec_len() < c,
                None => true,
            }) ==> forall|k2: u64| k2 != key ==> post.spec_lookup(k2) == pre.spec_lookup(k2))
            &&& (!(pre.spec_lookup(key) is Some || (match pre.spec_config().capacity {
                Some(c) => pre.spec_len() < c,
                None => true,
            })) ==> evicted_to_fit(pre, post, key))
        } else {
            forall|k2: u64| post.spec_lookup(k2) == pre.spec_lookup(k2)
        },
        None => forall|k2: u64| post.spec_lookup(k2) == pre.spec_lookup(k2),
    }
}

/// Single flight: while a computation for a key is in flight, a lookup of
/// that key never starts another, and the flight stays pending; so any
/// number of concurrent cold lookups of one key hand out exactly one
/// computation, the first.
pub proof fn lemma_single_flight<V>(
    pre: TtlCache<V>,
    post: TtlCache<V>,
    key: u64,
    now: u64,
    o: CacheOutcome,
)
    requires
        begin_get_post(pre, post, key, now, o),
        pre.is_pending(key),
    ensures
        o != CacheOutcome::StartCompute,
        post.is_pending(key),
{
}

/// An entry past its time-to-live or past its idle bound is never served,
/// whichever bound fired sooner.
pub proof fn lemma_no_stale_serve<V>(
    pre: TtlCache<V>,
    post: TtlCache<V>,
    key: u64,
    now: u64,
    o: CacheOutcome,
    e: CacheEntry<V>,
)
    requires
        begin_get_post(pre, post, key, now, o),
        pre.spec_lookup(key) == Some(e),
        now > e.inserted + pre.spec_config().ttl || now > e.last_access + pre.spec_config().idle,
    ensures
        o != CacheOutcome::Fresh,
{
}

/// A failed computation is not cached: it leaves every entry unchanged and
/// clears the flight, so the next lookup of the key retries instead of
/// observing a stale failure.
pub proof fn lemma_failed_compute_not_cached<V>(
    pre: TtlCache<V>,
    post: TtlCache<V>,
    key: u64,
    now: u64,
    was_pending: bool,
)
    requires
        finish_compute_post(pre, post, key, None::<V>, now, was_pending),
    ensures
        forall|k2: u64| post.spec_lookup(k2) == pre.spec_lookup(k2),
        !post.is_pending(key),
{
}

} // verus!

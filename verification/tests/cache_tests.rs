use dropstf::cache::{CacheConfig, CacheOutcome, TtlCache};
use dropstf::data::{GlobalStats, TopOrder};
use dropstf::service::DataSource;
use dropstf::steam_id::SteamId;

fn small_cache(capacity: Option<u64>) -> TtlCache<u64> {
    TtlCache::new(CacheConfig {
        ttl: 10,
        idle: 5,
        capacity,
    })
}

/// A stub computation that counts how often it runs.
struct CountingStore {
    computations: u64,
}

impl CountingStore {
    fn compute(&mut self) -> u64 {
        self.computations += 1;
        42
    }
}

#[test]
fn concurrent_cold_lookups_compute_exactly_once() {
    let mut cache = small_cache(None);
    let mut store = CountingStore { computations: 0 };
    let key = 7u64;

    // Many callers race on the same cold key: only the first is handed the
    // computation, the rest are told to await it.
    let mut computed_value = None;
    for _caller in 0..10 {
        match cache.begin_get(key, 0) {
            CacheOutcome::StartCompute => {
                computed_value = Some(store.compute());
            }
            CacheOutcome::AwaitPending => {}
            CacheOutcome::Fresh => panic!("cold key served fresh"),
        }
    }
    assert_eq!(store.computations, 1);

    // Completion wakes the waiters; every later lookup is served.
    assert!(cache.finish_compute(key, computed_value, 0));
    for _caller in 0..10 {
        assert_eq!(cache.begin_get(key, 0), CacheOutcome::Fresh);
    }
    assert_eq!(store.computations, 1);
    assert_eq!(cache.peek(key), Some(&42));
}

#[test]
fn entry_expires_when_ttl_elapses() {
    let mut cache = small_cache(None);
    let key = 1u64;
    assert_eq!(cache.begin_get(key, 0), CacheOutcome::StartCompute);
    cache.finish_compute(key, Some(5), 0);

    // Keep touching the entry so idle time never fires; ttl still does.
    assert_eq!(cache.begin_get(key, 4), CacheOutcome::Fresh);
    assert_eq!(cache.begin_get(key, 8), CacheOutcome::Fresh);
    assert_eq!(cache.begin_get(key, 10), CacheOutcome::Fresh);
    assert_eq!(cache.begin_get(key, 11), CacheOutcome::StartCompute);
}

#[test]
fn entry_expires_when_idle_elapses() {
    let mut cache = small_cache(None);
    let key = 1u64;
    assert_eq!(cache.begin_get(key, 0), CacheOutcome::StartCompute);
    cache.finish_compute(key, Some(5), 0);

    // Untouched for longer than the idle bound, though well within ttl.
    assert_eq!(cache.begin_get(key, 6), CacheOutcome::StartCompute);
}

#[test]
fn idle_clock_restarts_on_access() {
    let mut cache = small_cache(None);
    let key = 1u64;
    assert_eq!(cache.begin_get(key, 0), CacheOutcome::StartCompute);
    cache.finish_compute(key, Some(5), 0);

    assert_eq!(cache.begin_get(key, 4), CacheOutcome::Fresh);
    // Four more seconds idle: within five of the last access.
    assert_eq!(cache.begin_get(key, 8), CacheOutcome::Fresh);
}

#[test]
fn failed_computation_is_not_cached_and_next_lookup_retries() {
    let mut cache = small_cache(None);
    let mut store = CountingStore { computations: 0 };
    let key = 3u64;

    assert_eq!(cache.begin_get(key, 0), CacheOutcome::StartCompute);
    store.compute();
    assert!(cache.finish_compute(key, None, 0));
    assert_eq!(cache.peek(key), None);

    // The failure was handed to the waiters but never stored: retry.
    assert_eq!(cache.begin_get(key, 0), CacheOutcome::StartCompute);
    store.compute();
    cache.finish_compute(key, Some(9), 0);
    assert_eq!(store.computations, 2);
    assert_eq!(cache.peek(key), Some(&9));
}

#[test]
fn capacity_overflow_evicts_least_recently_used() {
    let mut cache = small_cache(Some(2));
    for (key, t) in [(1u64, 0u64), (2, 1)] {
        assert_eq!(cache.begin_get(key, t), CacheOutcome::StartCompute);
        cache.finish_compute(key, Some(key * 10), t);
    }
    // Touch key 1, leaving key 2 the least recently used.
    assert_eq!(cache.begin_get(1, 2), CacheOutcome::Fresh);

    assert_eq!(cache.begin_get(3, 3), CacheOutcome::StartCompute);
    cache.finish_compute(3, Some(30), 3);

    assert_eq!(cache.peek(2), None);
    assert_eq!(cache.peek(1), Some(&10));
    assert_eq!(cache.peek(3), Some(&30));
}

#[test]
fn replacing_a_resident_key_evicts_nothing() {
    let mut cache = small_cache(Some(2));
    for key in [1u64, 2] {
        assert_eq!(cache.begin_get(key, 0), CacheOutcome::StartCompute);
        cache.finish_compute(key, Some(key), 0);
    }
    // Key 1 expires by idle; its recomputation replaces it in place.
    assert_eq!(cache.begin_get(1, 6), CacheOutcome::StartCompute);
    cache.finish_compute(1, Some(100), 6);
    assert_eq!(cache.peek(1), Some(&100));
    assert_eq!(cache.peek(2), Some(&2));
}

#[test]
fn distinct_keys_are_independent_flights() {
    let mut cache = small_cache(None);
    assert_eq!(cache.begin_get(1, 0), CacheOutcome::StartCompute);
    assert_eq!(cache.begin_get(2, 0), CacheOutcome::StartCompute);
    assert_eq!(cache.begin_get(1, 0), CacheOutcome::AwaitPending);
    assert_eq!(cache.begin_get(2, 0), CacheOutcome::AwaitPending);
    cache.finish_compute(1, Some(1), 0);
    assert_eq!(cache.begin_get(1, 0), CacheOutcome::Fresh);
    assert_eq!(cache.begin_get(2, 0), CacheOutcome::AwaitPending);
}

#[test]
fn completion_without_a_flight_stores_nothing() {
    let mut cache = small_cache(None);
    assert!(!cache.finish_compute(9, Some(1), 0));
    assert_eq!(cache.peek(9), None);
}

#[test]
fn data_source_serves_global_stats_from_cache() {
    let mut ds = DataSource::new();
    let mut store = CountingStore { computations: 0 };
    assert_eq!(ds.global_begin(0), CacheOutcome::StartCompute);
    store.compute();
    let stats = GlobalStats {
        drops: 100,
        ubers: 50,
        games: 20,
    };
    assert!(ds.global_finish(Some(stats), 0));
    assert_eq!(ds.global_begin(1), CacheOutcome::Fresh);
    assert_eq!(ds.global_peek(), Some(&stats));
    assert_eq!(store.computations, 1);
}

#[test]
fn data_source_orderings_are_independent_keys() {
    let mut ds = DataSource::new();
    assert_eq!(ds.top_begin(TopOrder::Drops, 0), CacheOutcome::StartCompute);
    assert_eq!(ds.top_begin(TopOrder::Dpu, 0), CacheOutcome::StartCompute);
    assert_eq!(ds.top_begin(TopOrder::Drops, 0), CacheOutcome::AwaitPending);
    assert!(ds.top_finish(TopOrder::Drops, Some(Vec::new()), 0));
    assert_eq!(ds.top_begin(TopOrder::Drops, 0), CacheOutcome::Fresh);
    assert!(ds.top_peek(TopOrder::Drops).unwrap().is_empty());
    assert!(ds.top_peek(TopOrder::Dpu).is_none());
    assert_eq!(ds.top_begin(TopOrder::Dpu, 0), CacheOutcome::AwaitPending);
}

#[test]
fn data_source_player_cache_is_keyed_by_identity() {
    let mut ds = DataSource::new();
    let a = SteamId::new(76561198024494988);
    let b = SteamId::new(76561198024494989);
    assert_eq!(ds.player_begin(a, 0), CacheOutcome::StartCompute);
    assert_eq!(ds.player_begin(b, 0), CacheOutcome::StartCompute);
    assert_eq!(ds.player_begin(a, 0), CacheOutcome::AwaitPending);
    assert!(ds.player_finish(a, None, 0));
    assert!(ds.player_peek(a).is_none());
    assert_eq!(ds.player_begin(a, 0), CacheOutcome::StartCompute);
}

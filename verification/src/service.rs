//! The stats service: three independently expiring caches created once at
//! startup and handed to the orchestrator, and the decision steps of
//! vanity-name resolution.
use crate::cache::{
    begin_get_post, finish_compute_post, CacheConfig, CacheOutcome, TtlCache,
};
use crate::data::{DropStats, GlobalStats, TopOrder, TopStats};
use crate::steam_id::SteamId;
use vstd::prelude::*;

verus! {

/// Seconds a cache entry lives at most, counted from insertion.
pub const CACHE_TTL_SECONDS: u64 = 900;

/// Seconds a cache entry may go unread before it expires.
pub const CACHE_IDLE_SECONDS: u64 = 300;

/// Resident entries the per-player cache may hold at most.
pub const PLAYER_CACHE_CAPACITY: u64 = 1024;

/// The single key of the global-stats cache.
pub const GLOBAL_KEY: u64 = 0;

/// The orchestrator's owned state: a cache for the global aggregates, one
/// for the leaderboards keyed by ordering, and a capacity-bounded one for
/// per-player stats keyed by identity.
#[derive(Debug)]
pub struct DataSource {
    global_cache: TtlCache<GlobalStats>,
    top_cache: TtlCache<Vec<TopStats>>,
    player_cache: TtlCache<DropStats>,
}

/// The configuration of the two unbounded caches.
pub open spec fn spec_shared_config() -> CacheConfig {
    CacheConfig { ttl: CACHE_TTL_SECONDS, idle: CACHE_IDLE_SECONDS, capacity: None }
}

/// The configuration of the per-player cache.
pub open spec fn spec_player_config() -> CacheConfig {
    CacheConfig {
        ttl: CACHE_TTL_SECONDS,
        idle: CACHE_IDLE_SECONDS,
        capacity: Some(PLAYER_CACHE_CAPACITY),
    }
}

impl DataSource {
    pub closed spec fn global(self) -> TtlCache<GlobalStats> {
        self.global_cache
    }

    pub closed spec fn top(self) -> TtlCache<Vec<TopStats>> {
        self.top_cache
    }

    pub closed spec fn player(self) -> TtlCache<DropStats> {
        self.player_cache
    }

    pub open spec fn wf(self) -> bool {
        &&& self.global().wf()
        &&& self.top().wf()
        &&& self.player().wf()
        &&& self.global().spec_config() == spec_shared_config()
        &&& self.top().spec_config() == spec_shared_config()
        &&& self.player().spec_config() == spec_player_config()
    }

    /// A fresh service with its three empty caches, configured as the
    /// design fixes them: fifteen minutes to live, five minutes idle, and a
    /// thousand-and-twenty-four-player bound on the per-player cache.
    pub fn new() -> (r: DataSource)
        ensures
            r.wf(),
            forall|k: u64| r.global().spec_lookup(k) is None && !r.global().is_pending(k),
            forall|k: u64| r.top().spec_lookup(k) is None && !r.top().is_pending(k),
            forall|k: u64| r.player().spec_lookup(k) is None && !r.player().is_pending(k),
    {
        let shared = CacheConfig {
            ttl: CACHE_TTL_SECONDS,
            idle: CACHE_IDLE_SECONDS,
            capacity: None,
        };
        let player = CacheConfig {
            ttl: CACHE_TTL_SECONDS,
            idle: CACHE_IDLE_SECONDS,
            capacity: Some(PLAYER_CACHE_CAPACITY),
        };
        DataSource {
            global_cache: TtlCache::new(shared),
            top_cache: TtlCache::new(shared),
            player_cache: TtlCache::new(player),
        }
    }

    /// Consults the global-stats cache at `now`.
    pub fn global_begin(&mut self, now: u64) -> (o: CacheOutcome)
        requires
            old(self).wf(),
        ensures
            final(self).wf(),
            begin_get_post(old(self).global(), final(self).global(), GLOBAL_KEY, now, o),
            final(self).top() == old(self).top(),
            final(self).player() == old(self).player(),
    {
        self.global_cache.begin_get(GLOBAL_KEY, now)
    }

    /// Records the outcome of the one global-stats computation.
    pub fn global_finish(&mut self, value: Option<GlobalStats>, now: u64) -> (was: bool)
        requires
            old(self).wf(),
        ensures
            final(self).wf(),
            finish_compute_post(
                old(self).global(),
                final(self).global(),
                GLOBAL_KEY,
                value,
                now,
                was,
            ),
            final(self).top() == old(self).top(),
            final(self).player() == old(self).player(),
    {
        self.global_cache.finish_compute(GLOBAL_KEY, value, now)
    }

    /// The cached global stats, fresh or not.
    pub fn global_peek(&self) -> (r: Option<&GlobalStats>)
        ensures
            match r {
                Some(v) => self.global().spec_lookup(GLOBAL_KEY) is Some && *v == self.global()
                    .spec_lookup(GLOBAL_KEY)->Some_0.value,
                None => self.global().spec_lookup(GLOBAL_KEY) is None,
            },
    {
        self.global_cache.peek(GLOBAL_KEY)
    }

    /// Consults the leaderboard cache for one ordering at `now`.
    pub fn top_begin(&mut self, order: TopOrder, now: u64) -> (o: CacheOutcome)
        requires
            old(self).wf(),
        ensures
            final(self).wf(),
            begin_get_post(
                old(self).top(),
                final(self).top(),
                order.spec_cache_key(),
                now,
                o,
            ),
            final(self).global() == old(self).global(),
            final(self).player() == old(self).player(),
    {
        let key = order.cache_key();
        self.top_cache.begin_get(key, now)
    }

    /// Records the outcome of the one leaderboard computation for an
    /// ordering.
    pub fn top_finish(&mut self, order: TopOrder, value: Option<Vec<TopStats>>, now: u64) -> (was:
        bool)
        requires
            old(self).wf(),
        ensures
            final(self).wf(),
            finish_compute_post(
                old(self).top(),
                final(self).top(),
                order.spec_cache_key(),
                value,
                now,
                was,
            ),
            final(self).global() == old(self).global(),
            final(self).player() == old(self).player(),
    {
        let key = order.cache_key();
        self.top_cache.finish_compute(key, value, now)
    }

    /// The cached leaderboard for an ordering, fresh or not.
    pub fn top_peek(&self, order: TopOrder) -> (r: Option<&Vec<TopStats>>)
        ensures
            match r {
                Some(v) => self.top().spec_lookup(order.spec_cache_key()) is Some && *v == self
                    .top().spec_lookup(order.spec_cache_key())->Some_0.value,
                None => self.top().spec_lookup(order.spec_cache_key()) is None,
            },
    {
        let key = order.cache_key();
        self.top_cache.peek(key)
    }

    /// Consults the per-player cache at `now`.
    pub fn player_begin(&mut self, id: SteamId, now: u64) -> (o: CacheOutcome)
        requires
            old(self).wf(),
        ensures
            final(self).wf(),
            begin_get_post(old(self).player(), final(self).player(), id@, now, o),
            final(self).global() == old(self).global(),
            final(self).top() == old(self).top(),
    {
        let key = id.to_u64();
        self.player_cache.begin_get(key, now)
    }

    /// Records the outcome of the one per-player computation; the two-tier
    /// fallback in [`crate::data::stats_for_user_fallback`] supplies the
    /// value.
    pub fn player_finish(&mut self, id: SteamId, value: Option<DropStats>, now: u64) -> (was: bool)
        requires
            old(self).wf(),
        ensures
            final(self).wf(),
            finish_compute_post(
                old(self).player(),
                final(self).player(),
                id@,
                value,
                now,
                was,
            ),
            final(self).global() == old(self).global(),
            final(self).top() == old(self).top(),
    {
        let key = id.to_u64();
        self.player_cache.finish_compute(key, value, now)
    }

    /// The cached stats of one player, fresh or not.
    pub fn player_peek(&self, id: SteamId) -> (r: Option<&DropStats>)
        ensures
            match r {
                Some(v) => self.player().spec_lookup(id@) is Some && *v == self.player()
                    .spec_lookup(id@)->Some_0.value,
                None => self.player().spec_lookup(id@) is None,
            },
    {
        let key = id.to_u64();
        self.player_cache.peek(key)
    }
}

/// What to do for a vanity token after the persistent mapping store
/// answered.
#[derive(Debug, Clone, Copy, PartialEq, Eq, Structural)]
pub enum VanityStep {
    UseCached(SteamId),
    NeedResolver,
}

/// A persisted mapping is terminal and authoritative: the external resolver
/// is to be consulted only when the store holds no row for the token.
pub fn vanity_cache_step(cached: Option<SteamId>) -> (r: VanityStep)
    ensures
        match cached {
            Some(id) => r == VanityStep::UseCached(id),
            None => r == VanityStep::NeedResolver,
        },
{
    match cached {
        Some(id) => VanityStep::UseCached(id),
        None => VanityStep::NeedResolver,
    }
}

/// What to do with the external resolver's successful answer.
#[derive(Debug, Clone, Copy, PartialEq, Eq, Structural)]
pub enum VanityResolution {
    /// The resolver knows the player: insert the mapping, then hand the
    /// identity out.
    PersistAndReturn(SteamId),
    /// The resolver found no match: hand out plain absence and persist
    /// nothing, since the name may later be claimed and registered.
    NothingFound,
}

/// A resolver hit is persisted and returned; a resolver miss is a plain
/// not-found, never persisted. Resolver faults never reach this step: they
/// propagate unchanged as [`crate::error::DropsError::Steam`].
pub fn vanity_resolver_step(resolved: Option<SteamId>) -> (r: VanityResolution)
    ensures
        match resolved {
            Some(id) => r == VanityResolution::PersistAndReturn(id),
            None => r == VanityResolution::NothingFound,
        },
{
    match resolved {
        Some(id) => VanityResolution::PersistAndReturn(id),
        None => VanityResolution::NothingFound,
    }
}

} // verus!

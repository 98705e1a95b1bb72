use dropstf::service::{vanity_cache_step, vanity_resolver_step, VanityResolution, VanityStep};
use dropstf::steam_id::SteamId;
use std::collections::HashMap;

/// A stub of the external resolver that counts its invocations.
struct StubResolver {
    calls: u64,
    answer: Option<SteamId>,
}

impl StubResolver {
    fn resolve(&mut self) -> Option<SteamId> {
        self.calls += 1;
        self.answer
    }
}

/// The resolution loop as the service runs it: consult the persistent
/// mapping, call the resolver only when told to, persist only hits.
fn resolve_vanity(
    token: &str,
    mapping: &mut HashMap<String, SteamId>,
    resolver: &mut StubResolver,
) -> Option<SteamId> {
    match vanity_cache_step(mapping.get(token).copied()) {
        VanityStep::UseCached(id) => Some(id),
        VanityStep::NeedResolver => match vanity_resolver_step(resolver.resolve()) {
            VanityResolution::PersistAndReturn(id) => {
                mapping.insert(token.to_string(), id);
                Some(id)
            }
            VanityResolution::NothingFound => None,
        },
    }
}

#[test]
fn cached_token_never_invokes_the_resolver() {
    let id = SteamId::new(76561198024494988);
    let mut mapping = HashMap::new();
    mapping.insert("medic".to_string(), id);
    let mut resolver = StubResolver {
        calls: 0,
        answer: None,
    };
    assert_eq!(resolve_vanity("medic", &mut mapping, &mut resolver), Some(id));
    assert_eq!(resolver.calls, 0);
}

#[test]
fn resolver_miss_returns_not_found_and_persists_nothing() {
    let mut mapping: HashMap<String, SteamId> = HashMap::new();
    let mut resolver = StubResolver {
        calls: 0,
        answer: None,
    };
    assert_eq!(resolve_vanity("ghost", &mut mapping, &mut resolver), None);
    assert_eq!(resolver.calls, 1);
    assert!(mapping.is_empty());
}

#[test]
fn resolver_hit_persists_once_and_is_never_resolved_again() {
    let id = SteamId::new(76561198024494988);
    let mut mapping: HashMap<String, SteamId> = HashMap::new();
    let mut resolver = StubResolver {
        calls: 0,
        answer: Some(id),
    };
    assert_eq!(resolve_vanity("medic", &mut mapping, &mut resolver), Some(id));
    assert_eq!(resolver.calls, 1);
    assert_eq!(mapping.len(), 1);

    // The second call is served from the persisted mapping.
    assert_eq!(resolve_vanity("medic", &mut mapping, &mut resolver), Some(id));
    assert_eq!(resolver.calls, 1);
    assert_eq!(mapping.len(), 1);
}

#[test]
fn a_missed_name_can_later_be_claimed() {
    // Negative results are not persisted: once the name exists, the next
    // resolution finds it.
    let id = SteamId::new(42);
    let mut mapping: HashMap<String, SteamId> = HashMap::new();
    let mut resolver = StubResolver {
        calls: 0,
        answer: None,
    };
    assert_eq!(resolve_vanity("newbie", &mut mapping, &mut resolver), None);
    resolver.answer = Some(id);
    assert_eq!(resolve_vanity("newbie", &mut mapping, &mut resolver), Some(id));
    assert_eq!(resolver.calls, 2);
}

#[test]
fn cache_step_is_terminal_on_a_hit() {
    let id = SteamId::new(7);
    assert_eq!(vanity_cache_step(Some(id)), VanityStep::UseCached(id));
    assert_eq!(vanity_cache_step(None), VanityStep::NeedResolver);
}

#[test]
fn resolver_step_persists_only_hits() {
    let id = SteamId::new(7);
    assert_eq!(
        vanity_resolver_step(Some(id)),
        VanityResolution::PersistAndReturn(id)
    );
    assert_eq!(vanity_resolver_step(None), VanityResolution::NothingFound);
}

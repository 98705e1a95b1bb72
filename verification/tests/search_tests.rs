use dropstf::search::{
    dedup_results, player_search_outcome, rank_and_dedup, sort_by_weight, SearchResult, SIM_EXACT,
};
use dropstf::steam_id::SteamId;

fn candidate(id: u64, name: &str, sim: u32, count: i64) -> SearchResult {
    SearchResult {
        steam_id: SteamId::new(id),
        name: name.to_string(),
        count,
        sim,
    }
}

#[test]
fn weight_is_similarity_five_fold_plus_count() {
    // Weights are carried in thousandths: 0.9 * 5 + 5 reads 9500.
    assert_eq!(candidate(1, "Foo", 900, 5).weight(), 9500);
    assert_eq!(candidate(1, "foo", 950, 1).weight(), 5750);
    assert_eq!(candidate(2, "Foobar", 500, 100).weight(), 102500);
}

#[test]
fn search_sorts_by_weight_then_dedups_by_identity() {
    // Two rows of player 1 and one heavy row of player 2: the sort puts
    // player 2 first, and de-duplication keeps only player 1's best row.
    let candidates = vec![
        candidate(1, "Foo", 900, 5),
        candidate(1, "foo", 950, 1),
        candidate(2, "Foobar", 500, 100),
    ];
    let sorted = sort_by_weight(candidates.clone());
    let names: Vec<&str> = sorted.iter().map(|c| c.name.as_str()).collect();
    assert_eq!(names, ["Foobar", "Foo", "foo"]);

    let got = rank_and_dedup(candidates);
    assert_eq!(got.len(), 2);
    assert_eq!(got[0].name, "Foobar");
    assert_eq!(got[0].steam_id, SteamId::new(2));
    assert_eq!(got[1].name, "Foo");
    assert_eq!(got[1].steam_id, SteamId::new(1));
}

#[test]
fn equal_weights_keep_their_given_order() {
    let candidates = vec![
        candidate(1, "first", 500, 10),
        candidate(2, "second", 500, 10),
    ];
    let sorted = sort_by_weight(candidates);
    assert_eq!(sorted[0].name, "first");
    assert_eq!(sorted[1].name, "second");
}

#[test]
fn dedup_keeps_the_first_row_of_each_identity() {
    let rows = vec![
        candidate(5, "a", 900, 1),
        candidate(6, "b", 800, 1),
        candidate(5, "c", 700, 1),
        candidate(6, "d", 600, 1),
        candidate(7, "e", 500, 1),
    ];
    let got = dedup_results(rows);
    let names: Vec<&str> = got.iter().map(|c| c.name.as_str()).collect();
    assert_eq!(names, ["a", "b", "e"]);
}

#[test]
fn exact_identity_hit_short_circuits_the_fuzzy_path() {
    // The query "[U:1:64229260]" parsed and the name table answered: one
    // perfect synthetic result, though fuzzy candidates exist.
    let id = SteamId::parse("[U:1:64229260]").unwrap();
    let fuzzy = vec![
        candidate(10, "close", 990, 50),
        candidate(11, "closer", 999, 99),
    ];
    let got = player_search_outcome(Some((id, "TheMedic".to_string())), fuzzy);
    assert_eq!(got.len(), 1);
    assert_eq!(got[0].steam_id, id);
    assert_eq!(got[0].name, "TheMedic");
    assert_eq!(got[0].sim, SIM_EXACT);
    assert_eq!(got[0].count, 1);
}

#[test]
fn no_exact_hit_falls_back_to_the_fuzzy_path() {
    let fuzzy = vec![
        candidate(1, "low", 100, 1),
        candidate(2, "high", 900, 9),
    ];
    let got = player_search_outcome(None, fuzzy);
    assert_eq!(got.len(), 2);
    assert_eq!(got[0].name, "high");
    assert_eq!(got[1].name, "low");
}

#[test]
fn empty_candidates_give_an_empty_result() {
    let got = player_search_outcome(None, Vec::new());
    assert!(got.is_empty());
}

#[test]
fn occurrence_count_outweighs_similarity_at_two_hundred_to_one() {
    // One occurrence weighs as much as 0.2 similarity.
    let often = candidate(1, "often", 0, 1);
    let close = candidate(2, "close", 199, 0);
    assert!(often.weight() > close.weight());
}

use dropstf::data::{
    compute_player_stats, rank_by, stats_for_user_fallback, top_by, DropStats, GlobalStats,
    TopOrder, TopStats,
};
use dropstf::error::DropsError;
use dropstf::steam_id::{SteamId, SteamIdError};

fn row(id: u64, name: &str, drops: i64, ubers: i64, games: i64, medic_time: i64) -> TopStats {
    TopStats {
        steam_id: SteamId::new(id),
        name: name.to_string(),
        drops,
        ubers,
        games,
        medic_time,
    }
}

fn stats(id: u64, drops: i64) -> DropStats {
    DropStats {
        steam_id: SteamId::new(id),
        name: "cached".to_string(),
        drops,
        ubers: 1,
        games: 1,
        medic_time: 1,
        drops_rank: 1,
        dpu_rank: 2,
        dps_rank: 3,
        dpg_rank: 4,
    }
}

#[test]
fn cheap_path_wins_outright() {
    let cached = stats(1, 500);
    let raw = row(1, "raw", 500, 1, 1, 1);
    let table = vec![row(2, "other", 1000, 1, 1, 1)];
    let got = stats_for_user_fallback(Some(cached.clone()), Some(raw), &table).unwrap();
    assert_eq!(got.name, "cached");
    assert_eq!(got.drops_rank, 1);
}

#[test]
fn expensive_path_counts_strictly_greater_plus_one() {
    // The cheap view has no row; the raw table does: ranks come from the
    // counting formula over the ranked table.
    let subject = row(1, "subject", 150, 10, 10, 1000);
    let table = vec![
        row(2, "ahead", 300, 10, 10, 1000),   // more drops, qualifies
        row(3, "ahead2", 200, 10, 10, 1000),  // more drops, qualifies
        row(4, "behind", 120, 10, 10, 1000),  // fewer drops
        row(5, "unranked", 90, 1, 1, 1),      // at most 100 drops: never counted
    ];
    let got = stats_for_user_fallback(None, Some(subject), &table).unwrap();
    assert_eq!(got.drops_rank, 3);
    assert_eq!(got.name, "subject");
    assert_eq!(got.drops, 150);
}

#[test]
fn tied_players_share_a_rank() {
    let table = vec![
        row(1, "a", 150, 10, 10, 1000),
        row(2, "b", 150, 10, 10, 1000),
        row(3, "c", 300, 10, 10, 1000),
    ];
    let a = compute_player_stats(row(1, "a", 150, 10, 10, 1000), &table);
    let b = compute_player_stats(row(2, "b", 150, 10, 10, 1000), &table);
    assert_eq!(a.drops_rank, 2);
    assert_eq!(b.drops_rank, 2);
}

#[test]
fn threshold_excludes_low_drop_players_from_rank_counting() {
    let subject = row(1, "subject", 10, 1, 1, 100);
    let table = vec![
        row(2, "low", 100, 1, 1, 1),  // beats subject but holds exactly 100 drops
        row(3, "high", 101, 1, 1, 1), // beats subject and qualifies
    ];
    assert_eq!(rank_by(&subject, &table, TopOrder::Drops), 2);
}

#[test]
fn rank_compares_ratios_by_cross_multiplication() {
    // dps: 100/50 = 2.0 beats 300/300 = 1.0 though it has fewer drops.
    let quick = row(1, "quick", 101, 1, 1, 50);
    let steady = row(2, "steady", 300, 1, 1, 300);
    let table = vec![quick.clone(), steady.clone()];
    assert_eq!(rank_by(&quick, &table, TopOrder::Dps), 1);
    assert_eq!(rank_by(&steady, &table, TopOrder::Dps), 2);
    assert_eq!(rank_by(&quick, &table, TopOrder::Drops), 2);
    assert_eq!(rank_by(&steady, &table, TopOrder::Drops), 1);
}

#[test]
fn player_absent_everywhere_is_user_not_found() {
    let table: Vec<TopStats> = Vec::new();
    assert!(matches!(
        stats_for_user_fallback(None, None, &table),
        Err(DropsError::UserNotFound)
    ));
}

#[test]
fn leaderboard_sorts_descending_and_keeps_25() {
    let mut rows = Vec::new();
    for i in 0..30i64 {
        rows.push(row(i as u64, "p", 1000 + i, 1, 1, 1));
    }
    let top = top_by(rows, TopOrder::Drops);
    assert_eq!(top.len(), 25);
    assert_eq!(top[0].drops, 1029);
    assert_eq!(top[24].drops, 1005);
}

#[test]
fn leaderboard_order_depends_on_the_metric() {
    let rows = vec![
        row(1, "quick", 100, 1, 1, 50),
        row(2, "steady", 300, 1, 1, 300),
    ];
    let by_drops = top_by(rows.clone(), TopOrder::Drops);
    assert_eq!(by_drops[0].name, "steady");
    let by_dps = top_by(rows, TopOrder::Dps);
    assert_eq!(by_dps[0].name, "quick");
}

#[test]
fn zero_denominator_sorts_as_boundless() {
    let rows = vec![
        row(1, "finite", 500, 10, 1, 1),
        row(2, "nouber", 200, 0, 1, 1),
    ];
    let by_dpu = top_by(rows, TopOrder::Dpu);
    assert_eq!(by_dpu[0].name, "nouber");
}

#[test]
fn equal_metrics_keep_their_given_order() {
    let rows = vec![
        row(1, "first", 200, 2, 1, 1),
        row(2, "second", 100, 1, 1, 1), // same dpu: 100/1 == 200/2
    ];
    let by_dpu = top_by(rows, TopOrder::Dpu);
    assert_eq!(by_dpu[0].name, "first");
    assert_eq!(by_dpu[1].name, "second");
}

#[test]
fn metric_strings_have_two_decimals() {
    let p = stats_with(100, 4, 10, 7200);
    assert_eq!(p.dpu(), "25.00");
    assert_eq!(p.dpg(), "10.00");
    // 100 drops over two hours of medic time: fifty an hour.
    assert_eq!(p.dpm(), "50.00");
}

#[test]
fn metric_strings_round_to_nearest_halves_up() {
    let third = stats_with(1, 3, 3, 3600);
    assert_eq!(third.dpu(), "0.33");
    let two_thirds = stats_with(2, 3, 3, 3600);
    assert_eq!(two_thirds.dpu(), "0.67");
    let eighth = stats_with(1, 8, 8, 3600);
    assert_eq!(eighth.dpu(), "0.13");
}

fn stats_with(drops: i64, ubers: i64, games: i64, medic_time: i64) -> DropStats {
    DropStats {
        steam_id: SteamId::new(76561198024494988),
        name: "p".to_string(),
        drops,
        ubers,
        games,
        medic_time,
        drops_rank: 1,
        dpu_rank: 1,
        dps_rank: 1,
        dpg_rank: 1,
    }
}

#[test]
fn top_stats_metrics_match_drop_stats_metrics() {
    let t = row(1, "p", 100, 4, 10, 7200);
    assert_eq!(t.dpu(), "25.00");
    assert_eq!(t.dpg(), "10.00");
    assert_eq!(t.dpm(), "50.00");
    assert_eq!(t.steam_id64(), 1);
}

#[test]
fn profile_links_carry_the_numeric_identity() {
    let p = stats_with(1, 1, 1, 1);
    assert_eq!(
        p.steam_link(),
        "https://steamcommunity.com/profiles/76561198024494988"
    );
    assert_eq!(p.etf2l_link(), "http://etf2l.org/search/76561198024494988");
    assert_eq!(
        p.ugc_link(),
        "https://www.ugcleague.com/players_page.cfm?player_id=76561198024494988"
    );
    assert_eq!(p.logs_link(), "http://logs.tf/profile/76561198024494988");
    assert_eq!(p.demos_link(), "http://demos.tf/profiles/76561198024494988");
    assert_eq!(
        p.rgl_link(),
        "https://rgl.gg/Public/PlayerProfile.aspx?p=76561198024494988"
    );
}

#[test]
fn order_labels_and_keys_are_distinct() {
    let orders = [TopOrder::Drops, TopOrder::Dps, TopOrder::Dpg, TopOrder::Dpu];
    let labels: Vec<&str> = orders.iter().map(|o| o.label()).collect();
    assert_eq!(labels, ["drops", "dps", "dpg", "dpu"]);
    let mut keys: Vec<u64> = orders.iter().map(|o| o.cache_key()).collect();
    keys.dedup();
    assert_eq!(keys.len(), 4);
}

#[test]
fn global_stats_is_a_plain_snapshot() {
    let g = GlobalStats {
        drops: 7,
        ubers: 8,
        games: 9,
    };
    assert_eq!(g, g);
    assert_eq!(g.drops, 7);
}

#[test]
fn error_messages_name_each_kind() {
    assert_eq!(
        DropsError::SteamId(SteamIdError::InvalidFormat).message(),
        "invalid steam id"
    );
    assert_eq!(DropsError::Database.message(), "database error");
    assert_eq!(
        DropsError::Steam.message(),
        "error while resolving steam url"
    );
    assert_eq!(DropsError::NotFound.message(), "404 - page not found");
    assert_eq!(
        DropsError::UserNotFound.message(),
        "user not found or no drops"
    );
}

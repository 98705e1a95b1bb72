//! Stats rows, derived metrics, leaderboard ordering and the two-tier
//! per-player rank fallback.
use crate::digits::{dec_digits, format_centi, spec_fixed2, u64_to_dec};
use crate::error::DropsError;
use crate::steam_id::SteamId;
use vstd::prelude::*;

verus! {

/// Only players with more than this many drops take part in rank counting.
pub const MIN_RANKED_DROPS: i64 = 100;

/// A leaderboard holds at most this many rows.
pub const TOP_LIMIT: usize = 25;

/// Aggregate counters over the whole population; a point-in-time snapshot.
#[derive(Debug, Clone, Copy, PartialEq, Eq, Structural)]
pub struct GlobalStats {
    pub drops: i64,
    pub ubers: i64,
    pub games: i64,
}

/// One leaderboard row, and the raw-stats row shape of a single player.
#[derive(Debug, Clone)]
pub struct TopStats {
    pub steam_id: SteamId,
    pub name: String,
    pub drops: i64,
    pub ubers: i64,
    pub games: i64,
    pub medic_time: i64,
}

/// Per-player stats with the four 1-based rank positions.
#[derive(Debug, Clone)]
pub struct DropStats {
    pub steam_id: SteamId,
    pub name: String,
    pub drops: i64,
    pub ubers: i64,
    pub games: i64,
    pub medic_time: i64,
    pub drops_rank: i64,
    pub dpu_rank: i64,
    pub dps_rank: i64,
    pub dpg_rank: i64,
}

/// A free-text player search request.
#[derive(Debug)]
pub struct SearchParams {
    pub search: String,
}

/// The four leaderboard orderings, each its own cache key.
#[derive(Debug, Hash, Eq, PartialEq, Clone, Copy, Structural)]
pub enum TopOrder {
    Drops,
    Dps,
    Dpg,
    Dpu,
}

impl TopOrder {
    /// The short label of the ordering.
    pub fn label(&self) -> (r: &'static str)
        ensures
            r@ == self.spec_label(),
    {
        proof {
            reveal_strlit("drops");
            reveal_strlit("dps");
            reveal_strlit("dpg");
            reveal_strlit("dpu");
        }
        match self {
            TopOrder::Drops => "drops",
            TopOrder::Dps => "dps",
            TopOrder::Dpg => "dpg",
            TopOrder::Dpu => "dpu",
        }
    }

    pub open spec fn spec_label(&self) -> Seq<char> {
        match self {
            TopOrder::Drops => seq!['d', 'r', 'o', 'p', 's'],
            TopOrder::Dps => seq!['d', 'p', 's'],
            TopOrder::Dpg => seq!['d', 'p', 'g'],
            TopOrder::Dpu => seq!['d', 'p', 'u'],
        }
    }

    /// A distinct small key for each ordering, for the leaderboard cache.
    pub fn cache_key(&self) -> (k: u64)
        ensures
            k == self.spec_cache_key(),
    {
        match self {
            TopOrder::Drops => 0,
            TopOrder::Dps => 1,
            TopOrder::Dpg => 2,
            TopOrder::Dpu => 3,
        }
    }

    pub open spec fn spec_cache_key(&self) -> u64 {
        match self {
            TopOrder::Drops => 0,
            TopOrder::Dps => 1,
            TopOrder::Dpg => 2,
            TopOrder::Dpu => 3,
        }
    }
}

/// Strictly-greater comparison of two ratios given as numerator and
/// denominator, for nonnegative denominators. A zero denominator counts as
/// boundless and beats every finite ratio; two boundless ratios compare by
/// numerator.
pub open spec fn ratio_gt(n1: int, d1: int, n2: int, d2: int) -> bool {
    if d1 == 0 && d2 == 0 {
        n1 > n2
    } else if d1 == 0 {
        true
    } else if d2 == 0 {
        false
    } else {
        n1 * d2 > n2 * d1
    }
}

proof fn lemma_mul_i64_fits(a: int, b: int)
    requires
        -0x8000_0000_0000_0000 <= a <= 0x7FFF_FFFF_FFFF_FFFF,
        -0x8000_0000_0000_0000 <= b <= 0x7FFF_FFFF_FFFF_FFFF,
    ensures
        -0x8000_0000_0000_0000_0000_0000_0000_0000 <= a * b
            <= 0x7FFF_FFFF_FFFF_FFFF_FFFF_FFFF_FFFF_FFFF,
{
    assert(-0x8000_0000_0000_0000_0000_0000_0000_0000 <= a * b
        <= 0x7FFF_FFFF_FFFF_FFFF_FFFF_FFFF_FFFF_FFFF) by (nonlinear_arith)
        requires
            -0x8000_0000_0000_0000 <= a <= 0x7FFF_FFFF_FFFF_FFFF,
            -0x8000_0000_0000_0000 <= b <= 0x7FFF_FFFF_FFFF_FFFF,
    ;
}

/// Executable form of [`ratio_gt`].
fn ratio_gt_exec(n1: i64, d1: i64, n2: i64, d2: i64) -> (b: bool)
    ensures
        b == ratio_gt(n1 as int, d1 as int, n2 as int, d2 as int),
{
    if d1 == 0 && d2 == 0 {
        n1 > n2
    } else if d1 == 0 {
        true
    } else if d2 == 0 {
        false
    } else {
        proof {
            lemma_mul_i64_fits(n1 as int, d2 as int);
            lemma_mul_i64_fits(n2 as int, d1 as int);
        }
        (n1 as i128) * (d2 as i128) > (n2 as i128) * (d1 as i128)
    }
}

/// A stats row whose counters are what counters are: nonnegative.
pub open spec fn row_wf(r: TopStats) -> bool {
    r.drops >= 0 && r.ubers >= 0 && r.games >= 0 && r.medic_time >= 0
}

/// The denominator of the derived metric an ordering ranks by; the numerator
/// is always the drop count.
pub open spec fn metric_den(r: TopStats, order: TopOrder) -> int {
    match order {
        TopOrder::Drops => 1,
        TopOrder::Dps => r.medic_time as int,
        TopOrder::Dpg => r.games as int,
        TopOrder::Dpu => r.ubers as int,
    }
}

/// Whether `a`'s derived metric strictly exceeds `b`'s under `order`.
pub open spec fn metric_gt(a: TopStats, b: TopStats, order: TopOrder) -> bool {
    ratio_gt(a.drops as int, metric_den(a, order), b.drops as int, metric_den(b, order))
}

/// Whether `a`'s derived metric is at least `b`'s under `order`.
pub open spec fn metric_ge(a: TopStats, b: TopStats, order: TopOrder) -> bool {
    !metric_gt(b, a, order)
}

/// Executable form of [`metric_gt`].
fn metric_gt_exec(a: &TopStats, b: &TopStats, order: TopOrder) -> (r: bool)
    ensures
        r == metric_gt(*a, *b, order),
{
    let da: i64 = match order {
        TopOrder::Drops => 1,
        TopOrder::Dps => a.medic_time,
        TopOrder::Dpg => a.games,
        TopOrder::Dpu => a.ubers,
    };
    let db: i64 = match order {
        TopOrder::Drops => 1,
        TopOrder::Dps => b.medic_time,
        TopOrder::Dpg => b.games,
        TopOrder::Dpu => b.ubers,
    };
    ratio_gt_exec(a.drops, da, b.drops, db)
}

/// `metric_ge` is never violated both ways: two rows always compare.
pub proof fn lemma_metric_total(a: TopStats, b: TopStats, order: TopOrder)
    ensures
        metric_ge(a, b, order) || metric_ge(b, a, order),
{
}

/// `metric_ge` is transitive over well-formed rows.
pub proof fn lemma_metric_ge_trans(a: TopStats, b: TopStats, c: TopStats, order: TopOrder)
    requires
        row_wf(a),
        row_wf(b),
        row_wf(c),
        metric_ge(a, b, order),
        metric_ge(b, c, order),
    ensures
        metric_ge(a, c, order),
{
    let na = a.drops as int;
    let nb = b.drops as int;
    let nc = c.drops as int;
    let da = metric_den(a, order);
    let db = metric_den(b, order);
    let dc = metric_den(c, order);
    if da != 0 && db != 0 && dc != 0 {
        assert(nb * da <= na * db);
        assert(nc * db <= nb * dc);
        assert(nc * da <= na * dc) by (nonlinear_arith)
            requires
                da > 0,
                db > 0,
                dc > 0,
                nb * da <= na * db,
                nc * db <= nb * dc,
        ;
    }
}

/// The number of table rows whose metric strictly beats the subject's while
/// holding more than the minimum ranked drop count.
pub open spec fn count_ranked_above(table: Seq<TopStats>, subject: TopStats, order: TopOrder) -> int
    decreases table.len(),
{
    if table.len() == 0 {
        0
    } else {
        count_ranked_above(table.drop_last(), subject, order) + (
        if metric_gt(table.last(), subject, order) && table.last().drops > MIN_RANKED_DROPS {
            1int
        } else {
            0int
        })
    }
}

/// The subject's 1-based rank under `order`: rows strictly greater, plus one.
/// Ties share a rank.
pub open spec fn spec_rank(subject: TopStats, table: Seq<TopStats>, order: TopOrder) -> int {
    count_ranked_above(table, subject, order) + 1
}

proof fn lemma_count_ranked_bounds(table: Seq<TopStats>, subject: TopStats, order: TopOrder)
    ensures
        0 <= count_ranked_above(table, subject, order) <= table.len(),
    decreases table.len(),
{
    if table.len() > 0 {
        lemma_count_ranked_bounds(table.drop_last(), subject, order);
    }
}

/// The subject's rank under `order`, counted over `table` by the strict
/// counting formula.
pub fn rank_by(subject: &TopStats, table: &Vec<TopStats>, order: TopOrder) -> (r: i64)
    requires
        table@.len() < 0x7FFF_FFFF_FFFF_FFFF,
    ensures
        r == spec_rank(*subject, table@, order),
{
    let mut count: i64 = 0;
    let mut i: usize = 0;
    proof {
        assert(table@.take(0) =~= Seq::<TopStats>::empty());
    }
    while i < table.len()
        invariant
            0 <= i <= table@.len() < 0x7FFF_FFFF_FFFF_FFFF,
            0 <= count <= i,
            count == count_ranked_above(table@.take(i as int), *subject, order),
        decreases table@.len() - i,
    {
        let m = &table[i];
        proof {
            assert(table@.take(i + 1).drop_last() =~= table@.take(i as int));
            assert(table@.take(i + 1).last() == table@[i as int]);
        }
        if m.drops > MIN_RANKED_DROPS && metric_gt_exec(m, subject, order) {
            count = count + 1;
        }
        i = i + 1;
    }
    proof {
        assert(table@.take(table@.len() as int) =~= table@);
    }
    count + 1
}

/// The stats the expensive path computes: the subject's own counters with
/// all four ranks counted over the ranked table.
pub open spec fn spec_expensive_stats(p: TopStats, table: Seq<TopStats>) -> DropStats {
    DropStats {
        steam_id: p.steam_id,
        name: p.name,
        drops: p.drops,
        ubers: p.ubers,
        games: p.games,
        medic_time: p.medic_time,
        drops_rank: spec_rank(p, table, TopOrder::Drops) as i64,
        dpu_rank: spec_rank(p, table, TopOrder::Dpu) as i64,
        dps_rank: spec_rank(p, table, TopOrder::Dps) as i64,
        dpg_rank: spec_rank(p, table, TopOrder::Dpg) as i64,
    }
}

/// Computes a player's stats the expensive way: every rank is the count of
/// strictly greater qualifying rows, plus one.
pub fn compute_player_stats(p: TopStats, table: &Vec<TopStats>) -> (r: DropStats)
    requires
        table@.len() < 0x7FFF_FFFF_FFFF_FFFF,
    ensures
        r == spec_expensive_stats(p, table@),
{
    proof {
        lemma_count_ranked_bounds(table@, p, TopOrder::Drops);
        lemma_count_ranked_bounds(table@, p, TopOrder::Dpu);
        lemma_count_ranked_bounds(table@, p, TopOrder::Dps);
        lemma_count_ranked_bounds(table@, p, TopOrder::Dpg);
    }
    let drops_rank = rank_by(&p, table, TopOrder::Drops);
    let dpu_rank = rank_by(&p, table, TopOrder::Dpu);
    let dps_rank = rank_by(&p, table, TopOrder::Dps);
    let dpg_rank = rank_by(&p, table, TopOrder::Dpg);
    DropStats {
        steam_id: p.steam_id,
        name: p.name,
        drops: p.drops,
        ubers: p.ubers,
        games: p.games,
        medic_time: p.medic_time,
        drops_rank,
        dpu_rank,
        dps_rank,
        dpg_rank,
    }
}

/// Descending metric order of a row sequence under `order`.
pub open spec fn sorted_desc(s: Seq<TopStats>, order: TopOrder) -> bool {
    forall|i: int, j: int| 0 <= i < j < s.len() ==> metric_ge(s[i], s[j], order)
}

/// Insertion of `x` after every row whose metric is at least its own: the
/// step of a stable descending sort.
pub open spec fn spec_insert_desc(s: Seq<TopStats>, x: TopStats, order: TopOrder) -> Seq<TopStats>
    decreases s.len(),
{
    if s.len() == 0 {
        seq![x]
    } else if metric_ge(s[0], x, order) {
        seq![s[0]] + spec_insert_desc(s.drop_first(), x, order)
    } else {
        seq![x] + s
    }
}

/// Stable descending insertion sort of a row sequence under `order`: rows
/// with equal metrics keep their given order.
pub open spec fn spec_sort_desc(s: Seq<TopStats>, order: TopOrder) -> Seq<TopStats>
    decreases s.len(),
{
    if s.len() == 0 {
        Seq::empty()
    } else {
        spec_insert_desc(spec_sort_desc(s.drop_last(), order), s.last(), order)
    }
}

proof fn lemma_insert_desc_multiset(s: Seq<TopStats>, x: TopStats, order: TopOrder)
    ensures
        spec_insert_desc(s, x, order).to_multiset() =~= s.to_multiset().insert(x),
    decreases s.len(),
{
    broadcast use vstd::seq_lib::group_to_multiset_ensures;
    broadcast use vstd::multiset::group_multiset_axioms;

    if s.len() == 0 {
        assert(seq![x] =~= s.push(x));
    } else if metric_ge(s[0], x, order) {
        lemma_insert_desc_multiset(s.drop_first(), x, order);
        let df = s.drop_first();
        let rec = spec_insert_desc(df, x, order);
        let t = seq![s[0]] + rec;
        assert(t.remove(0) =~= rec);
        assert(t[0] == s[0]);
        assert(rec.to_multiset() =~= t.to_multiset().remove(s[0]));
        assert(t.contains(s[0]));
        assert(t.to_multiset() =~= rec.to_multiset().insert(s[0]));
        assert(s.remove(0) =~= df);
        assert(df.to_multiset() =~= s.to_multiset().remove(s[0]));
        assert(s.contains(s[0]));
        assert(s.to_multiset() =~= df.to_multiset().insert(s[0]));
        assert(t.to_multiset() =~= df.to_multiset().insert(x).insert(s[0]));
        assert(df.to_multiset().insert(x).insert(s[0]) =~= df.to_multiset().insert(
            s[0],
        ).insert(x));
    } else {
        let t = seq![x] + s;
        assert(t.remove(0) =~= s);
        assert(t[0] == x);
        assert(s.to_multiset() =~= t.to_multiset().remove(x));
        assert(t.contains(x));
        assert(t.to_multiset() =~= s.to_multiset().insert(x));
    }
}

/// The stable sort is a permutation: the sorted rows are exactly the given
/// rows, multiplicities included.
pub proof fn lemma_sort_desc_multiset(s: Seq<TopStats>, order: TopOrder)
    ensures
        spec_sort_desc(s, order).to_multiset() =~= s.to_multiset(),
    decreases s.len(),
{
    broadcast use vstd::seq_lib::group_to_multiset_ensures;

    if s.len() > 0 {
        lemma_sort_desc_multiset(s.drop_last(), order);
        lemma_insert_desc_multiset(spec_sort_desc(s.drop_last(), order), s.last(), order);
        assert(s =~= s.drop_last().push(s.last()));
        assert(s.drop_last().push(s.last()).to_multiset() =~= s.drop_last().to_multiset().insert(
            s.last(),
        ));
    }
}

proof fn lemma_insert_desc_at(s: Seq<TopStats>, x: TopStats, order: TopOrder, j: int)
    requires
        0 <= j <= s.len(),
        forall|k: int| 0 <= k < j ==> metric_ge(#[trigger] s[k], x, order),
        j < s.len() ==> !metric_ge(s[j], x, order),
    ensures
        spec_insert_desc(s, x, order) == s.subrange(0, j) + seq![x] + s.subrange(
            j,
            s.len() as int,
        ),
    decreases j,
{
    if s.len() == 0 {
        assert(spec_insert_desc(s, x, order) =~= s.subrange(0, j) + seq![x] + s.subrange(
            j,
            s.len() as int,
        ));
    } else if j == 0 {
        assert(spec_insert_desc(s, x, order) =~= s.subrange(0, j) + seq![x] + s.subrange(
            j,
            s.len() as int,
        ));
    } else {
        assert(metric_ge(s[0], x, order));
        let df = s.drop_first();
        assert forall|k: int| 0 <= k < j - 1 implies metric_ge(#[trigger] df[k], x, order) by {
            assert(df[k] == s[k + 1]);
        }
        lemma_insert_desc_at(df, x, order, j - 1);
        assert(spec_insert_desc(s, x, order) =~= s.subrange(0, j) + seq![x] + s.subrange(
            j,
            s.len() as int,
        ));
    }
}

proof fn lemma_insert_sorted_form(s: Seq<TopStats>, x: TopStats, order: TopOrder, j: int)
    requires
        sorted_desc(s, order),
        forall|i: int| 0 <= i < s.len() ==> row_wf(#[trigger] s[i]),
        row_wf(x),
        0 <= j <= s.len(),
        forall|k: int| 0 <= k < j ==> metric_ge(#[trigger] s[k], x, order),
        j < s.len() ==> metric_gt(x, s[j], order),
    ensures
        sorted_desc(s.subrange(0, j) + seq![x] + s.subrange(j, s.len() as int), order),
        forall|i: int|
            0 <= i < s.len() + 1 ==> row_wf(
                #[trigger] (s.subrange(0, j) + seq![x] + s.subrange(j, s.len() as int))[i],
            ),
{
    let t = s.subrange(0, j) + seq![x] + s.subrange(j, s.len() as int);
    assert(t.len() == s.len() + 1);
    assert forall|a: int, b: int| 0 <= a < b < t.len() implies metric_ge(t[a], t[b], order) by {
        if b < j {
            assert(t[a] == s[a] && t[b] == s[b]);
        } else if a < j && b == j {
            assert(t[a] == s[a] && t[b] == x);
        } else if a < j && b > j {
            assert(t[a] == s[a] && t[b] == s[b - 1]);
            assert(metric_ge(s[a], s[b - 1], order));
        } else if a == j {
            assert(t[a] == x && t[b] == s[b - 1]);
            lemma_metric_total(x, s[j], order);
            assert(metric_ge(x, s[j], order));
            if b - 1 > j {
                assert(metric_ge(s[j], s[b - 1], order));
                lemma_metric_ge_trans(x, s[j], s[b - 1], order);
            }
        } else {
            assert(t[a] == s[a - 1] && t[b] == s[b - 1]);
            assert(metric_ge(s[a - 1], s[b - 1], order));
        }
    }
}

/// Inserts `x` into the descending row list, after every row at least its
/// metric.
fn insert_sorted(out: &mut Vec<TopStats>, x: TopStats, order: TopOrder)
    requires
        sorted_desc(old(out)@, order),
        forall|i: int| 0 <= i < old(out)@.len() ==> row_wf(#[trigger] old(out)@[i]),
        row_wf(x),
    ensures
        final(out)@ == spec_insert_desc(old(out)@, x, order),
        sorted_desc(final(out)@, order),
        forall|i: int| 0 <= i < final(out)@.len() ==> row_wf(#[trigger] final(out)@[i]),
{
    let ghost s = out@;
    let n = out.len();
    let mut j: usize = 0;
    while j < n && !metric_gt_exec(&x, &out[j], order)
        invariant
            0 <= j <= n == out@.len(),
            out@ == s,
            forall|k: int| 0 <= k < j ==> metric_ge(#[trigger] s[k], x, order),
        decreases n - j,
    {
        j = j + 1;
    }
    proof {
        lemma_insert_desc_at(s, x, order, j as int);
        lemma_insert_sorted_form(s, x, order, j as int);
    }
    out.insert(j, x);
    proof {
        assert(out@ =~= s.subrange(0, j as int) + seq![x] + s.subrange(j as int, s.len() as int));
    }
}

/// The leaderboard cut: the stable descending sort of the rows under
/// `order`, kept to the top 25.
pub open spec fn spec_top(s: Seq<TopStats>, order: TopOrder) -> Seq<TopStats> {
    let sorted = spec_sort_desc(s, order);
    if sorted.len() <= TOP_LIMIT {
        sorted
    } else {
        sorted.subrange(0, TOP_LIMIT as int)
    }
}

/// The leaderboard under `order`: rows in stable descending metric order,
/// cut to the top 25.
pub fn top_by(rows: Vec<TopStats>, order: TopOrder) -> (r: Vec<TopStats>)
    requires
        forall|i: int| 0 <= i < rows@.len() ==> row_wf(#[trigger] rows@[i]),
    ensures
        r@ == spec_top(rows@, order),
        sorted_desc(r@, order),
        r@.len() <= TOP_LIMIT,
{
    let ghost orig = rows@;
    let mut input = rows;
    let mut out: Vec<TopStats> = Vec::new();
    proof {
        assert(orig.take(0) =~= Seq::<TopStats>::empty());
    }
    while input.len() > 0
        invariant
            input@.len() <= orig.len(),
            input@ == orig.skip(orig.len() - input@.len()),
            out@ == spec_sort_desc(orig.take(orig.len() - input@.len()), order),
            sorted_desc(out@, order),
            forall|i: int| 0 <= i < orig.len() ==> row_wf(#[trigger] orig[i]),
            forall|i: int| 0 <= i < out@.len() ==> row_wf(#[trigger] out@[i]),
        decreases input@.len(),
    {
        let ghost p = orig.len() - input@.len();
        let x = input.remove(0);
        proof {
            assert(x == orig[p]);
            assert(input@ =~= orig.skip(p + 1));
            assert(orig.take(p + 1).drop_last() =~= orig.take(p));
            assert(orig.take(p + 1).last() == orig[p]);
        }
        insert_sorted(&mut out, x, order);
        proof {
            assert(out@ == spec_insert_desc(spec_sort_desc(orig.take(p), order), orig[p], order));
            assert(out@ == spec_sort_desc(orig.take(p + 1), order));
        }
    }
    proof {
        assert(orig.take(orig.len() as int) =~= orig);
    }
    if out.len() > TOP_LIMIT {
        out.truncate(TOP_LIMIT);
    }
    out
}

/// The ratio `num * scale / den` rounded to the nearest whole, halves
/// upward.
pub open spec fn spec_centi_ratio(num: int, scale: int, den: int) -> int {
    (num * scale + den / 2) / den
}

/// Executable form of [`spec_centi_ratio`] for nonnegative counters.
fn centi_ratio(num: i64, scale: u64, den: i64) -> (c: u128)
    requires
        0 <= num,
        0 < den,
        scale <= 0x10_0000,
    ensures
        c == spec_centi_ratio(num as int, scale as int, den as int),
{
    proof {
        assert((num as int) * (scale as int) <= 0x8000_0000_0000_0000 * 0x10_0000)
            by (nonlinear_arith)
            requires
                0 <= num <= 0x8000_0000_0000_0000,
                0 <= scale <= 0x10_0000,
        ;
    }
    let n = (num as u128) * (scale as u128) + (den as u128) / 2;
    n / (den as u128)
}

impl DropStats {
    /// Drops per hour of medic time, written with two decimals.
    pub fn dpm(&self) -> (r: String)
        requires
            0 <= self.drops,
            0 < self.medic_time,
        ensures
            r@ == spec_fixed2(
                spec_centi_ratio(self.drops as int, 360000, self.medic_time as int) as nat,
            ),
    {
        format_centi(centi_ratio(self.drops, 360000, self.medic_time))
    }

    /// Drops per uber, written with two decimals.
    pub fn dpu(&self) -> (r: String)
        requires
            0 <= self.drops,
            0 < self.ubers,
        ensures
            r@ == spec_fixed2(spec_centi_ratio(self.drops as int, 100, self.ubers as int) as nat),
    {
        format_centi(centi_ratio(self.drops, 100, self.ubers))
    }

    /// Drops per game, written with two decimals.
    pub fn dpg(&self) -> (r: String)
        requires
            0 <= self.drops,
            0 < self.games,
        ensures
            r@ == spec_fixed2(spec_centi_ratio(self.drops as int, 100, self.games as int) as nat),
    {
        format_centi(centi_ratio(self.drops, 100, self.games))
    }

    /// Link to the player's community profile.
    pub fn steam_link(&self) -> (r: String)
        ensures
            r@ == "https://steamcommunity.com/profiles/"@ + dec_digits(self.steam_id@ as nat),
    {
        let mut out = String::from_str("https://steamcommunity.com/profiles/");
        let d = u64_to_dec(self.steam_id.to_u64());
        out.append(d.as_str());
        out
    }

    /// Link to the player's league search page.
    pub fn etf2l_link(&self) -> (r: String)
        ensures
            r@ == "http://etf2l.org/search/"@ + dec_digits(self.steam_id@ as nat),
    {
        let mut out = String::from_str("http://etf2l.org/search/");
        let d = u64_to_dec(self.steam_id.to_u64());
        out.append(d.as_str());
        out
    }

    /// Link to the player's league profile page.
    pub fn ugc_link(&self) -> (r: String)
        ensures
            r@ == "https://www.ugcleague.com/players_page.cfm?player_id="@ + dec_digits(
                self.steam_id@ as nat,
            ),
    {
        let mut out = String::from_str("https://www.ugcleague.com/players_page.cfm?player_id=");
        let d = u64_to_dec(self.steam_id.to_u64());
        out.append(d.as_str());
        out
    }

    /// Link to the player's match-log profile.
    pub fn logs_link(&self) -> (r: String)
        ensures
            r@ == "http://logs.tf/profile/"@ + dec_digits(self.steam_id@ as nat),
    {
        let mut out = String::from_str("http://logs.tf/profile/");
        let d = u64_to_dec(self.steam_id.to_u64());
        out.append(d.as_str());
        out
    }

    /// Link to the player's demo archive.
    pub fn demos_link(&self) -> (r: String)
        ensures
            r@ == "http://demos.tf/profiles/"@ + dec_digits(self.steam_id@ as nat),
    {
        let mut out = String::from_str("http://demos.tf/profiles/");
        let d = u64_to_dec(self.steam_id.to_u64());
        out.append(d.as_str());
        out
    }

    /// Link to the player's league profile.
    pub fn rgl_link(&self) -> (r: String)
        ensures
            r@ == "https://rgl.gg/Public/PlayerProfile.aspx?p="@ + dec_digits(
                self.steam_id@ as nat,
            ),
    {
        let mut out = String::from_str("https://rgl.gg/Public/PlayerProfile.aspx?p=");
        let d = u64_to_dec(self.steam_id.to_u64());
        out.append(d.as_str());
        out
    }
}

impl TopStats {
    /// Drops per hour of medic time, written with two decimals.
    pub fn dpm(&self) -> (r: String)
        requires
            0 <= self.drops,
            0 < self.medic_time,
        ensures
            r@ == spec_fixed2(
                spec_centi_ratio(self.drops as int, 360000, self.medic_time as int) as nat,
            ),
    {
        format_centi(centi_ratio(self.drops, 360000, self.medic_time))
    }

    /// Drops per uber, written with two decimals.
    pub fn dpu(&self) -> (r: String)
        requires
            0 <= self.drops,
            0 < self.ubers,
        ensures
            r@ == spec_fixed2(spec_centi_ratio(self.drops as int, 100, self.ubers as int) as nat),
    {
        format_centi(centi_ratio(self.drops, 100, self.ubers))
    }

    /// Drops per game, written with two decimals.
    pub fn dpg(&self) -> (r: String)
        requires
            0 <= self.drops,
            0 < self.games,
        ensures
            r@ == spec_fixed2(spec_centi_ratio(self.drops as int, 100, self.games as int) as nat),
    {
        format_centi(centi_ratio(self.drops, 100, self.games))
    }

    /// The raw 64-bit value of the row's identity.
    pub fn steam_id64(&self) -> (r: u64)
        ensures
            r == self.steam_id@,
    {
        self.steam_id.to_u64()
    }
}

/// The two-tier fallback for per-player stats: a row from the precomputed
/// ranked view wins outright; otherwise the raw row, when there is one, gets
/// its ranks counted live; otherwise the player is unknown.
pub fn stats_for_user_fallback(
    cheap: Option<DropStats>,
    raw: Option<TopStats>,
    table: &Vec<TopStats>,
) -> (r: Result<DropStats, DropsError>)
    requires
        table@.len() < 0x7FFF_FFFF_FFFF_FFFF,
    ensures
        match cheap {
            Some(s) => r == Ok::<DropStats, DropsError>(s),
            None => match raw {
                Some(p) => r == Ok::<DropStats, DropsError>(spec_expensive_stats(p, table@)),
                None => r == Err::<DropStats, DropsError>(DropsError::UserNotFound),
            },
        },
{
    match cheap {
        Some(s) => Ok(s),
        None => match raw {
            Some(p) => Ok(compute_player_stats(p, table)),
            None => Err(DropsError::UserNotFound),
        },
    }
}

} // verus!

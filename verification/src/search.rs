//! Weighted fuzzy-search ranking, de-duplication by identity, and the
//! exact-identity short circuit.
use crate::steam_id::SteamId;
use vstd::prelude::*;

verus! {

/// Similarity scores are carried in thousandths of one, so they stay exact
/// integers; this is a perfect match.
pub const SIM_EXACT: u32 = 1000;

/// One search candidate: an identity, the name that matched, how often the
/// name was seen, and the similarity of the match in thousandths.
#[derive(Debug, Clone)]
pub struct SearchResult {
    pub steam_id: SteamId,
    pub name: String,
    pub count: i64,
    pub sim: u32,
}

/// A candidate's weight in thousandths: similarity weighted five-fold, plus
/// the occurrence count.
pub open spec fn spec_weight(r: SearchResult) -> int {
    5 * (r.sim as int) + 1000 * (r.count as int)
}

impl SearchResult {
    /// The candidate's weight, in thousandths of the unscaled score.
    pub fn weight(&self) -> (w: i128)
        ensures
            w == spec_weight(*self),
    {
        5 * (self.sim as i128) + 1000 * (self.count as i128)
    }
}

/// Descending weight order.
pub open spec fn weight_sorted_desc(s: Seq<SearchResult>) -> bool {
    forall|i: int, j: int| 0 <= i < j < s.len() ==> spec_weight(s[i]) >= spec_weight(s[j])
}

/// Insertion of `x` after every candidate weighing at least as much: the
/// step of a stable descending sort.
pub open spec fn spec_insert_weighted(s: Seq<SearchResult>, x: SearchResult) -> Seq<SearchResult>
    decreases s.len(),
{
    if s.len() == 0 {
        seq![x]
    } else if spec_weight(s[0]) >= spec_weight(x) {
        seq![s[0]] + spec_insert_weighted(s.drop_first(), x)
    } else {
        seq![x] + s
    }
}

/// Stable descending sort by weight: candidates of equal weight keep their
/// given order.
pub open spec fn spec_sort_weighted(s: Seq<SearchResult>) -> Seq<SearchResult>
    decreases s.len(),
{
    if s.len() == 0 {
        Seq::empty()
    } else {
        spec_insert_weighted(spec_sort_weighted(s.drop_last()), s.last())
    }
}

proof fn lemma_insert_weighted_multiset(s: Seq<SearchResult>, x: SearchResult)
    ensures
        spec_insert_weighted(s, x).to_multiset() =~= s.to_multiset().insert(x),
    decreases s.len(),
{
    broadcast use vstd::seq_lib::group_to_multiset_ensures;
    broadcast use vstd::multiset::group_multiset_axioms;

    if s.len() == 0 {
        assert(seq![x] =~= s.push(x));
    } else if spec_weight(s[0]) >= spec_weight(x) {
        lemma_insert_weighted_multiset(s.drop_first(), x);
        let df = s.drop_first();
        let rec = spec_insert_weighted(df, x);
        let t = seq![s[0]] + rec;
        assert(t.remove(0) =~= rec);
        assert(t[0] == s[0]);
        assert(rec.to_multiset() =~= t.to_multiset().remove(s[0]));
        assert(t.contains(s[0]));
        assert(t.to_multiset() =~= rec.to_multiset().insert(s[0]));
        assert(s.remove(0) =~= df);
        assert(df.to_multiset() =~= s.to_multiset().remove(s[0]));
        assert(s.contains(s[0]));
        assert(s.to_multiset() =~= df.to_multiset().insert(s[0]));
        assert(t.to_multiset() =~= df.to_multiset().insert(x).insert(s[0]));
        assert(df.to_multiset().insert(x).insert(s[0]) =~= df.to_multiset().insert(
            s[0],
        ).insert(x));
    } else {
        let t = seq![x] + s;
        assert(t.remove(0) =~= s);
        assert(t[0] == x);
        assert(s.to_multiset() =~= t.to_multiset().remove(x));
        assert(t.contains(x));
        assert(t.to_multiset() =~= s.to_multiset().insert(x));
    }
}

/// The weighted sort is a permutation: the ranked candidates are exactly
/// the given candidates, multiplicities included.
pub proof fn lemma_sort_weighted_multiset(s: Seq<SearchResult>)
    ensures
        spec_sort_weighted(s).to_multiset() =~= s.to_multiset(),
    decreases s.len(),
{
    broadcast use vstd::seq_lib::group_to_multiset_ensures;

    if s.len() > 0 {
        lemma_sort_weighted_multiset(s.drop_last());
        lemma_insert_weighted_multiset(spec_sort_weighted(s.drop_last()), s.last());
        assert(s =~= s.drop_last().push(s.last()));
        assert(s.drop_last().push(s.last()).to_multiset() =~= s.drop_last().to_multiset().insert(
            s.last(),
        ));
    }
}

proof fn lemma_insert_weighted_at(s: Seq<SearchResult>, x: SearchResult, j: int)
    requires
        0 <= j <= s.len(),
        forall|k: int| 0 <= k < j ==> spec_weight(#[trigger] s[k]) >= spec_weight(x),
        j < s.len() ==> spec_weight(s[j]) < spec_weight(x),
    ensures
        spec_insert_weighted(s, x) == s.subrange(0, j) + seq![x] + s.subrange(j, s.len() as int),
    decreases j,
{
    if s.len() == 0 || j == 0 {
        assert(spec_insert_weighted(s, x) =~= s.subrange(0, j) + seq![x] + s.subrange(
            j,
            s.len() as int,
        ));
    } else {
        let df = s.drop_first();
        assert forall|k: int| 0 <= k < j - 1 implies spec_weight(#[trigger] df[k]) >= spec_weight(
            x,
        ) by {
            assert(df[k] == s[k + 1]);
        }
        lemma_insert_weighted_at(df, x, j - 1);
        assert(spec_insert_weighted(s, x) =~= s.subrange(0, j) + seq![x] + s.subrange(
            j,
            s.len() as int,
        ));
    }
}

/// Inserts `x` into the descending candidate list, after every candidate of
/// at least its weight.
fn insert_weighted(out: &mut Vec<SearchResult>, x: SearchResult)
    requires
        weight_sorted_desc(old(out)@),
    ensures
        final(out)@ == spec_insert_weighted(old(out)@, x),
        weight_sorted_desc(final(out)@),
{
    let ghost s = out@;
    let n = out.len();
    let w = x.weight();
    let mut j: usize = 0;
    while j < n && out[j].weight() >= w
        invariant
            0 <= j <= n == out@.len(),
            out@ == s,
            w == spec_weight(x),
            forall|k: int| 0 <= k < j ==> spec_weight(#[trigger] s[k]) >= spec_weight(x),
        decreases n - j,
    {
        j = j + 1;
    }
    proof {
        lemma_insert_weighted_at(s, x, j as int);
    }
    out.insert(j, x);
    proof {
        assert(out@ =~= s.subrange(0, j as int) + seq![x] + s.subrange(j as int, s.len() as int));
        let t = out@;
        assert forall|a: int, b: int| 0 <= a < b < t.len() implies spec_weight(t[a]) >= spec_weight(
            t[b],
        ) by {
            if b < j {
                assert(t[a] == s[a] && t[b] == s[b]);
            } else if a < j && b == j {
                assert(t[a] == s[a] && t[b] == x);
            } else if a < j && b > j {
                assert(t[a] == s[a] && t[b] == s[b - 1]);
            } else if a == j {
                assert(t[a] == x && t[b] == s[b - 1]);
            } else {
                assert(t[a] == s[a - 1] && t[b] == s[b - 1]);
            }
        }
    }
}

/// Sorts the candidates by weight, highest first, stably.
pub fn sort_by_weight(candidates: Vec<SearchResult>) -> (r: Vec<SearchResult>)
    ensures
        r@ == spec_sort_weighted(candidates@),
        weight_sorted_desc(r@),
{
    let ghost orig = candidates@;
    let mut input = candidates;
    let mut out: Vec<SearchResult> = Vec::new();
    proof {
        assert(orig.take(0) =~= Seq::<SearchResult>::empty());
    }
    while input.len() > 0
        invariant
            input@.len() <= orig.len(),
            input@ == orig.skip(orig.len() - input@.len()),
            out@ == spec_sort_weighted(orig.take(orig.len() - input@.len())),
            weight_sorted_desc(out@),
        decreases input@.len(),
    {
        let ghost p = orig.len() - input@.len();
        let x = input.remove(0);
        proof {
            assert(x == orig[p]);
            assert(input@ =~= orig.skip(p + 1));
            assert(orig.take(p + 1).drop_last() =~= orig.take(p));
            assert(orig.take(p + 1).last() == orig[p]);
        }
        insert_weighted(&mut out, x);
        proof {
            assert(out@ == spec_sort_weighted(orig.take(p + 1)));
        }
    }
    proof {
        assert(orig.take(orig.len() as int) =~= orig);
    }
    out
}

/// The subsequence that keeps only the first candidate of each identity not
/// yet seen.
pub open spec fn dedup_by_id(s: Seq<SearchResult>, seen: Set<u64>) -> Seq<SearchResult>
    decreases s.len(),
{
    if s.len() == 0 {
        Seq::empty()
    } else if seen.contains(s[0].steam_id@) {
        dedup_by_id(s.drop_first(), seen)
    } else {
        seq![s[0]] + dedup_by_id(s.drop_first(), seen.insert(s[0].steam_id@))
    }
}

/// De-duplication leaves no two rows with one identity, and none whose
/// identity was already seen.
pub proof fn lemma_dedup_unique(s: Seq<SearchResult>, seen: Set<u64>)
    ensures
        forall|a: int, b: int|
            0 <= a < b < dedup_by_id(s, seen).len() ==> dedup_by_id(s, seen)[a].steam_id@
                != dedup_by_id(s, seen)[b].steam_id@,
        forall|a: int|
            0 <= a < dedup_by_id(s, seen).len() ==> !seen.contains(
                #[trigger] dedup_by_id(s, seen)[a].steam_id@,
            ),
    decreases s.len(),
{
    if s.len() == 0 {
    } else if seen.contains(s[0].steam_id@) {
        lemma_dedup_unique(s.drop_first(), seen);
        let d = dedup_by_id(s, seen);
        let tail = dedup_by_id(s.drop_first(), seen);
        assert(d == tail);
        assert forall|a: int, b: int| 0 <= a < b < d.len() implies d[a].steam_id@
            != d[b].steam_id@ by {
            assert(tail[a].steam_id@ != tail[b].steam_id@);
        }
        assert forall|a: int| 0 <= a < d.len() implies !seen.contains(
            #[trigger] d[a].steam_id@,
        ) by {
            assert(!seen.contains(tail[a].steam_id@));
        }
    } else {
        let seen2 = seen.insert(s[0].steam_id@);
        lemma_dedup_unique(s.drop_first(), seen2);
        let d = dedup_by_id(s, seen);
        let tail = dedup_by_id(s.drop_first(), seen2);
        assert forall|a: int, b: int| 0 <= a < b < d.len() implies d[a].steam_id@
            != d[b].steam_id@ by {
            if a == 0 {
                assert(d[b] == tail[b - 1]);
                assert(!seen2.contains(tail[b - 1].steam_id@));
            } else {
                assert(d[a] == tail[a - 1] && d[b] == tail[b - 1]);
            }
        }
        assert forall|a: int| 0 <= a < d.len() implies !seen.contains(
            #[trigger] d[a].steam_id@,
        ) by {
            if a > 0 {
                assert(d[a] == tail[a - 1]);
                assert(!seen2.contains(tail[a - 1].steam_id@));
            }
        }
    }
}

fn contains_id(seen: &Vec<u64>, id: u64) -> (b: bool)
    ensures
        b == seen@.contains(id),
{
    let mut i: usize = 0;
    while i < seen.len()
        invariant
            0 <= i <= seen@.len(),
            forall|k: int| 0 <= k < i ==> seen@[k] != id,
        decreases seen@.len() - i,
    {
        if seen[i] == id {
            return true;
        }
        i = i + 1;
    }
    false
}

/// Keeps only the first candidate of each identity, preserving order.
pub fn dedup_results(results: Vec<SearchResult>) -> (r: Vec<SearchResult>)
    ensures
        r@ == dedup_by_id(results@, Set::empty()),
{
    let ghost orig = results@;
    let mut input = results;
    let mut out: Vec<SearchResult> = Vec::new();
    let mut seen: Vec<u64> = Vec::new();
    let ghost mut seen_set = Set::<u64>::empty();
    proof {
        assert(dedup_by_id(orig, Set::empty()) =~= out@ + dedup_by_id(input@, seen_set));
    }
    while input.len() > 0
        invariant
            dedup_by_id(orig, Set::empty()) == out@ + dedup_by_id(input@, seen_set),
            forall|x: u64| seen@.contains(x) <==> seen_set.contains(x),
        decreases input@.len(),
    {
        let ghost before = input@;
        let x = input.remove(0);
        proof {
            assert(input@ =~= before.drop_first());
        }
        let id = x.steam_id.to_u64();
        if contains_id(&seen, id) {
            proof {
                assert(seen_set.contains(x.steam_id@));
                assert(dedup_by_id(before, seen_set) == dedup_by_id(input@, seen_set));
            }
        } else {
            proof {
                assert(!seen_set.contains(x.steam_id@));
            }
            let ghost seen_before = seen@;
            let ghost out_before = out@;
            let ghost old_set = seen_set;
            seen.push(id);
            out.push(x);
            proof {
                seen_set = seen_set.insert(id);
                assert(seen@ == seen_before.push(id));
                assert forall|y: u64| seen@.contains(y) <==> seen_set.contains(y) by {
                    if seen_set.contains(y) {
                        if y == id {
                            assert(seen@[seen@.len() - 1] == id);
                        } else {
                            assert(old_set.contains(y));
                            assert(seen_before.contains(y));
                            let k = choose|k: int|
                                0 <= k < seen_before.len() && seen_before[k] == y;
                            assert(seen@[k] == y);
                        }
                    }
                    if seen@.contains(y) {
                        let k = choose|k: int| 0 <= k < seen@.len() && seen@[k] == y;
                        if k < seen_before.len() {
                            assert(seen_before[k] == y);
                            assert(seen_before.contains(y));
                        } else {
                            assert(y == id);
                        }
                    }
                }
                assert(dedup_by_id(before, old_set) == seq![x] + dedup_by_id(input@, seen_set));
                assert(out@ + dedup_by_id(input@, seen_set) =~= out_before + (seq![x]
                    + dedup_by_id(input@, seen_set)));
            }
        }
    }
    proof {
        assert(dedup_by_id(input@, seen_set) =~= Seq::<SearchResult>::empty());
        assert(out@ + dedup_by_id(input@, seen_set) =~= out@);
    }
    out
}

/// The fuzzy ranking: candidates ordered by weight, highest first, then
/// de-duplicated so each identity keeps only its best row.
pub fn rank_and_dedup(candidates: Vec<SearchResult>) -> (r: Vec<SearchResult>)
    ensures
        r@ == dedup_by_id(spec_sort_weighted(candidates@), Set::empty()),
{
    let sorted = sort_by_weight(candidates);
    dedup_results(sorted)
}

/// The search decision once the store has answered: an exact identity hit
/// short-circuits to one perfect result, bypassing the fuzzy candidates;
/// otherwise the candidates are ranked and de-duplicated.
pub fn player_search_outcome(
    exact: Option<(SteamId, String)>,
    candidates: Vec<SearchResult>,
) -> (r: Vec<SearchResult>)
    ensures
        match exact {
            Some(hit) => r@ == seq![
                SearchResult { steam_id: hit.0, name: hit.1, count: 1, sim: SIM_EXACT },
            ],
            None => r@ == dedup_by_id(spec_sort_weighted(candidates@), Set::empty()),
        },
{
    match exact {
        Some((id, name)) => {
            let mut v: Vec<SearchResult> = Vec::new();
            v.push(SearchResult { steam_id: id, name, count: 1, sim: SIM_EXACT });
            proof {
                assert(v@ =~= seq![
                    SearchResult { steam_id: id, name: v@[0].name, count: 1, sim: SIM_EXACT },
                ]);
            }
            v
        },
        None => rank_and_dedup(candidates),
    }
}

} // verus!

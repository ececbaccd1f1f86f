//! Turning quality scores into ratings. The scores themselves (sharpness,
//! exposure, contrast, model outputs) are floating point and computed by the
//! caller, who also sorts the photos by score; this module decides, from a
//! photo's rank in that order, its rating, whether it is a pick, and what
//! gets written back.
use vstd::prelude::*;

verus! {

/// Rating 1..5 of the photo at rank `i` (0 = lowest score) among `n`, by the
/// quantile `q = i / (n - 1)` (`q = 1` when there is a single photo):
/// below 0.2 → 1, below 0.4 → 2, below 0.6 → 3, below 0.8 → 4, else 5.
pub open spec fn quantile_rating_spec(i: int, n: int) -> i64 {
    if n <= 1 {
        5
    } else if 5 * i < n - 1 {
        1
    } else if 5 * i < 2 * (n - 1) {
        2
    } else if 5 * i < 3 * (n - 1) {
        3
    } else if 5 * i < 4 * (n - 1) {
        4
    } else {
        5
    }
}

/// How many of the ranks below `k` get a rating of 4 or more.
pub open spec fn high_rated_count(n: int, k: int) -> int
    decreases k,
{
    if k <= 0 {
        0
    } else {
        high_rated_count(n, k - 1) + if quantile_rating_spec(k - 1, n) >= 4 {
            1int
        } else {
            0
        }
    }
}

/// The pick target asked for, when it is in force: a positive target and at
/// least one scored photo.
pub open spec fn target_in_force(n: int, target_picks: Option<i64>) -> bool {
    let t = match target_picks {
        Some(t) => t as int,
        None => 0,
    };
    t > 0 && n > 0
}

/// The number of picks when a target is in force: the target, capped at `n`.
pub open spec fn target_count(n: int, target_picks: Option<i64>) -> int {
    let t = match target_picks {
        Some(t) => t as int,
        None => 0,
    };
    if t < n {
        t
    } else {
        n
    }
}

/// What is recorded for the photo at a given rank.
pub struct CullDecision {
    /// The quantile rating, written first.
    pub rating: i64,
    /// With a pick target: the rating that replaces it (5 for a pick, 0 otherwise).
    pub pick_rating: Option<i64>,
    /// Whether the photo is marked as chosen.
    pub ai_pick: bool,
}

/// The decisions for every rank, and the number of picks.
pub struct CullPlan {
    pub decisions: Vec<CullDecision>,
    pub picks: i64,
}

/// The quantile rating of rank `i` among `n`.
pub fn quantile_rating(i: usize, n: usize) -> (r: i64)
    requires
        i < n,
    ensures
        r == quantile_rating_spec(i as int, n as int),
        1 <= r <= 5,
{
    if n <= 1 {
        return 5;
    }
    let fi = 5 * (i as u128);
    let m = (n - 1) as u128;
    if fi < m {
        1
    } else if fi < 2 * m {
        2
    } else if fi < 3 * m {
        3
    } else if fi < 4 * m {
        4
    } else {
        5
    }
}

/// Decides, for `n` photos sorted by increasing score, each rank's rating and
/// pick flag. With a positive pick target the `min(target, n)` best-ranked
/// photos become picks (rating 5) and every other photo gets rating 0; without
/// one, the picks are the photos rated 4 or more.
pub fn plan_cull(n: usize, target_picks: Option<i64>) -> (r: CullPlan)
    requires
        n <= i64::MAX,
    ensures
        r.decisions@.len() == n,
        forall|i: int| 0 <= i < n ==> (#[trigger] r.decisions@[i]).ai_pick == picked(n as int, target_picks, i),
        r.picks == picked_count(n as int, target_picks, n as int),
        forall|i: int|
            0 <= i < n ==> (#[trigger] r.decisions@[i]).rating == quantile_rating_spec(i, n as int),
        target_in_force(n as int, target_picks) ==> {
            &&& r.picks == target_count(n as int, target_picks)
            &&& forall|i: int|
                0 <= i < n ==> {
                    let pick = i >= n - target_count(n as int, target_picks);
                    &&& (#[trigger] r.decisions@[i]).ai_pick == pick
                    &&& r.decisions@[i].pick_rating == Some(if pick { 5i64 } else { 0i64 })
                }
        },
        !target_in_force(n as int, target_picks) ==> {
            &&& r.picks == high_rated_count(n as int, n as int)
            &&& forall|i: int|
                0 <= i < n ==> {
                    &&& (#[trigger] r.decisions@[i]).ai_pick == (quantile_rating_spec(i, n as int)
                        >= 4)
                    &&& r.decisions@[i].pick_rating is None
                }
        },
{
    let target: i64 = match target_picks {
        Some(t) => t,
        None => 0,
    };
    let in_force = target > 0 && n > 0;
    let count: usize = if !in_force {
        0
    } else if (target as u64) < (n as u64) {
        target as usize
    } else {
        n
    };
    let mut decisions: Vec<CullDecision> = Vec::new();
    let mut high: i64 = 0;
    let mut i: usize = 0;
    while i < n
        invariant
            i <= n <= i64::MAX,
            in_force == target_in_force(n as int, target_picks),
            in_force ==> count == target_count(n as int, target_picks),
            count <= n,
            decisions@.len() == i,
            high == high_rated_count(n as int, i as int),
            0 <= high <= i,
            forall|k: int|
                0 <= k < i ==> (#[trigger] decisions@[k]).rating == quantile_rating_spec(
                    k,
                    n as int,
                ),
            in_force ==> forall|k: int|
                0 <= k < i ==> {
                    let pick = k >= n - count;
                    &&& (#[trigger] decisions@[k]).ai_pick == pick
                    &&& decisions@[k].pick_rating == Some(if pick { 5i64 } else { 0i64 })
                },
            !in_force ==> forall|k: int|
                0 <= k < i ==> {
                    &&& (#[trigger] decisions@[k]).ai_pick == (quantile_rating_spec(k, n as int)
                        >= 4)
                    &&& decisions@[k].pick_rating is None
                },
        decreases n - i,
    {
        let rating = quantile_rating(i, n);
        if rating >= 4 {
            high = high + 1;
        }
        let d = if in_force {
            let pick = i >= n - count;
            CullDecision { rating, pick_rating: Some(if pick { 5 } else { 0 }), ai_pick: pick }
        } else {
            CullDecision { rating, pick_rating: None, ai_pick: rating >= 4 }
        };
        decisions.push(d);
        i = i + 1;
    }
    let picks: i64 = if in_force {
        count as i64
    } else {
        high
    };
    proof {
        lemma_picks_counted(n as int, target_picks);
    }
    CullPlan { decisions, picks }
}

/// Whether the photo at rank `i` among `n` becomes a pick: one of the
/// `target_count` best when a target is in force, else a photo rated 4 or more.
pub open spec fn picked(n: int, target_picks: Option<i64>, i: int) -> bool {
    if target_in_force(n, target_picks) {
        i >= n - target_count(n, target_picks)
    } else {
        quantile_rating_spec(i, n) >= 4
    }
}

/// How many of the ranks below `k` become picks.
pub open spec fn picked_count(n: int, target_picks: Option<i64>, k: int) -> int
    decreases k,
{
    if k <= 0 {
        0
    } else {
        picked_count(n, target_picks, k - 1) + if picked(n, target_picks, k - 1) {
            1int
        } else {
            0
        }
    }
}

proof fn lemma_picked_prefix(n: int, target_picks: Option<i64>, k: int)
    requires
        0 <= k <= n,
    ensures
        target_in_force(n, target_picks) ==> picked_count(n, target_picks, k) == (if k <= n
            - target_count(n, target_picks) {
            0
        } else {
            k - (n - target_count(n, target_picks))
        }),
        !target_in_force(n, target_picks) ==> picked_count(n, target_picks, k) == high_rated_count(
            n,
            k,
        ),
    decreases k,
{
    if k > 0 {
        lemma_picked_prefix(n, target_picks, k - 1);
    }
}

/// Law: the number of picks a cull reports is the number of photos it marks
/// as picks: the target (capped at the number of photos) when one is in
/// force, else the number of photos rated 4 or more.
pub proof fn lemma_picks_counted(n: int, target_picks: Option<i64>)
    requires
        0 <= n,
    ensures
        picked_count(n, target_picks, n) == (if target_in_force(n, target_picks) {
            target_count(n, target_picks)
        } else {
            high_rated_count(n, n)
        }),
{
    lemma_picked_prefix(n, target_picks, n);
}

/// Law: ratings run from 1 to 5 and never decrease with the rank: a
/// better-scored photo is never rated below a worse-scored one.
pub proof fn lemma_quantile_rating_monotone(n: int, i: int, j: int)
    requires
        0 <= i <= j < n,
    ensures
        1 <= quantile_rating_spec(i, n) <= quantile_rating_spec(j, n) <= 5,
{
}

/// Law: with two or more photos the lowest-scored one is rated 1 and the
/// highest-scored one 5; a lone photo is rated 5.
pub proof fn lemma_quantile_rating_extremes(n: int)
    requires
        n >= 1,
    ensures
        quantile_rating_spec(n - 1, n) == 5,
        n >= 2 ==> quantile_rating_spec(0, n) == 1,
{
}

/// Law: the number of ranks rated 4 or more never exceeds the number of
/// photos.
pub proof fn lemma_high_rated_count_bounded(n: int, k: int)
    requires
        0 <= k,
    ensures
        0 <= high_rated_count(n, k) <= k,
    decreases k,
{
    if k > 0 {
        lemma_high_rated_count_bounded(n, k - 1);
    }
}

} // verus!

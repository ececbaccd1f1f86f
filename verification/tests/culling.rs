use openshoot_core::culling::{plan_cull, quantile_rating};

#[test]
fn quantile_ratings_by_rank() {
    let r: Vec<i64> = (0..11).map(|i| quantile_rating(i, 11)).collect();
    assert_eq!(r, vec![1, 1, 2, 2, 3, 3, 4, 4, 5, 5, 5]);
    assert_eq!(quantile_rating(0, 1), 5);
    assert_eq!(quantile_rating(0, 2), 1);
    assert_eq!(quantile_rating(1, 2), 5);
}

#[test]
fn plan_without_target_picks_four_stars_and_up() {
    let plan = plan_cull(5, None);
    let ratings: Vec<i64> = plan.decisions.iter().map(|d| d.rating).collect();
    assert_eq!(ratings, vec![1, 2, 3, 4, 5]);
    let picks: Vec<bool> = plan.decisions.iter().map(|d| d.ai_pick).collect();
    assert_eq!(picks, vec![false, false, false, true, true]);
    assert!(plan.decisions.iter().all(|d| d.pick_rating.is_none()));
    assert_eq!(plan.picks, 2);
    assert_eq!(plan_cull(5, Some(0)).picks, 2);
    assert_eq!(plan_cull(5, Some(-3)).picks, 2);
}

#[test]
fn plan_with_target_picks_top_n() {
    let plan = plan_cull(5, Some(2));
    let picks: Vec<bool> = plan.decisions.iter().map(|d| d.ai_pick).collect();
    assert_eq!(picks, vec![false, false, false, true, true]);
    let pr: Vec<Option<i64>> = plan.decisions.iter().map(|d| d.pick_rating).collect();
    assert_eq!(pr, vec![Some(0), Some(0), Some(0), Some(5), Some(5)]);
    assert_eq!(plan.picks, 2);
    let all = plan_cull(3, Some(10));
    assert_eq!(all.picks, 3);
    assert!(all.decisions.iter().all(|d| d.ai_pick));
    let none = plan_cull(0, Some(3));
    assert_eq!(none.picks, 0);
    assert!(none.decisions.is_empty());
}

#[test]
fn reported_picks_match_marked_picks() {
    for n in 0..20usize {
        for target in [None, Some(0), Some(1), Some(3), Some(50)] {
            let plan = plan_cull(n, target);
            let marked = plan.decisions.iter().filter(|d| d.ai_pick).count() as i64;
            assert_eq!(plan.picks, marked, "n={n} target={target:?}");
        }
    }
}

use forgepulse_server::model::RankTrend;
use forgepulse_server::ranking::{
    compare_rank, dense_rank_by_score, dense_rank_by_total, rank_of, rank_trend, trend_since_yesterday,
};

fn entries(pairs: &[(&str, i64)]) -> Vec<(String, i64)> {
    pairs.iter().map(|(name, total)| (name.to_string(), *total)).collect()
}

#[test]
fn dense_rank_breaks_ties_by_name_and_skips_ranks_after_a_tie() {
    let totals = entries(&[("b", 5), ("a", 5), ("c", 1)]);
    let ranks = dense_rank_by_total(&totals);
    assert_eq!(rank_of(&ranks, "a"), Some(1));
    assert_eq!(rank_of(&ranks, "b"), Some(1));
    assert_eq!(rank_of(&ranks, "c"), Some(3));
}

#[test]
fn dense_rank_by_total_of_empty_map_is_empty() {
    assert!(dense_rank_by_total(&Vec::new()).is_empty());
}

#[test]
fn dense_rank_by_score_omits_repositories_with_no_score() {
    let scores = vec![("scored".to_string(), Some(4)), ("unscored".to_string(), None)];
    let ranks = dense_rank_by_score(&scores);
    assert_eq!(rank_of(&ranks, "scored"), Some(1));
    assert_eq!(rank_of(&ranks, "unscored"), None);
}

#[test]
fn compare_rank_reports_up_down_and_stable() {
    assert_eq!(compare_rank(1, 2), RankTrend::Up);
    assert_eq!(compare_rank(2, 1), RankTrend::Down);
    assert_eq!(compare_rank(3, 3), RankTrend::Stable);
}

#[test]
fn assigns_equal_clone_totals_the_same_rank() {
    let totals = entries(&[("carlok/a", 8), ("carlok/b", 5), ("carlok/c", 5), ("carlok/d", 1)]);
    let ranks: Vec<usize> = dense_rank_by_total(&totals).into_iter().map(|(_, r)| r).collect();
    assert_eq!(ranks, vec![1, 2, 2, 4]);
}

#[test]
fn ranks_keep_the_given_order_of_entries() {
    let totals = entries(&[("low", 1), ("high", 9), ("mid", 5)]);
    let ranks = dense_rank_by_total(&totals);
    let names: Vec<&str> = ranks.iter().map(|(n, _)| n.as_str()).collect();
    assert_eq!(names, vec!["low", "high", "mid"]);
    assert_eq!(ranks.iter().map(|(_, r)| *r).collect::<Vec<_>>(), vec![3, 1, 2]);
}

#[test]
fn every_rank_lies_between_one_and_the_count() {
    let totals = entries(&[("a", -4), ("b", 0), ("c", 0), ("d", 7), ("e", -4)]);
    for (_, rank) in dense_rank_by_total(&totals) {
        assert!((1..=5).contains(&rank));
    }
}

#[test]
fn first_rank_goes_to_every_maximum() {
    let totals = entries(&[("a", 7), ("b", 3), ("c", 7)]);
    let ranks = dense_rank_by_total(&totals);
    assert_eq!(rank_of(&ranks, "a"), Some(1));
    assert_eq!(rank_of(&ranks, "c"), Some(1));
    assert_eq!(rank_of(&ranks, "b"), Some(3));
}

#[test]
fn scored_ranks_skip_unscored_entries() {
    let scores = vec![
        ("a".to_string(), Some(10)),
        ("b".to_string(), None),
        ("c".to_string(), Some(30)),
        ("d".to_string(), Some(10)),
    ];
    let ranks = dense_rank_by_score(&scores);
    assert_eq!(ranks.len(), 3);
    assert_eq!(rank_of(&ranks, "c"), Some(1));
    assert_eq!(rank_of(&ranks, "a"), Some(2));
    assert_eq!(rank_of(&ranks, "d"), Some(2));
}

#[test]
fn rank_trend_is_unknown_without_both_ranks_or_history() {
    assert_eq!(rank_trend(true, Some(1), Some(2)), RankTrend::Up);
    assert_eq!(rank_trend(true, Some(2), Some(2)), RankTrend::Stable);
    assert_eq!(rank_trend(false, Some(1), Some(2)), RankTrend::Unknown);
    assert_eq!(rank_trend(true, None, Some(2)), RankTrend::Unknown);
    assert_eq!(rank_trend(true, Some(1), None), RankTrend::Unknown);
}

#[test]
fn ranks_are_looked_up_by_name() {
    let ranks = dense_rank_by_total(&entries(&[("carlok/a", 3), ("carlok/b", 9)]));
    assert_eq!(rank_of(&ranks, "carlok/a"), Some(2));
    assert_eq!(rank_of(&ranks, "carlok/b"), Some(1));
    assert_eq!(rank_of(&ranks, "carlok/c"), None);
}

#[test]
fn clone_rank_trend_reflects_an_overtake_since_yesterday() {
    let yesterday = dense_rank_by_total(&entries(&[("carlok/climber", 5), ("carlok/leader", 10)]));
    let today = dense_rank_by_total(&entries(&[("carlok/climber", 105), ("carlok/leader", 10)]));
    let old = "2026-07-16";
    let climber =
        trend_since_yesterday("carlok/climber", old, "2026-09-13", rank_of(&today, "carlok/climber"), &yesterday);
    let leader =
        trend_since_yesterday("carlok/leader", old, "2026-09-13", rank_of(&today, "carlok/leader"), &yesterday);
    assert_eq!(climber, RankTrend::Up);
    assert_eq!(leader, RankTrend::Down);
}

#[test]
fn clone_rank_trend_is_stable_when_order_is_unchanged() {
    let totals = entries(&[("carlok/steady-a", 100), ("carlok/steady-b", 50)]);
    let yesterday = dense_rank_by_total(&totals);
    let today = dense_rank_by_total(&totals);
    for name in ["carlok/steady-a", "carlok/steady-b"] {
        let trend = trend_since_yesterday(name, "2026-07-16", "2026-09-13", rank_of(&today, name), &yesterday);
        assert_eq!(trend, RankTrend::Stable);
    }
}

#[test]
fn rank_trend_is_stable_when_only_the_listing_order_changed() {
    let yesterday = dense_rank_by_total(&entries(&[("carlok/a", 100), ("carlok/b", 50), ("carlok/c", 50)]));
    let today = dense_rank_by_total(&entries(&[("carlok/c", 50), ("carlok/a", 100), ("carlok/b", 50)]));
    for name in ["carlok/a", "carlok/b", "carlok/c"] {
        let trend = trend_since_yesterday(name, "", "2026-09-13", rank_of(&today, name), &yesterday);
        assert_eq!(trend, RankTrend::Stable);
    }
}

#[test]
fn clone_rank_trend_is_unknown_for_a_repository_created_today() {
    let yesterday = dense_rank_by_total(&entries(&[("carlok/brand-new", 0)]));
    let today = dense_rank_by_total(&entries(&[("carlok/brand-new", 50)]));
    let trend = trend_since_yesterday(
        "carlok/brand-new",
        "2026-09-14",
        "2026-09-13",
        rank_of(&today, "carlok/brand-new"),
        &yesterday,
    );
    assert_eq!(trend, RankTrend::Unknown);
}

#[test]
fn attention_rank_trend_is_unknown_when_yesterdays_baseline_row_is_missing() {
    let yesterday = dense_rank_by_score(&vec![("carlok/fresh-history".to_string(), None)]);
    let today = dense_rank_by_score(&vec![("carlok/fresh-history".to_string(), Some(12))]);
    let today_rank = rank_of(&today, "carlok/fresh-history");
    assert_eq!(today_rank, Some(1));
    let trend = trend_since_yesterday("carlok/fresh-history", "2026-07-16", "2026-09-13", today_rank, &yesterday);
    assert_eq!(trend, RankTrend::Unknown);
}

#[test]
fn attention_rank_trend_reflects_a_score_order_flip_since_yesterday() {
    let yesterday =
        dense_rank_by_score(&vec![("carlok/riser".to_string(), Some(10)), ("carlok/steady".to_string(), Some(20))]);
    let today =
        dense_rank_by_score(&vec![("carlok/riser".to_string(), Some(30)), ("carlok/steady".to_string(), Some(20))]);
    let riser = trend_since_yesterday("carlok/riser", "2026-07-16", "2026-09-13", rank_of(&today, "carlok/riser"), &yesterday);
    let steady =
        trend_since_yesterday("carlok/steady", "2026-07-16", "2026-09-13", rank_of(&today, "carlok/steady"), &yesterday);
    assert_eq!(riser, RankTrend::Up);
    assert_eq!(steady, RankTrend::Down);
}

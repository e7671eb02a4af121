use forgepulse_server::model::CloneChartPoint;
use forgepulse_server::stats::{
    CloneStatistics, clone_statistics, series_sum, sort_ascending, statistics_for_chart,
    total_clone_statistics, unique_clone_statistics,
};

fn mean(st: &CloneStatistics) -> f64 {
    st.sum as f64 / st.count as f64
}

fn median(st: &CloneStatistics) -> f64 {
    if st.lower_median == st.upper_median {
        st.lower_median as f64
    } else {
        (st.lower_median + st.upper_median) as f64 / 2.0
    }
}

fn population_variance(st: &CloneStatistics) -> f64 {
    let m = mean(st);
    st.sorted.iter().map(|v| (*v as f64 - m).powi(2)).sum::<f64>() / st.count as f64
}

fn point(day: &str, total: i64, unique: i64) -> CloneChartPoint {
    CloneChartPoint { day: day.to_string(), total_clones: total, unique_cloners: unique }
}

#[test]
fn calculates_even_median_population_metrics_and_p95() {
    let result = clone_statistics(&[0, 2, 4, 6]).expect("statistics");
    assert_eq!(mean(&result), 3.0);
    assert_eq!(median(&result), 3.0);
    assert_eq!(population_variance(&result), 5.0);
    assert_eq!(population_variance(&result).sqrt(), 5.0_f64.sqrt());
    assert_eq!(result.p95, 6);
}

#[test]
fn returns_none_for_empty_values() {
    assert!(clone_statistics(&[]).is_none());
}

#[test]
fn calculates_single_and_odd_value_medians() {
    let single = clone_statistics(&[7]).expect("single value statistics");
    assert_eq!(mean(&single), 7.0);
    assert_eq!(median(&single), 7.0);
    assert_eq!(population_variance(&single), 0.0);
    assert_eq!(median(&clone_statistics(&[9, 1, 5]).expect("odd statistics")), 5.0);
}

#[test]
fn nearest_rank_p95_includes_zero_days() {
    let values = [0, 0, 0, 2, 3, 4, 5, 6, 7, 8];
    assert_eq!(clone_statistics(&values).expect("statistics").p95, 8);
}

#[test]
fn statistics_hold_the_exact_order_statistics() {
    let st = clone_statistics(&[9, 1, 5, 3]).expect("statistics");
    assert_eq!(st.count, 4);
    assert_eq!(st.sum, 18);
    assert_eq!(st.sorted, vec![1, 3, 5, 9]);
    assert_eq!(st.minimum, 1);
    assert_eq!(st.maximum, 9);
    assert_eq!(st.lower_median, 3);
    assert_eq!(st.upper_median, 5);
    assert_eq!(st.p95, 9);
}

#[test]
fn statistics_ignore_the_order_of_the_days() {
    let a = clone_statistics(&[4, 0, 7, 7, 2]).expect("statistics");
    let b = clone_statistics(&[7, 2, 7, 4, 0]).expect("statistics");
    assert_eq!(a.sorted, b.sorted);
    assert_eq!(a.sum, b.sum);
    assert_eq!(a.lower_median, b.lower_median);
    assert_eq!(a.upper_median, b.upper_median);
    assert_eq!(a.p95, b.p95);
}

#[test]
fn statistics_are_bounded_by_the_extremes() {
    let st = clone_statistics(&[12, -3, 40, 8, 8, 0]).expect("statistics");
    assert!(st.minimum <= st.lower_median);
    assert!(st.lower_median <= st.upper_median);
    assert!(st.upper_median <= st.maximum);
    assert!(st.minimum <= st.p95 && st.p95 <= st.maximum);
    assert!(st.count as i128 * st.minimum as i128 <= st.sum);
    assert!(st.sum <= st.count as i128 * st.maximum as i128);
}

#[test]
fn p95_of_twenty_values_is_the_nineteenth() {
    let values: Vec<i64> = (1..=20).collect();
    assert_eq!(clone_statistics(&values).expect("statistics").p95, 19);
}

#[test]
fn sum_does_not_overflow_on_extreme_counts() {
    assert_eq!(series_sum(&[i64::MAX, i64::MAX]), 2 * i64::MAX as i128);
    let st = clone_statistics(&[i64::MAX, i64::MAX, i64::MIN]).expect("statistics");
    assert_eq!(st.sum, i64::MAX as i128 - 1);
}

#[test]
fn sorting_keeps_every_value() {
    assert_eq!(sort_ascending(&[3, -1, 3, 0]), vec![-1, 0, 3, 3]);
    assert!(sort_ascending(&[]).is_empty());
}

#[test]
fn chart_statistics_read_totals_and_uniques() {
    let chart = vec![point("2026-01-01", 10, 1), point("2026-01-02", 2, 5)];
    let total = total_clone_statistics(&chart).expect("totals");
    let unique = unique_clone_statistics(&chart).expect("uniques");
    assert_eq!(total.sorted, vec![2, 10]);
    assert_eq!(unique.sorted, vec![1, 5]);
    let (t, u) = statistics_for_chart(&chart);
    assert_eq!(t.expect("totals").maximum, 10);
    assert_eq!(u.expect("uniques").maximum, 5);
    let (t, u) = statistics_for_chart(&[]);
    assert!(t.is_none() && u.is_none());
}

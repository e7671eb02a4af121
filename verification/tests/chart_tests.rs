use forgepulse_server::chart::{
    clone_chart_points, counts_of, counts_on, fill_bounds, group_by_repository,
    repository_clone_daily_statistics, zero_fill,
};
use forgepulse_server::dates::{DateError, MAX_DAY, MIN_DAY};
use forgepulse_server::model::{DayPoint, RepoDayRow};
use forgepulse_server::stats::statistics_for_chart;

fn day(day: &str, count: i64, uniques: i64) -> DayPoint {
    DayPoint { day: day.into(), count, uniques }
}

fn row(name: &str, day: &str, count: i64) -> RepoDayRow {
    RepoDayRow { repository_name: name.into(), day: day.into(), count, uniques: count / 2 }
}

#[test]
fn chart_fills_missing_calendar_days() {
    let chart = zero_fill(&vec![day("2026-01-01", 3, 2), day("2026-01-03", 5, 4)]).expect("filled");
    assert_eq!(chart.len(), 3);
    assert_eq!(chart[1].count, 0);
}

#[test]
fn filled_days_are_consecutive_and_keep_recorded_counts() {
    let chart = zero_fill(&vec![day("2026-02-27", 1, 1), day("2026-03-02", 4, 2)]).expect("filled");
    let days: Vec<&str> = chart.iter().map(|p| p.day.as_str()).collect();
    assert_eq!(days, vec!["2026-02-27", "2026-02-28", "2026-03-01", "2026-03-02"]);
    assert_eq!((chart[0].count, chart[0].uniques), (1, 1));
    assert_eq!((chart[2].count, chart[2].uniques), (0, 0));
    assert_eq!((chart[3].count, chart[3].uniques), (4, 2));
}

#[test]
fn empty_series_stays_empty() {
    assert!(zero_fill(&Vec::new()).expect("filled").is_empty());
}

#[test]
fn filling_covers_at_most_120_days() {
    let chart = zero_fill(&vec![day("2026-01-01", 1, 1), day("2026-12-31", 2, 2)]).expect("filled");
    assert_eq!(chart.len(), 120);
    assert_eq!(chart[0].day, "2026-09-03");
    assert_eq!(chart[119].day, "2026-12-31");
    assert_eq!(chart[119].count, 2);
}

#[test]
fn unreadable_days_are_refused() {
    assert_eq!(zero_fill(&vec![day("someday", 1, 1)]).map(|c| c.len()), Err(DateError::Unparsable));
}

#[test]
fn the_last_point_of_a_day_wins() {
    let points = vec![day("2026-01-01", 1, 1), day("2026-01-01", 7, 3)];
    assert_eq!(counts_on(&points, "2026-01-01"), (7, 3));
    assert_eq!(counts_on(&points, "2026-01-02"), (0, 0));
    let chart = zero_fill(&points).expect("filled");
    assert_eq!(chart.len(), 1);
    assert_eq!(chart[0].count, 7);
}

#[test]
fn clone_chart_renames_counts() {
    let chart = clone_chart_points(vec![day("2026-01-01", 9, 4), day("2026-01-02", 0, 0)]);
    assert_eq!(chart.len(), 2);
    assert_eq!(chart[0].day, "2026-01-01");
    assert_eq!(chart[0].total_clones, 9);
    assert_eq!(chart[0].unique_cloners, 4);
    assert_eq!(counts_of(&vec![day("2026-01-01", 9, 4), day("2026-01-02", 3, 1)]), vec![9, 3]);
}

#[test]
fn rows_are_grouped_by_repository_in_order() {
    let rows = vec![
        row("carlok/a", "2026-08-01", 4),
        row("carlok/b", "2026-08-01", 1),
        row("carlok/a", "2026-08-03", 6),
    ];
    let (names, series) = group_by_repository(&rows);
    assert_eq!(names, vec!["carlok/a".to_string(), "carlok/b".to_string()]);
    assert_eq!(series[0].iter().map(|p| p.count).collect::<Vec<_>>(), vec![4, 6]);
    assert_eq!(series[1].iter().map(|p| p.day.as_str()).collect::<Vec<_>>(), vec!["2026-08-01"]);
}

#[test]
fn clone_daily_median_is_computed_over_zero_filled_days() {
    let rows = vec![row("carlok/alpha", "2026-08-01", 10), row("carlok/alpha", "2026-08-03", 20)];
    let entries = repository_clone_daily_statistics(&rows).expect("statistics");
    assert_eq!(entries.len(), 1);
    assert_eq!(entries[0].0, "carlok/alpha");
    let st = &entries[0].1;
    assert_eq!(st.sorted, vec![0, 10, 20]);
    assert_eq!((st.lower_median, st.upper_median), (10, 10));
}

#[test]
fn clone_daily_median_is_none_for_a_repository_with_no_clone_history() {
    assert!(repository_clone_daily_statistics(&Vec::new()).expect("statistics").is_empty());
}

#[test]
fn fill_windows_start_at_most_119_days_before_the_last_day() {
    assert_eq!(fill_bounds(Some(10_000), Some(10_002)), Ok((10_000, 10_002)));
    assert_eq!(fill_bounds(Some(1_000), Some(10_000)), Ok((9_881, 10_000)));
    assert_eq!(fill_bounds(Some(10_005), Some(10_000)), Ok((10_005, 10_000)));
    assert_eq!(fill_bounds(None, Some(10_000)), Err(DateError::Unparsable));
    assert_eq!(fill_bounds(Some(10_000), None), Err(DateError::Unparsable));
}

#[test]
fn fill_windows_stay_inside_the_date_range() {
    assert_eq!(fill_bounds(Some(MIN_DAY), Some(MIN_DAY + 118)), Err(DateError::OutOfRange));
    assert_eq!(fill_bounds(Some(MIN_DAY), Some(MIN_DAY + 119)), Ok((MIN_DAY, MIN_DAY + 119)));
    assert_eq!(fill_bounds(Some(MAX_DAY - 1), Some(MAX_DAY)), Err(DateError::OutOfRange));
    assert_eq!(fill_bounds(Some(MAX_DAY - 2), Some(MAX_DAY - 1)), Ok((MAX_DAY - 2, MAX_DAY - 1)));
}

#[test]
fn charts_are_empty_for_no_matched_repositories() {
    let filled = zero_fill(&Vec::new()).expect("filled");
    assert!(filled.is_empty());
    assert!(clone_chart_points(filled).is_empty());
}

#[test]
fn dashboard_returns_empty_charts_when_nothing_matches() {
    let chart = clone_chart_points(zero_fill(&Vec::new()).expect("filled"));
    assert!(chart.is_empty());
    let (total, unique) = statistics_for_chart(&chart);
    assert!(total.is_none());
    assert!(unique.is_none());
}

#[test]
fn chart_statistics_count_the_zero_filled_days() {
    let filled = zero_fill(&vec![day("2026-08-01", 6, 2), day("2026-08-04", 9, 3)]).expect("filled");
    let chart = clone_chart_points(filled);
    let (total, unique) = statistics_for_chart(&chart);
    let total = total.expect("totals");
    assert_eq!(total.count, 4);
    assert_eq!(total.sorted, vec![0, 0, 6, 9]);
    assert_eq!(unique.expect("uniques").sorted, vec![0, 0, 2, 3]);
}

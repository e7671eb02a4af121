use forgepulse_server::dashboard::{
    PageBounds, SortField, SummaryKeys, column_sum, dashboard_totals, descending, find_by_name,
    full_name, page_bounds, page_of, sort_field, sort_order, to_stream_error,
};

fn summary(name: &str, clones: i64) -> SummaryKeys {
    SummaryKeys {
        name: name.to_string(),
        stars: 0,
        forks: 0,
        total_views: 0,
        clones_1d: 0,
        clones_7d: 0,
        clones_30d: 0,
        total_clones: clones,
    }
}

fn names_in_order(items: &[SummaryKeys], order: &[usize]) -> Vec<String> {
    order.iter().map(|i| items[*i].name.clone()).collect()
}

#[test]
fn sorts_descending_by_default() {
    let items = vec![summary("b", 1), summary("a", 2)];
    let order = sort_order(&items, None, None);
    assert_eq!(items[order[0]].name, "a");
}

#[test]
fn ties_are_broken_by_name_in_the_sort_direction() {
    let items = vec![summary("a", 5), summary("c", 5), summary("b", 9)];
    let desc = sort_order(&items, Some("total_clones"), Some("desc"));
    assert_eq!(names_in_order(&items, &desc), vec!["b", "c", "a"]);
    let asc = sort_order(&items, Some("total_clones"), Some("asc"));
    assert_eq!(names_in_order(&items, &asc), vec!["a", "c", "b"]);
}

#[test]
fn sorting_by_name_ignores_the_counts() {
    let items = vec![summary("carlok/b", 1), summary("carlok/c", 9), summary("carlok/a", 5)];
    let order = sort_order(&items, Some("name"), Some("asc"));
    assert_eq!(names_in_order(&items, &order), vec!["carlok/a", "carlok/b", "carlok/c"]);
}

#[test]
fn sorting_by_stars_uses_the_star_column() {
    let mut items = vec![summary("x", 100), summary("y", 0)];
    items[1].stars = 3;
    let order = sort_order(&items, Some("stars"), None);
    assert_eq!(names_in_order(&items, &order), vec!["y", "x"]);
}

#[test]
fn equal_items_keep_their_given_order() {
    let mut items = vec![summary("same", 1), summary("same", 1)];
    items[0].stars = 10;
    items[1].stars = 20;
    let order = sort_order(&items, None, None);
    assert_eq!(order, vec![0, 1]);
}

#[test]
fn unknown_sort_columns_and_directions_use_the_defaults() {
    assert_eq!(sort_field(Some("bogus")), SortField::TotalClones);
    assert_eq!(sort_field(None), SortField::TotalClones);
    assert_eq!(sort_field(Some("clones_7d")), SortField::Clones7d);
    assert!(descending(None));
    assert!(descending(Some("ASC")));
    assert!(!descending(Some("asc")));
}

#[test]
fn pages_default_to_the_first_twenty_five() {
    assert_eq!(page_bounds(40, None, None), Some(PageBounds { start: 0, end: 25 }));
    assert_eq!(page_bounds(40, Some(2), None), Some(PageBounds { start: 25, end: 40 }));
    assert_eq!(page_bounds(40, Some(3), None), Some(PageBounds { start: 40, end: 40 }));
}

#[test]
fn page_numbers_and_sizes_are_clamped() {
    assert_eq!(page_bounds(10, Some(0), Some(0)), Some(PageBounds { start: 0, end: 1 }));
    assert_eq!(page_bounds(500, Some(1), Some(1000)), Some(PageBounds { start: 0, end: 100 }));
    assert_eq!(page_bounds(0, None, None), Some(PageBounds { start: 0, end: 0 }));
}

#[test]
fn page_offsets_that_overflow_are_refused() {
    assert_eq!(page_bounds(10, Some(usize::MAX), Some(100)), None);
    assert_eq!(page_bounds(10, Some(usize::MAX), Some(1)), Some(PageBounds { start: 10, end: 10 }));
}

#[test]
fn totals_sum_each_column() {
    let mut items = vec![summary("a", 4), summary("b", 6)];
    items[0].stars = 1;
    items[1].forks = 2;
    items[1].total_views = 30;
    let totals = dashboard_totals(&items).expect("totals");
    assert_eq!(totals.total_stars, 1);
    assert_eq!(totals.total_forks, 2);
    assert_eq!(totals.total_views, 30);
    assert_eq!(totals.total_clones, 10);
}

#[test]
fn column_sums_refuse_overflow() {
    assert_eq!(column_sum(&vec![i64::MAX, 1]), None);
    assert_eq!(column_sum(&vec![i64::MAX, 1, -1]), None);
    assert_eq!(column_sum(&vec![i64::MAX, -1, 1]), Some(i64::MAX));
    assert_eq!(column_sum(&Vec::new()), Some(0));
    assert!(dashboard_totals(&vec![summary("a", i64::MAX), summary("b", 1)]).is_none());
}

#[test]
fn repositories_are_found_by_full_name() {
    let name = full_name("carlok", "alpha");
    assert_eq!(name, "carlok/alpha");
    let items = vec![summary("carlok/beta", 0), summary("carlok/alpha", 0)];
    assert_eq!(find_by_name(&items, &name), Some(1));
    assert_eq!(find_by_name(&items, "carlok/missing"), None);
}

#[test]
fn stream_errors_carry_the_message() {
    assert_eq!(to_stream_error("database is locked").message, "database is locked");
}

#[test]
fn a_page_shows_its_slice_of_the_listing() {
    let order = vec![4, 2, 0, 1, 3];
    assert_eq!(page_of(&order, PageBounds { start: 1, end: 3 }), vec![2, 0]);
    assert!(page_of(&order, PageBounds { start: 5, end: 5 }).is_empty());
    let bounds = page_bounds(order.len(), Some(2), Some(2)).expect("bounds");
    assert_eq!(page_of(&order, bounds), vec![0, 1]);
}

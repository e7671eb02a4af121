//! Daily traffic series: filling the calendar days that have no recorded
//! traffic with zeros, the aggregate clone chart, and per-repository series.

use vstd::prelude::*;
use crate::dates::{
    DateError, MAX_DAY, MIN_DAY, day_int, day_text, parse_day, spec_format_day, spec_parse_day,
};
use crate::model::{CloneChartPoint, DayPoint, RepoDayRow};
use crate::stats::{CloneStatistics, clone_statistics, describes};
use crate::text::str_equal;

verus! {

/// The last point recorded for the day written `key`, if any.
pub open spec fn spec_lookup(points: Seq<DayPoint>, key: Seq<char>) -> Option<DayPoint>
    decreases points.len(),
{
    if points.len() == 0 {
        None
    } else if points.last().day@ == key {
        Some(points.last())
    } else {
        spec_lookup(points.drop_last(), key)
    }
}

/// The count and unique count recorded for the day written `key`, or zeros.
pub open spec fn spec_counts_on(points: Seq<DayPoint>, key: Seq<char>) -> (i64, i64) {
    match spec_lookup(points, key) {
        Some(p) => (p.count, p.uniques),
        None => (0, 0),
    }
}

/// The first and last day that zero-filling covers, given the day numbers of
/// the first and the last point (none where a day does not parse): from the
/// first day, but at most 120 days back from the last day, to the last day.
/// An error where a day is missing, or where the window or the step past its
/// last day would leave chrono's date range.
pub open spec fn window_of(first: Option<int>, last: Option<int>) -> Result<(int, int), DateError> {
    match (first, last) {
        (Some(first), Some(last)) => if last - 119 < MIN_DAY {
            Err(DateError::OutOfRange)
        } else {
            let start = if first > last - 119 {
                first
            } else {
                last - 119
            };
            if start <= last && last >= MAX_DAY {
                Err(DateError::OutOfRange)
            } else {
                Ok((start, last))
            }
        },
        _ => Err(DateError::Unparsable),
    }
}

/// The window that zero-filling covers for a series, by the first and last
/// point's day as chrono reads them.
pub open spec fn fill_window(points: Seq<DayPoint>) -> Result<(int, int), DateError> {
    window_of(spec_parse_day(points[0].day@), spec_parse_day(points.last().day@))
}

/// Computes the zero-filling window from the first and last day numbers.
pub fn fill_bounds(first: Option<i32>, last: Option<i32>) -> (bounds: Result<(i32, i32), DateError>)
    ensures
        match bounds {
            Ok((start, end)) => window_of(day_int(first), day_int(last)) == Ok::<(int, int), DateError>(
                (start as int, end as int),
            ),
            Err(e) => window_of(day_int(first), day_int(last)) == Err::<(int, int), DateError>(e),
        },
{
    match (first, last) {
        (Some(first), Some(last)) => {
            let floor: i64 = last as i64 - 119;
            if floor < MIN_DAY as i64 {
                return Err(DateError::OutOfRange);
            }
            let start: i32 = if first as i64 > floor {
                first
            } else {
                floor as i32
            };
            if start <= last && last >= MAX_DAY {
                Err(DateError::OutOfRange)
            } else {
                Ok((start, last))
            }
        },
        _ => Err(DateError::Unparsable),
    }
}

/// `filled` lists every day from `start` to `end`, each with the counts
/// recorded for it in `points` or zeros.
pub open spec fn fills(filled: Seq<DayPoint>, points: Seq<DayPoint>, start: int, end: int) -> bool {
    &&& filled.len() == if start <= end {
        end - start + 1
    } else {
        0
    }
    &&& forall|i: int|
        0 <= i < filled.len() ==> {
            &&& (#[trigger] filled[i]).day@ == spec_format_day(start + i)
            &&& (filled[i].count, filled[i].uniques) == spec_counts_on(points, filled[i].day@)
        }
}

/// The counts recorded for a day, by the day's text; the last point wins.
pub fn counts_on(points: &Vec<DayPoint>, key: &str) -> (counts: (i64, i64))
    ensures
        counts == spec_counts_on(points@, key@),
{
    let mut i: usize = points.len();
    proof {
        assert(points@.subrange(0, i as int) =~= points@);
    }
    while i > 0
        invariant
            i <= points.len(),
            spec_lookup(points@, key@) == spec_lookup(points@.subrange(0, i as int), key@),
        decreases i,
    {
        let ghost prefix = points@.subrange(0, i as int);
        proof {
            assert(prefix.drop_last() =~= points@.subrange(0, i - 1));
        }
        if str_equal(points[i - 1].day.as_str(), key) {
            return (points[i - 1].count, points[i - 1].uniques);
        }
        i = i - 1;
    }
    (0, 0)
}

/// Fills the gaps of a day-ordered series with zero days, over at most the
/// last 120 days of the series; an empty series stays empty. An error where
/// the first or last day does not parse or the window leaves chrono's range.
pub fn zero_fill(points: &Vec<DayPoint>) -> (result: Result<Vec<DayPoint>, DateError>)
    ensures
        points@.len() == 0 ==> (result matches Ok(filled) && filled@.len() == 0),
        points@.len() > 0 ==> match result {
            Ok(filled) => (fill_window(points@) matches Ok((start, end)) && fills(
                filled@,
                points@,
                start,
                end,
            )),
            Err(e) => fill_window(points@) == Err::<(int, int), DateError>(e),
        },
{
    if points.len() == 0 {
        return Ok(Vec::new());
    }
    let first = parse_day(points[0].day.as_str());
    let last = parse_day(points[points.len() - 1].day.as_str());
    let (start, last) = match fill_bounds(first, last) {
        Ok(bounds) => bounds,
        Err(e) => return Err(e),
    };
    let mut filled: Vec<DayPoint> = Vec::new();
    let mut day = start;
    while day <= last
        invariant
            MIN_DAY <= start,
            start <= day,
            start <= last ==> day <= last + 1,
            start > last ==> day == start,
            last < MAX_DAY || start > last,
            filled@.len() == day - start,
            forall|i: int|
                0 <= i < filled@.len() ==> {
                    &&& (#[trigger] filled@[i]).day@ == spec_format_day(start + i)
                    &&& (filled@[i].count, filled@[i].uniques) == spec_counts_on(
                        points@,
                        filled@[i].day@,
                    )
                },
        decreases last + 1 - day,
    {
        let key = day_text(day);
        let (count, uniques) = counts_on(points, key.as_str());
        filled.push(DayPoint { day: key, count, uniques });
        day = day + 1;
    }
    Ok(filled)
}

/// Zero-filling covers at most the 120 days ending on the last recorded day.
pub proof fn law_fill_window_spans_at_most_120_days(points: Seq<DayPoint>)
    requires
        points.len() > 0,
        fill_window(points) is Ok,
    ensures
        fill_window(points).unwrap().1 - fill_window(points).unwrap().0 + 1 <= 120,
        fill_window(points).unwrap().1 == spec_parse_day(points.last().day@).unwrap(),
{
}

/// A clone-chart point carries a day's clone count as its total and its
/// unique count as its unique cloners.
pub open spec fn as_clone_point(p: DayPoint) -> CloneChartPoint {
    CloneChartPoint { day: p.day, total_clones: p.count, unique_cloners: p.uniques }
}

/// Turns a zero-filled clone series into the clone chart, day by day.
pub fn clone_chart_points(points: Vec<DayPoint>) -> (chart: Vec<CloneChartPoint>)
    ensures
        chart@ == points@.map_values(|p: DayPoint| as_clone_point(p)),
{
    let mut chart: Vec<CloneChartPoint> = Vec::new();
    let mut rest = points;
    let ghost given = rest@;
    let mut reversed: Vec<DayPoint> = Vec::new();
    while rest.len() > 0
        invariant
            rest@.len() + reversed@.len() == given.len(),
            forall|k: int| 0 <= k < rest@.len() ==> #[trigger] rest@[k] == given[k],
            forall|k: int|
                0 <= k < reversed@.len() ==> #[trigger] reversed@[k] == given[given.len() - 1 - k],
        decreases rest@.len(),
    {
        let p = rest.pop().unwrap();
        reversed.push(p);
    }
    while reversed.len() > 0
        invariant
            chart@.len() + reversed@.len() == given.len(),
            forall|k: int|
                0 <= k < reversed@.len() ==> #[trigger] reversed@[k] == given[given.len() - 1 - k],
            forall|k: int| 0 <= k < chart@.len() ==> #[trigger] chart@[k] == as_clone_point(given[k]),
        decreases reversed@.len(),
    {
        let p = reversed.pop().unwrap();
        chart.push(CloneChartPoint { day: p.day, total_clones: p.count, unique_cloners: p.uniques });
    }
    proof {
        assert(chart@ =~= given.map_values(|p: DayPoint| as_clone_point(p)));
    }
    chart
}

/// A per-repository row as a day of that repository's series.
pub open spec fn as_day_point(r: RepoDayRow) -> DayPoint {
    DayPoint { day: r.day, count: r.count, uniques: r.uniques }
}

/// The rows of the repository named `name`, in order, as its series.
pub open spec fn rows_named(rows: Seq<RepoDayRow>, name: Seq<char>) -> Seq<DayPoint>
    decreases rows.len(),
{
    if rows.len() == 0 {
        Seq::empty()
    } else {
        let rest = rows_named(rows.drop_last(), name);
        if rows.last().repository_name@ == name {
            rest.push(as_day_point(rows.last()))
        } else {
            rest
        }
    }
}

/// `names` and `series` group `rows` by repository: each repository name once,
/// with all of its rows in order, and every row's repository present.
pub open spec fn groups_rows(names: Seq<String>, series: Seq<Vec<DayPoint>>, rows: Seq<RepoDayRow>) -> bool {
    &&& names.len() == series.len()
    &&& forall|g: int, h: int| 0 <= g < h < names.len() ==> names[g]@ != names[h]@
    &&& forall|g: int| 0 <= g < names.len() ==> (#[trigger] series[g])@ == rows_named(rows, names[g]@)
    &&& forall|g: int| 0 <= g < names.len() ==> (#[trigger] series[g])@.len() > 0
    &&& forall|r: int| 0 <= r < rows.len() ==> has_group(names, (#[trigger] rows[r]).repository_name@)
}

/// Some group is named `name`.
pub open spec fn has_group(names: Seq<String>, name: Seq<char>) -> bool {
    exists|g: int| 0 <= g < names.len() && (#[trigger] names[g])@ == name
}

proof fn lemma_rows_named_step(rows: Seq<RepoDayRow>, i: int, name: Seq<char>)
    requires
        0 <= i < rows.len(),
    ensures
        rows_named(rows.subrange(0, i + 1), name) == if rows[i].repository_name@ == name {
            rows_named(rows.subrange(0, i), name).push(as_day_point(rows[i]))
        } else {
            rows_named(rows.subrange(0, i), name)
        },
{
    assert(rows.subrange(0, i + 1).drop_last() =~= rows.subrange(0, i));
}

proof fn lemma_rows_named_absent(rows: Seq<RepoDayRow>, name: Seq<char>)
    requires
        forall|r: int| 0 <= r < rows.len() ==> (#[trigger] rows[r]).repository_name@ != name,
    ensures
        rows_named(rows, name) == Seq::<DayPoint>::empty(),
    decreases rows.len(),
{
    if rows.len() > 0 {
        lemma_rows_named_absent(rows.drop_last(), name);
        assert(rows.last().repository_name@ != name);
    }
}

fn find_name(names: &Vec<String>, name: &str) -> (found: Option<usize>)
    ensures
        found matches Some(g) ==> g < names@.len() && names@[g as int]@ == name@,
        found is None ==> forall|g: int| 0 <= g < names@.len() ==> (#[trigger] names@[g])@ != name@,
{
    let mut g: usize = 0;
    while g < names.len()
        invariant
            g <= names.len(),
            forall|h: int| 0 <= h < g ==> (#[trigger] names@[h])@ != name@,
        decreases names.len() - g,
    {
        if str_equal(names[g].as_str(), name) {
            return Some(g);
        }
        g = g + 1;
    }
    None
}

/// Groups per-repository rows by repository name, keeping each repository's
/// rows in their given order.
pub fn group_by_repository(rows: &Vec<RepoDayRow>) -> (grouped: (Vec<String>, Vec<Vec<DayPoint>>))
    ensures
        groups_rows(grouped.0@, grouped.1@, rows@),
{
    let mut names: Vec<String> = Vec::new();
    let mut series: Vec<Vec<DayPoint>> = Vec::new();
    let mut i: usize = 0;
    while i < rows.len()
        invariant
            i <= rows.len(),
            groups_rows(names@, series@, rows@.subrange(0, i as int)),
        decreases rows.len() - i,
    {
        let ghost prefix = rows@.subrange(0, i as int);
        let ghost next = rows@.subrange(0, i + 1);
        let row = &rows[i];
        let point = DayPoint { day: row.day.clone(), count: row.count, uniques: row.uniques };
        proof {
            assert(point == as_day_point(rows@[i as int]));
        }
        match find_name(&names, row.repository_name.as_str()) {
            Some(g) => {
                let ghost old_series = series@;
                let mut days = series.remove(g);
                days.push(point);
                series.insert(g, days);
                proof {
                    assert(series@ =~= old_series.update(g as int, days));
                    assert forall|h: int| 0 <= h < names@.len() implies (#[trigger] series@[h])@
                        == rows_named(next, names@[h]@) by {
                        lemma_rows_named_step(rows@, i as int, names@[h]@);
                        if h != g {
                            if h < g {
                                assert(names@[h]@ != names@[g as int]@);
                            } else {
                                assert(names@[g as int]@ != names@[h]@);
                            }
                            assert(series@[h] == old_series[h]);
                        }
                    }
                    assert forall|r: int| 0 <= r < next.len() implies has_group(
                        names@,
                        (#[trigger] next[r]).repository_name@,
                    ) by {
                        if r < i {
                            assert(next[r] == prefix[r]);
                        } else {
                            assert(names@[g as int]@ == next[r].repository_name@);
                        }
                    }
                    assert(forall|r: int|
                        0 <= r < next.len() ==> exists|g: int| 0 <= g < names@.len() && names@[g]@ == (#[trigger] next[r]).repository_name@);
                    assert(groups_rows(names@, series@, next));
                }
            },
            None => {
                let ghost old_names = names@;
                let ghost old_series = series@;
                names.push(row.repository_name.clone());
                let mut days: Vec<DayPoint> = Vec::new();
                days.push(point);
                series.push(days);
                proof {
                    assert forall|g: int, h: int| 0 <= g < h < names@.len() implies names@[g]@
                        != names@[h]@ by {
                        if h == names@.len() - 1 {
                            assert(old_names[g]@ != rows@[i as int].repository_name@);
                        } else {
                            assert(old_names[g]@ != old_names[h]@);
                        }
                    }
                    assert forall|h: int| 0 <= h < names@.len() implies (#[trigger] series@[h])@
                        == rows_named(next, names@[h]@) by {
                        lemma_rows_named_step(rows@, i as int, names@[h]@);
                        if h == names@.len() - 1 {
                            assert forall|r: int| 0 <= r < prefix.len() implies (#[trigger] prefix[r]).repository_name@
                                != names@[h]@ by {
                                if prefix[r].repository_name@ == names@[h]@ {
                                    assert(has_group(old_names, prefix[r].repository_name@));
                                    let k = choose|k: int| 0 <= k < old_names.len() && (#[trigger] old_names[k])@
                                        == prefix[r].repository_name@;
                                    assert(old_names[k]@ == rows@[i as int].repository_name@);
                                }
                            }
                            lemma_rows_named_absent(prefix, names@[h]@);
                            assert(series@[h]@ =~= seq![as_day_point(rows@[i as int])]);
                        } else {
                            assert(old_names[h]@ != rows@[i as int].repository_name@);
                        }
                    }
                    assert forall|r: int| 0 <= r < next.len() implies has_group(
                        names@,
                        (#[trigger] next[r]).repository_name@,
                    ) by {
                        if r < i {
                            assert(next[r] == prefix[r]);
                            assert(has_group(old_names, prefix[r].repository_name@));
                            let k = choose|k: int| 0 <= k < old_names.len() && (#[trigger] old_names[k])@
                                == prefix[r].repository_name@;
                            assert(names@[k] == old_names[k]);
                        } else {
                            assert(names@[names@.len() - 1]@ == next[r].repository_name@);
                        }
                    }
                    assert(groups_rows(names@, series@, next));
                }
            },
        }
        i = i + 1;
    }
    proof {
        assert(rows@.subrange(0, rows@.len() as int) =~= rows@);
    }
    (names, series)
}

proof fn lemma_rows_named_witness(rows: Seq<RepoDayRow>, name: Seq<char>) -> (r: int)
    requires
        rows_named(rows, name).len() > 0,
    ensures
        0 <= r < rows.len(),
        rows[r].repository_name@ == name,
    decreases rows.len(),
{
    if rows.last().repository_name@ == name {
        rows.len() - 1
    } else {
        lemma_rows_named_witness(rows.drop_last(), name)
    }
}

/// The daily counts of a series zero-filled over the days `start..=end`.
pub open spec fn filled_counts(points: Seq<DayPoint>, start: int, end: int) -> Seq<i64> {
    Seq::new(
        if start <= end {
            (end - start + 1) as nat
        } else {
            0
        },
        |i: int| spec_counts_on(points, spec_format_day(start + i)).0,
    )
}

/// The daily counts of a series.
pub fn counts_of(points: &Vec<DayPoint>) -> (counts: Vec<i64>)
    ensures
        counts@ == points@.map_values(|p: DayPoint| p.count),
{
    let mut counts: Vec<i64> = Vec::new();
    let mut i: usize = 0;
    while i < points.len()
        invariant
            i <= points.len(),
            counts@ == points@.subrange(0, i as int).map_values(|p: DayPoint| p.count),
        decreases points.len() - i,
    {
        counts.push(points[i].count);
        i = i + 1;
        proof {
            assert(counts@ =~= points@.subrange(0, i as int).map_values(|p: DayPoint| p.count));
        }
    }
    proof {
        assert(points@.subrange(0, points@.len() as int) =~= points@);
    }
    counts
}

proof fn lemma_fills_counts(filled: Seq<DayPoint>, points: Seq<DayPoint>, start: int, end: int)
    requires
        fills(filled, points, start, end),
    ensures
        filled.map_values(|p: DayPoint| p.count) =~= filled_counts(points, start, end),
{
    assert forall|i: int| 0 <= i < filled.len() implies filled.map_values(|p: DayPoint| p.count)[i]
        == filled_counts(points, start, end)[i] by {
        assert(filled[i].day@ == spec_format_day(start + i));
    }
}

/// The statistics of one repository's zero-filled daily clones, where its
/// series has at least one day.
pub open spec fn repository_entry_ok(rows: Seq<RepoDayRow>, name: Seq<char>, st: CloneStatistics) -> bool {
    let points = rows_named(rows, name);
    &&& points.len() > 0
    &&& fill_window(points) matches Ok((start, end))
    &&& start <= end
    &&& describes(st, filled_counts(points, start, end))
}

/// The repository named `name` can be zero-filled, and has an entry unless
/// its window of days is empty.
pub open spec fn repository_covered(
    rows: Seq<RepoDayRow>,
    entries: Seq<(String, CloneStatistics)>,
    name: Seq<char>,
) -> bool {
    let points = rows_named(rows, name);
    &&& fill_window(points) is Ok
    &&& (fill_window(points) matches Ok((start, end)) && start <= end) ==> exists|k: int|
        0 <= k < entries.len() && (#[trigger] entries[k]).0@ == name
}

/// For each repository in `rows`, the descriptive statistics of its daily
/// clone counts zero-filled over its own window of days. Repositories whose
/// window is empty get no entry. An error where some repository's series
/// cannot be zero-filled.
pub fn repository_clone_daily_statistics(rows: &Vec<RepoDayRow>) -> (result: Result<
    Vec<(String, CloneStatistics)>,
    DateError,
>)
    ensures
        match result {
            Ok(entries) => {
                &&& forall|k: int|
                    0 <= k < entries@.len() ==> repository_entry_ok(
                        rows@,
                        (#[trigger] entries@[k]).0@,
                        entries@[k].1,
                    )
                &&& forall|k: int, l: int| 0 <= k < l < entries@.len() ==> entries@[k].0@ != entries@[l].0@
                &&& forall|r: int|
                    0 <= r < rows@.len() ==> repository_covered(
                        rows@,
                        entries@,
                        (#[trigger] rows@[r]).repository_name@,
                    )
            },
            Err(e) => exists|r: int|
                0 <= r < rows@.len() && fill_window(
                    rows_named(rows@, (#[trigger] rows@[r]).repository_name@),
                ) == Err::<(int, int), DateError>(e),
        },
{
    let (names, series) = group_by_repository(rows);
    let mut entries: Vec<(String, CloneStatistics)> = Vec::new();
    let ghost mut listed: Seq<int> = Seq::empty();
    let mut g: usize = 0;
    while g < names.len()
        invariant
            g <= names.len(),
            groups_rows(names@, series@, rows@),
            listed.len() == entries@.len(),
            forall|k: int| 0 <= k < entries@.len() ==> 0 <= #[trigger] listed[k] < g as int,
            forall|k: int| 0 <= k < entries@.len() ==> (#[trigger] entries@[k]).0@ == names@[listed[k]]@,
            forall|k: int|
                0 <= k < entries@.len() ==> repository_entry_ok(
                    rows@,
                    (#[trigger] entries@[k]).0@,
                    entries@[k].1,
                ),
            forall|k: int, l: int| 0 <= k < l < entries@.len() ==> listed[k] < listed[l],
            forall|h: int|
                0 <= h < g ==> {
                    let points = rows_named(rows@, (#[trigger] names@[h])@);
                    &&& fill_window(points) is Ok
                    &&& (fill_window(points) matches Ok((start, end)) && start <= end) ==> exists|k: int|
                        0 <= k < entries@.len() && listed[k] == h
                },
        decreases names.len() - g,
    {
        let ghost points = rows_named(rows@, names@[g as int]@);
        proof {
            assert(series@[g as int]@ == points);
            assert(series@[g as int]@.len() > 0);
        }
        match zero_fill(&series[g]) {
            Err(e) => {
                proof {
                    let r = lemma_rows_named_witness(rows@, names@[g as int]@);
                    assert(rows_named(rows@, rows@[r].repository_name@) == points);
                }
                return Err(e);
            },
            Ok(filled) => {
                let counts = counts_of(&filled);
                proof {
                    let (start, end) = fill_window(points).unwrap();
                    lemma_fills_counts(filled@, points, start, end);
                }
                match clone_statistics(counts.as_slice()) {
                    Some(st) => {
                        let ghost old_listed = listed;
                        let ghost old_entries = entries@;
                        entries.push((names[g].clone(), st));
                        proof {
                            listed = listed.push(g as int);
                            assert(counts@.len() > 0);
                            assert(filled@.len() > 0);
                            let (start, end) = fill_window(points).unwrap();
                            assert(start <= end);
                            assert(repository_entry_ok(rows@, names@[g as int]@, st));
                            assert forall|k: int| 0 <= k < entries@.len() implies 0 <= #[trigger] listed[k]
                                < g as int + 1 by {
                                if k < old_entries.len() {
                                    assert(listed[k] == old_listed[k]);
                                }
                            }
                            assert forall|k: int| 0 <= k < entries@.len() implies (#[trigger] entries@[k]).0@
                                == names@[listed[k]]@ && repository_entry_ok(rows@, entries@[k].0@, entries@[k].1) by {
                                if k < old_entries.len() {
                                    assert(entries@[k] == old_entries[k]);
                                    assert(listed[k] == old_listed[k]);
                                }
                            }
                            assert forall|k: int, l: int| 0 <= k < l < entries@.len() implies listed[k]
                                < listed[l] by {
                                if l < old_entries.len() {
                                    assert(listed[k] == old_listed[k]);
                                    assert(listed[l] == old_listed[l]);
                                } else {
                                    assert(listed[k] == old_listed[k]);
                                    assert(old_entries[k] == entries@[k]);
                                }
                            }
                            assert forall|h: int| 0 <= h <= g implies {
                                let points = rows_named(rows@, (#[trigger] names@[h])@);
                                &&& fill_window(points) is Ok
                                &&& (fill_window(points) matches Ok((start, end)) && start <= end)
                                    ==> exists|k: int| 0 <= k < entries@.len() && listed[k] == h
                            } by {
                                if h == g {
                                    assert(listed[listed.len() - 1] == h);
                                } else {
                                    let p = rows_named(rows@, names@[h]@);
                                    if fill_window(p) matches Ok((start, end)) && start <= end {
                                        let k = choose|k: int| 0 <= k < old_listed.len() && old_listed[k] == h;
                                        assert(listed[k] == h);
                                    }
                                }
                            }
                        }
                    },
                    None => {},
                }
            },
        }
        g = g + 1;
    }
    proof {
        assert forall|r: int| 0 <= r < rows@.len() implies repository_covered(
            rows@,
            entries@,
            (#[trigger] rows@[r]).repository_name@,
        ) by {
            assert(has_group(names@, rows@[r].repository_name@));
            let h = choose|h: int| 0 <= h < names@.len() && (#[trigger] names@[h])@ == rows@[r].repository_name@;
            let points = rows_named(rows@, names@[h]@);
            if fill_window(points) matches Ok((start, end)) && start <= end {
                let k = choose|k: int| 0 <= k < entries@.len() && listed[k] == h;
                assert(entries@[k].0@ == rows@[r].repository_name@);
            }
        }
        assert forall|k: int, l: int| 0 <= k < l < entries@.len() implies entries@[k].0@ != entries@[l].0@ by {
            assert(listed[k] < listed[l]);
        }
        assert(forall|k: int|
                    0 <= k < entries@.len() ==> repository_entry_ok(
                        rows@,
                        (#[trigger] entries@[k]).0@,
                        entries@[k].1,
                    ));
        assert(forall|k: int, l: int| 0 <= k < l < entries@.len() ==> entries@[k].0@ != entries@[l].0@);
        assert(forall|r: int|
                    0 <= r < rows@.len() ==> repository_covered(
                        rows@,
                        entries@,
                        (#[trigger] rows@[r]).repository_name@,
                    ));
    }
    Ok(entries)
}

} // verus!

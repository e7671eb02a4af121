//! Descriptive statistics of a daily clone series: count, sum, medians,
//! extremes and the nearest-rank 95th percentile, all over the sorted series.

use vstd::prelude::*;
use vstd::relations::sorted_by;
use crate::model::CloneChartPoint;

verus! {

broadcast use vstd::seq_lib::group_to_multiset_ensures;

/// `s` never decreases.
pub open spec fn ascending(s: Seq<i64>) -> bool {
    forall|i: int, j: int| 0 <= i <= j < s.len() ==> s[i] <= s[j]
}

/// `sorted` holds exactly the values of `values`, in ascending order.
pub open spec fn is_sorted_permutation(sorted: Seq<i64>, values: Seq<i64>) -> bool {
    ascending(sorted) && sorted.to_multiset() == values.to_multiset()
}

/// The sum of a series, as a mathematical integer.
pub open spec fn seq_sum(s: Seq<i64>) -> int
    decreases s.len(),
{
    if s.len() == 0 {
        0
    } else {
        seq_sum(s.drop_last()) + s.last()
    }
}

/// The nearest-rank index of the 95th percentile among `len` sorted values:
/// `ceil(len * 95 / 100) - 1`, and 0 where that would be negative.
pub open spec fn p95_index(len: nat) -> int {
    let rank = (len * 95 + 99) / 100;
    if rank >= 1 {
        rank - 1
    } else {
        0
    }
}

/// Exact descriptive statistics of a non-empty series. `sorted` is the series
/// in ascending order; the mean is `sum / count`, the median is the midpoint of
/// `lower_median` and `upper_median` (equal for an odd count), and the
/// population variance is taken over `sorted`.
#[derive(Clone, Debug)]
pub struct CloneStatistics {
    pub count: usize,
    pub sum: i128,
    pub lower_median: i64,
    pub upper_median: i64,
    pub minimum: i64,
    pub maximum: i64,
    pub p95: i64,
    pub sorted: Vec<i64>,
}

/// `st` is the description of the non-empty series `values`.
pub open spec fn describes(st: CloneStatistics, values: Seq<i64>) -> bool {
    let s = st.sorted@;
    &&& values.len() > 0
    &&& is_sorted_permutation(s, values)
    &&& st.count == values.len()
    &&& st.sum == seq_sum(values)
    &&& st.minimum == s[0]
    &&& st.maximum == s[s.len() - 1]
    &&& st.lower_median == s[(s.len() - 1) / 2]
    &&& st.upper_median == s[(s.len() / 2) as int]
    &&& st.p95 == s[p95_index(s.len())]
}

/// The ascending order of i64 as a relation, for vstd's sorting lemmas.
pub open spec fn le_i64() -> spec_fn(i64, i64) -> bool {
    |a: i64, b: i64| a <= b
}

proof fn lemma_ascending_sorted_by(s: Seq<i64>)
    requires
        ascending(s),
    ensures
        sorted_by(s, le_i64()),
{
}

/// Two ascending orderings of the same values are the same sequence.
pub proof fn lemma_sorted_permutation_unique(values: Seq<i64>, a: Seq<i64>, b: Seq<i64>)
    requires
        is_sorted_permutation(a, values),
        is_sorted_permutation(b, values),
    ensures
        a == b,
{
    lemma_ascending_sorted_by(a);
    lemma_ascending_sorted_by(b);
    vstd::seq_lib::lemma_sorted_unique(a, b, le_i64());
}

proof fn lemma_seq_sum_remove(s: Seq<i64>, j: int)
    requires
        0 <= j < s.len(),
    ensures
        seq_sum(s) == seq_sum(s.remove(j)) + s[j],
    decreases s.len(),
{
    if j == s.len() - 1 {
        assert(s.remove(j) =~= s.drop_last());
    } else {
        lemma_seq_sum_remove(s.drop_last(), j);
        assert(s.remove(j).drop_last() =~= s.drop_last().remove(j));
        assert(s.remove(j).last() == s.last());
    }
}

/// Rearranging a series does not change its sum.
pub proof fn lemma_seq_sum_permutation(a: Seq<i64>, b: Seq<i64>)
    requires
        a.to_multiset() == b.to_multiset(),
    ensures
        seq_sum(a) == seq_sum(b),
    decreases a.len(),
{
    broadcast use vstd::multiset::group_multiset_axioms;

    if a.len() == 0 {
        assert(b.to_multiset().len() == 0);
    } else {
        let x = a.last();
        assert(a.to_multiset().contains(x)) by {
            assert(a.contains(x)) by {
                assert(a[a.len() - 1] == x);
            }
        }
        assert(b.contains(x));
        let j = choose|j: int| 0 <= j < b.len() && b[j] == x;
        lemma_seq_sum_remove(b, j);
        assert(a.drop_last() =~= a.remove(a.len() - 1));
        assert(a.drop_last().to_multiset() == a.to_multiset().remove(x));
        assert(b.remove(j).to_multiset() == b.to_multiset().remove(x));
        lemma_seq_sum_permutation(a.drop_last(), b.remove(j));
    }
}

proof fn lemma_seq_sum_bounds(s: Seq<i64>, low: int, high: int)
    requires
        forall|i: int| 0 <= i < s.len() ==> low <= #[trigger] s[i] <= high,
    ensures
        s.len() * low <= seq_sum(s) <= s.len() * high,
    decreases s.len(),
{
    if s.len() > 0 {
        lemma_seq_sum_bounds(s.drop_last(), low, high);
        assert(s.len() * low == (s.len() - 1) * low + low) by (nonlinear_arith);
        assert(s.len() * high == (s.len() - 1) * high + high) by (nonlinear_arith);
    }
}

/// The statistics of a series depend only on which values occur how often,
/// not on the order in which the days were listed.
pub proof fn law_statistics_ignore_order(
    a: Seq<i64>,
    b: Seq<i64>,
    sa: CloneStatistics,
    sb: CloneStatistics,
)
    requires
        a.to_multiset() == b.to_multiset(),
        describes(sa, a),
        describes(sb, b),
    ensures
        sa.sorted@ == sb.sorted@,
        sa.count == sb.count,
        sa.sum == sb.sum,
        sa.lower_median == sb.lower_median,
        sa.upper_median == sb.upper_median,
        sa.minimum == sb.minimum,
        sa.maximum == sb.maximum,
        sa.p95 == sb.p95,
{
    lemma_sorted_permutation_unique(a, sa.sorted@, sb.sorted@);
    lemma_seq_sum_permutation(a, b);
    vstd::seq_lib::to_multiset_len(a);
    vstd::seq_lib::to_multiset_len(b);
}

/// The minimum bounds every order statistic from below and the maximum from
/// above; the two medians are ordered; and the sum lies between `count`
/// copies of the minimum and `count` copies of the maximum.
pub proof fn law_statistics_are_bounded(values: Seq<i64>, st: CloneStatistics)
    requires
        describes(st, values),
    ensures
        st.minimum <= st.lower_median <= st.upper_median <= st.maximum,
        st.minimum <= st.p95 <= st.maximum,
        st.count * st.minimum <= st.sum <= st.count * st.maximum,
{
    let s = st.sorted@;
    assert(s.len() == values.len()) by {
        assert(s.to_multiset().len() == values.to_multiset().len());
    }
    assert(0 <= p95_index(s.len()) < s.len()) by {
        assert(s.len() * 95 + 99 <= s.len() * 100 + 99) by (nonlinear_arith);
    }
    lemma_seq_sum_bounds(s, st.minimum as int, st.maximum as int);
    lemma_seq_sum_permutation(s, values);
}

/// Returns the values in ascending order (a stable insertion sort).
pub fn sort_ascending(values: &[i64]) -> (sorted: Vec<i64>)
    ensures
        is_sorted_permutation(sorted@, values@),
{
    let mut sorted: Vec<i64> = Vec::new();
    let mut i: usize = 0;
    while i < values.len()
        invariant
            i <= values.len(),
            ascending(sorted@),
            sorted@.to_multiset() == values@.subrange(0, i as int).to_multiset(),
        decreases values.len() - i,
    {
        let x = values[i];
        let mut k: usize = 0;
        while k < sorted.len() && sorted[k] <= x
            invariant
                k <= sorted.len(),
                forall|j: int| 0 <= j < k ==> sorted@[j] <= x,
            decreases sorted.len() - k,
        {
            k = k + 1;
        }
        let ghost before = sorted@;
        sorted.insert(k, x);
        proof {
            assert(sorted@ == before.insert(k as int, x));
            assert(values@.subrange(0, i + 1) =~= values@.subrange(0, i as int).push(x));
            assert forall|p: int, q: int| 0 <= p <= q < sorted@.len() implies sorted@[p]
                <= sorted@[q] by {
                if q < k {
                } else if q == k {
                    assert(p < k ==> before[p] <= x);
                } else if p > k {
                    assert(before[p - 1] <= before[q - 1]);
                } else if p == k {
                    assert(k < before.len());
                    assert(before[k as int] > x);
                    assert(before[k as int] <= before[q - 1]);
                } else {
                    assert(before[p] <= before[q - 1]);
                }
            }
        }
        i = i + 1;
    }
    proof {
        assert(values@.subrange(0, values@.len() as int) =~= values@);
    }
    sorted
}

proof fn lemma_seq_sum_step(s: Seq<i64>, i: int)
    requires
        0 <= i < s.len(),
    ensures
        seq_sum(s.subrange(0, i + 1)) == seq_sum(s.subrange(0, i)) + s[i],
{
    assert(s.subrange(0, i + 1).drop_last() =~= s.subrange(0, i));
}

/// The exact sum of a series.
pub fn series_sum(values: &[i64]) -> (sum: i128)
    ensures
        sum == seq_sum(values@),
{
    let mut sum: i128 = 0;
    let mut i: usize = 0;
    while i < values.len()
        invariant
            i <= values.len(),
            sum == seq_sum(values@.subrange(0, i as int)),
            -(i as int) * 0x8000_0000_0000_0000 <= sum <= (i as int) * 0x8000_0000_0000_0000,
        decreases values.len() - i,
    {
        proof {
            lemma_seq_sum_step(values@, i as int);
            assert((i as int) * 0x8000_0000_0000_0000 <= 0xffff_ffff_ffff_fffe * 0x8000_0000_0000_0000)
                by (nonlinear_arith)
                requires
                    (i as int) < 0xffff_ffff_ffff_ffff,
            ;
            assert((i + 1) * 0x8000_0000_0000_0000 == (i as int) * 0x8000_0000_0000_0000
                + 0x8000_0000_0000_0000) by (nonlinear_arith);
        }
        sum = sum + values[i] as i128;
        i = i + 1;
    }
    proof {
        assert(values@.subrange(0, values@.len() as int) =~= values@);
    }
    sum
}

/// Index of the nearest-rank 95th percentile among `len` sorted values.
pub fn p95_position(len: usize) -> (index: usize)
    requires
        len > 0,
    ensures
        index == p95_index(len as nat),
        index < len,
{
    let rank = (len as u128 * 95 + 99) / 100;
    proof {
        assert((len as int) * 95 + 99 <= (len as int) * 100 + 99) by (nonlinear_arith)
            requires
                len > 0,
        ;
    }
    (rank - 1) as usize
}

/// Descriptive statistics of a daily series; `None` for an empty series.
pub fn clone_statistics(values: &[i64]) -> (result: Option<CloneStatistics>)
    ensures
        result is None <==> values@.len() == 0,
        result matches Some(st) ==> describes(st, values@),
{
    if values.len() == 0 {
        return None;
    }
    let sorted = sort_ascending(values);
    proof {
        assert(sorted@.len() == values@.len()) by {
            assert(sorted@.to_multiset().len() == values@.to_multiset().len());
        }
    }
    let len = sorted.len();
    let sum = series_sum(values);
    let index = p95_position(len);
    Some(
        CloneStatistics {
            count: len,
            sum,
            lower_median: sorted[(len - 1) / 2],
            upper_median: sorted[len / 2],
            minimum: sorted[0],
            maximum: sorted[len - 1],
            p95: sorted[index],
            sorted,
        },
    )
}

/// The daily clone totals of a chart.
pub open spec fn total_series(points: Seq<CloneChartPoint>) -> Seq<i64> {
    points.map_values(|p: CloneChartPoint| p.total_clones)
}

/// The daily unique-cloner counts of a chart.
pub open spec fn unique_series(points: Seq<CloneChartPoint>) -> Seq<i64> {
    points.map_values(|p: CloneChartPoint| p.unique_cloners)
}

fn collect_totals(points: &[CloneChartPoint]) -> (values: Vec<i64>)
    ensures
        values@ == total_series(points@),
{
    let mut values: Vec<i64> = Vec::new();
    let mut i: usize = 0;
    while i < points.len()
        invariant
            i <= points.len(),
            values@ == total_series(points@.subrange(0, i as int)),
        decreases points.len() - i,
    {
        values.push(points[i].total_clones);
        i = i + 1;
        proof {
            assert(total_series(points@.subrange(0, i as int)) =~= total_series(
                points@.subrange(0, i - 1),
            ).push(points@[i - 1].total_clones));
        }
    }
    proof {
        assert(points@.subrange(0, points@.len() as int) =~= points@);
    }
    values
}

fn collect_uniques(points: &[CloneChartPoint]) -> (values: Vec<i64>)
    ensures
        values@ == unique_series(points@),
{
    let mut values: Vec<i64> = Vec::new();
    let mut i: usize = 0;
    while i < points.len()
        invariant
            i <= points.len(),
            values@ == unique_series(points@.subrange(0, i as int)),
        decreases points.len() - i,
    {
        values.push(points[i].unique_cloners);
        i = i + 1;
        proof {
            assert(unique_series(points@.subrange(0, i as int)) =~= unique_series(
                points@.subrange(0, i - 1),
            ).push(points@[i - 1].unique_cloners));
        }
    }
    proof {
        assert(points@.subrange(0, points@.len() as int) =~= points@);
    }
    values
}

/// Statistics of the daily clone totals of a chart; `None` for an empty chart.
pub fn total_clone_statistics(points: &[CloneChartPoint]) -> (result: Option<CloneStatistics>)
    ensures
        result is None <==> points@.len() == 0,
        result matches Some(st) ==> describes(st, total_series(points@)),
{
    let values = collect_totals(points);
    clone_statistics(values.as_slice())
}

/// Statistics of the daily unique-cloner counts of a chart; `None` for an empty chart.
pub fn unique_clone_statistics(points: &[CloneChartPoint]) -> (result: Option<CloneStatistics>)
    ensures
        result is None <==> points@.len() == 0,
        result matches Some(st) ==> describes(st, unique_series(points@)),
{
    let values = collect_uniques(points);
    clone_statistics(values.as_slice())
}

/// Both statistics of a chart: over the daily clone totals and over the
/// daily unique cloners.
pub fn statistics_for_chart(chart: &[CloneChartPoint]) -> (result: (
    Option<CloneStatistics>,
    Option<CloneStatistics>,
))
    ensures
        result.0 is None <==> chart@.len() == 0,
        result.1 is None <==> chart@.len() == 0,
        result.0 matches Some(st) ==> describes(st, total_series(chart@)),
        result.1 matches Some(st) ==> describes(st, unique_series(chart@)),
{
    (total_clone_statistics(chart), unique_clone_statistics(chart))
}

} // verus!

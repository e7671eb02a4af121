//! Competition ranking of repositories and day-over-day rank trends.

use vstd::prelude::*;
use crate::dates::{existed_as_of, spec_existed_as_of};
use crate::model::RankTrend;
use crate::text::str_equal;

verus! {

/// The trend from yesterday's rank to today's: a smaller rank number is better.
pub open spec fn spec_compare_rank(today: int, yesterday: int) -> RankTrend {
    if today < yesterday {
        RankTrend::Up
    } else if today > yesterday {
        RankTrend::Down
    } else {
        RankTrend::Stable
    }
}

/// Compares today's rank with yesterday's.
pub fn compare_rank(today: usize, yesterday: usize) -> (trend: RankTrend)
    ensures
        trend == spec_compare_rank(today as int, yesterday as int),
        (trend == RankTrend::Up) <==> today < yesterday,
        (trend == RankTrend::Down) <==> today > yesterday,
        (trend == RankTrend::Stable) <==> today == yesterday,
{
    if today < yesterday {
        RankTrend::Up
    } else if today > yesterday {
        RankTrend::Down
    } else {
        RankTrend::Stable
    }
}

/// Rank trends follow the numeric order of ranks, a smaller number being a
/// better place: the trend is up exactly when today's rank number is smaller
/// than yesterday's, down exactly when it is larger, stable exactly when they
/// are equal, and never unknown once both ranks are known.
pub proof fn law_trend_follows_numeric_rank_order(today: int, yesterday: int)
    ensures
        (spec_compare_rank(today, yesterday) == RankTrend::Up) <==> today < yesterday,
        (spec_compare_rank(today, yesterday) == RankTrend::Down) <==> today > yesterday,
        (spec_compare_rank(today, yesterday) == RankTrend::Stable) <==> today == yesterday,
        spec_compare_rank(today, yesterday) != RankTrend::Unknown,
{
}

/// Swapping the two days reverses the trend: up one way is down the other.
pub proof fn law_trend_reverses_with_the_days(today: int, yesterday: int)
    ensures
        (spec_compare_rank(today, yesterday) == RankTrend::Up) <==> (spec_compare_rank(yesterday, today)
            == RankTrend::Down),
        (spec_compare_rank(today, yesterday) == RankTrend::Stable) <==> (spec_compare_rank(
            yesterday,
            today,
        ) == RankTrend::Stable),
{
}

/// How many of the totals are strictly larger than `t`.
pub open spec fn count_above(totals: Seq<i64>, t: i64) -> nat
    decreases totals.len(),
{
    if totals.len() == 0 {
        0
    } else {
        count_above(totals.drop_last(), t) + if totals.last() > t {
            1nat
        } else {
            0nat
        }
    }
}

/// The totals of named entries, in order.
pub open spec fn totals_of(entries: Seq<(String, i64)>) -> Seq<i64> {
    entries.map_values(|e: (String, i64)| e.1)
}

/// Competition rank of entry `i`: one more than the number of entries with a
/// strictly larger total, so ties share a rank and the next rank skips ahead.
pub open spec fn competition_rank(totals: Seq<i64>, i: int) -> int {
    count_above(totals, totals[i]) as int + 1
}

/// `ranks` names every entry, in order, with its competition rank.
pub open spec fn ranks_entries(ranks: Seq<(String, usize)>, entries: Seq<(String, i64)>) -> bool {
    &&& ranks.len() == entries.len()
    &&& forall|i: int|
        0 <= i < entries.len() ==> {
            &&& (#[trigger] ranks[i]).0@ == entries[i].0@
            &&& ranks[i].1 == competition_rank(totals_of(entries), i)
        }
}

proof fn lemma_count_above_step(totals: Seq<i64>, k: int, t: i64)
    requires
        0 <= k < totals.len(),
    ensures
        count_above(totals.subrange(0, k + 1), t) == count_above(totals.subrange(0, k), t) + if totals[k]
            > t {
            1nat
        } else {
            0nat
        },
{
    assert(totals.subrange(0, k + 1).drop_last() =~= totals.subrange(0, k));
}

proof fn lemma_count_above_bound(totals: Seq<i64>, t: i64)
    ensures
        count_above(totals, t) <= totals.len(),
    decreases totals.len(),
{
    if totals.len() > 0 {
        lemma_count_above_bound(totals.drop_last(), t);
    }
}

proof fn lemma_count_above_strict(totals: Seq<i64>, t: i64, j: int)
    requires
        0 <= j < totals.len(),
        totals[j] <= t,
    ensures
        count_above(totals, t) < totals.len(),
    decreases totals.len(),
{
    if j == totals.len() - 1 {
        lemma_count_above_bound(totals.drop_last(), t);
    } else {
        lemma_count_above_strict(totals.drop_last(), t, j);
    }
}

/// Ranks named totals by competition ranking: the entry with the largest
/// total is first, equal totals share a rank, and the rank after a tie skips
/// the tied places. The result names the entries in their given order.
pub fn dense_rank_by_total(totals: &Vec<(String, i64)>) -> (ranks: Vec<(String, usize)>)
    ensures
        ranks_entries(ranks@, totals@),
{
    let ghost values = totals_of(totals@);
    let mut ranks: Vec<(String, usize)> = Vec::new();
    let mut i: usize = 0;
    while i < totals.len()
        invariant
            i <= totals.len(),
            values == totals_of(totals@),
            ranks@.len() == i,
            forall|p: int|
                0 <= p < i ==> {
                    &&& (#[trigger] ranks@[p]).0@ == totals@[p].0@
                    &&& ranks@[p].1 == competition_rank(values, p)
                },
        decreases totals.len() - i,
    {
        let t = totals[i].1;
        let mut above: usize = 0;
        let mut k: usize = 0;
        while k < totals.len()
            invariant
                k <= totals.len(),
                values == totals_of(totals@),
                i < totals.len(),
                t == values[i as int],
                above == count_above(values.subrange(0, k as int), t),
                above <= k,
            decreases totals.len() - k,
        {
            proof {
                lemma_count_above_step(values, k as int, t);
            }
            if totals[k].1 > t {
                above = above + 1;
            }
            k = k + 1;
        }
        proof {
            assert(values.subrange(0, totals@.len() as int) =~= values);
            lemma_count_above_strict(values, t, i as int);
        }
        ranks.push((totals[i].0.clone(), above + 1));
        i = i + 1;
    }
    ranks
}

/// Keeps the entries that have a score, in order, with the score unwrapped.
pub open spec fn scored_entries(scores: Seq<(String, Option<i64>)>) -> Seq<(String, i64)>
    decreases scores.len(),
{
    if scores.len() == 0 {
        Seq::empty()
    } else {
        let rest = scored_entries(scores.drop_last());
        match scores.last().1 {
            Some(score) => rest.push((scores.last().0, score)),
            None => rest,
        }
    }
}

/// Competition ranking by an optional score, descending: entries without a
/// score are left out and get no rank. Scores are integer keys that order the
/// entries as their scores do.
pub fn dense_rank_by_score(scores: &Vec<(String, Option<i64>)>) -> (ranks: Vec<(String, usize)>)
    ensures
        ranks_entries(ranks@, scored_entries(scores@)),
{
    let mut scored: Vec<(String, i64)> = Vec::new();
    let mut i: usize = 0;
    while i < scores.len()
        invariant
            i <= scores.len(),
            scored@ == scored_entries(scores@.subrange(0, i as int)),
        decreases scores.len() - i,
    {
        proof {
            assert(scores@.subrange(0, i + 1).drop_last() =~= scores@.subrange(0, i as int));
        }
        match scores[i].1 {
            Some(score) => {
                scored.push((scores[i].0.clone(), score));
            },
            None => {},
        }
        i = i + 1;
    }
    proof {
        assert(scores@.subrange(0, scores@.len() as int) =~= scores@);
    }
    dense_rank_by_total(&scored)
}

/// The trend shown for a rank: unknown unless the repository already existed
/// yesterday and both days have a rank; otherwise how today's rank compares
/// with yesterday's.
pub open spec fn spec_rank_trend(existed: bool, today: Option<usize>, yesterday: Option<usize>) -> RankTrend {
    match (today, yesterday) {
        (Some(t), Some(y)) if existed => spec_compare_rank(t as int, y as int),
        _ => RankTrend::Unknown,
    }
}

/// Decides the trend of a rank since yesterday.
pub fn rank_trend(existed: bool, today: Option<usize>, yesterday: Option<usize>) -> (trend: RankTrend)
    ensures
        trend == spec_rank_trend(existed, today, yesterday),
{
    match (today, yesterday) {
        (Some(t), Some(y)) => {
            if existed {
                compare_rank(t, y)
            } else {
                RankTrend::Unknown
            }
        },
        _ => RankTrend::Unknown,
    }
}

/// The rank listed for `name`: that of the first entry with the name.
pub open spec fn spec_rank_of(ranks: Seq<(String, usize)>, name: Seq<char>) -> Option<usize>
    decreases ranks.len(),
{
    if ranks.len() == 0 {
        None
    } else if ranks[0].0@ == name {
        Some(ranks[0].1)
    } else {
        spec_rank_of(ranks.drop_first(), name)
    }
}

/// Looks up the rank listed for a repository.
pub fn rank_of(ranks: &Vec<(String, usize)>, name: &str) -> (rank: Option<usize>)
    ensures
        rank == spec_rank_of(ranks@, name@),
{
    let mut i: usize = 0;
    proof {
        assert(ranks@.subrange(0, ranks@.len() as int) =~= ranks@);
    }
    while i < ranks.len()
        invariant
            i <= ranks.len(),
            spec_rank_of(ranks@, name@) == spec_rank_of(ranks@.subrange(i as int, ranks@.len() as int), name@),
        decreases ranks.len() - i,
    {
        let ghost rest = ranks@.subrange(i as int, ranks@.len() as int);
        proof {
            assert(rest.drop_first() =~= ranks@.subrange(i + 1, ranks@.len() as int));
            assert(rest[0] == ranks@[i as int]);
        }
        if str_equal(ranks[i].0.as_str(), name) {
            return Some(ranks[i].1);
        }
        i = i + 1;
    }
    None
}

/// The trend of a repository's rank since yesterday: unknown unless it
/// existed yesterday (by its creation date) and has a rank both today and in
/// yesterday's ranking.
pub fn trend_since_yesterday(
    name: &str,
    created_at: &str,
    yesterday: &str,
    today_rank: Option<usize>,
    yesterday_ranks: &Vec<(String, usize)>,
) -> (trend: RankTrend)
    ensures
        trend == spec_rank_trend(
            spec_existed_as_of(created_at@, yesterday@),
            today_rank,
            spec_rank_of(yesterday_ranks@, name@),
        ),
{
    let existed = existed_as_of(created_at, yesterday);
    rank_trend(existed, today_rank, rank_of(yesterday_ranks, name))
}

proof fn lemma_count_above_monotone(totals: Seq<i64>, high: i64, low: i64)
    requires
        low <= high,
    ensures
        count_above(totals, high) <= count_above(totals, low),
    decreases totals.len(),
{
    if totals.len() > 0 {
        lemma_count_above_monotone(totals.drop_last(), high, low);
    }
}

proof fn lemma_count_above_strictly_monotone(totals: Seq<i64>, k: int, low: i64)
    requires
        0 <= k < totals.len(),
        low < totals[k],
    ensures
        count_above(totals, totals[k]) < count_above(totals, low),
    decreases totals.len(),
{
    if k == totals.len() - 1 {
        lemma_count_above_monotone(totals.drop_last(), totals[k], low);
    } else {
        lemma_count_above_strictly_monotone(totals.drop_last(), k, low);
    }
}

/// Every rank lies between 1 and the number of ranked entries.
pub proof fn law_rank_within_bounds(totals: Seq<i64>, i: int)
    requires
        0 <= i < totals.len(),
    ensures
        1 <= competition_rank(totals, i) <= totals.len(),
{
    lemma_count_above_strict(totals, totals[i], i);
}

/// Entries with equal totals share a rank.
pub proof fn law_ties_share_rank(totals: Seq<i64>, i: int, j: int)
    requires
        0 <= i < totals.len(),
        0 <= j < totals.len(),
        totals[i] == totals[j],
    ensures
        competition_rank(totals, i) == competition_rank(totals, j),
{
}

/// An entry with a larger total is ranked strictly ahead.
pub proof fn law_larger_total_ranks_ahead(totals: Seq<i64>, i: int, j: int)
    requires
        0 <= i < totals.len(),
        0 <= j < totals.len(),
        totals[i] > totals[j],
    ensures
        competition_rank(totals, i) < competition_rank(totals, j),
{
    lemma_count_above_strictly_monotone(totals, i, totals[j]);
}

proof fn lemma_count_above_zero(totals: Seq<i64>, t: i64)
    ensures
        count_above(totals, t) == 0 <==> forall|k: int| 0 <= k < totals.len() ==> #[trigger] totals[k] <= t,
    decreases totals.len(),
{
    if totals.len() > 0 {
        let rest = totals.drop_last();
        lemma_count_above_zero(rest, t);
        if count_above(totals, t) == 0 {
            assert forall|k: int| 0 <= k < totals.len() implies #[trigger] totals[k] <= t by {
                if k < totals.len() - 1 {
                    assert(rest[k] == totals[k]);
                }
            }
        }
        if forall|k: int| 0 <= k < totals.len() ==> #[trigger] totals[k] <= t {
            assert forall|k: int| 0 <= k < rest.len() implies #[trigger] rest[k] <= t by {
                assert(rest[k] == totals[k]);
            }
            assert(totals[totals.len() - 1] <= t);
        }
    }
}

/// An entry is ranked first exactly when no entry has a larger total.
pub proof fn law_first_rank_is_the_maximum(totals: Seq<i64>, i: int)
    requires
        0 <= i < totals.len(),
    ensures
        competition_rank(totals, i) == 1 <==> forall|k: int| 0 <= k < totals.len() ==> #[trigger] totals[k]
            <= totals[i],
{
    lemma_count_above_zero(totals, totals[i]);
}

proof fn lemma_count_above_remove(s: Seq<i64>, j: int, t: i64)
    requires
        0 <= j < s.len(),
    ensures
        count_above(s, t) == count_above(s.remove(j), t) + if s[j] > t {
            1nat
        } else {
            0nat
        },
    decreases s.len(),
{
    if j == s.len() - 1 {
        assert(s.remove(j) =~= s.drop_last());
    } else {
        lemma_count_above_remove(s.drop_last(), j, t);
        assert(s.remove(j).drop_last() =~= s.drop_last().remove(j));
        assert(s.remove(j).last() == s.last());
    }
}

/// How many totals lie above a given total does not depend on the order in
/// which the entries are listed.
pub proof fn law_rank_ignores_entry_order(a: Seq<i64>, b: Seq<i64>, t: i64)
    requires
        a.to_multiset() == b.to_multiset(),
    ensures
        count_above(a, t) == count_above(b, t),
    decreases a.len(),
{
    broadcast use vstd::multiset::group_multiset_axioms;
    broadcast use vstd::seq_lib::group_to_multiset_ensures;

    if a.len() == 0 {
        assert(b.to_multiset().len() == 0);
        if b.len() > 0 {
            assert(b.to_multiset().count(b[0]) > 0);
        }
    } else {
        let x = a.last();
        assert(a.to_multiset().contains(x)) by {
            assert(a.contains(x)) by {
                assert(a[a.len() - 1] == x);
            }
        }
        assert(b.contains(x));
        let j = choose|j: int| 0 <= j < b.len() && b[j] == x;
        lemma_count_above_remove(b, j, t);
        assert(a.drop_last() =~= a.remove(a.len() - 1));
        assert(a.drop_last().to_multiset() == a.to_multiset().remove(x));
        assert(b.remove(j).to_multiset() == b.to_multiset().remove(x));
        law_rank_ignores_entry_order(a.drop_last(), b.remove(j), t);
    }
}

/// When no total changed since yesterday, only the order in which the
/// repositories were listed, every repository keeps its rank and its trend
/// is stable.
pub proof fn law_unchanged_totals_give_a_stable_trend(
    today: Seq<i64>,
    yesterday: Seq<i64>,
    i: int,
    j: int,
)
    requires
        today.to_multiset() == yesterday.to_multiset(),
        0 <= i < today.len(),
        0 <= j < yesterday.len(),
        today[i] == yesterday[j],
    ensures
        competition_rank(today, i) == competition_rank(yesterday, j),
        spec_compare_rank(competition_rank(today, i), competition_rank(yesterday, j))
            == RankTrend::Stable,
{
    law_rank_ignores_entry_order(today, yesterday, today[i]);
}

} // verus!

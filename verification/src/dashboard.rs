//! Dashboard queries: ordering repositories by a chosen column, paging the
//! ordered list, and the headline totals over the whole search scope.

use vstd::prelude::*;
use crate::stats::seq_sum;
use crate::text::{
    chars_of, compare_chars, lemma_compare_chars_antisymmetric, lemma_compare_chars_transitive,
    opt_view, str_compare, str_equal, string_of,
};

verus! {

/// The columns of a repository summary that the dashboard can sort by.
#[derive(Clone, Debug)]
pub struct SummaryKeys {
    pub name: String,
    pub stars: i64,
    pub forks: i64,
    pub total_views: i64,
    pub clones_1d: i64,
    pub clones_7d: i64,
    pub clones_30d: i64,
    pub total_clones: i64,
}

/// The column a dashboard sort uses.
#[derive(Clone, Copy, Debug, PartialEq, Eq, Structural)]
pub enum SortField {
    Name,
    Stars,
    Forks,
    TotalViews,
    Clones1d,
    Clones7d,
    Clones30d,
    TotalClones,
}

/// The sort column a query names; anything unrecognised, or nothing, sorts by
/// total clones.
pub open spec fn spec_sort_field(sort: Option<Seq<char>>) -> SortField {
    match sort {
        Some(s) => if s == "name"@ {
            SortField::Name
        } else if s == "stars"@ {
            SortField::Stars
        } else if s == "forks"@ {
            SortField::Forks
        } else if s == "total_views"@ {
            SortField::TotalViews
        } else if s == "clones_1d"@ {
            SortField::Clones1d
        } else if s == "clones_7d"@ {
            SortField::Clones7d
        } else if s == "clones_30d"@ {
            SortField::Clones30d
        } else {
            SortField::TotalClones
        },
        None => SortField::TotalClones,
    }
}

/// The column names that the dashboard accepts are all different.
proof fn lemma_column_names_differ()
    ensures
        "name"@ != "stars"@,
        "name"@ != "forks"@,
        "name"@ != "total_views"@,
        "name"@ != "clones_1d"@,
        "name"@ != "clones_7d"@,
        "name"@ != "clones_30d"@,
        "name"@ != "total_clones"@,
        "stars"@ != "forks"@,
        "stars"@ != "total_views"@,
        "stars"@ != "clones_1d"@,
        "stars"@ != "clones_7d"@,
        "stars"@ != "clones_30d"@,
        "stars"@ != "total_clones"@,
        "forks"@ != "total_views"@,
        "forks"@ != "clones_1d"@,
        "forks"@ != "clones_7d"@,
        "forks"@ != "clones_30d"@,
        "forks"@ != "total_clones"@,
        "total_views"@ != "clones_1d"@,
        "total_views"@ != "clones_7d"@,
        "total_views"@ != "clones_30d"@,
        "total_views"@ != "total_clones"@,
        "clones_1d"@ != "clones_7d"@,
        "clones_1d"@ != "clones_30d"@,
        "clones_1d"@ != "total_clones"@,
        "clones_7d"@ != "clones_30d"@,
        "clones_7d"@ != "total_clones"@,
        "clones_30d"@ != "total_clones"@,
{
    reveal_strlit("name");
    reveal_strlit("stars");
    reveal_strlit("forks");
    reveal_strlit("total_views");
    reveal_strlit("clones_1d");
    reveal_strlit("clones_7d");
    reveal_strlit("clones_30d");
    reveal_strlit("total_clones");
    assert("name"@.len() != "stars"@.len());
    assert("name"@.len() != "forks"@.len());
    assert("name"@.len() != "total_views"@.len());
    assert("name"@.len() != "clones_1d"@.len());
    assert("name"@.len() != "clones_7d"@.len());
    assert("name"@.len() != "clones_30d"@.len());
    assert("name"@.len() != "total_clones"@.len());
    assert("stars"@[0] != "forks"@[0]);
    assert("stars"@.len() != "total_views"@.len());
    assert("stars"@.len() != "clones_1d"@.len());
    assert("stars"@.len() != "clones_7d"@.len());
    assert("stars"@.len() != "clones_30d"@.len());
    assert("stars"@.len() != "total_clones"@.len());
    assert("forks"@.len() != "total_views"@.len());
    assert("forks"@.len() != "clones_1d"@.len());
    assert("forks"@.len() != "clones_7d"@.len());
    assert("forks"@.len() != "clones_30d"@.len());
    assert("forks"@.len() != "total_clones"@.len());
    assert("total_views"@.len() != "clones_1d"@.len());
    assert("total_views"@.len() != "clones_7d"@.len());
    assert("total_views"@.len() != "clones_30d"@.len());
    assert("total_views"@.len() != "total_clones"@.len());
    assert("clones_1d"@[7] != "clones_7d"@[7]);
    assert("clones_1d"@.len() != "clones_30d"@.len());
    assert("clones_1d"@.len() != "total_clones"@.len());
    assert("clones_7d"@.len() != "clones_30d"@.len());
    assert("clones_7d"@.len() != "total_clones"@.len());
    assert("clones_30d"@.len() != "total_clones"@.len());
}

/// Each column name that the dashboard accepts selects the column of that
/// name: for every summary, the value sorted on is that column's value.
pub proof fn law_column_names_select_their_column(s: SummaryKeys)
    ensures
        spec_sort_field(Some("name"@)) == SortField::Name,
        key_of(spec_sort_field(Some("stars"@)), s) == s.stars,
        key_of(spec_sort_field(Some("forks"@)), s) == s.forks,
        key_of(spec_sort_field(Some("total_views"@)), s) == s.total_views,
        key_of(spec_sort_field(Some("clones_1d"@)), s) == s.clones_1d,
        key_of(spec_sort_field(Some("clones_7d"@)), s) == s.clones_7d,
        key_of(spec_sort_field(Some("clones_30d"@)), s) == s.clones_30d,
        key_of(spec_sort_field(Some("total_clones"@)), s) == s.total_clones,
        key_of(spec_sort_field(None), s) == s.total_clones,
{
    reveal_strlit("name");
    reveal_strlit("stars");
    reveal_strlit("forks");
    reveal_strlit("total_views");
    reveal_strlit("clones_1d");
    reveal_strlit("clones_7d");
    reveal_strlit("clones_30d");
    reveal_strlit("total_clones");
    lemma_column_names_differ();
}

/// Reads the sort column of a query.
pub fn sort_field(sort: Option<&str>) -> (field: SortField)
    ensures
        field == spec_sort_field(opt_view(sort)),
        sort matches Some(s) ==> (s@ == "name"@ <==> field == SortField::Name),
        sort matches Some(s) ==> (s@ == "stars"@ <==> field == SortField::Stars),
        sort matches Some(s) ==> (s@ == "forks"@ <==> field == SortField::Forks),
        sort matches Some(s) ==> (s@ == "total_views"@ <==> field == SortField::TotalViews),
        sort matches Some(s) ==> (s@ == "clones_1d"@ <==> field == SortField::Clones1d),
        sort matches Some(s) ==> (s@ == "clones_7d"@ <==> field == SortField::Clones7d),
        sort matches Some(s) ==> (s@ == "clones_30d"@ <==> field == SortField::Clones30d),
{
    proof {
        reveal_strlit("name");
        reveal_strlit("stars");
        reveal_strlit("forks");
        reveal_strlit("total_views");
        reveal_strlit("clones_1d");
        reveal_strlit("clones_7d");
        reveal_strlit("clones_30d");
        lemma_column_names_differ();
    }
    match sort {
        None => SortField::TotalClones,
        Some(s) => {
            if str_equal(s, "name") {
                SortField::Name
            } else if str_equal(s, "stars") {
                SortField::Stars
            } else if str_equal(s, "forks") {
                SortField::Forks
            } else if str_equal(s, "total_views") {
                SortField::TotalViews
            } else if str_equal(s, "clones_1d") {
                SortField::Clones1d
            } else if str_equal(s, "clones_7d") {
                SortField::Clones7d
            } else if str_equal(s, "clones_30d") {
                SortField::Clones30d
            } else {
                SortField::TotalClones
            }
        },
    }
}

/// A query sorts descending unless its direction is exactly `asc`.
pub open spec fn spec_descending(dir: Option<Seq<char>>) -> bool {
    dir != Some("asc"@)
}

/// Reads the sort direction of a query.
pub fn descending(dir: Option<&str>) -> (desc: bool)
    ensures
        desc == spec_descending(opt_view(dir)),
{
    match dir {
        None => true,
        Some(d) => !str_equal(d, "asc"),
    }
}

/// The value of the sort column (none for the name column, which compares
/// by name alone).
pub open spec fn key_of(field: SortField, s: SummaryKeys) -> int {
    match field {
        SortField::Name => 0,
        SortField::Stars => s.stars as int,
        SortField::Forks => s.forks as int,
        SortField::TotalViews => s.total_views as int,
        SortField::Clones1d => s.clones_1d as int,
        SortField::Clones7d => s.clones_7d as int,
        SortField::Clones30d => s.clones_30d as int,
        SortField::TotalClones => s.total_clones as int,
    }
}

/// Ascending three-way comparison by the sort column, then by name.
pub open spec fn spec_compare(field: SortField, a: SummaryKeys, b: SummaryKeys) -> int {
    let ka = key_of(field, a);
    let kb = key_of(field, b);
    if ka < kb {
        -1
    } else if ka > kb {
        1
    } else {
        compare_chars(a.name@, b.name@)
    }
}

/// `a` may come before `b`: ascending, or descending when `desc`.
pub open spec fn precedes(field: SortField, desc: bool, a: SummaryKeys, b: SummaryKeys) -> bool {
    if desc {
        spec_compare(field, a, b) >= 0
    } else {
        spec_compare(field, a, b) <= 0
    }
}

/// `order` lists each index below `n` exactly once.
pub open spec fn is_index_permutation(order: Seq<usize>, n: nat) -> bool {
    &&& order.len() == n
    &&& forall|i: int| 0 <= i < n ==> #[trigger] order[i] < n
    &&& forall|i: int, j: int| 0 <= i < j < n ==> order[i] != order[j]
}

/// `order` is an ordering of `items` in which every item may come before
/// every later one.
pub open spec fn orders(order: Seq<usize>, items: Seq<SummaryKeys>, field: SortField, desc: bool) -> bool {
    &&& is_index_permutation(order, items.len())
    &&& forall|i: int, j: int|
        0 <= i < j < order.len() ==> precedes(field, desc, items[order[i] as int], items[order[j] as int])
}

/// Items that compare equal (same column value and same name) keep their
/// given relative order in `order`.
pub open spec fn keeps_ties(order: Seq<usize>, items: Seq<SummaryKeys>, field: SortField) -> bool {
    forall|i: int, j: int|
        0 <= i < j < order.len() && spec_compare(field, items[order[i] as int], items[order[j] as int])
            == 0 ==> order[i] < order[j]
}

proof fn lemma_compare_zero(field: SortField, a: SummaryKeys, b: SummaryKeys)
    ensures
        spec_compare(field, a, b) == 0 ==> key_of(field, a) == key_of(field, b) && a.name@ == b.name@,
{
    crate::text::lemma_compare_chars_zero(a.name@, b.name@);
}

/// Where `a` comes strictly before `b` and `b` may come before `c`, `a` and
/// `c` do not compare equal.
proof fn lemma_strictly_before(
    field: SortField,
    desc: bool,
    a: SummaryKeys,
    b: SummaryKeys,
    c: SummaryKeys,
)
    requires
        !precedes(field, desc, b, a),
        precedes(field, desc, b, c),
    ensures
        spec_compare(field, a, c) != 0,
{
    lemma_compare_antisymmetric(field, a, b);
    lemma_compare_zero(field, a, c);
    if spec_compare(field, a, c) == 0 {
        lemma_compare_chars_antisymmetric(a.name@, b.name@);
        lemma_compare_chars_antisymmetric(b.name@, c.name@);
        assert(a.name@ == c.name@);
    }
}

proof fn lemma_compare_antisymmetric(field: SortField, a: SummaryKeys, b: SummaryKeys)
    ensures
        spec_compare(field, a, b) == -spec_compare(field, b, a),
{
    lemma_compare_chars_antisymmetric(a.name@, b.name@);
}

proof fn lemma_precedes_transitive(
    field: SortField,
    desc: bool,
    a: SummaryKeys,
    b: SummaryKeys,
    c: SummaryKeys,
)
    requires
        precedes(field, desc, a, b),
        precedes(field, desc, b, c),
    ensures
        precedes(field, desc, a, c),
{
    lemma_compare_antisymmetric(field, a, b);
    lemma_compare_antisymmetric(field, b, c);
    lemma_compare_antisymmetric(field, a, c);
    if desc {
        if key_of(field, a) == key_of(field, b) && key_of(field, b) == key_of(field, c) {
            lemma_compare_chars_transitive(c.name@, b.name@, a.name@);
        }
    } else {
        if key_of(field, a) == key_of(field, b) && key_of(field, b) == key_of(field, c) {
            lemma_compare_chars_transitive(a.name@, b.name@, c.name@);
        }
    }
}

/// Three-way comparison of two summaries by the sort column, then by name.
pub fn compare_keys(field: SortField, a: &SummaryKeys, b: &SummaryKeys) -> (order: i8)
    ensures
        order as int == spec_compare(field, *a, *b),
{
    let (ka, kb): (i64, i64) = match field {
        SortField::Name => (0, 0),
        SortField::Stars => (a.stars, b.stars),
        SortField::Forks => (a.forks, b.forks),
        SortField::TotalViews => (a.total_views, b.total_views),
        SortField::Clones1d => (a.clones_1d, b.clones_1d),
        SortField::Clones7d => (a.clones_7d, b.clones_7d),
        SortField::Clones30d => (a.clones_30d, b.clones_30d),
        SortField::TotalClones => (a.total_clones, b.total_clones),
    };
    if ka < kb {
        -1
    } else if ka > kb {
        1
    } else {
        str_compare(a.name.as_str(), b.name.as_str())
    }
}

/// Whether `a` may come before `b` in the requested direction.
pub fn may_precede(field: SortField, desc: bool, a: &SummaryKeys, b: &SummaryKeys) -> (ok: bool)
    ensures
        ok == precedes(field, desc, *a, *b),
{
    let c = compare_keys(field, a, b);
    if desc {
        c >= 0
    } else {
        c <= 0
    }
}

/// The order in which the dashboard lists repositories: by the requested
/// column, descending unless `dir` is `asc`, ties broken by name in the same
/// direction; items that compare equal keep their given order.
pub fn sort_order(items: &Vec<SummaryKeys>, sort: Option<&str>, dir: Option<&str>) -> (order: Vec<usize>)
    ensures
        orders(order@, items@, spec_sort_field(opt_view(sort)), spec_descending(opt_view(dir))),
        keeps_ties(order@, items@, spec_sort_field(opt_view(sort))),
{
    let field = sort_field(sort);
    let desc = descending(dir);
    let mut order: Vec<usize> = Vec::new();
    let mut i: usize = 0;
    while i < items.len()
        invariant
            i <= items.len(),
            order@.len() == i,
            forall|p: int| 0 <= p < i ==> #[trigger] order@[p] < i,
            forall|p: int, q: int| 0 <= p < q < i ==> order@[p] != order@[q],
            forall|p: int, q: int|
                0 <= p < q < order@.len() ==> precedes(
                    field,
                    desc,
                    items@[order@[p] as int],
                    items@[order@[q] as int],
                ),
            keeps_ties(order@, items@, field),
        decreases items.len() - i,
    {
        let mut k: usize = 0;
        while k < order.len() && may_precede(field, desc, &items[order[k]], &items[i])
            invariant
                k <= order@.len(),
                order@.len() == i,
                i < items.len(),
                forall|p: int| 0 <= p < i ==> #[trigger] order@[p] < i,
                forall|p: int| 0 <= p < k ==> precedes(field, desc, items@[order@[p] as int], items@[i as int]),
            decreases order@.len() - k,
        {
            k = k + 1;
        }
        let ghost before = order@;
        let ghost stopped = k < before.len();
        assert(stopped ==> !precedes(field, desc, items@[before[k as int] as int], items@[i as int]));
        order.insert(k, i);
        proof {
            assert(order@ == before.insert(k as int, i));
            let x = items@[i as int];
            if k < before.len() {
                let y = items@[before[k as int] as int];
                lemma_compare_antisymmetric(field, y, x);
                assert(precedes(field, desc, x, y));
            }
            assert forall|p: int, q: int| 0 <= p < q < order@.len() implies precedes(
                field,
                desc,
                items@[order@[p] as int],
                items@[order@[q] as int],
            ) by {
                if q < k {
                } else if q == k {
                } else if p > k {
                    assert(order@[p] == before[p - 1]);
                    assert(order@[q] == before[q - 1]);
                } else if p == k {
                    assert(order@[q] == before[q - 1]);
                    let y = items@[before[k as int] as int];
                    if q - 1 > k {
                        lemma_precedes_transitive(field, desc, items@[i as int], y, items@[before[q - 1] as int]);
                    }
                } else {
                    assert(order@[q] == before[q - 1]);
                }
            }
            assert forall|p: int, q: int|
                0 <= p < q < order@.len() && spec_compare(
                    field,
                    items@[order@[p] as int],
                    items@[order@[q] as int],
                ) == 0 implies order@[p] < order@[q] by {
                if q < k {
                    assert(order@[p] == before[p]);
                    assert(order@[q] == before[q]);
                } else if q == k {
                    assert(order@[p] == before[p]);
                } else if p > k {
                    assert(order@[p] == before[p - 1]);
                    assert(order@[q] == before[q - 1]);
                } else if p == k {
                    assert(order@[q] == before[q - 1]);
                    let y = items@[before[k as int] as int];
                    let z = items@[before[q - 1] as int];
                    if q - 1 > k {
                        assert(precedes(field, desc, y, z));
                    } else {
                        lemma_compare_antisymmetric(field, y, y);
                    }
                    lemma_strictly_before(field, desc, items@[i as int], y, z);
                } else {
                    assert(order@[p] == before[p]);
                    assert(order@[q] == before[q - 1]);
                }
            }
            assert forall|p: int| 0 <= p < i + 1 implies #[trigger] order@[p] < i + 1 by {
                if p < k {
                    assert(order@[p] == before[p]);
                } else if p > k {
                    assert(order@[p] == before[p - 1]);
                }
            }
            assert forall|p: int, q: int| 0 <= p < q < i + 1 implies order@[p] != order@[q] by {
                if p < k && q < k {
                    assert(order@[p] == before[p]);
                    assert(order@[q] == before[q]);
                } else if p < k && q > k {
                    assert(order@[p] == before[p]);
                    assert(order@[q] == before[q - 1]);
                } else if p > k {
                    assert(order@[p] == before[p - 1]);
                    assert(order@[q] == before[q - 1]);
                } else if p == k {
                    assert(order@[q] == before[q - 1]);
                    assert(before[q - 1] < i);
                } else {
                    assert(order@[p] == before[p]);
                    assert(before[p] < i);
                }
            }
        }
        i = i + 1;
    }
    order
}

/// An ordering of `n` items names every item somewhere.
proof fn lemma_index_permutation_covers(order: Seq<usize>, n: nat, v: int)
    requires
        is_index_permutation(order, n),
        0 <= v < n,
    ensures
        exists|p: int| 0 <= p < n && order[p] == v,
{
    broadcast use vstd::seq_lib::group_seq_properties;
    broadcast use vstd::set::group_set_axioms;

    let ints = order.map_values(|x: usize| x as int);
    assert(ints.no_duplicates()) by {
        assert forall|i: int, j: int| 0 <= i < ints.len() && 0 <= j < ints.len() && i != j implies ints[i]
            != ints[j] by {
            if i < j {
                assert(order[i] != order[j]);
            } else {
                assert(order[j] != order[i]);
            }
        }
    }
    ints.unique_seq_to_set();
    vstd::set_lib::lemma_int_range(0, n as int);
    let range = vstd::set_lib::set_int_range(0, n as int);
    assert(ints.to_set().subset_of(range)) by {
        assert forall|x: int| ints.to_set().contains(x) implies range.contains(x) by {
            assert(ints.contains(x));
            let i = choose|i: int| 0 <= i < ints.len() && ints[i] == x;
            assert(order[i] < n);
        }
    }
    vstd::set_lib::lemma_subset_equality(ints.to_set(), range);
    assert(range.contains(v));
    assert(ints.to_set().contains(v));
    assert(ints.contains(v));
    let p = choose|p: int| 0 <= p < ints.len() && ints[p] == v;
    assert(order[p] == v);
}

/// Where two listings agree before position `k`, and both follow the sort
/// and keep ties in order, they also agree at `k`.
proof fn lemma_listings_agree_at(
    o1: Seq<usize>,
    o2: Seq<usize>,
    items: Seq<SummaryKeys>,
    field: SortField,
    desc: bool,
    k: int,
)
    requires
        orders(o1, items, field, desc),
        keeps_ties(o1, items, field),
        orders(o2, items, field, desc),
        keeps_ties(o2, items, field),
        0 <= k < o1.len(),
        forall|i: int| 0 <= i < k ==> o1[i] == o2[i],
    ensures
        o1[k] == o2[k],
{
    let n = items.len();
    let a = o1[k];
    let b = o2[k];
    if a != b {
        lemma_index_permutation_covers(o1, n, b as int);
        let p = choose|p: int| 0 <= p < n && o1[p] == b;
        lemma_index_permutation_covers(o2, n, a as int);
        let q = choose|q: int| 0 <= q < n && o2[q] == a;
        if p < k {
            assert(o2[p] == b);
            assert(false);
        }
        if q < k {
            assert(o1[q] == a);
            assert(false);
        }
        assert(k < p && k < q);
        let x = items[a as int];
        let y = items[b as int];
        assert(precedes(field, desc, x, y));
        assert(precedes(field, desc, y, x));
        lemma_compare_antisymmetric(field, x, y);
        assert(spec_compare(field, x, y) == 0);
        assert(spec_compare(field, y, x) == 0);
        assert(o1[k] < o1[p]);
        assert(o2[k] < o2[q]);
    }
}

proof fn lemma_listings_agree_below(
    o1: Seq<usize>,
    o2: Seq<usize>,
    items: Seq<SummaryKeys>,
    field: SortField,
    desc: bool,
    k: int,
)
    requires
        orders(o1, items, field, desc),
        keeps_ties(o1, items, field),
        orders(o2, items, field, desc),
        keeps_ties(o2, items, field),
        0 <= k <= o1.len(),
    ensures
        forall|i: int| 0 <= i < k ==> o1[i] == o2[i],
    decreases k,
{
    if k > 0 {
        lemma_listings_agree_below(o1, o2, items, field, desc, k - 1);
        lemma_listings_agree_at(o1, o2, items, field, desc, k - 1);
    }
}

/// The listing is fully determined by the items and the query: two
/// orderings that both follow the sort and keep ties in their given order
/// are the same.
pub proof fn law_listing_is_determined(
    o1: Seq<usize>,
    o2: Seq<usize>,
    items: Seq<SummaryKeys>,
    field: SortField,
    desc: bool,
)
    requires
        orders(o1, items, field, desc),
        keeps_ties(o1, items, field),
        orders(o2, items, field, desc),
        keeps_ties(o2, items, field),
    ensures
        o1 == o2,
{
    lemma_listings_agree_below(o1, o2, items, field, desc, o1.len() as int);
    assert(o1 =~= o2);
}

/// In the listing, the sort column never increases from one repository to
/// the next when sorting descending, and never decreases when ascending.
pub proof fn law_listing_follows_the_column(
    order: Seq<usize>,
    items: Seq<SummaryKeys>,
    field: SortField,
    desc: bool,
)
    requires
        orders(order, items, field, desc),
    ensures
        forall|i: int, j: int|
            0 <= i < j < order.len() ==> if desc {
                key_of(field, items[order[i] as int]) >= key_of(field, items[order[j] as int])
            } else {
                key_of(field, items[order[i] as int]) <= key_of(field, items[order[j] as int])
            },
{
    assert forall|i: int, j: int| 0 <= i < j < order.len() implies if desc {
        key_of(field, items[order[i] as int]) >= key_of(field, items[order[j] as int])
    } else {
        key_of(field, items[order[i] as int]) <= key_of(field, items[order[j] as int])
    } by {
        assert(precedes(field, desc, items[order[i] as int], items[order[j] as int]));
    }
}

/// The slice of the ordered list that a page shows, as `start..end`.
#[derive(Clone, Copy, Debug, PartialEq, Eq, Structural)]
pub struct PageBounds {
    pub start: usize,
    pub end: usize,
}

/// The requested page, at least 1 (default 1).
pub open spec fn spec_page(page: Option<usize>) -> int {
    match page {
        Some(p) => if p < 1 {
            1
        } else {
            p as int
        },
        None => 1,
    }
}

/// The requested page size, clamped to 1..=100 (default 25).
pub open spec fn spec_per_page(per_page: Option<usize>) -> int {
    match per_page {
        Some(n) => if n < 1 {
            1
        } else if n > 100 {
            100
        } else {
            n as int
        },
        None => 25,
    }
}

/// The page of `total` ordered items: it starts `(page - 1) * per_page`
/// items in, but not past the end, and holds up to `per_page` items.
/// `None` where `(page - 1) * per_page` does not fit in a `usize`.
pub open spec fn spec_page_bounds(total: int, page: Option<usize>, per_page: Option<usize>) -> Option<
    (int, int),
> {
    let offset = (spec_page(page) - 1) * spec_per_page(per_page);
    if offset > usize::MAX {
        None
    } else {
        let start = if offset < total {
            offset
        } else {
            total
        };
        let end = if start + spec_per_page(per_page) < total {
            start + spec_per_page(per_page)
        } else {
            total
        };
        Some((start, end))
    }
}

/// Computes which of `total` ordered items the requested page shows.
pub fn page_bounds(total: usize, page: Option<usize>, per_page: Option<usize>) -> (bounds: Option<PageBounds>)
    ensures
        match bounds {
            Some(b) => spec_page_bounds(total as int, page, per_page) == Some(
                (b.start as int, b.end as int),
            ),
            None => spec_page_bounds(total as int, page, per_page) is None,
        },
{
    let page_number: usize = match page {
        Some(p) => if p < 1 {
            1
        } else {
            p
        },
        None => 1,
    };
    let size: usize = match per_page {
        Some(n) => if n < 1 {
            1
        } else if n > 100 {
            100
        } else {
            n
        },
        None => 25,
    };
    proof {
        assert((page_number as int - 1) * (size as int) <= 0xffff_ffff_ffff_ffff * 100)
            by (nonlinear_arith)
            requires
                0 <= page_number - 1 <= 0xffff_ffff_ffff_ffff,
                size <= 100,
        ;
    }
    let offset: u128 = (page_number as u128 - 1) * size as u128;
    if offset > usize::MAX as u128 {
        return None;
    }
    let offset = offset as usize;
    let start = if offset < total {
        offset
    } else {
        total
    };
    let end = if size < total - start {
        start + size
    } else {
        total
    };
    Some(PageBounds { start, end })
}

/// The positions, in listing order, of the items that a page shows.
pub fn page_of(order: &Vec<usize>, bounds: PageBounds) -> (shown: Vec<usize>)
    requires
        bounds.start <= bounds.end <= order@.len(),
    ensures
        shown@ == order@.subrange(bounds.start as int, bounds.end as int),
{
    let mut shown: Vec<usize> = Vec::new();
    let mut i: usize = bounds.start;
    while i < bounds.end
        invariant
            bounds.start <= i <= bounds.end <= order@.len(),
            shown@ == order@.subrange(bounds.start as int, i as int),
        decreases bounds.end - i,
    {
        shown.push(order[i]);
        i = i + 1;
        proof {
            assert(shown@ =~= order@.subrange(bounds.start as int, i as int));
        }
    }
    shown
}

/// Consecutive pages follow each other without gap or overlap: a page ends
/// where the next one starts, and it holds at most the page size.
pub proof fn law_pages_are_consecutive(total: int, page: usize, per_page: Option<usize>)
    requires
        total >= 0,
        1 <= page < usize::MAX,
        spec_page_bounds(total, Some((page + 1) as usize), per_page) is Some,
    ensures
        spec_page_bounds(total, Some(page), per_page) is Some,
        spec_page_bounds(total, Some(page), per_page).unwrap().1 == spec_page_bounds(
            total,
            Some((page + 1) as usize),
            per_page,
        ).unwrap().0,
        0 <= spec_page_bounds(total, Some(page), per_page).unwrap().1 - spec_page_bounds(
            total,
            Some(page),
            per_page,
        ).unwrap().0 <= spec_per_page(per_page),
{
    let n = spec_per_page(per_page);
    assert(page * n == (page - 1) * n + n) by (nonlinear_arith);
    assert((page - 1) * n >= 0) by (nonlinear_arith)
        requires
            page >= 1,
            n >= 1,
    ;
    assert((page - 1) * n <= page * n) by (nonlinear_arith)
        requires
            page >= 1,
            n >= 1,
    ;
}

/// Every running total of `values` fits in an `i64`.
pub open spec fn running_sums_fit(values: Seq<i64>) -> bool {
    forall|k: int| 0 <= k <= values.len() ==> i64::MIN <= #[trigger] seq_sum(values.subrange(0, k)) <= i64::MAX
}

/// The sum of a column, `None` where a running total leaves the `i64` range.
pub fn column_sum(values: &Vec<i64>) -> (sum: Option<i64>)
    ensures
        sum is Some <==> running_sums_fit(values@),
        sum matches Some(total) ==> total == seq_sum(values@),
{
    let mut total: i64 = 0;
    let mut i: usize = 0;
    proof {
        assert(values@.subrange(0, 0) =~= Seq::<i64>::empty());
    }
    while i < values.len()
        invariant
            i <= values.len(),
            total == seq_sum(values@.subrange(0, i as int)),
            forall|k: int| 0 <= k <= i ==> i64::MIN <= #[trigger] seq_sum(values@.subrange(0, k)) <= i64::MAX,
        decreases values.len() - i,
    {
        proof {
            assert(values@.subrange(0, i + 1).drop_last() =~= values@.subrange(0, i as int));
        }
        match total.checked_add(values[i]) {
            Some(next) => {
                total = next;
            },
            None => {
                proof {
                    assert(!(i64::MIN <= seq_sum(values@.subrange(0, i + 1)) <= i64::MAX));
                }
                return None;
            },
        }
        i = i + 1;
    }
    proof {
        assert(values@.subrange(0, values@.len() as int) =~= values@);
    }
    Some(total)
}

/// The headline totals of a dashboard over every repository in scope.
#[derive(Clone, Copy, Debug, PartialEq, Eq, Structural)]
pub struct DashboardTotals {
    pub total_stars: i64,
    pub total_forks: i64,
    pub total_views: i64,
    pub total_clones: i64,
}

/// One column of the summaries.
pub open spec fn column(items: Seq<SummaryKeys>, field: SortField) -> Seq<i64> {
    items.map_values(|s: SummaryKeys| key_of(field, s) as i64)
}

fn collect_column(items: &Vec<SummaryKeys>, field: SortField) -> (values: Vec<i64>)
    requires
        field != SortField::Name,
    ensures
        values@ == column(items@, field),
{
    let mut values: Vec<i64> = Vec::new();
    let mut i: usize = 0;
    while i < items.len()
        invariant
            field != SortField::Name,
            i <= items.len(),
            values@ == column(items@.subrange(0, i as int), field),
        decreases items.len() - i,
    {
        let item = &items[i];
        let v = match field {
            SortField::Stars => item.stars,
            SortField::Forks => item.forks,
            SortField::TotalViews => item.total_views,
            SortField::Clones1d => item.clones_1d,
            SortField::Clones7d => item.clones_7d,
            SortField::Clones30d => item.clones_30d,
            _ => item.total_clones,
        };
        values.push(v);
        i = i + 1;
        proof {
            assert(values@ =~= column(items@.subrange(0, i as int), field));
        }
    }
    proof {
        assert(items@.subrange(0, items@.len() as int) =~= items@);
    }
    values
}

/// The dashboard totals of stars, forks, views and clones; `None` where one
/// of the running sums leaves the `i64` range.
pub fn dashboard_totals(items: &Vec<SummaryKeys>) -> (totals: Option<DashboardTotals>)
    ensures
        totals is Some <==> {
            &&& running_sums_fit(column(items@, SortField::Stars))
            &&& running_sums_fit(column(items@, SortField::Forks))
            &&& running_sums_fit(column(items@, SortField::TotalViews))
            &&& running_sums_fit(column(items@, SortField::TotalClones))
        },
        totals matches Some(t) ==> {
            &&& t.total_stars == seq_sum(column(items@, SortField::Stars))
            &&& t.total_forks == seq_sum(column(items@, SortField::Forks))
            &&& t.total_views == seq_sum(column(items@, SortField::TotalViews))
            &&& t.total_clones == seq_sum(column(items@, SortField::TotalClones))
        },
{
    let stars = column_sum(&collect_column(items, SortField::Stars));
    let forks = column_sum(&collect_column(items, SortField::Forks));
    let views = column_sum(&collect_column(items, SortField::TotalViews));
    let clones = column_sum(&collect_column(items, SortField::TotalClones));
    match (stars, forks, views, clones) {
        (Some(total_stars), Some(total_forks), Some(total_views), Some(total_clones)) => Some(
            DashboardTotals { total_stars, total_forks, total_views, total_clones },
        ),
        _ => None,
    }
}

/// The full name `owner/repository` of a repository.
pub fn full_name(owner: &str, repository: &str) -> (name: String)
    ensures
        name@ == owner@ + seq!['/'] + repository@,
{
    let mut chars = chars_of(owner);
    chars.push('/');
    let mut rest = chars_of(repository);
    chars.append(&mut rest);
    string_of(chars.as_slice())
}

/// The position of the first summary with the given name.
pub fn find_by_name(items: &Vec<SummaryKeys>, name: &str) -> (found: Option<usize>)
    ensures
        found matches Some(i) ==> i < items@.len() && items@[i as int].name@ == name@ && forall|j: int|
            0 <= j < i ==> (#[trigger] items@[j]).name@ != name@,
        found is None ==> forall|j: int| 0 <= j < items@.len() ==> (#[trigger] items@[j]).name@ != name@,
{
    let mut i: usize = 0;
    while i < items.len()
        invariant
            i <= items.len(),
            forall|j: int| 0 <= j < i ==> (#[trigger] items@[j]).name@ != name@,
        decreases items.len() - i,
    {
        if str_equal(items[i].name.as_str(), name) {
            return Some(i);
        }
        i = i + 1;
    }
    None
}

/// The failure that ends an export stream early, with its message.
#[derive(Clone, Debug)]
pub struct StreamError {
    pub message: String,
}

/// The stream error reported for a failure with the given message.
pub fn to_stream_error(message: &str) -> (error: StreamError)
    ensures
        error.message@ == message@,
{
    StreamError { message: message.to_owned() }
}

} // verus!

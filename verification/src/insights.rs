//! Interpretations of a repository's stored traffic: the search pattern that
//! scopes a listing, star and fork growth over a window, diagnoses of unusual
//! clone traffic, and the demonstration data set.

use vstd::prelude::*;
use crate::dates::{MAX_DAY, MIN_DAY, created_recently, day_text, spec_created_recently, spec_format_day};
use crate::model::ReferrerPoint;
use crate::text::{
    ascii_lower_chars, ascii_lower_seq, chars_equal, chars_of, concat_str, decimal_string,
    decimal_text, ends_with, ends_with_chars, string_of, string_views, trim, trim_chars,
};

verus! {

/// The SQL `LIKE` pattern that matches names containing the trimmed search.
pub fn search_pattern(search: &str) -> (pattern: String)
    ensures
        pattern@ == seq!['%'] + trim(search@) + seq!['%'],
{
    let chars = chars_of(search);
    let mut trimmed = trim_chars(chars.as_slice());
    let mut out: Vec<char> = Vec::new();
    out.push('%');
    out.append(&mut trimmed);
    out.push('%');
    string_of(out.as_slice())
}

/// Growth of a running total over a window: unknown without the total at the
/// window's start, unknown without a total at its end, and never negative.
pub open spec fn spec_history_delta(baseline: Option<i64>, latest: Option<i64>) -> Option<int> {
    match (baseline, latest) {
        (Some(b), Some(l)) => Some(if l - b > 0 {
            l - b
        } else {
            0
        }),
        _ => None,
    }
}

/// Computes the growth of a star or fork total since the window's start.
pub fn history_delta(baseline: Option<i64>, latest: Option<i64>) -> (delta: Option<i64>)
    requires
        (baseline, latest) matches (Some(b), Some(l)) ==> i64::MIN <= l - b <= i64::MAX,
    ensures
        match delta {
            Some(d) => spec_history_delta(baseline, latest) == Some(d as int),
            None => spec_history_delta(baseline, latest) is None,
        },
{
    match (baseline, latest) {
        (Some(b), Some(l)) => {
            let d = l - b;
            Some(
                if d > 0 {
                    d
                } else {
                    0
                },
            )
        },
        _ => None,
    }
}

/// A referrer outside GitHub: neither `github.com` nor one of its
/// subdomains, in any ASCII letter case.
pub open spec fn spec_external_referrer(referrer: Seq<char>) -> bool {
    let lower = ascii_lower_seq(referrer);
    lower != "github.com"@ && !ends_with(lower, ".github.com"@)
}

/// Neither `github.com` itself nor any of its subdomains, whatever comes
/// before the domain, counts as an external referrer.
pub proof fn law_github_referrers_are_not_external(host: Seq<char>)
    ensures
        !spec_external_referrer("github.com"@),
        !spec_external_referrer(host + ".github.com"@),
{
    reveal_strlit("github.com");
    reveal_strlit(".github.com");
    let site = "github.com"@;
    let sub = ".github.com"@;
    assert(ascii_lower_seq(site) =~= site);
    assert(ascii_lower_seq(sub) =~= sub);
    let lower = ascii_lower_seq(host + sub);
    assert(lower =~= ascii_lower_seq(host) + sub);
    assert(lower.subrange(lower.len() - sub.len(), lower.len() as int) =~= sub);
}

/// Decides whether a referrer lies outside GitHub.
pub fn is_external_referrer(referrer: &str) -> (external: bool)
    ensures
        external == spec_external_referrer(referrer@),
{
    let chars = chars_of(referrer);
    let lower = ascii_lower_chars(chars.as_slice());
    let site = chars_of("github.com");
    let subdomain = chars_of(".github.com");
    !chars_equal(lower.as_slice(), site.as_slice()) && !ends_with_chars(lower.as_slice(), subdomain.as_slice())
}

/// The unique visitors that a referrer snapshot counts from outside GitHub.
pub open spec fn external_uniques(rows: Seq<ReferrerPoint>) -> int
    decreases rows.len(),
{
    if rows.len() == 0 {
        0
    } else {
        external_uniques(rows.drop_last()) + if spec_external_referrer(rows.last().referrer@) {
            rows.last().uniques as int
        } else {
            0
        }
    }
}

/// The external total of two snapshots' rows taken together is the sum of
/// their external totals.
pub proof fn law_external_total_adds_up(a: Seq<ReferrerPoint>, b: Seq<ReferrerPoint>)
    ensures
        external_uniques(a + b) == external_uniques(a) + external_uniques(b),
    decreases b.len(),
{
    if b.len() == 0 {
        assert(a + b =~= a);
    } else {
        assert((a + b).drop_last() =~= a + b.drop_last());
        assert((a + b).last() == b.last());
        law_external_total_adds_up(a, b.drop_last());
    }
}

/// One referrer row adds its unique visitors when it lies outside GitHub,
/// and nothing when it is GitHub itself.
pub proof fn law_one_referrer_adds_its_uniques(r: ReferrerPoint)
    ensures
        spec_external_referrer(r.referrer@) ==> external_uniques(seq![r]) == r.uniques,
        !spec_external_referrer(r.referrer@) ==> external_uniques(seq![r]) == 0,
{
    let one = seq![r];
    assert(one.len() == 1);
    assert(one.last() == r);
    assert(one.drop_last() =~= Seq::<ReferrerPoint>::empty());
    assert(external_uniques(one.drop_last()) == 0);
}

/// The external total counts unique visitors only: rows that differ only in
/// their total counts give the same result.
pub proof fn law_external_total_ignores_counts(a: Seq<ReferrerPoint>, b: Seq<ReferrerPoint>)
    requires
        a.len() == b.len(),
        forall|i: int|
            0 <= i < a.len() ==> (#[trigger] a[i]).referrer@ == b[i].referrer@ && a[i].uniques
                == b[i].uniques,
    ensures
        external_uniques(a) == external_uniques(b),
    decreases a.len(),
{
    if a.len() > 0 {
        let (x, y) = (a.drop_last(), b.drop_last());
        assert forall|i: int| 0 <= i < x.len() implies (#[trigger] x[i]).referrer@ == y[i].referrer@
            && x[i].uniques == y[i].uniques by {
            assert(x[i] == a[i]);
            assert(y[i] == b[i]);
        }
        law_external_total_ignores_counts(x, y);
        assert(a[a.len() - 1] == a.last());
    }
}

/// Every running total of the external unique visitors fits in an `i64`.
pub open spec fn external_sums_fit(rows: Seq<ReferrerPoint>) -> bool {
    forall|k: int| 0 <= k <= rows.len() ==> i64::MIN <= #[trigger] external_uniques(rows.subrange(0, k)) <= i64::MAX
}

/// Sums the unique visitors of a snapshot's external referrers; `None` where
/// a running total leaves the `i64` range.
pub fn external_referrer_uniques(rows: &Vec<ReferrerPoint>) -> (sum: Option<i64>)
    ensures
        sum is Some <==> external_sums_fit(rows@),
        sum matches Some(total) ==> total == external_uniques(rows@),
{
    let mut total: i64 = 0;
    let mut i: usize = 0;
    proof {
        assert(rows@.subrange(0, 0) =~= Seq::<ReferrerPoint>::empty());
    }
    while i < rows.len()
        invariant
            i <= rows.len(),
            total == external_uniques(rows@.subrange(0, i as int)),
            forall|k: int| 0 <= k <= i ==> i64::MIN <= #[trigger] external_uniques(rows@.subrange(0, k)) <= i64::MAX,
        decreases rows.len() - i,
    {
        proof {
            assert(rows@.subrange(0, i + 1).drop_last() =~= rows@.subrange(0, i as int));
        }
        if is_external_referrer(rows[i].referrer.as_str()) {
            match total.checked_add(rows[i].uniques) {
                Some(next) => {
                    total = next;
                },
                None => {
                    proof {
                        assert(!(i64::MIN <= external_uniques(rows@.subrange(0, i + 1)) <= i64::MAX));
                    }
                    return None;
                },
            }
        }
        i = i + 1;
    }
    proof {
        assert(rows@.subrange(0, rows@.len() as int) =~= rows@);
    }
    Some(total)
}

/// A clone burst: at least 50 clones in 30 days, at least four clones per
/// view, at least three clones per unique cloner, and at least 80% of the
/// 30-day clones on the latest day.
pub open spec fn spec_clone_burst(clones_1d: i64, clones_30d: i64, unique_cloners: i64, views: i64) -> bool {
    &&& clones_30d >= 50
    &&& views > 0
    &&& clones_30d >= views * 4
    &&& unique_cloners > 0
    &&& clones_30d >= unique_cloners * 3
    &&& clones_1d * 100 >= clones_30d * 80
}

/// Decides whether the clone traffic of a repository is a burst.
pub fn clone_burst(clones_1d: i64, clones_30d: i64, unique_cloners: i64, views: i64) -> (burst: bool)
    ensures
        burst == spec_clone_burst(clones_1d, clones_30d, unique_cloners, views),
{
    clones_30d >= 50 && views > 0 && clones_30d as i128 >= views as i128 * 4 && unique_cloners > 0
        && clones_30d as i128 >= unique_cloners as i128 * 3 && clones_1d as i128 * 100
        >= clones_30d as i128 * 80
}

/// What a launch diagnosis rests on.
#[derive(Clone, Debug)]
pub enum LaunchEvidence {
    /// A release or tag of the last 30 days, as `kind name`.
    RecentEvent(String),
    /// The repository's creation date.
    CreatedOn(String),
}

/// A diagnosis of a repository's traffic, with its evidence.
#[derive(Clone, Debug)]
pub enum Diagnosis {
    CloneBurst { clones_30d: i64, views: i64, unique_cloners: i64, clones_1d: i64 },
    LaunchShaped { evidence: LaunchEvidence },
    AutomationLikely { checkout_jobs: i64 },
}

/// A diagnosis as it is shown: its kind and its lines of evidence.
#[derive(Clone, Debug)]
pub struct DiagnosisText {
    pub kind: String,
    pub evidence: Vec<String>,
}

/// The kind and evidence lines under which a diagnosis is shown.
pub open spec fn spec_diagnosis_text(d: Diagnosis) -> (Seq<char>, Seq<Seq<char>>) {
    match d {
        Diagnosis::CloneBurst { clones_30d, views, unique_cloners, clones_1d } => (
            "clone_burst"@,
            seq![
                decimal_text(clones_30d as int) + " clones in 30d"@,
                decimal_text(views as int) + " views"@,
                decimal_text(unique_cloners as int) + " unique cloners"@,
                decimal_text(clones_1d as int) + " clones in the latest day"@,
            ],
        ),
        Diagnosis::LaunchShaped { evidence } => (
            "launch_shaped"@,
            seq![
                match evidence {
                    LaunchEvidence::RecentEvent(event) => event@,
                    LaunchEvidence::CreatedOn(day) => "repository created "@ + day@,
                },
            ],
        ),
        Diagnosis::AutomationLikely { checkout_jobs } => (
            "automation_likely"@,
            seq![
                "estimated "@ + decimal_text(checkout_jobs as int)
                    + " completed jobs in workflows containing actions/checkout"@,
            ],
        ),
    }
}

fn count_line(n: i64, rest: &str) -> (line: String)
    ensures
        line@ == decimal_text(n as int) + rest@,
{
    let number = decimal_string(n);
    concat_str(number.as_str(), rest)
}

/// Writes a diagnosis as it is shown.
pub fn diagnosis_text(d: &Diagnosis) -> (text: DiagnosisText)
    ensures
        (text.kind@, string_views(text.evidence@)) == spec_diagnosis_text(*d),
{
    match d {
        Diagnosis::CloneBurst { clones_30d, views, unique_cloners, clones_1d } => {
            let mut evidence: Vec<String> = Vec::new();
            evidence.push(count_line(*clones_30d, " clones in 30d"));
            evidence.push(count_line(*views, " views"));
            evidence.push(count_line(*unique_cloners, " unique cloners"));
            evidence.push(count_line(*clones_1d, " clones in the latest day"));
            proof {
                assert(string_views(evidence@) =~= spec_diagnosis_text(*d).1);
            }
            DiagnosisText { kind: "clone_burst".to_owned(), evidence }
        },
        Diagnosis::LaunchShaped { evidence: shown } => {
            let line = match shown {
                LaunchEvidence::RecentEvent(event) => event.clone(),
                LaunchEvidence::CreatedOn(day) => concat_str("repository created ", day.as_str()),
            };
            let mut evidence: Vec<String> = Vec::new();
            evidence.push(line);
            proof {
                assert(string_views(evidence@) =~= spec_diagnosis_text(*d).1);
            }
            DiagnosisText { kind: "launch_shaped".to_owned(), evidence }
        },
        Diagnosis::AutomationLikely { checkout_jobs } => {
            let number = count_line(*checkout_jobs, " completed jobs in workflows containing actions/checkout");
            let line = concat_str("estimated ", number.as_str());
            assert(line@ =~= "estimated "@ + decimal_text(*checkout_jobs as int)
                + " completed jobs in workflows containing actions/checkout"@);
            let mut evidence: Vec<String> = Vec::new();
            evidence.push(line);
            proof {
                assert(string_views(evidence@) =~= spec_diagnosis_text(*d).1);
            }
            DiagnosisText { kind: "automation_likely".to_owned(), evidence }
        },
    }
}

/// The inputs of a diagnosis, as stored and counted.
#[derive(Clone, Debug)]
pub struct DiagnosisInputs {
    pub clones_1d: i64,
    pub clones_30d: i64,
    pub unique_cloners: i64,
    pub views: i64,
    pub created_at: String,
    pub recent_event: Option<String>,
    pub checkout_jobs: Option<i64>,
}

/// The diagnoses, in order: a clone burst; a launch, when the repository was
/// created within the week before `today` or had a release or tag in the
/// last 30 days (the event is the evidence when there is one); likely
/// automation, when a clone burst meets at least 50 estimated jobs that use
/// `actions/checkout`.
pub open spec fn spec_diagnoses(d: DiagnosisInputs, today: int, out: Seq<Diagnosis>) -> bool {
    let burst = spec_clone_burst(d.clones_1d, d.clones_30d, d.unique_cloners, d.views);
    let launch = spec_created_recently(d.created_at@, today) || d.recent_event is Some;
    let automation = burst && (d.checkout_jobs matches Some(j) && j >= 50);
    let n_burst: int = if burst {
        1
    } else {
        0
    };
    let n_launch: int = if launch {
        1
    } else {
        0
    };
    &&& out.len() == n_burst + n_launch + if automation {
        1int
    } else {
        0
    }
    &&& burst ==> out[0] == (Diagnosis::CloneBurst {
        clones_30d: d.clones_30d,
        views: d.views,
        unique_cloners: d.unique_cloners,
        clones_1d: d.clones_1d,
    })
    &&& launch ==> match out[n_burst] {
        Diagnosis::LaunchShaped { evidence } => match (d.recent_event, evidence) {
            (Some(e), LaunchEvidence::RecentEvent(t)) => t@ == e@,
            (None, LaunchEvidence::CreatedOn(t)) => t@ == d.created_at@,
            _ => false,
        },
        _ => false,
    }
    &&& automation ==> out[n_burst + n_launch] == (Diagnosis::AutomationLikely {
        checkout_jobs: d.checkout_jobs.unwrap(),
    })
}

/// Diagnoses a repository's traffic.
pub fn diagnose(d: &DiagnosisInputs, today: i32) -> (out: Vec<Diagnosis>)
    ensures
        spec_diagnoses(*d, today as int, out@),
{
    let mut out: Vec<Diagnosis> = Vec::new();
    let burst = clone_burst(d.clones_1d, d.clones_30d, d.unique_cloners, d.views);
    if burst {
        out.push(
            Diagnosis::CloneBurst {
                clones_30d: d.clones_30d,
                views: d.views,
                unique_cloners: d.unique_cloners,
                clones_1d: d.clones_1d,
            },
        );
    }
    let recent = created_recently(d.created_at.as_str(), today);
    if recent || d.recent_event.is_some() {
        let evidence = match &d.recent_event {
            Some(e) => LaunchEvidence::RecentEvent(e.clone()),
            None => LaunchEvidence::CreatedOn(d.created_at.clone()),
        };
        out.push(Diagnosis::LaunchShaped { evidence });
    }
    match d.checkout_jobs {
        Some(jobs) => {
            if burst && jobs >= 50 {
                out.push(Diagnosis::AutomationLikely { checkout_jobs: jobs });
            }
        },
        None => {},
    }
    out
}

/// One day of demonstration traffic, `days_ago` days before today.
#[derive(Clone, Copy, Debug, PartialEq, Eq, Structural)]
pub struct DemoDay {
    pub days_ago: i32,
    pub clones: i64,
    pub clone_uniques: i64,
    pub views: i64,
    pub view_uniques: i64,
}

/// Demonstration traffic for a repository with base count `base`: the 14
/// days ending today, oldest first, with `base + 2 * i` clones on the i-th
/// day, half of them unique, and three views per clone with one unique
/// viewer per clone.
pub open spec fn spec_demo_day(base: int, i: int) -> DemoDay {
    let count = base + 2 * i;
    DemoDay {
        days_ago: (13 - i) as i32,
        clones: count as i64,
        clone_uniques: (count / 2) as i64,
        views: (count * 3) as i64,
        view_uniques: count as i64,
    }
}

/// The demonstration traffic of a repository.
pub fn demo_days(base: i64) -> (days: Vec<DemoDay>)
    requires
        0 <= base <= i64::MAX / 3 - 26,
    ensures
        days@.len() == 14,
        forall|i: int| 0 <= i < 14 ==> #[trigger] days@[i] == spec_demo_day(base as int, i),
{
    let mut days: Vec<DemoDay> = Vec::new();
    let mut offset: i64 = 0;
    while offset < 14
        invariant
            0 <= base <= i64::MAX / 3 - 26,
            0 <= offset <= 14,
            days@.len() == offset,
            forall|i: int| 0 <= i < offset ==> #[trigger] days@[i] == spec_demo_day(base as int, i),
        decreases 14 - offset,
    {
        let count = base + offset * 2;
        days.push(
            DemoDay {
                days_ago: (13 - offset) as i32,
                clones: count,
                clone_uniques: count / 2,
                views: count * 3,
                view_uniques: count,
            },
        );
        offset = offset + 1;
    }
    days
}

/// A demonstration repository: its name, star count and base daily count.
#[derive(Clone, Debug)]
pub struct DemoRepository {
    pub name: String,
    pub stars: i64,
    pub base: i64,
}

/// The two demonstration repositories.
pub fn demo_repositories() -> (repos: Vec<DemoRepository>)
    ensures
        repos@.len() == 2,
        repos@[0].name@ == "carlok/forgepulse"@ && repos@[0].stars == 12 && repos@[0].base == 20,
        repos@[1].name@ == "carlok/metrics-lab"@ && repos@[1].stars == 4 && repos@[1].base == 7,
{
    let mut repos: Vec<DemoRepository> = Vec::new();
    repos.push(DemoRepository { name: "carlok/forgepulse".to_owned(), stars: 12, base: 20 });
    repos.push(DemoRepository { name: "carlok/metrics-lab".to_owned(), stars: 4, base: 7 });
    repos
}

/// The day `days_ago` days before `today`, written `YYYY-MM-DD`.
pub fn day_before(today: i32, days_ago: i32) -> (text: String)
    requires
        0 <= days_ago,
        MIN_DAY + days_ago <= today <= MAX_DAY,
    ensures
        text@ == spec_format_day(today - days_ago),
{
    day_text(today - days_ago)
}

} // verus!

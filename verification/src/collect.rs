//! Decisions of a GitHub collection run: which repositories a filter admits,
//! how a repository record is built, when a request is retried, and how
//! workflow jobs estimate `actions/checkout` traffic.

use vstd::prelude::*;
use crate::dates::{DateError, day_from_timestamp, parse_rfc3339, spec_format_day, spec_parse_rfc3339};
use crate::model::Repository;
use crate::text::{
    ascii_lower_chars, ascii_lower_seq, contains_chars, contains_seq, str_equal, string_of,
    char_seqs, chars_of, ends_with, ends_with_chars, split_chars, split_on, starts_with,
    starts_with_chars, trim, trim_chars,
};

verus! {

/// The non-empty trimmed pieces, in order.
pub open spec fn kept_rules(pieces: Seq<Seq<char>>) -> Seq<Seq<char>>
    decreases pieces.len(),
{
    if pieces.len() == 0 {
        Seq::empty()
    } else {
        let rest = kept_rules(pieces.drop_last());
        let rule = trim(pieces.last());
        if rule.len() > 0 {
            rest.push(rule)
        } else {
            rest
        }
    }
}

/// The rules of a filter: its comma-separated pieces, trimmed, without the
/// empty ones.
pub open spec fn filter_rules(filter: Seq<char>) -> Seq<Seq<char>> {
    kept_rules(split_on(filter, ','))
}

/// A rule `owner/*` admits every repository of that owner; any other rule
/// admits exactly the repository it names.
pub open spec fn rule_admits(rule: Seq<char>, full_name: Seq<char>) -> bool {
    if ends_with(rule, seq!['/', '*']) {
        starts_with(full_name, rule.subrange(0, rule.len() - 2).push('/'))
    } else {
        rule == full_name
    }
}

/// A filter admits a repository when it has no rules, when one of its rules
/// is `*`, or when one of its rules admits the repository.
pub open spec fn spec_includes(filter: Seq<char>, full_name: Seq<char>) -> bool {
    let rules = filter_rules(filter);
    ||| rules.len() == 0
    ||| rules.contains(seq!['*'])
    ||| exists|i: int| 0 <= i < rules.len() && rule_admits(#[trigger] rules[i], full_name)
}

fn rules_of(filter: &str) -> (rules: Vec<Vec<char>>)
    ensures
        char_seqs(rules@) == filter_rules(filter@),
{
    let chars = chars_of(filter);
    let pieces = split_chars(chars.as_slice(), ',');
    let ghost views = char_seqs(pieces@);
    let mut rules: Vec<Vec<char>> = Vec::new();
    let mut i: usize = 0;
    while i < pieces.len()
        invariant
            i <= pieces.len(),
            views == char_seqs(pieces@),
            char_seqs(rules@) == kept_rules(views.subrange(0, i as int)),
        decreases pieces.len() - i,
    {
        proof {
            assert(views.subrange(0, i + 1).drop_last() =~= views.subrange(0, i as int));
        }
        let ghost before = char_seqs(rules@);
        let rule = trim_chars(pieces[i].as_slice());
        if rule.len() > 0 {
            rules.push(rule);
            proof {
                assert(char_seqs(rules@) =~= before.push(trim(views[i as int])));
            }
        }
        i = i + 1;
    }
    proof {
        assert(views.subrange(0, views.len() as int) =~= views);
    }
    rules
}

fn rule_admits_exec(rule: &Vec<char>, name: &[char]) -> (admits: bool)
    ensures
        admits == rule_admits(rule@, name@),
{
    let suffix: Vec<char> = vec!['/', '*'];
    proof {
        assert(suffix@ =~= seq!['/', '*']);
    }
    let is_owner_rule = ends_with_chars(rule.as_slice(), suffix.as_slice());
    if is_owner_rule {
        let mut owner: Vec<char> = Vec::new();
        let mut i: usize = 0;
        while i < rule.len() - 2
            invariant
                rule@.len() >= 2,
                i <= rule@.len() - 2,
                owner@ == rule@.subrange(0, i as int),
            decreases rule@.len() - 2 - i,
        {
            owner.push(rule[i]);
            i = i + 1;
            proof {
                assert(owner@ =~= rule@.subrange(0, i as int));
            }
        }
        owner.push('/');
        starts_with_chars(name, owner.as_slice())
    } else {
        if rule.len() != name.len() {
            proof {
                assert(rule@.len() != name@.len());
            }
            return false;
        }
        let mut i: usize = 0;
        while i < rule.len()
            invariant
                !ends_with(rule@, seq!['/', '*']),
                rule@.len() == name@.len(),
                i <= rule@.len(),
                forall|k: int| 0 <= k < i ==> rule@[k] == name@[k],
            decreases rule@.len() - i,
        {
            if rule[i] != name[i] {
                proof {
                    assert(rule@[i as int] != name@[i as int]);
                }
                return false;
            }
            i = i + 1;
        }
        proof {
            assert(rule@ =~= name@);
        }
        true
    }
}

/// Whether the collection filter admits the repository `full_name`.
pub fn includes(filter: &str, full_name: &str) -> (admitted: bool)
    ensures
        admitted == spec_includes(filter@, full_name@),
{
    let rules = rules_of(filter);
    let ghost views = char_seqs(rules@);
    if rules.len() == 0 {
        return true;
    }
    let mut i: usize = 0;
    while i < rules.len()
        invariant
            i <= rules.len(),
            views == char_seqs(rules@),
            views == filter_rules(filter@),
            forall|k: int| 0 <= k < i ==> views[k] != seq!['*'],
        decreases rules.len() - i,
    {
        if rules[i].len() == 1 && rules[i][0] == '*' {
            proof {
                assert(views[i as int] =~= seq!['*']);
                assert(views.contains(seq!['*']));
                assert(filter_rules(filter@).contains(seq!['*']));
            }
            return true;
        }
        proof {
            if views[i as int] == seq!['*'] {
                assert(views[i as int].len() == 1);
            }
        }
        i = i + 1;
    }
    proof {
        assert(!views.contains(seq!['*']));
    }
    let name = chars_of(full_name);
    let mut j: usize = 0;
    while j < rules.len()
        invariant
            j <= rules.len(),
            views == char_seqs(rules@),
            views == filter_rules(filter@),
            name@ == full_name@,
            forall|k: int| 0 <= k < j ==> !rule_admits(#[trigger] views[k], full_name@),
        decreases rules.len() - j,
    {
        if rule_admits_exec(&rules[j], name.as_slice()) {
            proof {
                assert(rule_admits(views[j as int], full_name@));
                assert(rule_admits(filter_rules(filter@)[j as int], full_name@));
            }
            return true;
        }
        j = j + 1;
    }
    false
}

/// `s` without its trailing `/` characters (`str::trim_end_matches('/')`).
pub open spec fn without_trailing_slashes(s: Seq<char>) -> Seq<char>
    decreases s.len(),
{
    if s.len() > 0 && s.last() == '/' {
        without_trailing_slashes(s.drop_last())
    } else {
        s
    }
}

/// The API base URL without trailing slashes.
pub fn trim_trailing_slashes(url: &str) -> (trimmed: String)
    ensures
        trimmed@ == without_trailing_slashes(url@),
{
    let mut chars = chars_of(url);
    let mut end: usize = chars.len();
    proof {
        assert(chars@.subrange(0, end as int) =~= chars@);
    }
    while end > 0 && chars[end - 1] == '/'
        invariant
            end <= chars@.len(),
            without_trailing_slashes(url@) == without_trailing_slashes(chars@.subrange(0, end as int)),
            chars@ == url@,
        decreases end,
    {
        proof {
            assert(chars@.subrange(0, end as int).drop_last() =~= chars@.subrange(0, end - 1));
        }
        end = end - 1;
    }
    chars.truncate(end);
    proof {
        assert(chars@ =~= url@.subrange(0, end as int));
        assert(url@.subrange(0, end as int) =~= chars@);
    }
    string_of(chars.as_slice())
}

/// The parts of a GitHub repository listing that collection reads.
#[derive(Clone, Debug)]
pub struct GitHubRepositoryData {
    pub full_name: String,
    pub description: Option<String>,
    pub stargazers_count: i64,
    pub forks_count: i64,
    pub subscribers_count: i64,
    pub open_issues_count: i64,
    pub fork: bool,
    pub archived: bool,
    pub created_at: String,
}

/// The number of open pull requests: how many the listing returned, or none
/// when it could not be listed.
pub open spec fn spec_pull_count(listed: Option<usize>) -> int {
    match listed {
        Some(n) => n as int,
        None => 0,
    }
}

/// The repository record stored for a listed repository: GitHub's open-issue
/// count includes pull requests, so they are subtracted (never below zero);
/// the creation date is the day of the creation timestamp, or empty when it
/// does not parse; `today` is recorded as the update day.
pub open spec fn spec_repository_record(
    source: GitHubRepositoryData,
    listed_pulls: Option<usize>,
    today: Seq<char>,
    r: Repository,
) -> bool {
    let pulls = spec_pull_count(listed_pulls);
    &&& r.name@ == source.full_name@
    &&& r.description@ == match source.description {
        Some(d) => d@,
        None => Seq::<char>::empty(),
    }
    &&& r.stars == source.stargazers_count
    &&& r.forks == source.forks_count
    &&& r.watchers == source.subscribers_count
    &&& r.issues == if source.open_issues_count - pulls > 0 {
        source.open_issues_count - pulls
    } else {
        0
    }
    &&& r.pull_requests == pulls
    &&& r.is_fork == source.fork
    &&& r.is_archived == source.archived
    &&& r.created_at@ == match spec_parse_rfc3339(source.created_at@) {
        Some(t) => spec_format_day(t.0),
        None => Seq::<char>::empty(),
    }
    &&& r.updated_at@ == today
}

/// A stored record copies the listing's counters, each into its own field:
/// stars from the stargazer count, forks from the fork count, watchers from
/// the subscriber count; open issues and pull requests together never fall
/// short of GitHub's open-issue count, and pull requests are never negative.
pub proof fn law_record_keeps_each_listed_count(
    source: GitHubRepositoryData,
    listed_pulls: Option<usize>,
    today: Seq<char>,
    r: Repository,
)
    requires
        spec_repository_record(source, listed_pulls, today, r),
    ensures
        r.stars == source.stargazers_count,
        r.forks == source.forks_count,
        r.watchers == source.subscribers_count,
        r.issues + r.pull_requests >= source.open_issues_count,
        r.issues >= 0,
        r.pull_requests >= 0,
        r.name@ == source.full_name@,
        r.updated_at@ == today,
{
}

/// The watcher count of a record depends on the subscriber count alone: two
/// listings that differ only in their star counts give the same watchers and
/// differ in stars exactly as the listings do.
pub proof fn law_watchers_do_not_follow_stars(
    a: GitHubRepositoryData,
    b: GitHubRepositoryData,
    listed_pulls: Option<usize>,
    today: Seq<char>,
    ra: Repository,
    rb: Repository,
)
    requires
        spec_repository_record(a, listed_pulls, today, ra),
        spec_repository_record(b, listed_pulls, today, rb),
        a.subscribers_count == b.subscribers_count,
    ensures
        ra.watchers == rb.watchers,
        ra.stars - rb.stars == a.stargazers_count - b.stargazers_count,
{
}

/// Builds the stored record of a listed repository.
pub fn repository_record(source: &GitHubRepositoryData, listed_pulls: Option<usize>, today: &str) -> (r:
    Repository)
    requires
        spec_pull_count(listed_pulls) <= i64::MAX,
        source.open_issues_count - spec_pull_count(listed_pulls) >= i64::MIN,
    ensures
        spec_repository_record(*source, listed_pulls, today@, r),
        r.stars == source.stargazers_count,
        r.forks == source.forks_count,
        r.watchers == source.subscribers_count,
        r.is_fork == source.fork,
        r.is_archived == source.archived,
{
    let pull_count: i64 = match listed_pulls {
        Some(n) => n as i64,
        None => 0,
    };
    let open = source.open_issues_count - pull_count;
    let issues = if open > 0 {
        open
    } else {
        0
    };
    let description = match &source.description {
        Some(d) => d.clone(),
        None => String::new(),
    };
    let created_at = match day_from_timestamp(source.created_at.as_str()) {
        Ok(day) => day,
        Err(_) => String::new(),
    };
    Repository {
        name: source.full_name.clone(),
        description,
        stars: source.stargazers_count,
        forks: source.forks_count,
        watchers: source.subscribers_count,
        issues,
        pull_requests: pull_count,
        is_fork: source.fork,
        is_archived: source.archived,
        created_at,
        updated_at: today.to_owned(),
    }
}

/// A tag of a repository and the kind of object it points to.
#[derive(Clone, Debug)]
pub struct GitTagData {
    pub name: String,
    pub commit_sha: String,
    pub commit_kind: String,
}

/// The tags that point to annotated tag objects, in order.
pub open spec fn spec_annotated(tags: Seq<GitTagData>) -> Seq<GitTagData>
    decreases tags.len(),
{
    if tags.len() == 0 {
        Seq::empty()
    } else {
        let rest = spec_annotated(tags.drop_last());
        if tags.last().commit_kind@ == "tag"@ {
            rest.push(tags.last())
        } else {
            rest
        }
    }
}

/// Keeps the annotated tags, whose dates are read from their tag objects.
pub fn annotated_tags(tags: Vec<GitTagData>) -> (kept: Vec<GitTagData>)
    ensures
        kept@ == spec_annotated(tags@),
{
    let mut kept: Vec<GitTagData> = Vec::new();
    let mut rest = tags;
    let ghost all = rest@;
    let mut reversed: Vec<GitTagData> = Vec::new();
    while rest.len() > 0
        invariant
            rest@.len() + reversed@.len() == all.len(),
            forall|k: int| 0 <= k < rest@.len() ==> #[trigger] rest@[k] == all[k],
            forall|k: int| 0 <= k < reversed@.len() ==> #[trigger] reversed@[k] == all[all.len() - 1 - k],
        decreases rest@.len(),
    {
        let t = rest.pop().unwrap();
        reversed.push(t);
    }
    while reversed.len() > 0
        invariant
            reversed@.len() <= all.len(),
            forall|k: int| 0 <= k < reversed@.len() ==> #[trigger] reversed@[k] == all[all.len() - 1 - k],
            kept@ == spec_annotated(all.subrange(0, all.len() - reversed@.len())),
        decreases reversed@.len(),
    {
        let t = reversed.pop().unwrap();
        let ghost i = all.len() - reversed@.len() - 1;
        proof {
            assert(t == all[i]);
            assert(all.subrange(0, i + 1).drop_last() =~= all.subrange(0, i));
        }
        if str_equal(t.commit_kind.as_str(), "tag") {
            kept.push(t);
        }
    }
    proof {
        assert(all.subrange(0, all.len() as int) =~= all);
    }
    kept
}

/// Whether a run created at the instant `created` (Unix seconds and
/// nanoseconds; none when its creation time did not parse) is counted in the
/// window that starts at the instant `cutoff`: runs created earlier are
/// skipped, and a run without a readable creation time counts.
pub open spec fn spec_created_in_window(created: Option<(int, int)>, cutoff_secs: int, cutoff_nanos: int) -> bool {
    match created {
        None => true,
        Some((secs, nanos)) => !(secs < cutoff_secs || (secs == cutoff_secs && nanos < cutoff_nanos)),
    }
}

/// Decides whether a run created at a given instant is counted.
pub fn created_in_window(created: Option<(i64, u32)>, cutoff_secs: i64, cutoff_nanos: u32) -> (counted: bool)
    ensures
        counted == spec_created_in_window(
            match created {
                Some((secs, nanos)) => Some((secs as int, nanos as int)),
                None => None,
            },
            cutoff_secs as int,
            cutoff_nanos as int,
        ),
{
    match created {
        None => true,
        Some((secs, nanos)) => !(secs < cutoff_secs || (secs == cutoff_secs && nanos < cutoff_nanos)),
    }
}

/// Whether a workflow run created at `created_at` falls within the window
/// that starts at the instant `cutoff`, reading its creation time as chrono
/// reads an RFC 3339 timestamp.
pub open spec fn spec_run_in_window(created_at: Seq<char>, cutoff_secs: int, cutoff_nanos: int) -> bool {
    spec_created_in_window(
        match spec_parse_rfc3339(created_at) {
            Some(t) => Some((t.1, t.2)),
            None => None,
        },
        cutoff_secs,
        cutoff_nanos,
    )
}

/// Decides whether a workflow run is recent enough to be counted.
pub fn run_in_window(created_at: &str, cutoff_secs: i64, cutoff_nanos: u32) -> (counted: bool)
    ensures
        counted == spec_run_in_window(created_at@, cutoff_secs as int, cutoff_nanos as int),
{
    match parse_rfc3339(created_at) {
        None => created_in_window(None, cutoff_secs, cutoff_nanos),
        Some((_, secs, nanos)) => created_in_window(Some((secs, nanos)), cutoff_secs, cutoff_nanos),
    }
}

/// A workflow job: its status and the names of its steps.
#[derive(Clone, Debug)]
pub struct WorkflowJobData {
    pub status: String,
    pub step_names: Vec<String>,
}

/// A step name mentions `actions/checkout`, in any ASCII letter case.
pub open spec fn mentions_checkout(step: Seq<char>) -> bool {
    contains_seq(ascii_lower_seq(step), "actions/checkout"@)
}

/// Some step of some job mentions `actions/checkout`.
pub open spec fn run_uses_checkout(jobs: Seq<WorkflowJobData>) -> bool {
    exists|j: int, k: int|
        0 <= j < jobs.len() && 0 <= k < jobs[j].step_names@.len() && mentions_checkout(
            #[trigger] jobs[j].step_names@[k]@,
        )
}

/// How many jobs have completed.
pub open spec fn completed_count(jobs: Seq<WorkflowJobData>) -> int
    decreases jobs.len(),
{
    if jobs.len() == 0 {
        0
    } else {
        completed_count(jobs.drop_last()) + if jobs.last().status@ == "completed"@ {
            1int
        } else {
            0
        }
    }
}

/// What one workflow run adds to the `actions/checkout` estimate: its
/// completed jobs when any of its steps mentions `actions/checkout`, else 0.
pub open spec fn spec_checkout_jobs(jobs: Seq<WorkflowJobData>) -> int {
    if run_uses_checkout(jobs) {
        completed_count(jobs)
    } else {
        0
    }
}

/// A step whose name contains `actions/checkout` anywhere mentions it,
/// whatever comes before or after.
pub proof fn law_checkout_is_found_anywhere_in_a_step(before: Seq<char>, after: Seq<char>)
    ensures
        mentions_checkout(before + "actions/checkout"@ + after),
{
    reveal_strlit("actions/checkout");
    let needle = "actions/checkout"@;
    assert(ascii_lower_seq(needle) =~= needle);
    let lower = ascii_lower_seq(before + needle + after);
    assert(lower =~= ascii_lower_seq(before) + needle + ascii_lower_seq(after));
    let i = before.len() as int;
    assert(lower.subrange(i, i + needle.len()) =~= needle);
}

/// A run in which some step of some job mentions `actions/checkout` adds
/// all of its completed jobs, whichever job that step belongs to.
pub proof fn law_any_checkout_step_counts_the_run(jobs: Seq<WorkflowJobData>, j: int, k: int)
    requires
        0 <= j < jobs.len(),
        0 <= k < jobs[j].step_names@.len(),
        mentions_checkout(jobs[j].step_names@[k]@),
    ensures
        spec_checkout_jobs(jobs) == completed_count(jobs),
{
}

/// A run in which no step mentions `actions/checkout` adds nothing.
pub proof fn law_runs_without_checkout_add_nothing(jobs: Seq<WorkflowJobData>)
    requires
        forall|j: int, k: int|
            0 <= j < jobs.len() && 0 <= k < jobs[j].step_names@.len() ==> !mentions_checkout(
                #[trigger] jobs[j].step_names@[k]@,
            ),
    ensures
        spec_checkout_jobs(jobs) == 0,
{
}

proof fn lemma_completed_count_adds_up(a: Seq<WorkflowJobData>, b: Seq<WorkflowJobData>)
    ensures
        completed_count(a + b) == completed_count(a) + completed_count(b),
    decreases b.len(),
{
    if b.len() == 0 {
        assert(a + b =~= a);
    } else {
        assert((a + b).drop_last() =~= a + b.drop_last());
        assert((a + b).last() == b.last());
        lemma_completed_count_adds_up(a, b.drop_last());
    }
}

proof fn lemma_uses_checkout_of_joined_runs(a: Seq<WorkflowJobData>, b: Seq<WorkflowJobData>)
    ensures
        run_uses_checkout(a + b) == (run_uses_checkout(a) || run_uses_checkout(b)),
{
    let ab = a + b;
    if run_uses_checkout(a) {
        let (j, k) = choose|j: int, k: int|
            0 <= j < a.len() && 0 <= k < a[j].step_names@.len() && mentions_checkout(
                #[trigger] a[j].step_names@[k]@,
            );
        assert(ab[j] == a[j]);
        assert(mentions_checkout(ab[j].step_names@[k]@));
    }
    if run_uses_checkout(b) {
        let (j, k) = choose|j: int, k: int|
            0 <= j < b.len() && 0 <= k < b[j].step_names@.len() && mentions_checkout(
                #[trigger] b[j].step_names@[k]@,
            );
        assert(ab[a.len() + j] == b[j]);
        assert(mentions_checkout(ab[a.len() + j].step_names@[k]@));
    }
    if run_uses_checkout(ab) {
        let (j, k) = choose|j: int, k: int|
            0 <= j < ab.len() && 0 <= k < ab[j].step_names@.len() && mentions_checkout(
                #[trigger] ab[j].step_names@[k]@,
            );
        if j < a.len() {
            assert(ab[j] == a[j]);
            assert(mentions_checkout(a[j].step_names@[k]@));
        } else {
            assert(ab[j] == b[j - a.len()]);
            assert(mentions_checkout(b[j - a.len()].step_names@[k]@));
        }
    }
}

/// The order in which a run lists its jobs does not change what it adds to
/// the estimate.
pub proof fn law_checkout_estimate_ignores_job_order(a: Seq<WorkflowJobData>, b: Seq<WorkflowJobData>)
    ensures
        spec_checkout_jobs(a + b) == spec_checkout_jobs(b + a),
{
    lemma_completed_count_adds_up(a, b);
    lemma_completed_count_adds_up(b, a);
    lemma_uses_checkout_of_joined_runs(a, b);
    lemma_uses_checkout_of_joined_runs(b, a);
}

/// A run counts one job per job whose status is `completed`: a single job
/// counts one exactly when it has completed.
pub proof fn law_completed_jobs_are_counted_one_each(job: WorkflowJobData, jobs: Seq<WorkflowJobData>)
    ensures
        completed_count(seq![job]) == if job.status@ == "completed"@ {
            1int
        } else {
            0
        },
        0 <= completed_count(jobs) <= jobs.len(),
    decreases jobs.len(),
{
    let one = seq![job];
    assert(one.len() == 1);
    assert(one.drop_last() =~= Seq::<WorkflowJobData>::empty());
    assert(one.last() == job);
    assert(completed_count(one.drop_last()) == 0);
    if jobs.len() > 0 {
        law_completed_jobs_are_counted_one_each(job, jobs.drop_last());
    }
}

fn step_mentions_checkout(step: &str, needle: &Vec<char>) -> (yes: bool)
    requires
        needle@ == "actions/checkout"@,
    ensures
        yes == mentions_checkout(step@),
{
    let chars = chars_of(step);
    let lower = ascii_lower_chars(chars.as_slice());
    contains_chars(lower.as_slice(), needle.as_slice())
}

/// Counts the completed jobs of a workflow run that uses `actions/checkout`.
pub fn checkout_jobs_in_run(jobs: &Vec<WorkflowJobData>) -> (count: i64)
    requires
        jobs@.len() <= i64::MAX,
    ensures
        count == spec_checkout_jobs(jobs@),
{
    let needle = chars_of("actions/checkout");
    let mut uses = false;
    let mut j: usize = 0;
    while j < jobs.len() && !uses
        invariant
            j <= jobs.len(),
            needle@ == "actions/checkout"@,
            uses ==> run_uses_checkout(jobs@),
            !uses ==> forall|jj: int, k: int|
                0 <= jj < j && 0 <= k < jobs@[jj].step_names@.len() ==> !mentions_checkout(
                    #[trigger] jobs@[jj].step_names@[k]@,
                ),
        decreases jobs.len() - j,
    {
        let steps = &jobs[j].step_names;
        let mut k: usize = 0;
        while k < steps.len() && !uses
            invariant
                j < jobs.len(),
                steps == jobs@[j as int].step_names,
                k <= steps@.len(),
                needle@ == "actions/checkout"@,
                uses ==> run_uses_checkout(jobs@),
                !uses ==> forall|kk: int| 0 <= kk < k ==> !mentions_checkout(#[trigger] steps@[kk]@),
            decreases steps@.len() - k,
        {
            if step_mentions_checkout(steps[k].as_str(), &needle) {
                uses = true;
                proof {
                    assert(mentions_checkout(jobs@[j as int].step_names@[k as int]@));
                }
            }
            k = k + 1;
        }
        j = j + 1;
    }
    if !uses {
        return 0;
    }
    let mut count: i64 = 0;
    let mut i: usize = 0;
    while i < jobs.len()
        invariant
            jobs@.len() <= i64::MAX,
            i <= jobs.len(),
            count == completed_count(jobs@.subrange(0, i as int)),
            0 <= count <= i,
        decreases jobs.len() - i,
    {
        proof {
            assert(jobs@.subrange(0, i + 1).drop_last() =~= jobs@.subrange(0, i as int));
        }
        if str_equal(jobs[i].status.as_str(), "completed") {
            count = count + 1;
        }
        i = i + 1;
    }
    proof {
        assert(jobs@.subrange(0, jobs@.len() as int) =~= jobs@);
    }
    count
}

/// The `actions/checkout` estimate after one more workflow run: the running
/// estimate plus what the run adds; `None` where the sum leaves the `i64`
/// range.
pub fn add_run_to_estimate(estimate: i64, jobs: &Vec<WorkflowJobData>) -> (next: Option<i64>)
    requires
        jobs@.len() <= i64::MAX,
    ensures
        match next {
            Some(n) => n == estimate + spec_checkout_jobs(jobs@),
            None => !(i64::MIN <= estimate + spec_checkout_jobs(jobs@) <= i64::MAX),
        },
{
    let added = checkout_jobs_in_run(jobs);
    estimate.checked_add(added)
}

/// How long to wait before retrying a request: after a rate-limited
/// (`429`) or forbidden (`403`) answer on the first two attempts, 1 and then
/// 2 seconds; otherwise the answer stands and there is no retry.
pub open spec fn spec_retry_delay(status: u16, attempt: u32) -> Option<u64> {
    if (status == 429 || status == 403) && attempt < 2 {
        Some(if attempt == 0 {
            1u64
        } else {
            2u64
        })
    } else {
        None
    }
}

/// Decides whether to retry a GitHub request after the given answer.
pub fn retry_delay(status: u16, attempt: u32) -> (delay: Option<u64>)
    ensures
        delay == spec_retry_delay(status, attempt),
{
    if (status == 429 || status == 403) && attempt < 2 {
        proof {
            assert(1u64 << 0u32 == 1u64) by (bit_vector);
            assert(1u64 << 1u32 == 2u64) by (bit_vector);
        }
        Some(1u64 << attempt)
    } else {
        None
    }
}

/// Retries are bounded: a request is retried at most twice, waiting one and
/// then two seconds, and only after a rate-limited or forbidden answer.
pub proof fn law_retries_are_bounded(status: u16, attempt: u32)
    ensures
        attempt >= 2 ==> spec_retry_delay(status, attempt) is None,
        spec_retry_delay(status, attempt) is Some ==> (status == 429 || status == 403),
        spec_retry_delay(status, attempt) matches Some(d) ==> d == attempt + 1,
        spec_retry_delay(status, 0) is Some ==> spec_retry_delay(status, 0).unwrap() + spec_retry_delay(
            status,
            1,
        ).unwrap() == 3,
{
}

/// How a collection run is recorded when it ends.
#[derive(Clone, Debug)]
pub struct SyncRecord {
    pub status: String,
    pub repositories_synced: i64,
    pub message: Option<String>,
}

/// Records a finished collection run: the number of repositories when it
/// succeeded; the error message, and no repositories, when it failed.
pub fn sync_record(outcome: &Result<usize, String>) -> (record: SyncRecord)
    requires
        outcome matches Ok(n) ==> n <= i64::MAX,
    ensures
        match outcome {
            Ok(n) => record.status@ == "succeeded"@ && record.repositories_synced == n as int
                && record.message is None,
            Err(m) => record.status@ == "failed"@ && record.repositories_synced == 0 && (
            record.message matches Some(t) && t@ == m@),
        },
{
    match outcome {
        Ok(n) => SyncRecord {
            status: "succeeded".to_owned(),
            repositories_synced: *n as i64,
            message: None,
        },
        Err(m) => SyncRecord { status: "failed".to_owned(), repositories_synced: 0, message: Some(m.clone()) },
    }
}

} // verus!

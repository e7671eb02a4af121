use forgepulse_server::collect::{
    GitHubRepositoryData, GitTagData, WorkflowJobData, add_run_to_estimate, annotated_tags,
    checkout_jobs_in_run, created_in_window, includes, repository_record, retry_delay, run_in_window, sync_record,
    trim_trailing_slashes,
};

fn listing(name: &str) -> GitHubRepositoryData {
    GitHubRepositoryData {
        full_name: name.to_string(),
        description: None,
        stargazers_count: 0,
        forks_count: 0,
        subscribers_count: 0,
        open_issues_count: 0,
        fork: false,
        archived: false,
        created_at: String::new(),
    }
}

fn job(status: &str, steps: &[&str]) -> WorkflowJobData {
    WorkflowJobData {
        status: status.to_string(),
        step_names: steps.iter().map(|s| s.to_string()).collect(),
    }
}

fn tag(name: &str, kind: &str) -> GitTagData {
    GitTagData { name: name.into(), commit_sha: format!("sha-{name}"), commit_kind: kind.into() }
}

#[test]
fn filter_accepts_owner_and_exact_repository_rules() {
    let filter = "carlok/*,other/one";
    assert!(includes(filter, &listing("carlok/alpha").full_name));
    assert!(includes(filter, &listing("other/one").full_name));
    assert!(!includes(filter, &listing("other/two").full_name));
}

#[test]
fn filters_without_rules_or_with_a_star_admit_everything() {
    assert!(includes("", "anyone/anything"));
    assert!(includes(" , ,", "anyone/anything"));
    assert!(includes("carlok/*, *", "anyone/anything"));
}

#[test]
fn filter_rules_are_trimmed_and_matched_exactly() {
    assert!(includes("  other/one  ", "other/one"));
    assert!(!includes("carlok/*", "carlokx/alpha"));
    assert!(!includes("other/one", "other/one-two"));
    assert!(!includes("carlok", "carlok/alpha"));
}

#[test]
fn base_urls_lose_their_trailing_slashes() {
    assert_eq!(trim_trailing_slashes("https://api.github.com//"), "https://api.github.com");
    assert_eq!(trim_trailing_slashes("http://127.0.0.1:9"), "http://127.0.0.1:9");
    assert_eq!(trim_trailing_slashes("///"), "");
}

#[test]
fn repository_records_subtract_pull_requests_from_issues() {
    let mut source = listing("carlok/alpha");
    source.description = Some("test repository".into());
    source.stargazers_count = 7;
    source.forks_count = 2;
    source.open_issues_count = 3;
    source.created_at = "2026-08-01T10:00:00Z".into();
    let record = repository_record(&source, Some(1), "2026-08-20");
    assert_eq!(record.name, "carlok/alpha");
    assert_eq!(record.description, "test repository");
    assert_eq!(record.stars, 7);
    assert_eq!(record.forks, 2);
    assert_eq!(record.issues, 2);
    assert_eq!(record.pull_requests, 1);
    assert_eq!(record.created_at, "2026-08-01");
    assert_eq!(record.updated_at, "2026-08-20");
}

#[test]
fn repository_records_never_count_negative_issues() {
    let mut source = listing("carlok/alpha");
    source.open_issues_count = 1;
    let record = repository_record(&source, Some(4), "2026-08-20");
    assert_eq!(record.issues, 0);
    assert_eq!(record.pull_requests, 4);
    assert_eq!(record.created_at, "");
    assert_eq!(record.description, "");
    let unlisted = repository_record(&source, None, "2026-08-20");
    assert_eq!(unlisted.pull_requests, 0);
    assert_eq!(unlisted.issues, 1);
}

#[test]
fn only_annotated_tags_are_kept() {
    let kept = annotated_tags(vec![tag("v1", "tag"), tag("v2", "commit"), tag("v3", "tag")]);
    let names: Vec<&str> = kept.iter().map(|t| t.name.as_str()).collect();
    assert_eq!(names, vec!["v1", "v3"]);
}

#[test]
fn runs_before_the_cutoff_are_skipped() {
    let cutoff = chrono::DateTime::parse_from_rfc3339("2026-08-01T00:00:00Z").expect("cutoff");
    let secs = cutoff.timestamp();
    assert!(run_in_window("2026-08-02T00:00:00Z", secs, 0));
    assert!(run_in_window("2026-08-01T00:00:00Z", secs, 0));
    assert!(!run_in_window("2026-07-31T23:59:59Z", secs, 0));
    assert!(!run_in_window("2026-08-01T00:00:00Z", secs, 1));
    assert!(run_in_window("not a time", secs, 0));
}

#[test]
fn checkout_jobs_count_completed_jobs_of_runs_that_check_out() {
    let jobs = vec![
        job("completed", &["Set up job", "Run Actions/Checkout@v4"]),
        job("completed", &["build"]),
        job("in_progress", &["test"]),
    ];
    assert_eq!(checkout_jobs_in_run(&jobs), 2);
    let without = vec![job("completed", &["build"]), job("completed", &["actions/cache"])];
    assert_eq!(checkout_jobs_in_run(&without), 0);
    assert_eq!(checkout_jobs_in_run(&Vec::new()), 0);
}

#[test]
fn checkout_estimates_add_up_and_refuse_overflow() {
    let jobs = vec![job("completed", &["uses actions/checkout"])];
    assert_eq!(add_run_to_estimate(40, &jobs), Some(41));
    assert_eq!(add_run_to_estimate(i64::MAX, &jobs), None);
    assert_eq!(add_run_to_estimate(i64::MAX, &Vec::new()), Some(i64::MAX));
}

#[test]
fn rate_limited_requests_are_retried_twice() {
    assert_eq!(retry_delay(429, 0), Some(1));
    assert_eq!(retry_delay(403, 1), Some(2));
    assert_eq!(retry_delay(429, 2), None);
    assert_eq!(retry_delay(200, 0), None);
    assert_eq!(retry_delay(404, 0), None);
}

#[test]
fn records_completed_sync_runs() {
    let ok = sync_record(&Ok(3));
    assert_eq!((ok.status.as_str(), ok.repositories_synced), ("succeeded", 3));
    assert!(ok.message.is_none());
}

#[test]
fn sync_records_a_failed_run_when_the_api_is_unreachable() {
    let failed = sync_record(&Err("error sending request".to_string()));
    assert_eq!(failed.status, "failed");
    assert_eq!(failed.repositories_synced, 0);
    assert_eq!(failed.message.as_deref(), Some("error sending request"));
}

#[test]
fn runs_count_from_the_cutoff_instant_on() {
    assert!(created_in_window(Some((10, 0)), 10, 0));
    assert!(!created_in_window(Some((10, 0)), 10, 1));
    assert!(created_in_window(Some((11, 0)), 10, 999));
    assert!(!created_in_window(Some((9, 999)), 10, 0));
    assert!(created_in_window(None, 10, 0));
}

use chrono::Datelike;
use forgepulse_server::model::ReferrerPoint;
use forgepulse_server::insights::{
    Diagnosis, DiagnosisInputs, LaunchEvidence, clone_burst, day_before, demo_days,
    demo_repositories, diagnose, diagnosis_text, external_referrer_uniques, history_delta,
    is_external_referrer, search_pattern,
};

fn day_number(text: &str) -> i32 {
    chrono::NaiveDate::parse_from_str(text, "%Y-%m-%d").expect("date").num_days_from_ce()
}

fn inputs() -> DiagnosisInputs {
    DiagnosisInputs {
        clones_1d: 100,
        clones_30d: 100,
        unique_cloners: 20,
        views: 10,
        created_at: "2026-09-12".into(),
        recent_event: None,
        checkout_jobs: Some(80),
    }
}

#[test]
fn search_patterns_match_the_trimmed_text_anywhere() {
    assert_eq!(search_pattern("  alpha "), "%alpha%");
    assert_eq!(search_pattern(""), "%%");
}

#[test]
fn history_deltas_need_both_ends_and_never_go_negative() {
    assert_eq!(history_delta(Some(10), Some(15)), Some(5));
    assert_eq!(history_delta(Some(10), Some(4)), Some(0));
    assert_eq!(history_delta(None, Some(4)), None);
    assert_eq!(history_delta(Some(10), None), None);
}

#[test]
fn clone_bursts_need_every_threshold() {
    assert!(clone_burst(100, 100, 20, 10));
    assert!(!clone_burst(100, 49, 1, 1));
    assert!(!clone_burst(100, 100, 20, 0));
    assert!(!clone_burst(100, 100, 20, 26));
    assert!(!clone_burst(100, 100, 34, 10));
    assert!(!clone_burst(79, 100, 20, 10));
    assert!(clone_burst(80, 100, 20, 10));
}

#[test]
fn human_attention_is_explainable_and_diagnoses_clone_bursts() {
    assert_eq!(history_delta(Some(2), Some(15)), Some(13));
    assert_eq!(history_delta(Some(1), Some(3)), Some(2));
    let out = diagnose(&inputs(), day_number("2026-09-14"));
    assert_eq!(out.len(), 3);
    assert!(matches!(out[0], Diagnosis::CloneBurst { clones_30d: 100, views: 10, unique_cloners: 20, clones_1d: 100 }));
    match &out[1] {
        Diagnosis::LaunchShaped { evidence: LaunchEvidence::CreatedOn(day) } => assert_eq!(day, "2026-09-12"),
        other => panic!("unexpected diagnosis {other:?}"),
    }
    assert!(matches!(out[2], Diagnosis::AutomationLikely { checkout_jobs: 80 }));
}

#[test]
fn a_recent_event_is_the_launch_evidence() {
    let mut d = inputs();
    d.clones_30d = 10;
    d.created_at = "2020-01-01".into();
    d.recent_event = Some("release v1.0".into());
    let out = diagnose(&d, day_number("2026-09-14"));
    assert_eq!(out.len(), 1);
    match &out[0] {
        Diagnosis::LaunchShaped { evidence: LaunchEvidence::RecentEvent(e) } => assert_eq!(e, "release v1.0"),
        other => panic!("unexpected diagnosis {other:?}"),
    }
}

#[test]
fn automation_needs_a_burst_and_fifty_jobs() {
    let mut d = inputs();
    d.created_at = "2020-01-01".into();
    d.checkout_jobs = Some(49);
    let out = diagnose(&d, day_number("2026-09-14"));
    assert_eq!(out.len(), 1);
    d.checkout_jobs = None;
    assert_eq!(diagnose(&d, day_number("2026-09-14")).len(), 1);
    d.clones_30d = 10;
    d.checkout_jobs = Some(500);
    assert!(diagnose(&d, day_number("2026-09-14")).is_empty());
}

#[test]
fn demo_traffic_climbs_by_two_a_day_over_two_weeks() {
    let days = demo_days(20);
    assert_eq!(days.len(), 14);
    assert_eq!(days[0].days_ago, 13);
    assert_eq!(days[0].clones, 20);
    assert_eq!(days[0].clone_uniques, 10);
    assert_eq!(days[13].days_ago, 0);
    assert_eq!(days[13].clones, 46);
    assert_eq!(days[13].views, 138);
    assert_eq!(days[13].view_uniques, 46);
    assert_eq!(demo_days(7)[1].clone_uniques, 4);
}

#[test]
fn demo_repositories_are_fixed() {
    let repos = demo_repositories();
    assert_eq!(repos.len(), 2);
    assert_eq!(repos[0].name, "carlok/forgepulse");
    assert_eq!((repos[0].stars, repos[0].base), (12, 20));
    assert_eq!(repos[1].name, "carlok/metrics-lab");
    assert_eq!((repos[1].stars, repos[1].base), (4, 7));
}

#[test]
fn days_before_today_are_written_as_dates() {
    assert_eq!(day_before(day_number("2026-09-14"), 13), "2026-09-01");
    assert_eq!(day_before(day_number("2026-09-14"), 0), "2026-09-14");
}

#[test]
fn diagnoses_are_shown_with_their_evidence() {
    let burst = diagnosis_text(&Diagnosis::CloneBurst { clones_30d: 100, views: 10, unique_cloners: 20, clones_1d: 100 });
    assert_eq!(burst.kind, "clone_burst");
    assert_eq!(
        burst.evidence,
        vec!["100 clones in 30d", "10 views", "20 unique cloners", "100 clones in the latest day"]
    );
    let launch = diagnosis_text(&Diagnosis::LaunchShaped { evidence: LaunchEvidence::CreatedOn("2026-09-12".into()) });
    assert_eq!(launch.kind, "launch_shaped");
    assert_eq!(launch.evidence, vec!["repository created 2026-09-12"]);
    let event = diagnosis_text(&Diagnosis::LaunchShaped { evidence: LaunchEvidence::RecentEvent("tag v2".into()) });
    assert_eq!(event.evidence, vec!["tag v2"]);
    let automation = diagnosis_text(&Diagnosis::AutomationLikely { checkout_jobs: 80 });
    assert_eq!(automation.kind, "automation_likely");
    assert_eq!(automation.evidence, vec!["estimated 80 completed jobs in workflows containing actions/checkout"]);
}

#[test]
fn demo_traffic_fits_for_the_largest_base() {
    let base = i64::MAX / 3 - 26;
    let days = demo_days(base);
    assert_eq!(days[13].views, (base + 26) * 3);
}

fn referrer(name: &str, uniques: i64) -> ReferrerPoint {
    ReferrerPoint { captured_on: "2026-09-13".into(), referrer: name.into(), count: uniques, uniques }
}

#[test]
fn github_and_its_subdomains_are_not_external_referrers() {
    assert!(!is_external_referrer("github.com"));
    assert!(!is_external_referrer("GitHub.com"));
    assert!(!is_external_referrer("gist.github.com"));
    assert!(!is_external_referrer("Docs.GITHUB.com"));
    assert!(is_external_referrer("example.com"));
    assert!(is_external_referrer("notgithub.com"));
    assert!(is_external_referrer("github.com.evil"));
    assert!(is_external_referrer(""));
}

#[test]
fn external_referrer_uniques_skip_github() {
    let rows = vec![referrer("example.com", 7), referrer("github.com", 5), referrer("news.ycombinator.com", 3)];
    assert_eq!(external_referrer_uniques(&rows), Some(10));
    assert_eq!(external_referrer_uniques(&Vec::new()), Some(0));
    assert_eq!(external_referrer_uniques(&vec![referrer("a.org", i64::MAX), referrer("b.org", 1)]), None);
    assert_eq!(external_referrer_uniques(&vec![referrer("a.org", i64::MAX), referrer("github.com", 1)]), Some(i64::MAX));
}

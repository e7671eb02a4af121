//! Plain records shared by the collector, the store and the dashboard.

use vstd::prelude::*;

verus! {

/// A repository as stored: metadata counters and the two `YYYY-MM-DD` dates.
#[derive(Clone, Debug)]
pub struct Repository {
    pub name: String,
    pub description: String,
    pub stars: i64,
    pub forks: i64,
    pub watchers: i64,
    pub issues: i64,
    pub pull_requests: i64,
    pub is_fork: bool,
    pub is_archived: bool,
    pub created_at: String,
    pub updated_at: String,
}

/// One day of a traffic series (clones or views).
#[derive(Clone, Debug)]
pub struct DayPoint {
    pub day: String,
    pub count: i64,
    pub uniques: i64,
}

/// One referrer row of a captured referrer snapshot.
#[derive(Clone, Debug)]
pub struct ReferrerPoint {
    pub captured_on: String,
    pub referrer: String,
    pub count: i64,
    pub uniques: i64,
}

/// One popular-path row of a captured path snapshot.
#[derive(Clone, Debug)]
pub struct PathPoint {
    pub captured_on: String,
    pub path: String,
    pub title: String,
    pub count: i64,
    pub uniques: i64,
}

/// A day and the star (or fork) total recorded on it.
#[derive(Clone, Debug)]
pub struct StarPoint {
    pub day: String,
    pub total: i64,
}

/// One day of the aggregate clone chart.
#[derive(Clone, Debug)]
pub struct CloneChartPoint {
    pub day: String,
    pub total_clones: i64,
    pub unique_cloners: i64,
}

/// A recorded collection run.
#[derive(Clone, Debug)]
pub struct SyncRun {
    pub id: i64,
    pub started_at: String,
    pub finished_at: Option<String>,
    pub status: String,
    pub repositories_synced: i64,
    pub message: Option<String>,
}

/// The dashboard and export query string.
#[derive(Clone, Debug, Default)]
pub struct DashboardQuery {
    pub q: Option<String>,
    pub sort: Option<String>,
    pub dir: Option<String>,
    pub page: Option<usize>,
    pub per_page: Option<usize>,
}

/// One day of one repository's clone traffic, as read for per-repository series.
#[derive(Clone, Debug)]
pub struct RepoDayRow {
    pub repository_name: String,
    pub day: String,
    pub count: i64,
    pub uniques: i64,
}

/// How a rank moved since the previous day.
#[derive(Clone, Copy, Debug, PartialEq, Eq, Structural)]
pub enum RankTrend {
    Up,
    Down,
    Stable,
    Unknown,
}

} // verus!

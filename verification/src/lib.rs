//! Verified core of the ForgePulse traffic-history service: descriptive clone
//! statistics, calendar zero-filling, repository rankings and rank trends,
//! dashboard ordering and paging, collection filters and diagnoses.

pub mod chart;
pub mod collect;
pub mod dashboard;
pub mod dates;
pub mod insights;
pub mod model;
pub mod ranking;
pub mod schedule;
pub mod stats;
pub mod text;

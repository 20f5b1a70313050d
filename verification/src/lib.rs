//! Karga: building blocks for load testing: metrics, mergeable aggregates,
//! reports, and the rate-control logic that drives executors.

pub mod metric;

pub mod aggregate;
pub mod collector;
pub mod stage;
pub mod rate;
pub mod report;
pub mod scenario;
pub mod runner;

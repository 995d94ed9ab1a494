//! Persistent traffic history: per adapter, IPv4/IPv6 and direction, in minute
//! buckets with day and month rollups; per-app traffic at hour granularity with
//! a threshold-filtered day summary.

pub mod live;
pub mod sql;
pub mod store;
pub mod types;

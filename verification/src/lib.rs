//! Calendar aggregation and grid layout engine.
//!
//! The crate computes a visible date window from a start-day policy and a
//! week count, projects calendar events into display records, merges the
//! per-source records by date while tolerating individual source failures,
//! and lays the merged view out as an HTML table.

pub mod config;
pub mod date;
pub mod event;
pub mod html;
pub mod merge;
pub mod render;
pub mod window;

//! A day-planner reminder library.
//!
//! The library models a single day's schedule: time-boxed tasks
//! (`HH:MM-HH:MM description`) and date-based deadlines
//! (`DEADLINE YYYY-MM-DD description`).  A polling loop samples the
//! wall clock once per tick, advances each task through its lifecycle
//! (pending, started, completion-asked, completed or not), and decides
//! which cooldown-gated deadline alerts to raise.  All decisions are
//! made here on plain values; the surrounding binary only reads the
//! clock, shows the notifications, and writes the report text.

pub mod schedule;
pub mod dates;
pub mod parse;
pub mod stamps;
pub mod tick;
pub mod report;

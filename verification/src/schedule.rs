//! The in-memory model of one day's schedule: time-boxed tasks and
//! date-based deadlines, with the invariants that every loaded value
//! keeps for the whole run.

use vstd::prelude::*;
use crate::dates;

verus! {

/// One time-boxed task of the day.
///
/// `start_seconds` / `end_seconds` are the boundaries expressed as
/// seconds since midnight, derived once at construction from the
/// hour/minute pairs and used for every clock comparison afterwards.
pub struct Task {
    pub start_hour: u32,
    pub start_min: u32,
    pub end_hour: u32,
    pub end_min: u32,
    pub start_seconds: u32,
    pub end_seconds: u32,
    pub description: String,
    pub started: bool,
    pub completed: bool,
    pub completed_asked: bool,
    pub reason: Option<String>,
}

impl Task {
    /// The time fields are consistent: in-range hour/minute pairs,
    /// the derived second counts agree with them, and the window is
    /// non-empty (`start < end`).
    pub open spec fn times_wf(self) -> bool {
        &&& self.start_hour < 24
        &&& self.start_min < 60
        &&& self.end_hour < 24
        &&& self.end_min < 60
        &&& self.start_seconds == self.start_hour * 3600 + self.start_min * 60
        &&& self.end_seconds == self.end_hour * 3600 + self.end_min * 60
        &&& self.start_seconds < self.end_seconds
    }

    /// Lifecycle flags are in a reachable configuration:
    /// completion is only asked for a started task, a task is only
    /// completed after having been asked, and a reason exists only
    /// for a task that was asked and not completed.
    pub open spec fn flags_wf(self) -> bool {
        &&& self.completed_asked ==> self.started
        &&& self.completed ==> self.completed_asked
        &&& self.reason is Some ==> self.completed_asked && !self.completed
    }

    pub open spec fn wf(self) -> bool {
        self.times_wf() && self.flags_wf()
    }

    /// A task as it leaves the loader: no lifecycle step taken yet.
    pub open spec fn fresh(self) -> bool {
        &&& !self.started
        &&& !self.completed
        &&& !self.completed_asked
        &&& self.reason is None
    }

    /// Builds a pending task from its parsed fields, deriving the
    /// second counts used by the polling loop.
    pub fn new(start_hour: u32, start_min: u32, end_hour: u32, end_min: u32, description: String)
        -> (r: Task)
        requires
            start_hour < 24,
            start_min < 60,
            end_hour < 24,
            end_min < 60,
            start_hour * 3600 + start_min * 60 < end_hour * 3600 + end_min * 60,
        ensures
            r.wf(),
            r.fresh(),
            r.start_hour == start_hour,
            r.start_min == start_min,
            r.end_hour == end_hour,
            r.end_min == end_min,
            r.start_seconds == start_hour * 3600 + start_min * 60,
            r.end_seconds == end_hour * 3600 + end_min * 60,
            r.description == description,
    {
        Task {
            start_hour,
            start_min,
            end_hour,
            end_min,
            start_seconds: start_hour * 3600 + start_min * 60,
            end_seconds: end_hour * 3600 + end_min * 60,
            description,
            started: false,
            completed: false,
            completed_asked: false,
            reason: None,
        }
    }
}

/// One date-based deadline; never mutated after loading.
pub struct Deadline {
    pub year: i32,
    pub month: u32,
    pub day: u32,
    pub description: String,
}

impl Deadline {
    /// The stored date is a real calendar date with a four-digit year.
    pub open spec fn wf(self) -> bool {
        &&& 0 <= self.year <= 9999
        &&& dates::valid_date(self.year as int, self.month as int, self.day as int)
    }
}

/// The loaded schedule: tasks sorted ascending by start time, plus
/// the deadlines in file order.
pub struct Schedule {
    pub tasks: Vec<Task>,
    pub deadlines: Vec<Deadline>,
}

} // verus!

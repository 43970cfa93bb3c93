//! End-of-day report figures: the outcome of each task and the
//! aggregate completion statistics.  The surrounding binary renders
//! these values as text; every number is computed and proved here.

use vstd::prelude::*;
use crate::schedule::Task;

verus! {

/// The three mutually exclusive outcomes of a task at shutdown.
#[derive(PartialEq, Eq, Structural, Clone, Copy, Debug)]
pub enum Outcome {
    Completed,
    NotCompleted,
    Skipped,
}

/// Outcome of a task: completed wins, then started-but-not-completed,
/// otherwise the task was never started and counts as skipped.
pub open spec fn spec_outcome(t: Task) -> Outcome {
    if t.completed {
        Outcome::Completed
    } else if t.started {
        Outcome::NotCompleted
    } else {
        Outcome::Skipped
    }
}

pub fn classify(t: &Task) -> (r: Outcome)
    ensures
        r == spec_outcome(*t),
{
    if t.completed {
        Outcome::Completed
    } else if t.started {
        Outcome::NotCompleted
    } else {
        Outcome::Skipped
    }
}

/// How many tasks of `tasks` have outcome `oc`.
pub open spec fn count_outcome(tasks: Seq<Task>, oc: Outcome) -> int
    decreases tasks.len(),
{
    if tasks.len() == 0 {
        0
    } else {
        count_outcome(tasks.drop_last(), oc) + if spec_outcome(tasks.last()) == oc {
            1int
        } else {
            0int
        }
    }
}

/// Completion percentage, rounded to the nearest integer (ties round
/// up); 0 when there are no tasks at all.
pub open spec fn spec_rate(completed: int, total: int) -> int {
    if total == 0 {
        0
    } else {
        (200 * completed + total) / (2 * total)
    }
}

proof fn lemma_count_outcome_bound(tasks: Seq<Task>, oc: Outcome)
    ensures
        0 <= count_outcome(tasks, oc) <= tasks.len(),
    decreases tasks.len(),
{
    if tasks.len() > 0 {
        lemma_count_outcome_bound(tasks.drop_last(), oc);
    }
}

/// The rounded completion percentage for `completed` tasks out of
/// `total`.
pub fn completion_rate(completed: usize, total: usize) -> (r: usize)
    requires
        completed <= total,
    ensures
        r == spec_rate(completed as int, total as int),
        r <= 100,
{
    if total == 0 {
        0
    } else {
        let num: u128 = 200 * (completed as u128) + (total as u128);
        let den: u128 = 2 * (total as u128);
        let q: u128 = num / den;
        proof {
            assert(q <= 100 && q == spec_rate(completed as int, total as int)) by (nonlinear_arith)
                requires
                    completed <= total,
                    total > 0,
                    num == 200 * completed + total,
                    den == 2 * total,
                    q == num / den,
            ;
        }
        q as usize
    }
}

/// The aggregate figures of the daily report.
pub struct ReportSummary {
    pub total: usize,
    pub completed_count: usize,
    pub not_completed_count: usize,
    pub skipped_count: usize,
    pub rate: usize,
}

impl ReportSummary {
    pub open spec fn matches(self, tasks: Seq<Task>) -> bool {
        &&& self.total == tasks.len()
        &&& self.completed_count == count_outcome(tasks, Outcome::Completed)
        &&& self.not_completed_count == count_outcome(tasks, Outcome::NotCompleted)
        &&& self.skipped_count == count_outcome(tasks, Outcome::Skipped)
        &&& self.rate == spec_rate(count_outcome(tasks, Outcome::Completed), tasks.len() as int)
    }
}

/// Counts each outcome across the final task states and derives the
/// rounded completion rate.
pub fn summarize(tasks: &Vec<Task>) -> (r: ReportSummary)
    ensures
        r.matches(tasks@),
        r.rate <= 100,
{
    let mut completed_count: usize = 0;
    let mut not_completed_count: usize = 0;
    let mut skipped_count: usize = 0;
    let mut i: usize = 0;
    while i < tasks.len()
        invariant
            i <= tasks.len(),
            completed_count == count_outcome(tasks@.subrange(0, i as int), Outcome::Completed),
            not_completed_count == count_outcome(
                tasks@.subrange(0, i as int),
                Outcome::NotCompleted,
            ),
            skipped_count == count_outcome(tasks@.subrange(0, i as int), Outcome::Skipped),
        decreases tasks.len() - i,
    {
        proof {
            lemma_count_outcome_bound(tasks@.subrange(0, i as int), Outcome::Completed);
            lemma_count_outcome_bound(tasks@.subrange(0, i as int), Outcome::NotCompleted);
            lemma_count_outcome_bound(tasks@.subrange(0, i as int), Outcome::Skipped);
            assert(tasks@.subrange(0, i + 1int).drop_last() =~= tasks@.subrange(0, i as int));
        }
        match classify(&tasks[i]) {
            Outcome::Completed => {
                completed_count = completed_count + 1;
            },
            Outcome::NotCompleted => {
                not_completed_count = not_completed_count + 1;
            },
            Outcome::Skipped => {
                skipped_count = skipped_count + 1;
            },
        }
        i = i + 1;
    }
    proof {
        assert(tasks@.subrange(0, tasks@.len() as int) =~= tasks@);
        lemma_count_outcome_bound(tasks@, Outcome::Completed);
    }
    let rate: usize = completion_rate(completed_count, tasks.len());
    ReportSummary { total: tasks.len(), completed_count, not_completed_count, skipped_count, rate }
}

} // verus!

use remindr::parse::{load_schedule, LoadError};
use remindr::report::{classify, completion_rate, summarize, Outcome};
use remindr::schedule::Task;

fn lines(ls: &[&str]) -> Vec<String> {
    ls.iter().map(|s| s.to_string()).collect()
}

#[test]
fn loaded_tasks_always_have_start_before_end() {
    let input = lines(&[
        "09:00-09:05 Drink water",
        "10:00-09:00 Inverted range",
        "11:00-11:00 Empty range",
        "07:30-08:00 Workout",
    ]);
    let sched = load_schedule(&input).unwrap();
    assert_eq!(sched.tasks.len(), 2);
    for t in &sched.tasks {
        assert!(t.start_seconds < t.end_seconds);
    }
}

#[test]
fn loaded_tasks_are_sorted_by_start_for_any_input_order() {
    let input = lines(&[
        "22:00-23:00 Late",
        "06:00-07:00 Early",
        "12:30-13:00 Lunch",
        "08:15-08:45 Mid",
    ]);
    let sched = load_schedule(&input).unwrap();
    let starts: Vec<u32> = sched.tasks.iter().map(|t| t.start_seconds).collect();
    assert_eq!(starts, vec![6 * 3600, 8 * 3600 + 15 * 60, 12 * 3600 + 30 * 60, 22 * 3600]);
    for w in sched.tasks.windows(2) {
        assert!(w[0].start_seconds <= w[1].start_seconds);
    }
}

#[test]
fn blank_comment_and_malformed_lines_are_dropped() {
    let input = lines(&[
        "",
        "   ",
        "# a comment",
        "not a schedule line",
        "9:00-10:00 unpadded hour is dropped",
        "09:00-10:00 Valid",
    ]);
    let sched = load_schedule(&input).unwrap();
    assert_eq!(sched.tasks.len(), 1);
    assert_eq!(sched.tasks[0].description, "Valid");
    assert_eq!(sched.deadlines.len(), 0);
}

#[test]
fn deadline_lines_parse_case_insensitively() {
    let input = lines(&[
        "09:00-09:05 Drink water",
        "DEADLINE 2026-02-28 Midterm Exam",
        "deadline 2026-01-01 Pay rent",
    ]);
    let sched = load_schedule(&input).unwrap();
    assert_eq!(sched.deadlines.len(), 2);
    assert_eq!(sched.deadlines[0].year, 2026);
    assert_eq!(sched.deadlines[0].month, 2);
    assert_eq!(sched.deadlines[0].day, 28);
    assert_eq!(sched.deadlines[0].description, "Midterm Exam");
    assert_eq!(sched.deadlines[1].description, "Pay rent");
}

#[test]
fn malformed_dates_are_dropped_silently() {
    let input = lines(&[
        "09:00-09:05 Drink water",
        "DEADLINE 2026-02-30 Impossible date",
        "DEADLINE 2026-13-01 Bad month",
        "DEADLINE 2026-1-1 Unpadded",
        "DEADLINE 2024-02-29 Leap day",
    ]);
    let sched = load_schedule(&input).unwrap();
    assert_eq!(sched.deadlines.len(), 1);
    assert_eq!(sched.deadlines[0].description, "Leap day");
}

#[test]
fn zero_valid_tasks_is_a_load_error_even_with_deadlines() {
    let input = lines(&["DEADLINE 2026-01-01 Pay rent"]);
    let r = load_schedule(&input);
    assert_eq!(r.err().unwrap(), LoadError::NoTasks);
}

#[test]
fn task_fields_are_derived_from_the_time_range() {
    let input = lines(&["09:00-09:05 Drink water"]);
    let sched = load_schedule(&input).unwrap();
    let t = &sched.tasks[0];
    assert_eq!(t.start_hour, 9);
    assert_eq!(t.start_min, 0);
    assert_eq!(t.end_hour, 9);
    assert_eq!(t.end_min, 5);
    assert_eq!(t.start_seconds, 9 * 3600);
    assert_eq!(t.end_seconds, 9 * 3600 + 5 * 60);
    assert!(!t.started && !t.completed && !t.completed_asked && t.reason.is_none());
}

#[test]
fn completion_rate_is_zero_for_no_tasks() {
    assert_eq!(completion_rate(0, 0), 0);
}

#[test]
fn completion_rate_rounds_to_nearest() {
    assert_eq!(completion_rate(2, 3), 67);
    assert_eq!(completion_rate(1, 3), 33);
    assert_eq!(completion_rate(3, 3), 100);
    assert_eq!(completion_rate(1, 8), 13);
    assert_eq!(completion_rate(0, 5), 0);
}

#[test]
fn summarize_counts_each_outcome() {
    let input = lines(&["08:00-09:00 A", "09:00-10:00 B", "10:00-11:00 C"]);
    let mut sched = load_schedule(&input).unwrap();
    sched.tasks[0].started = true;
    sched.tasks[0].completed_asked = true;
    sched.tasks[0].completed = true;
    sched.tasks[1].started = true;
    let s = summarize(&sched.tasks);
    assert_eq!(s.total, 3);
    assert_eq!(s.completed_count, 1);
    assert_eq!(s.not_completed_count, 1);
    assert_eq!(s.skipped_count, 1);
    assert_eq!(s.rate, 33);
}

#[test]
fn classify_picks_exactly_one_outcome() {
    let input = lines(&["08:00-09:00 A"]);
    let sched = load_schedule(&input).unwrap();
    let mut t: Task = Task::new(8, 0, 9, 0, "A".to_string());
    assert!(matches!(classify(&t), Outcome::Skipped));
    t.started = true;
    assert!(matches!(classify(&t), Outcome::NotCompleted));
    t.completed_asked = true;
    t.completed = true;
    assert!(matches!(classify(&t), Outcome::Completed));
    assert_eq!(sched.tasks.len(), 1);
}

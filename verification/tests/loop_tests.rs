use remindr::parse::load_schedule;
use remindr::report::{classify, Outcome};
use remindr::tick::{normalize_reason, should_exit, ReminderLoop, TickAction};

fn lines(ls: &[&str]) -> Vec<String> {
    ls.iter().map(|s| s.to_string()).collect()
}

fn build(ls: &[&str], now_ts: i64) -> ReminderLoop {
    ReminderLoop::new(load_schedule(&lines(ls)).unwrap(), now_ts)
}

const TODAY: (i32, u32, u32) = (2025, 12, 31);

fn tick_at(rl: &mut ReminderLoop, now_seconds: u32, now_ts: i64) -> Vec<TickAction> {
    rl.tick(now_seconds, now_ts, TODAY.0, TODAY.1, TODAY.2)
}

#[test]
fn drink_water_scenario_runs_through_its_lifecycle() {
    let mut rl = build(&["09:00-09:05 Drink water"], 0);
    // 09:02:00 - the task starts and a start popup is requested.
    let acts = tick_at(&mut rl, 9 * 3600 + 120, 100);
    assert!(rl.tasks[0].started);
    assert!(acts.iter().any(|a| matches!(
        a,
        TickAction::StartAlert { description } if description == "Drink water"
    )));
    // 09:05:00 - the window ends and completion is asked once.
    let acts = tick_at(&mut rl, 9 * 3600 + 300, 280);
    assert!(rl.tasks[0].completed_asked);
    assert!(acts.iter().any(|a| matches!(a, TickAction::CompletionPrompt { task_index: 0 })));
    // Answering "no" with a reason.
    let reason = normalize_reason(Some("forgot".to_string()));
    rl.apply_completion_answer(0, false, reason);
    let t = &rl.tasks[0];
    assert!(matches!(classify(t), Outcome::NotCompleted));
    assert_eq!(t.start_hour, 9);
    assert_eq!(t.start_min, 0);
    assert_eq!(t.end_hour, 9);
    assert_eq!(t.end_min, 5);
    assert_eq!(t.description, "Drink water");
    assert_eq!(t.reason.as_deref(), Some("forgot"));
}

#[test]
fn answering_yes_marks_the_task_completed() {
    let mut rl = build(&["09:00-09:05 Drink water"], 0);
    tick_at(&mut rl, 9 * 3600 + 60, 100);
    tick_at(&mut rl, 9 * 3600 + 305, 280);
    rl.apply_completion_answer(0, true, None);
    assert!(rl.tasks[0].completed);
    assert!(rl.tasks[0].reason.is_none());
    assert!(matches!(classify(&rl.tasks[0]), Outcome::Completed));
}

#[test]
fn started_flag_never_reverts() {
    let mut rl = build(&["09:00-09:05 A", "10:00-10:30 B"], 0);
    tick_at(&mut rl, 9 * 3600 + 60, 100);
    assert!(rl.tasks[0].started);
    for (secs, ts) in [(9 * 3600 + 400, 500i64), (10 * 3600 + 60, 700), (11 * 3600, 900)] {
        tick_at(&mut rl, secs, ts);
        assert!(rl.tasks[0].started, "started must stay true");
    }
}

#[test]
fn completed_asked_implies_started_at_every_point() {
    let mut rl = build(&["09:00-09:05 A", "10:00-10:30 B"], 0);
    let checks = [
        (8 * 3600, 10i64),
        (9 * 3600 + 60, 100),
        (9 * 3600 + 320, 200),
        (10 * 3600 + 40 * 60, 300),
        (23 * 3600, 400),
    ];
    for (secs, ts) in checks {
        tick_at(&mut rl, secs, ts);
        for t in &rl.tasks {
            assert!(!t.completed_asked || t.started);
            // reason only when asked and not completed
            assert!(t.reason.is_none() || (t.completed_asked && !t.completed));
        }
    }
}

#[test]
fn skipped_task_is_never_asked() {
    // The window is missed entirely: started stays false, so no
    // completion prompt fires.
    let mut rl = build(&["09:00-09:05 A"], 0);
    let acts = tick_at(&mut rl, 10 * 3600, 100);
    assert!(!rl.tasks[0].started);
    assert!(!rl.tasks[0].completed_asked);
    assert!(acts.is_empty());
    assert!(matches!(classify(&rl.tasks[0]), Outcome::Skipped));
}

#[test]
fn re_evaluating_the_same_instant_changes_nothing() {
    let mut rl = build(
        &["09:00-09:05 Drink water", "DEADLINE 2026-01-01 Pay rent"],
        0,
    );
    let now_secs = 9 * 3600 + 120;
    let now_ts = 4000; // past the deadline cooldown from load time 0
    let first = tick_at(&mut rl, now_secs, now_ts);
    assert!(!first.is_empty());
    let started: Vec<bool> = rl.tasks.iter().map(|t| t.started).collect();
    let second = tick_at(&mut rl, now_secs, now_ts);
    assert!(second.is_empty(), "a quiet re-evaluation emits nothing");
    let started2: Vec<bool> = rl.tasks.iter().map(|t| t.started).collect();
    assert_eq!(started, started2);
}

#[test]
fn deadline_alert_respects_the_cooldown() {
    let mut rl = build(&["23:00-23:30 Filler", "DEADLINE 2026-01-01 Pay rent"], 1000);
    // Shown stamp starts at load time 1000: nothing before 1000+3600.
    for ts in [1010i64, 2000, 4000, 4599] {
        let acts = tick_at(&mut rl, 60, ts);
        assert!(
            !acts.iter().any(|a| matches!(a, TickAction::DeadlineAlert { .. })),
            "no alert may fire before the cooldown elapses (ts={ts})"
        );
    }
    // At 1000+3600 the cooldown has elapsed.
    let acts = tick_at(&mut rl, 90, 4600);
    assert!(acts.iter().any(|a| matches!(
        a,
        TickAction::DeadlineAlert { description, .. } if description == "Pay rent"
    )));
    // And immediately afterwards it is gated again.
    let acts = tick_at(&mut rl, 95, 4605);
    assert!(!acts.iter().any(|a| matches!(a, TickAction::DeadlineAlert { .. })));
}

#[test]
fn deadline_alert_carries_the_signed_day_distance() {
    let mut rl = build(&["23:00-23:30 Filler", "DEADLINE 2026-01-01 Pay rent"], 0);
    // today is 2025-12-31, so one day is left.
    let acts = tick_at(&mut rl, 60, 3600);
    let days = acts.iter().find_map(|a| match a {
        TickAction::DeadlineAlert { days_left, .. } => Some(*days_left),
        _ => None,
    });
    assert_eq!(days, Some(1));
    // An overdue deadline yields a negative count.
    let mut rl = build(&["23:00-23:30 Filler", "DEADLINE 2025-12-25 Tax form"], 0);
    let acts = rl.tick(60, 3600, 2025, 12, 31);
    let days = acts.iter().find_map(|a| match a {
        TickAction::DeadlineAlert { days_left, .. } => Some(*days_left),
        _ => None,
    });
    assert_eq!(days, Some(-6));
}

#[test]
fn exit_condition_fires_only_strictly_past_the_latest_end() {
    let rl = build(&["08:00-08:01 A", "08:02-08:03 B"], 0);
    let end_b = 8 * 3600 + 3 * 60;
    assert!(!should_exit(&rl.tasks, 8 * 3600 + 90));
    assert!(!should_exit(&rl.tasks, end_b));
    assert!(should_exit(&rl.tasks, end_b + 1));
    assert!(should_exit(&rl.tasks, end_b + 5));
}

#[test]
fn normalize_reason_drops_empty_text() {
    assert_eq!(normalize_reason(None), None);
    assert_eq!(normalize_reason(Some(String::new())), None);
    assert_eq!(normalize_reason(Some("forgot".to_string())), Some("forgot".to_string()));
}

#[test]
fn identical_descriptions_starting_together_alert_once() {
    // Two tasks share a description and both enter their windows in
    // the same tick: the dedup guard lets only the first one through.
    let mut rl = build(&["09:00-09:30 Stretch", "09:01-09:20 Stretch"], 0);
    let acts = tick_at(&mut rl, 9 * 3600 + 120, 100);
    let start_alerts = acts
        .iter()
        .filter(|a| matches!(a, TickAction::StartAlert { .. }))
        .count();
    assert_eq!(start_alerts, 1);
    assert!(rl.tasks[0].started && rl.tasks[1].started);
}

#[test]
fn dedup_marker_persists_across_ticks() {
    // A later task with the same description as the last start popup
    // is not re-alerted when it starts.
    let mut rl = build(&["09:00-09:05 Stretch", "10:00-10:05 Stretch"], 0);
    let acts = tick_at(&mut rl, 9 * 3600 + 60, 100);
    assert_eq!(
        acts.iter().filter(|a| matches!(a, TickAction::StartAlert { .. })).count(),
        1
    );
    let acts = tick_at(&mut rl, 10 * 3600 + 60, 200);
    assert!(rl.tasks[1].started);
    assert_eq!(
        acts.iter().filter(|a| matches!(a, TickAction::StartAlert { .. })).count(),
        0,
        "the dedup marker suppresses a repeated description"
    );
}

#[test]
fn completion_is_prompted_exactly_once() {
    let mut rl = build(&["09:00-09:05 Drink water"], 0);
    tick_at(&mut rl, 9 * 3600 + 60, 100);
    let acts = tick_at(&mut rl, 9 * 3600 + 305, 200);
    let prompts = acts
        .iter()
        .filter(|a| matches!(a, TickAction::CompletionPrompt { .. }))
        .count();
    assert_eq!(prompts, 1);
    // Once answered, no later tick asks again.
    rl.apply_completion_answer(0, false, None);
    let acts = tick_at(&mut rl, 9 * 3600 + 600, 300);
    assert!(acts.is_empty());
}

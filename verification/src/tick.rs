//! The reminder loop's state machine.  One `tick` takes the clock
//! reading of the moment (seconds since midnight, an epoch timestamp
//! and today's date), advances every task through its lifecycle,
//! decides which deadline alerts are due under the cooldown and
//! pending gates, and returns the notifications to deliver.  The
//! caller performs them and feeds every completion answer back
//! through `apply_completion_answer`.

use vstd::prelude::*;
use vstd::map::*;
use crate::schedule::{Task, Deadline, Schedule};
use crate::stamps::StampMap;
use crate::dates;

verus! {

/// Seconds before the same deadline may be re-alerted.
pub const DEADLINE_COOLDOWN: i64 = 3600;

/// Seconds a spawned popup is assumed to stay visible.
pub const POPUP_DISPLAY_DURATION: i64 = 10;

/// Seconds between two ticks.
pub const CHECK_INTERVAL_SECS: u64 = 5;

/// A notification the loop asks its caller to deliver.
pub enum TickAction {
    /// Show an info popup and play an alert for a task that starts.
    StartAlert { description: String },
    /// Ask (blocking) whether the task at this index was completed,
    /// then report the answer via `apply_completion_answer`.
    CompletionPrompt { task_index: usize },
    /// Show an info popup and play an alert for a deadline.
    DeadlineAlert { description: String, days_left: i64 },
}

pub open spec fn is_alert_for(a: TickAction, k: Seq<char>) -> bool {
    match a {
        TickAction::DeadlineAlert { description, .. } => description@ == k,
        _ => false,
    }
}

/// Some deadline alert for key `k` stands among `actions`.
pub open spec fn alerted(actions: Seq<TickAction>, k: Seq<char>) -> bool {
    exists|n: int| 0 <= n < actions.len() && is_alert_for(#[trigger] actions[n], k)
}

/// The task enters its window this tick.
pub open spec fn starting_now(t: Task, now: int) -> bool {
    now >= t.start_seconds && now < t.end_seconds && !t.started
}

/// The task's window has ended and completion must be asked.
pub open spec fn ask_due(t: Task, now: int) -> bool {
    t.started && !t.completed && !t.completed_asked && now >= t.end_seconds
}

/// One task's deterministic step at clock second `now`: the start
/// transition, then the completion-ask transition (they never both
/// fire in one tick, since starting requires `now` inside the window
/// and asking requires it past the end).
pub open spec fn task_step(t: Task, now: int) -> Task {
    if starting_now(t, now) {
        Task { started: true, ..t }
    } else if ask_due(t, now) {
        Task { completed_asked: true, ..t }
    } else {
        t
    }
}

/// The cooldown allows alerting `k`: never shown, or shown at least
/// `DEADLINE_COOLDOWN` seconds ago.
pub open spec fn cooldown_passed(ls: Map<Seq<char>, i64>, k: Seq<char>, now_ts: int) -> bool {
    !ls.contains_key(k) || now_ts - ls[k] >= DEADLINE_COOLDOWN as int
}

/// A popup for `k` is still considered visible.
pub open spec fn pending_live(p: Map<Seq<char>, i64>, k: Seq<char>, now_ts: int) -> bool {
    p.contains_key(k) && now_ts - p[k] < POPUP_DISPLAY_DURATION as int
}

/// No earlier deadline shares this deadline's description.
pub open spec fn first_occurrence(dls: Seq<Deadline>, i: int) -> bool {
    forall|j: int| 0 <= j < i ==> dls[j].description@ != dls[i].description@
}

/// The dedup guard lets a start popup through.
pub open spec fn popup_differs(last: Option<String>, d: Seq<char>) -> bool {
    match last {
        Some(p) => p@ != d,
        None => true,
    }
}

/// What the pending map looks like after the stale-popup sweep.
pub open spec fn expired_pending(p: Map<Seq<char>, i64>, now_ts: int) -> Map<Seq<char>, i64> {
    Map::new(|k: Seq<char>| pending_live(p, k, now_ts), |k: Seq<char>| p[k])
}

/// The dedup marker after the task pass has walked `tasks` in order,
/// starting from `lsp`: each starting task whose description differs
/// from the marker at its turn becomes the new marker.
pub open spec fn marker_after(tasks: Seq<Task>, lsp: Option<String>, now: int) -> Option<String>
    decreases tasks.len(),
{
    if tasks.len() == 0 {
        lsp
    } else {
        let prev = marker_after(tasks.drop_last(), lsp, now);
        let t = tasks.last();
        if starting_now(t, now) && popup_differs(prev, t.description@) {
            Some(t.description)
        } else {
            prev
        }
    }
}

/// The exact action sequence of the task pass: walking `tasks` in
/// order, a starting task whose description differs from the running
/// dedup marker contributes one start alert (and becomes the marker),
/// and a task whose ask transition fires contributes one completion
/// prompt; every other task contributes nothing.  A task never
/// contributes more than one action, since starting and asking are
/// mutually exclusive in one tick.
pub open spec fn task_pass_actions(tasks: Seq<Task>, lsp: Option<String>, now: int) -> Seq<
    TickAction,
>
    decreases tasks.len(),
{
    if tasks.len() == 0 {
        Seq::empty()
    } else {
        let pre = task_pass_actions(tasks.drop_last(), lsp, now);
        let t = tasks.last();
        if starting_now(t, now) && popup_differs(
            marker_after(tasks.drop_last(), lsp, now),
            t.description@,
        ) {
            pre.push(TickAction::StartAlert { description: t.description })
        } else if ask_due(t, now) {
            pre.push(TickAction::CompletionPrompt { task_index: (tasks.len() - 1) as usize })
        } else {
            pre
        }
    }
}

/// The non-deadline actions among `acts`, in order.
pub open spec fn task_actions_of(acts: Seq<TickAction>) -> Seq<TickAction>
    decreases acts.len(),
{
    if acts.len() == 0 {
        acts
    } else if acts.last() is DeadlineAlert {
        task_actions_of(acts.drop_last())
    } else {
        task_actions_of(acts.drop_last()).push(acts.last())
    }
}

/// The deadline alerts among `acts` are exact over `dls` and the two
/// gate maps `ls` (cooldown) and `pd` (pending): each alert names a
/// due, unblocked deadline and carries its signed day distance from
/// today, and every due, unblocked first occurrence is alerted.
pub open spec fn deadline_alerts_exact(
    acts: Seq<TickAction>,
    dls: Seq<Deadline>,
    ls: Map<Seq<char>, i64>,
    pd: Map<Seq<char>, i64>,
    now_ts: int,
    ty: int,
    tm: int,
    td: int,
) -> bool {
    &&& forall|n: int|
        0 <= n < acts.len() && (#[trigger] acts[n]) is DeadlineAlert ==> exists|i: int|
            0 <= i < dls.len() && (#[trigger] dls[i]).description@ == acts[n]->DeadlineAlert_description@
                && acts[n]->DeadlineAlert_days_left == dates::day_number(
                dls[i].year as int,
                dls[i].month as int,
                dls[i].day as int,
            ) - dates::day_number(ty, tm, td) && cooldown_passed(ls, dls[i].description@, now_ts)
                && !pending_live(pd, dls[i].description@, now_ts)
    &&& forall|i: int|
        0 <= i < dls.len() && first_occurrence(dls, i) && cooldown_passed(
            ls,
            (#[trigger] dls[i]).description@,
            now_ts,
        ) && !pending_live(pd, dls[i].description@, now_ts) ==> alerted(
            acts,
            dls[i].description@,
        )
}

/// Classical consequences of the exact task pass: completion is
/// prompted if and only if the ask transition fires, and never twice
/// for one task; every start alert names a task that starts this
/// tick.  (The full statement, order and dedup guard included, is
/// `acts == task_pass_actions(tasks0, lsp0, now)`.)
pub open spec fn task_actions_exact(
    acts: Seq<TickAction>,
    tasks0: Seq<Task>,
    lsp0: Option<String>,
    now: int,
) -> bool {
    &&& forall|i: int|
        0 <= i < tasks0.len() ==> (acts.contains(
            TickAction::CompletionPrompt { task_index: i as usize },
        ) <==> ask_due(#[trigger] tasks0[i], now))
    &&& forall|n: int|
        0 <= n < acts.len() && (#[trigger] acts[n]) is CompletionPrompt
            ==> acts[n]->CompletionPrompt_task_index < tasks0.len() && ask_due(
            tasks0[acts[n]->CompletionPrompt_task_index as int],
            now,
        )
    &&& forall|n: int|
        0 <= n < acts.len() && (#[trigger] acts[n]) is StartAlert ==> exists|i: int|
            0 <= i < tasks0.len() && starting_now(#[trigger] tasks0[i], now) && acts[n]->StartAlert_description@
                == tasks0[i].description@
    &&& forall|n1: int, n2: int|
        0 <= n1 < n2 < acts.len() && (#[trigger] acts[n1]) is CompletionPrompt && (
        #[trigger] acts[n2]) is CompletionPrompt ==> acts[n1]->CompletionPrompt_task_index
            != acts[n2]->CompletionPrompt_task_index
}

/// Evaluates every deadline against the cooldown gate (`last_shown`)
/// and the pending gate (`pending`, already swept of stale entries).
/// Exactly the due, unblocked descriptions are alerted, and both
/// gates are restamped to `now_ts` for them; every other key is left
/// untouched.
#[verifier::spinoff_prover]
#[verifier::rlimit(100)]
fn evaluate_deadlines(
    deadlines: &Vec<Deadline>,
    last_shown: &mut StampMap,
    pending: &mut StampMap,
    now_ts: i64,
    today_year: i32,
    today_month: u32,
    today_day: u32,
) -> (alerts: Vec<TickAction>)
    requires
        forall|i: int| 0 <= i < deadlines@.len() ==> (#[trigger] deadlines@[i]).wf(),
        old(last_shown).wf(),
        old(pending).wf(),
        forall|k: Seq<char>|
            old(pending)@.contains_key(k) ==> now_ts - (#[trigger] old(pending)@[k])
                < POPUP_DISPLAY_DURATION as int,
        0 <= today_year <= 9999,
        dates::valid_date(today_year as int, today_month as int, today_day as int),
    ensures
        final(last_shown).wf(),
        final(pending).wf(),
        forall|n: int| 0 <= n < alerts@.len() ==> (#[trigger] alerts@[n]) is DeadlineAlert,
        deadline_alerts_exact(
            alerts@,
            deadlines@,
            old(last_shown)@,
            old(pending)@,
            now_ts as int,
            today_year as int,
            today_month as int,
            today_day as int,
        ),
        forall|k: Seq<char>|
            #![trigger alerted(alerts@, k)]
            !alerted(alerts@, k) ==> (final(last_shown)@.contains_key(k) <==> old(last_shown)@.contains_key(k)) && (final(last_shown)@.contains_key(k) ==> final(last_shown)@[k] == old(last_shown)@[k]) && (final(pending)@.contains_key(k) <==> old(pending)@.contains_key(k)) && (final(pending)@.contains_key(k) ==> final(pending)@[k] == old(pending)@[k]),
        forall|k: Seq<char>|
            #![trigger alerted(alerts@, k)]
            alerted(alerts@, k) ==> final(last_shown)@.contains_key(k) && final(last_shown)@[k]
                == now_ts && final(pending)@.contains_key(k) && final(pending)@[k] == now_ts,
{
    let ghost ls0 = old(last_shown)@;
    let ghost pend0 = old(pending)@;
    let mut alerts: Vec<TickAction> = Vec::new();
    let mut di: usize = 0;
    while di < deadlines.len()
        invariant
            forall|i: int| 0 <= i < deadlines@.len() ==> (#[trigger] deadlines@[i]).wf(),
            last_shown.wf(),
            pending.wf(),
            di <= deadlines@.len(),
            0 <= today_year <= 9999,
            dates::valid_date(today_year as int, today_month as int, today_day as int),
            forall|k: Seq<char>|
                pend0.contains_key(k) ==> now_ts - (#[trigger] pend0[k]) < POPUP_DISPLAY_DURATION
                    as int,
            forall|n: int| 0 <= n < alerts@.len() ==> (#[trigger] alerts@[n]) is DeadlineAlert,
            forall|n: int|
                0 <= n < alerts@.len() ==> exists|i: int|
                    0 <= i < di && (#[trigger] deadlines@[i]).description@ == (#[trigger] alerts@[n])->DeadlineAlert_description@
                        && alerts@[n]->DeadlineAlert_days_left == dates::day_number(
                        deadlines@[i].year as int,
                        deadlines@[i].month as int,
                        deadlines@[i].day as int,
                    ) - dates::day_number(
                        today_year as int,
                        today_month as int,
                        today_day as int,
                    ) && cooldown_passed(ls0, deadlines@[i].description@, now_ts as int)
                        && !pending_live(pend0, deadlines@[i].description@, now_ts as int),
            forall|i: int|
                0 <= i < di && first_occurrence(deadlines@, i) && cooldown_passed(
                    ls0,
                    (#[trigger] deadlines@[i]).description@,
                    now_ts as int,
                ) && !pending_live(pend0, deadlines@[i].description@, now_ts as int) ==> alerted(
                    alerts@,
                    deadlines@[i].description@,
                ),
            forall|k: Seq<char>|
                #![trigger alerted(alerts@, k)]
                !alerted(alerts@, k) ==> (last_shown@.contains_key(k) <==> ls0.contains_key(k))
                    && (last_shown@.contains_key(k) ==> last_shown@[k] == ls0[k]) && (
                pending@.contains_key(k) <==> pend0.contains_key(k)) && (pending@.contains_key(k)
                    ==> pending@[k] == pend0[k]),
            forall|k: Seq<char>|
                #![trigger alerted(alerts@, k)]
                alerted(alerts@, k) ==> last_shown@.contains_key(k) && last_shown@[k] == now_ts
                    && pending@.contains_key(k) && pending@[k] == now_ts,
        decreases deadlines@.len() - di,
    {
        let desc: String = deadlines[di].description.clone();
        let ghost k = desc@;
        let due: bool = match last_shown.get(&desc) {
            Some(ts) => (now_ts as i128) - (ts as i128) >= (DEADLINE_COOLDOWN as i128),
            None => true,
        };
        let blocked: bool = match pending.get(&desc) {
            Some(_) => true,
            None => false,
        };
        proof {
            if alerted(alerts@, k) {
                assert(last_shown@.contains_key(k) && last_shown@[k] == now_ts);
                assert(!due);
            } else {
                assert(due == cooldown_passed(ls0, k, now_ts as int));
                assert(blocked == pend0.contains_key(k));
                assert(blocked == pending_live(pend0, k, now_ts as int));
            }
        }
        if due && !blocked {
            proof {
                assert(!alerted(alerts@, k));
                assert(cooldown_passed(ls0, k, now_ts as int));
                assert(!pending_live(pend0, k, now_ts as int));
                assert(deadlines@[di as int].wf());
            }
            let y: i32 = deadlines[di].year;
            let m: u32 = deadlines[di].month;
            let d: u32 = deadlines[di].day;
            let days_left: i64 = dates::days_between(y, m, d, today_year, today_month, today_day);
            let ghost pre_alerts = alerts@;
            alerts.push(TickAction::DeadlineAlert { description: desc.clone(), days_left });
            last_shown.set(&desc, now_ts);
            pending.set(&desc, now_ts);
            proof {
                let na = alerts@.len() - 1;
                assert(is_alert_for(alerts@[na], k));
                assert(alerted(alerts@, k));
                assert(forall|n: int| 0 <= n < pre_alerts.len() ==> alerts@[n] == pre_alerts[n]);
                assert forall|kk: Seq<char>| alerted(pre_alerts, kk) implies alerted(
                    alerts@,
                    kk,
                ) by {
                    let n = choose|n: int|
                        0 <= n < pre_alerts.len() && is_alert_for(#[trigger] pre_alerts[n], kk);
                    assert(is_alert_for(alerts@[n], kk));
                }
                assert forall|kk: Seq<char>| alerted(alerts@, kk) && kk != k implies alerted(
                    pre_alerts,
                    kk,
                ) by {
                    let n = choose|n: int|
                        0 <= n < alerts@.len() && is_alert_for(#[trigger] alerts@[n], kk);
                    assert(n < pre_alerts.len());
                    assert(is_alert_for(pre_alerts[n], kk));
                }
                assert forall|kk: Seq<char>| #![trigger alerted(alerts@, kk)]
                    !alerted(alerts@, kk) implies (last_shown@.contains_key(kk)
                    <==> ls0.contains_key(kk)) && (last_shown@.contains_key(kk)
                    ==> last_shown@[kk] == ls0[kk]) && (pending@.contains_key(kk)
                    <==> pend0.contains_key(kk)) && (pending@.contains_key(kk) ==> pending@[kk]
                    == pend0[kk]) by {
                    assert(!alerted(pre_alerts, kk));
                    assert(kk != k);
                }
                assert forall|kk: Seq<char>| #![trigger alerted(alerts@, kk)]
                    alerted(alerts@, kk) implies last_shown@.contains_key(kk) && last_shown@[kk]
                    == now_ts && pending@.contains_key(kk) && pending@[kk] == now_ts by {
                    if kk != k {
                        assert(alerted(pre_alerts, kk));
                    }
                }
                assert forall|n: int| 0 <= n < alerts@.len() implies exists|i: int|
                    0 <= i < di + 1 && (#[trigger] deadlines@[i]).description@ == (
                    #[trigger] alerts@[n])->DeadlineAlert_description@ && alerts@[n]->DeadlineAlert_days_left
                        == dates::day_number(
                        deadlines@[i].year as int,
                        deadlines@[i].month as int,
                        deadlines@[i].day as int,
                    ) - dates::day_number(
                        today_year as int,
                        today_month as int,
                        today_day as int,
                    ) && cooldown_passed(ls0, deadlines@[i].description@, now_ts as int)
                        && !pending_live(pend0, deadlines@[i].description@, now_ts as int) by {
                    if n < pre_alerts.len() {
                        let i = choose|i: int|
                            0 <= i < di && (#[trigger] deadlines@[i]).description@ == (
                            #[trigger] pre_alerts[n])->DeadlineAlert_description@ && pre_alerts[n]->DeadlineAlert_days_left
                                == dates::day_number(
                                deadlines@[i].year as int,
                                deadlines@[i].month as int,
                                deadlines@[i].day as int,
                            ) - dates::day_number(
                                today_year as int,
                                today_month as int,
                                today_day as int,
                            ) && cooldown_passed(ls0, deadlines@[i].description@, now_ts as int)
                                && !pending_live(
                                pend0,
                                deadlines@[i].description@,
                                now_ts as int,
                            );
                        assert(deadlines@[i].description@ == alerts@[n]->DeadlineAlert_description@);
                    } else {
                        assert(deadlines@[di as int].description@ == alerts@[n]->DeadlineAlert_description@);
                    }
                }
            }
        } else {
            proof {
                if first_occurrence(deadlines@, di as int) && cooldown_passed(
                    ls0,
                    k,
                    now_ts as int,
                ) && !pending_live(pend0, k, now_ts as int) && !alerted(alerts@, k) {
                    assert(due);
                    assert(!blocked);
                    assert(false);
                }
            }
        }
        di = di + 1;
    }
    proof {
        assert forall|i: int|
            0 <= i < deadlines@.len() && first_occurrence(deadlines@, i) && cooldown_passed(
                ls0,
                (#[trigger] deadlines@[i]).description@,
                now_ts as int,
            ) && !pending_live(pend0, deadlines@[i].description@, now_ts as int) implies alerted(
            alerts@,
            deadlines@[i].description@,
        ) by {
        }
    }
    alerts
}

/// Advances every task through its start and completion-ask
/// transitions for clock second `now_seconds`.  The returned actions
/// are exactly `task_pass_actions` over the initial task states, and
/// the dedup marker ends as `marker_after` says.
#[verifier::spinoff_prover]
#[verifier::rlimit(100)]
fn advance_tasks(
    tasks: &mut Vec<Task>,
    last_start_popup: &mut Option<String>,
    now_seconds: u32,
) -> (acts: Vec<TickAction>)
    requires
        forall|i: int| 0 <= i < old(tasks)@.len() ==> (#[trigger] old(tasks)@[i]).wf(),
    ensures
        final(tasks)@.len() == old(tasks)@.len(),
        forall|i: int|
            0 <= i < old(tasks)@.len() ==> final(tasks)@[i] == task_step(
                #[trigger] old(tasks)@[i],
                now_seconds as int,
            ),
        acts@ == task_pass_actions(old(tasks)@, *old(last_start_popup), now_seconds as int),
        *final(last_start_popup) == marker_after(
            old(tasks)@,
            *old(last_start_popup),
            now_seconds as int,
        ),
        forall|n: int| 0 <= n < acts@.len() ==> !((#[trigger] acts@[n]) is DeadlineAlert),
        task_actions_exact(acts@, old(tasks)@, *old(last_start_popup), now_seconds as int),
        (forall|i: int|
            0 <= i < old(tasks)@.len() ==> !starting_now(
                #[trigger] old(tasks)@[i],
                now_seconds as int,
            )) ==> *final(last_start_popup) == *old(last_start_popup),
{
    let ghost tasks0 = tasks@;
    let ghost lsp0 = *last_start_popup;
    let mut acts: Vec<TickAction> = Vec::new();
    let mut ti: usize = 0;
    while ti < tasks.len()
        invariant
            forall|i: int| 0 <= i < tasks0.len() ==> (#[trigger] tasks0[i]).wf(),
            ti <= tasks@.len(),
            tasks@.len() == tasks0.len(),
            forall|i: int| ti <= i < tasks0.len() ==> tasks@[i] == tasks0[i],
            forall|i: int|
                0 <= i < ti ==> tasks@[i] == task_step(#[trigger] tasks0[i], now_seconds as int),
            acts@ == task_pass_actions(
                tasks0.subrange(0, ti as int),
                lsp0,
                now_seconds as int,
            ),
            *last_start_popup == marker_after(
                tasks0.subrange(0, ti as int),
                lsp0,
                now_seconds as int,
            ),
        decreases tasks@.len() - ti,
    {
        let ghost pre = tasks0.subrange(0, ti as int);
        let ghost cur = tasks0.subrange(0, ti as int + 1);
        proof {
            assert(cur.drop_last() =~= pre);
            assert(cur.last() == tasks0[ti as int]);
        }
        let start_sec: u32 = tasks[ti].start_seconds;
        let end_sec: u32 = tasks[ti].end_seconds;
        if now_seconds >= start_sec && now_seconds < end_sec && !tasks[ti].started {
            proof {
                assert(starting_now(tasks0[ti as int], now_seconds as int));
            }
            tasks[ti].started = true;
            proof {
                assert(tasks@[ti as int] == task_step(tasks0[ti as int], now_seconds as int));
                assert(tasks@[ti as int].description == tasks0[ti as int].description);
            }
            let differs: bool = match &*last_start_popup {
                Some(p) => !(*p == tasks[ti].description),
                None => true,
            };
            proof {
                assert(differs == popup_differs(
                    marker_after(pre, lsp0, now_seconds as int),
                    tasks0[ti as int].description@,
                ));
            }
            if differs {
                let d1: String = tasks[ti].description.clone();
                let d2: String = tasks[ti].description.clone();
                proof {
                    assert(d1 == tasks0[ti as int].description);
                    assert(d2 == tasks0[ti as int].description);
                }
                acts.push(TickAction::StartAlert { description: d1 });
                *last_start_popup = Some(d2);
                proof {
                    assert(acts@ == task_pass_actions(cur, lsp0, now_seconds as int));
                    assert(*last_start_popup == marker_after(cur, lsp0, now_seconds as int));
                }
            } else {
                proof {
                    assert(!ask_due(tasks0[ti as int], now_seconds as int));
                    assert(acts@ == task_pass_actions(cur, lsp0, now_seconds as int));
                    assert(*last_start_popup == marker_after(cur, lsp0, now_seconds as int));
                }
            }
        } else {
            proof {
                assert(!starting_now(tasks0[ti as int], now_seconds as int));
            }
            if tasks[ti].started && !tasks[ti].completed && !tasks[ti].completed_asked
                && now_seconds >= end_sec {
                proof {
                    assert(ask_due(tasks0[ti as int], now_seconds as int));
                }
                tasks[ti].completed_asked = true;
                acts.push(TickAction::CompletionPrompt { task_index: ti });
                proof {
                    assert(tasks@[ti as int] == task_step(tasks0[ti as int], now_seconds as int));
                    assert(cur.len() - 1 == ti as int);
                    assert(acts@ == task_pass_actions(cur, lsp0, now_seconds as int));
                    assert(*last_start_popup == marker_after(cur, lsp0, now_seconds as int));
                }
            } else {
                proof {
                    assert(tasks@[ti as int] == task_step(tasks0[ti as int], now_seconds as int));
                    assert(!ask_due(tasks0[ti as int], now_seconds as int));
                    assert(acts@ == task_pass_actions(cur, lsp0, now_seconds as int));
                    assert(*last_start_popup == marker_after(cur, lsp0, now_seconds as int));
                }
            }
        }
        ti = ti + 1;
    }
    let n: usize = tasks.len();
    proof {
        assert(tasks0.len() == n);
        assert(tasks0.subrange(0, tasks0.len() as int) =~= tasks0);
        lemma_task_pass_props(tasks0, lsp0, now_seconds as int);
    }
    acts
}

/// The classical consequences of the exact task pass, by induction
/// over the tasks: soundness and if-and-only-if of the prompts, no
/// duplicate prompt, soundness of the start alerts, and an untouched
/// marker when nothing starts.
pub proof fn lemma_task_pass_props(tasks: Seq<Task>, lsp: Option<String>, now: int)
    requires
        tasks.len() <= usize::MAX,
    ensures
        task_actions_exact(task_pass_actions(tasks, lsp, now), tasks, lsp, now),
        forall|n: int|
            0 <= n < task_pass_actions(tasks, lsp, now).len() ==> !((#[trigger] task_pass_actions(
                tasks,
                lsp,
                now,
            )[n]) is DeadlineAlert),
        (forall|i: int| 0 <= i < tasks.len() ==> !starting_now(#[trigger] tasks[i], now))
            ==> marker_after(tasks, lsp, now) == lsp,
    decreases tasks.len(),
{
    if tasks.len() > 0 {
        lemma_task_pass_props(tasks.drop_last(), lsp, now);
        let dl = tasks.drop_last();
        let li = tasks.len() - 1;
        assert(forall|i: int| 0 <= i < li ==> #[trigger] dl[i] == tasks[i]);
        let pre = task_pass_actions(dl, lsp, now);
        let acts = task_pass_actions(tasks, lsp, now);
        let t = tasks.last();
        if starting_now(t, now) && popup_differs(marker_after(dl, lsp, now), t.description@) {
            assert(acts == pre.push(TickAction::StartAlert { description: t.description }));
            assert(acts[acts.len() - 1] is StartAlert);
        } else if ask_due(t, now) {
            assert(acts == pre.push(
                TickAction::CompletionPrompt { task_index: li as usize },
            ));
        } else {
            assert(acts == pre);
        }
        assert(forall|n: int| 0 <= n < pre.len() ==> acts[n] == pre[n]);
        assert forall|i: int|
            0 <= i < tasks.len() implies (acts.contains(
            TickAction::CompletionPrompt { task_index: i as usize },
        ) <==> ask_due(#[trigger] tasks[i], now)) by {
            let a = TickAction::CompletionPrompt { task_index: i as usize };
            if i < li {
                if ask_due(tasks[i], now) {
                    assert(ask_due(dl[i], now));
                    assert(pre.contains(a));
                    let n = choose|n: int| 0 <= n < pre.len() && pre[n] == a;
                    assert(acts[n] == a);
                }
                if acts.contains(a) {
                    let n = choose|n: int| 0 <= n < acts.len() && acts[n] == a;
                    if n < pre.len() {
                        assert(pre.contains(a));
                    } else {
                        assert(acts[n] == acts[acts.len() - 1]);
                        assert(ask_due(tasks[li], now) || a is StartAlert);
                    }
                }
            } else {
                if ask_due(t, now) {
                    assert(!starting_now(t, now));
                    assert(acts[acts.len() - 1] == a);
                }
                if acts.contains(a) {
                    let n = choose|n: int| 0 <= n < acts.len() && acts[n] == a;
                    if n < pre.len() {
                        assert(pre[n]->CompletionPrompt_task_index < dl.len());
                        assert(false);
                    }
                }
            }
        }
        assert forall|n: int|
            0 <= n < acts.len() && (#[trigger] acts[n]) is CompletionPrompt implies acts[n]->CompletionPrompt_task_index
            < tasks.len() && ask_due(tasks[acts[n]->CompletionPrompt_task_index as int], now) by {
            if n < pre.len() {
                assert(pre[n]->CompletionPrompt_task_index < dl.len());
            } else {
                assert(ask_due(t, now));
            }
        }
        assert forall|n: int|
            0 <= n < acts.len() && (#[trigger] acts[n]) is StartAlert implies exists|i: int|
            0 <= i < tasks.len() && starting_now(#[trigger] tasks[i], now) && acts[n]->StartAlert_description@
            == tasks[i].description@ by {
            if n < pre.len() {
                let i = choose|i: int|
                    0 <= i < dl.len() && starting_now(#[trigger] dl[i], now) && pre[n]->StartAlert_description@
                        == dl[i].description@;
                assert(starting_now(tasks[i], now));
            } else {
                assert(starting_now(tasks[li], now) && acts[n]->StartAlert_description@
                    == tasks[li].description@);
            }
        }
        assert forall|n1: int, n2: int|
            0 <= n1 < n2 < acts.len() && (#[trigger] acts[n1]) is CompletionPrompt && (
        #[trigger] acts[n2]) is CompletionPrompt implies acts[n1]->CompletionPrompt_task_index
            != acts[n2]->CompletionPrompt_task_index by {
            if n2 < pre.len() {
            } else {
                if acts[n2] is CompletionPrompt && n2 == acts.len() - 1 && acts.len() == pre.len()
                    + 1 {
                    assert(acts[n1]->CompletionPrompt_task_index < dl.len());
                }
            }
        }
    }
}

/// The loop-owned state: the day's tasks and deadlines plus the
/// notification bookkeeping.
pub struct ReminderLoop {
    pub tasks: Vec<Task>,
    pub deadlines: Vec<Deadline>,
    pub last_shown: StampMap,
    pub pending: StampMap,
    pub last_start_popup: Option<String>,
}

impl ReminderLoop {
    pub open spec fn wf(self) -> bool {
        &&& forall|i: int| 0 <= i < self.tasks@.len() ==> (#[trigger] self.tasks@[i]).wf()
        &&& forall|i: int| 0 <= i < self.deadlines@.len() ==> (#[trigger] self.deadlines@[i]).wf()
        &&& self.last_shown.wf()
        &&& self.pending.wf()
    }

    /// Nothing would change at this instant: every task guard is
    /// closed, every deadline is gated off, and no pending entry is
    /// stale.
    pub open spec fn quiescent_at(self, now_seconds: int, now_ts: int) -> bool {
        &&& forall|i: int|
            0 <= i < self.tasks@.len() ==> task_step(#[trigger] self.tasks@[i], now_seconds)
                == self.tasks@[i]
        &&& forall|i: int|
            0 <= i < self.deadlines@.len() ==> !cooldown_passed(
                self.last_shown@,
                (#[trigger] self.deadlines@[i]).description@,
                now_ts,
            ) || pending_live(self.pending@, self.deadlines@[i].description@, now_ts)
        &&& forall|k: Seq<char>|
            self.pending@.contains_key(k) ==> now_ts - self.pending@[k] < POPUP_DISPLAY_DURATION
                as int
    }

    /// Builds the initial loop state.  As at startup, every deadline
    /// is marked "last shown now", so its first alert comes only
    /// after one full cooldown.
    pub fn new(schedule: Schedule, now_ts: i64) -> (r: ReminderLoop)
        requires
            forall|i: int| 0 <= i < schedule.tasks@.len() ==> (#[trigger] schedule.tasks@[i]).wf(),
            forall|i: int|
                0 <= i < schedule.deadlines@.len() ==> (#[trigger] schedule.deadlines@[i]).wf(),
        ensures
            r.wf(),
            r.tasks == schedule.tasks,
            r.deadlines == schedule.deadlines,
            r.pending@ =~= Map::<Seq<char>, i64>::empty(),
            r.last_start_popup is None,
            forall|k: Seq<char>|
                r.last_shown@.contains_key(k) <==> exists|i: int|
                    0 <= i < schedule.deadlines@.len() && (#[trigger] schedule.deadlines@[i]).description@
                        == k,
            forall|k: Seq<char>| r.last_shown@.contains_key(k) ==> r.last_shown@[k] == now_ts,
    {
        let mut last_shown = StampMap::new();
        let mut i: usize = 0;
        while i < schedule.deadlines.len()
            invariant
                i <= schedule.deadlines@.len(),
                last_shown.wf(),
                forall|k: Seq<char>|
                    last_shown@.contains_key(k) <==> exists|j: int|
                        0 <= j < i && (#[trigger] schedule.deadlines@[j]).description@ == k,
                forall|k: Seq<char>| last_shown@.contains_key(k) ==> last_shown@[k] == now_ts,
            decreases schedule.deadlines@.len() - i,
        {
            last_shown.set(&schedule.deadlines[i].description, now_ts);
            proof {
                assert forall|k: Seq<char>|
                    last_shown@.contains_key(k) implies exists|j: int|
                    0 <= j < i + 1 && (#[trigger] schedule.deadlines@[j]).description@ == k by {
                    if k == schedule.deadlines@[i as int].description@ {
                        assert(schedule.deadlines@[i as int].description@ == k);
                    }
                }
            }
            i = i + 1;
        }
        ReminderLoop {
            tasks: schedule.tasks,
            deadlines: schedule.deadlines,
            last_shown,
            pending: StampMap::new(),
            last_start_popup: None,
        }
    }

    /// One polling step.  Expires stale pending popups, evaluates
    /// every deadline against the cooldown and pending gates, then
    /// advances every task; the returned actions are the
    /// notifications to deliver for this tick.
    #[verifier::spinoff_prover]
    #[verifier::rlimit(100)]
    pub fn tick(
        &mut self,
        now_seconds: u32,
        now_ts: i64,
        today_year: i32,
        today_month: u32,
        today_day: u32,
    ) -> (actions: Vec<TickAction>)
        requires
            old(self).wf(),
            0 <= today_year <= 9999,
            dates::valid_date(today_year as int, today_month as int, today_day as int),
        ensures
            final(self).wf(),
            final(self).deadlines == old(self).deadlines,
            // Every task takes exactly its deterministic step.
            final(self).tasks@.len() == old(self).tasks@.len(),
            forall|i: int|
                0 <= i < old(self).tasks@.len() ==> final(self).tasks@[i] == task_step(
                    #[trigger] old(self).tasks@[i],
                    now_seconds as int,
                ),
            // A started task never reverts.
            forall|i: int|
                0 <= i < old(self).tasks@.len() && (#[trigger] old(self).tasks@[i]).started
                    ==> final(self).tasks@[i].started,
            // The non-deadline actions are exactly the task pass:
            // walking the tasks in order, each starting task whose
            // description differs from the running dedup marker
            // contributes one start alert, each fired ask transition
            // one completion prompt, and nothing else is emitted.
            task_actions_of(actions@) == task_pass_actions(
                old(self).tasks@,
                old(self).last_start_popup,
                now_seconds as int,
            ),
            // The dedup marker ends as the walk leaves it: the last
            // starting task's description, or untouched when none
            // starts.
            final(self).last_start_popup == marker_after(
                old(self).tasks@,
                old(self).last_start_popup,
                now_seconds as int,
            ),
            // Classical consequences, restated: prompts fire if and
            // only if due, never twice for one task; start alerts
            // name starting tasks.
            task_actions_exact(
                actions@,
                old(self).tasks@,
                old(self).last_start_popup,
                now_seconds as int,
            ),
            (forall|i: int|
                0 <= i < old(self).tasks@.len() ==> !starting_now(
                    #[trigger] old(self).tasks@[i],
                    now_seconds as int,
                )) ==> final(self).last_start_popup == old(self).last_start_popup,
            // Deadline alerts: sound (due, unblocked, correct day
            // count) and complete for first occurrences, judged
            // against the pre-tick gates after the pending sweep.
            deadline_alerts_exact(
                actions@,
                old(self).deadlines@,
                old(self).last_shown@,
                expired_pending(old(self).pending@, now_ts as int),
                now_ts as int,
                today_year as int,
                today_month as int,
                today_day as int,
            ),
            // The cooldown is honoured: a deadline shown less than
            // DEADLINE_COOLDOWN ago is neither re-alerted nor has its
            // stamp touched.
            forall|k: Seq<char>|
                old(self).last_shown@.contains_key(k) && now_ts - (#[trigger] old(self).last_shown@[k]) < DEADLINE_COOLDOWN as int ==> !alerted(actions@, k) && final(self).last_shown@.contains_key(k) && final(self).last_shown@[k] == old(self).last_shown@[k],
            // Alerted keys are restamped to now, in both gates.
            forall|k: Seq<char>|
                #![trigger alerted(actions@, k)]
                alerted(actions@, k) ==> final(self).last_shown@.contains_key(k) && final(self).last_shown@[k] == now_ts && final(self).pending@.contains_key(k) && final(self).pending@[k] == now_ts,
            // Unalerted keys keep their cooldown stamp; their pending
            // entry survives exactly while it is still fresh.
            forall|k: Seq<char>|
                #![trigger alerted(actions@, k)]
                !alerted(actions@, k) ==> (final(self).last_shown@.contains_key(k) <==> old(self).last_shown@.contains_key(k)) && (final(self).last_shown@.contains_key(k)
                    ==> final(self).last_shown@[k] == old(self).last_shown@[k]) && (final(self).pending@.contains_key(k) <==> pending_live(old(self).pending@, k, now_ts as int))
                    && (final(self).pending@.contains_key(k) ==> final(self).pending@[k] == old(self).pending@[k]),
            // A tick at a quiet instant changes nothing and emits
            // nothing.
            old(self).quiescent_at(now_seconds as int, now_ts as int) ==> final(self).tasks@
                =~= old(self).tasks@ && final(self).last_shown@ =~= old(self).last_shown@ && final(self).pending@ =~= old(self).pending@ && final(self).last_start_popup == old(self).last_start_popup && actions@.len() == 0,
            // After a tick the state is quiet at the same instant: an
            // immediate re-evaluation is a no-op.
            final(self).quiescent_at(now_seconds as int, now_ts as int),
    {
        let ghost ls0 = self.last_shown@;
        let ghost pend0 = self.pending@;
        let ghost tasks0 = self.tasks@;
        let ghost lsp0 = self.last_start_popup;

        self.pending.expire(now_ts, POPUP_DISPLAY_DURATION);
        proof {
            assert(self.pending@ =~= expired_pending(pend0, now_ts as int));
        }
        let ghost pend1 = self.pending@;

        let mut actions: Vec<TickAction> = evaluate_deadlines(
            &self.deadlines,
            &mut self.last_shown,
            &mut self.pending,
            now_ts,
            today_year,
            today_month,
            today_day,
        );
        let ghost alerts = actions@;
        let mut tacts: Vec<TickAction> = advance_tasks(
            &mut self.tasks,
            &mut self.last_start_popup,
            now_seconds,
        );
        let ghost ta = tacts@;
        actions.append(&mut tacts);
        proof {
            assert(actions@ == alerts + ta);
            lemma_task_actions_of_split(alerts, ta);
            lemma_tick_post(
                *self,
                *old(self),
                alerts,
                ta,
                ls0,
                pend0,
                pend1,
                now_seconds as int,
                now_ts as int,
                today_year as int,
                today_month as int,
                today_day as int,
            );
        }
        actions
    }

    /// Records the answer to a completion prompt for the task at
    /// index `i`: a yes marks it completed; a no leaves it
    /// uncompleted and stores the (possibly absent) reason.
    pub fn apply_completion_answer(&mut self, i: usize, yes: bool, reason: Option<String>)
        requires
            old(self).wf(),
            i < old(self).tasks@.len(),
            old(self).tasks@[i as int].completed_asked,
            !old(self).tasks@[i as int].completed,
            old(self).tasks@[i as int].reason is None,
        ensures
            final(self).wf(),
            final(self).tasks@ =~= old(self).tasks@.update(
                i as int,
                answered(old(self).tasks@[i as int], yes, reason),
            ),
            final(self).deadlines == old(self).deadlines,
            final(self).last_shown == old(self).last_shown,
            final(self).pending == old(self).pending,
            final(self).last_start_popup == old(self).last_start_popup,
    {
        if yes {
            self.tasks[i].completed = true;
        } else {
            self.tasks[i].completed = false;
            self.tasks[i].reason = reason;
        }
        proof {
            assert(self.tasks@[i as int] == answered(old(self).tasks@[i as int], yes, reason));
            assert forall|p: int|
                0 <= p < self.tasks@.len() implies (#[trigger] self.tasks@[p]).wf() by {
                assert(old(self).tasks@[p].wf());
            }
        }
    }
}

/// A prompt answer folded into the task: completion on yes; on no,
/// the given reason (absent for "no reason given").
pub open spec fn answered(t: Task, yes: bool, reason: Option<String>) -> Task {
    if yes {
        Task { completed: true, ..t }
    } else {
        Task { completed: false, reason, ..t }
    }
}

/// An empty reason counts as no reason given.
pub fn normalize_reason(reason: Option<String>) -> (r: Option<String>)
    ensures
        r == (match reason {
            Some(s) => if s@.len() == 0 {
                None
            } else {
                Some(s)
            },
            None => None::<String>,
        }),
{
    match reason {
        Some(s) => if s.as_str().is_empty() {
            None
        } else {
            Some(s)
        },
        None => None,
    }
}

/// The loop may stop: there is at least one task and the clock stands
/// strictly past every end time.
pub open spec fn spec_should_exit(tasks: Seq<Task>, now_seconds: int) -> bool {
    tasks.len() > 0 && forall|i: int| 0 <= i < tasks.len() ==> now_seconds > tasks[i].end_seconds
}

/// Whether the loop should stop: every task's window has passed and
/// the clock stands strictly past the latest end time.
pub fn should_exit(tasks: &Vec<Task>, now_seconds: u32) -> (r: bool)
    ensures
        r == spec_should_exit(tasks@, now_seconds as int),
{
    if tasks.len() == 0 {
        return false;
    }
    let mut i: usize = 0;
    while i < tasks.len()
        invariant
            i <= tasks@.len(),
            forall|j: int| 0 <= j < i ==> now_seconds > tasks@[j].end_seconds,
        decreases tasks@.len() - i,
    {
        if now_seconds <= tasks[i].end_seconds {
            return false;
        }
        i = i + 1;
    }
    true
}

/// A well-formed task keeps its lifecycle invariants: completion is
/// only asked once started, and a reason exists only for a task that
/// was asked and not completed.
pub proof fn lemma_task_invariants(t: Task)
    requires
        t.wf(),
    ensures
        t.completed_asked ==> t.started,
        t.reason is Some ==> t.completed_asked && !t.completed,
        t.start_seconds < t.end_seconds,
{
}

/// A stepped task is well-formed and quiet: stepping it again at the
/// same instant changes nothing.
pub proof fn lemma_task_step_idem(t: Task, now: int)
    requires
        t.wf(),
    ensures
        task_step(t, now).wf(),
        task_step(task_step(t, now), now) == task_step(t, now),
{
}

/// Among the deadlines that share a description, a first occurrence
/// exists.
proof fn lemma_first_occurrence_exists(dls: Seq<Deadline>, i: int)
    requires
        0 <= i < dls.len(),
    ensures
        exists|j: int|
            0 <= j <= i && (#[trigger] dls[j]).description@ == dls[i].description@
                && first_occurrence(dls, j),
    decreases i,
{
    if first_occurrence(dls, i) {
        assert(dls[i].description@ == dls[i].description@ && first_occurrence(dls, i));
    } else {
        let j = choose|j: int| 0 <= j < i && dls[j].description@ == dls[i].description@;
        lemma_first_occurrence_exists(dls, j);
    }
}

/// A sequence of deadline alerts filters to nothing.
proof fn lemma_task_actions_of_all_alerts(x: Seq<TickAction>)
    requires
        forall|n: int| 0 <= n < x.len() ==> (#[trigger] x[n]) is DeadlineAlert,
    ensures
        task_actions_of(x) =~= Seq::<TickAction>::empty(),
    decreases x.len(),
{
    if x.len() > 0 {
        assert(forall|n: int| 0 <= n < x.drop_last().len() ==> #[trigger] x.drop_last()[n]
            == x[n]);
        lemma_task_actions_of_all_alerts(x.drop_last());
    }
}

/// Filtering the deadline alerts out of the combined action sequence
/// leaves exactly the task-pass actions.
proof fn lemma_task_actions_of_split(x: Seq<TickAction>, y: Seq<TickAction>)
    requires
        forall|n: int| 0 <= n < x.len() ==> (#[trigger] x[n]) is DeadlineAlert,
        forall|n: int| 0 <= n < y.len() ==> !((#[trigger] y[n]) is DeadlineAlert),
    ensures
        task_actions_of(x + y) =~= y,
    decreases y.len(),
{
    if y.len() == 0 {
        assert(x + y =~= x);
        lemma_task_actions_of_all_alerts(x);
    } else {
        assert((x + y).drop_last() =~= x + y.drop_last());
        assert((x + y).last() == y.last());
        assert(forall|n: int| 0 <= n < y.drop_last().len() ==> #[trigger] y.drop_last()[n]
            == y[n]);
        lemma_task_actions_of_split(x, y.drop_last());
        assert(task_actions_of(x + y) =~= task_actions_of(x + y.drop_last()).push(y.last()));
        assert(y.drop_last().push(y.last()) =~= y);
    }
}

/// Appending the task actions to the deadline alerts preserves both
/// exactness statements.
#[verifier::spinoff_prover]
#[verifier::rlimit(100)]
proof fn lemma_compose_actions(
    alerts: Seq<TickAction>,
    ta: Seq<TickAction>,
    tasks0: Seq<Task>,
    lsp0: Option<String>,
    now: int,
    dls: Seq<Deadline>,
    ls: Map<Seq<char>, i64>,
    pd: Map<Seq<char>, i64>,
    now_ts: int,
    ty: int,
    tm: int,
    td: int,
)
    requires
        forall|n: int| 0 <= n < alerts.len() ==> (#[trigger] alerts[n]) is DeadlineAlert,
        forall|n: int| 0 <= n < ta.len() ==> !((#[trigger] ta[n]) is DeadlineAlert),
        deadline_alerts_exact(alerts, dls, ls, pd, now_ts, ty, tm, td),
        task_actions_exact(ta, tasks0, lsp0, now),
    ensures
        forall|k: Seq<char>| alerted(alerts + ta, k) <==> alerted(alerts, k),
        deadline_alerts_exact(alerts + ta, dls, ls, pd, now_ts, ty, tm, td),
        task_actions_exact(alerts + ta, tasks0, lsp0, now),
{
    let all = alerts + ta;
    assert forall|k: Seq<char>| alerted(all, k) implies alerted(alerts, k) by {
        let n = choose|n: int| 0 <= n < all.len() && is_alert_for(#[trigger] all[n], k);
        assert(all[n] is DeadlineAlert);
        assert(n < alerts.len());
        assert(is_alert_for(alerts[n], k));
    }
    assert forall|k: Seq<char>| alerted(alerts, k) implies alerted(all, k) by {
        let n = choose|n: int| 0 <= n < alerts.len() && is_alert_for(#[trigger] alerts[n], k);
        assert(is_alert_for(all[n], k));
    }
    assert forall|n: int|
        0 <= n < all.len() && (#[trigger] all[n]) is DeadlineAlert implies exists|i: int|
        0 <= i < dls.len() && (#[trigger] dls[i]).description@ == all[n]->DeadlineAlert_description@
            && all[n]->DeadlineAlert_days_left == dates::day_number(
            dls[i].year as int,
            dls[i].month as int,
            dls[i].day as int,
        ) - dates::day_number(ty, tm, td) && cooldown_passed(ls, dls[i].description@, now_ts)
            && !pending_live(pd, dls[i].description@, now_ts) by {
        assert(n < alerts.len());
        assert(all[n] == alerts[n]);
        let i = choose|i: int|
            0 <= i < dls.len() && (#[trigger] dls[i]).description@ == alerts[n]->DeadlineAlert_description@
                && alerts[n]->DeadlineAlert_days_left == dates::day_number(
                dls[i].year as int,
                dls[i].month as int,
                dls[i].day as int,
            ) - dates::day_number(ty, tm, td) && cooldown_passed(ls, dls[i].description@, now_ts)
                && !pending_live(pd, dls[i].description@, now_ts);
        assert(dls[i].description@ == all[n]->DeadlineAlert_description@);
    }
    assert forall|i: int|
        0 <= i < tasks0.len() implies (all.contains(
        TickAction::CompletionPrompt { task_index: i as usize },
    ) <==> ask_due(#[trigger] tasks0[i], now)) by {
        let a = TickAction::CompletionPrompt { task_index: i as usize };
        if all.contains(a) {
            let n = choose|n: int| 0 <= n < all.len() && all[n] == a;
            assert(!(a is DeadlineAlert));
            assert(n >= alerts.len());
            assert(ta[n - alerts.len()] == a);
            assert(ta.contains(a));
        }
        if ask_due(tasks0[i], now) {
            assert(ta.contains(a));
            let n = choose|n: int| 0 <= n < ta.len() && ta[n] == a;
            assert(all[alerts.len() + n] == a);
            assert(all.contains(a));
        }
    }
    assert forall|n: int|
        0 <= n < all.len() && (#[trigger] all[n]) is CompletionPrompt implies all[n]->CompletionPrompt_task_index
        < tasks0.len() && ask_due(tasks0[all[n]->CompletionPrompt_task_index as int], now) by {
        assert(n >= alerts.len());
        assert(all[n] == ta[n - alerts.len()]);
    }
    assert forall|n: int|
        0 <= n < all.len() && (#[trigger] all[n]) is StartAlert implies exists|i: int|
        0 <= i < tasks0.len() && starting_now(#[trigger] tasks0[i], now) && all[n]->StartAlert_description@
            == tasks0[i].description@ by {
        assert(n >= alerts.len());
        assert(all[n] == ta[n - alerts.len()]);
    }
}

/// Discharges the tick postconditions that need the whole final
/// state: post-quiescence and the no-op behaviour at a quiet instant.
#[verifier::spinoff_prover]
#[verifier::rlimit(100)]
proof fn lemma_tick_post(
    fin: ReminderLoop,
    init: ReminderLoop,
    alerts: Seq<TickAction>,
    ta: Seq<TickAction>,
    ls0: Map<Seq<char>, i64>,
    pend0: Map<Seq<char>, i64>,
    pend1: Map<Seq<char>, i64>,
    now_seconds: int,
    now_ts: int,
    ty: int,
    tm: int,
    td: int,
)
    requires
        init.wf(),
        ls0 == init.last_shown@,
        pend0 == init.pending@,
        pend1 == expired_pending(pend0, now_ts),
        fin.deadlines == init.deadlines,
        fin.last_shown.wf(),
        fin.pending.wf(),
        fin.tasks@.len() == init.tasks@.len(),
        forall|i: int|
            0 <= i < init.tasks@.len() ==> fin.tasks@[i] == task_step(
                #[trigger] init.tasks@[i],
                now_seconds,
            ),
        forall|n: int| 0 <= n < alerts.len() ==> (#[trigger] alerts[n]) is DeadlineAlert,
        forall|n: int| 0 <= n < ta.len() ==> !((#[trigger] ta[n]) is DeadlineAlert),
        task_actions_exact(ta, init.tasks@, init.last_start_popup, now_seconds),
        deadline_alerts_exact(alerts, init.deadlines@, ls0, pend1, now_ts, ty, tm, td),
        forall|k: Seq<char>|
            !alerted(alerts, k) ==> (fin.last_shown@.contains_key(k) <==> ls0.contains_key(k))
                && (fin.last_shown@.contains_key(k) ==> fin.last_shown@[k] == ls0[k]) && (
            fin.pending@.contains_key(k) <==> pend1.contains_key(k)) && (
            fin.pending@.contains_key(k) ==> fin.pending@[k] == pend1[k]),
        forall|k: Seq<char>|
            alerted(alerts, k) ==> fin.last_shown@.contains_key(k) && fin.last_shown@[k]
                == now_ts && fin.pending@.contains_key(k) && fin.pending@[k] == now_ts,
        (forall|j: int|
            0 <= j < init.tasks@.len() ==> !starting_now(#[trigger] init.tasks@[j], now_seconds))
            ==> fin.last_start_popup == init.last_start_popup,
    ensures
        fin.wf(),
        fin.quiescent_at(now_seconds, now_ts),
        forall|i: int|
            0 <= i < init.tasks@.len() && (#[trigger] init.tasks@[i]).started
                ==> fin.tasks@[i].started,
        task_actions_exact(alerts + ta, init.tasks@, init.last_start_popup, now_seconds),
        deadline_alerts_exact(alerts + ta, init.deadlines@, ls0, pend1, now_ts, ty, tm, td),
        forall|k: Seq<char>|
            ls0.contains_key(k) && now_ts - (#[trigger] ls0[k]) < DEADLINE_COOLDOWN as int
                ==> !alerted(alerts + ta, k) && fin.last_shown@.contains_key(k)
                && fin.last_shown@[k] == ls0[k],
        forall|k: Seq<char>|
            #![trigger alerted(alerts + ta, k)]
            alerted(alerts + ta, k) ==> fin.last_shown@.contains_key(k) && fin.last_shown@[k]
                == now_ts && fin.pending@.contains_key(k) && fin.pending@[k] == now_ts,
        forall|k: Seq<char>|
            #![trigger alerted(alerts + ta, k)]
            !alerted(alerts + ta, k) ==> (fin.last_shown@.contains_key(k) <==> ls0.contains_key(
                k,
            )) && (fin.last_shown@.contains_key(k) ==> fin.last_shown@[k] == ls0[k]) && (
            fin.pending@.contains_key(k) <==> pending_live(pend0, k, now_ts)) && (
            fin.pending@.contains_key(k) ==> fin.pending@[k] == pend0[k]),
        init.quiescent_at(now_seconds, now_ts) ==> fin.tasks@ =~= init.tasks@ && fin.last_shown@
            =~= init.last_shown@ && fin.pending@ =~= init.pending@ && fin.last_start_popup
            == init.last_start_popup && (alerts + ta).len() == 0,
{
    lemma_compose_actions(
        alerts,
        ta,
        init.tasks@,
        init.last_start_popup,
        now_seconds,
        init.deadlines@,
        ls0,
        pend1,
        now_ts,
        ty,
        tm,
        td,
    );
    assert forall|i: int|
        0 <= i < init.tasks@.len() && (#[trigger] init.tasks@[i]).started implies fin.tasks@[i].started by {
        assert(fin.tasks@[i] == task_step(init.tasks@[i], now_seconds));
    }
    assert forall|k: Seq<char>|
        ls0.contains_key(k) && now_ts - (#[trigger] ls0[k]) < DEADLINE_COOLDOWN as int implies !alerted(
        alerts + ta,
        k,
    ) && fin.last_shown@.contains_key(k) && fin.last_shown@[k] == ls0[k] by {
        assert(!cooldown_passed(ls0, k, now_ts));
        if alerted(alerts + ta, k) {
            assert(alerted(alerts, k));
            let n = choose|n: int| 0 <= n < alerts.len() && is_alert_for(#[trigger] alerts[n], k);
            assert(alerts[n] is DeadlineAlert);
            let i = choose|i: int|
                0 <= i < init.deadlines@.len() && (#[trigger] init.deadlines@[i]).description@
                    == alerts[n]->DeadlineAlert_description@ && alerts[n]->DeadlineAlert_days_left
                    == dates::day_number(
                    init.deadlines@[i].year as int,
                    init.deadlines@[i].month as int,
                    init.deadlines@[i].day as int,
                ) - dates::day_number(ty, tm, td) && cooldown_passed(
                    ls0,
                    init.deadlines@[i].description@,
                    now_ts,
                ) && !pending_live(pend1, init.deadlines@[i].description@, now_ts);
            assert(false);
        }
    }
    assert forall|k: Seq<char>| #![trigger alerted(alerts + ta, k)]
        alerted(alerts + ta, k) implies fin.last_shown@.contains_key(k) && fin.last_shown@[k]
        == now_ts && fin.pending@.contains_key(k) && fin.pending@[k] == now_ts by {
        assert(alerted(alerts, k));
    }
    assert forall|k: Seq<char>| #![trigger alerted(alerts + ta, k)]
        !alerted(alerts + ta, k) implies (fin.last_shown@.contains_key(k) <==> ls0.contains_key(
        k,
    )) && (fin.last_shown@.contains_key(k) ==> fin.last_shown@[k] == ls0[k]) && (
    fin.pending@.contains_key(k) <==> pending_live(pend0, k, now_ts)) && (
    fin.pending@.contains_key(k) ==> fin.pending@[k] == pend0[k]) by {
        assert(!alerted(alerts, k));
        assert(pend1.contains_key(k) <==> pending_live(pend0, k, now_ts));
    }
    assert forall|i: int|
        0 <= i < fin.tasks@.len() implies task_step(#[trigger] fin.tasks@[i], now_seconds)
        == fin.tasks@[i] && fin.tasks@[i].wf() by {
        assert(init.tasks@[i].wf());
        lemma_task_step_idem(init.tasks@[i], now_seconds);
    }
    assert forall|i: int|
        0 <= i < fin.deadlines@.len() implies !cooldown_passed(
        fin.last_shown@,
        (#[trigger] fin.deadlines@[i]).description@,
        now_ts,
    ) || pending_live(fin.pending@, fin.deadlines@[i].description@, now_ts) by {
        let k = fin.deadlines@[i].description@;
        if alerted(alerts, k) {
            assert(fin.last_shown@.contains_key(k) && fin.last_shown@[k] == now_ts);
        } else {
            if cooldown_passed(ls0, k, now_ts) {
                if !pending_live(pend1, k, now_ts) {
                    lemma_first_occurrence_exists(fin.deadlines@, i);
                    let j = choose|j: int|
                        0 <= j <= i && (#[trigger] fin.deadlines@[j]).description@ == k
                            && first_occurrence(fin.deadlines@, j);
                    assert(alerted(alerts, k));
                    assert(false);
                } else {
                    assert(pend1.contains_key(k));
                    assert(pending_live(pend0, k, now_ts));
                    assert(fin.pending@.contains_key(k) && fin.pending@[k] == pend1[k]);
                    assert(pending_live(fin.pending@, k, now_ts));
                }
            } else {
                assert(fin.last_shown@.contains_key(k) == ls0.contains_key(k));
            }
        }
    }
    assert forall|k: Seq<char>|
        fin.pending@.contains_key(k) implies now_ts - fin.pending@[k] < POPUP_DISPLAY_DURATION
        as int by {
        if alerted(alerts, k) {
            assert(fin.pending@[k] == now_ts);
        } else {
            assert(pend1.contains_key(k));
            assert(pending_live(pend0, k, now_ts));
        }
    }
    if init.quiescent_at(now_seconds, now_ts) {
        assert forall|i: int| 0 <= i < init.tasks@.len() implies fin.tasks@[i]
            == init.tasks@[i] by {
            assert(task_step(init.tasks@[i], now_seconds) == init.tasks@[i]);
        }
        assert(fin.tasks@ =~= init.tasks@);
        assert forall|j: int|
            0 <= j < init.tasks@.len() implies !starting_now(#[trigger] init.tasks@[j], now_seconds)
            && !ask_due(init.tasks@[j], now_seconds) by {
            assert(task_step(init.tasks@[j], now_seconds) == init.tasks@[j]);
            if starting_now(init.tasks@[j], now_seconds) {
                assert(task_step(init.tasks@[j], now_seconds).started);
            }
            if ask_due(init.tasks@[j], now_seconds) {
                assert(task_step(init.tasks@[j], now_seconds).completed_asked);
            }
        }
        assert(ta.len() == 0) by {
            if ta.len() > 0 {
                let a = ta[0];
                assert(!(a is DeadlineAlert));
                if a is CompletionPrompt {
                    let i = a->CompletionPrompt_task_index as int;
                    assert(ask_due(init.tasks@[i], now_seconds));
                    assert(false);
                } else {
                    assert(a is StartAlert);
                    let i = choose|i: int|
                        0 <= i < init.tasks@.len() && starting_now(
                            #[trigger] init.tasks@[i],
                            now_seconds,
                        ) && ta[0]->StartAlert_description@ == init.tasks@[i].description@;
                    assert(false);
                }
            }
        }
        assert(alerts.len() == 0) by {
            if alerts.len() > 0 {
                assert(alerts[0] is DeadlineAlert);
                let i = choose|i: int|
                    0 <= i < init.deadlines@.len() && (#[trigger] init.deadlines@[i]).description@
                        == alerts[0]->DeadlineAlert_description@ && alerts[0]->DeadlineAlert_days_left
                        == dates::day_number(
                        init.deadlines@[i].year as int,
                        init.deadlines@[i].month as int,
                        init.deadlines@[i].day as int,
                    ) - dates::day_number(ty, tm, td) && cooldown_passed(
                        ls0,
                        init.deadlines@[i].description@,
                        now_ts,
                    ) && !pending_live(pend1, init.deadlines@[i].description@, now_ts);
                let k = init.deadlines@[i].description@;
                assert(!cooldown_passed(ls0, k, now_ts) || pending_live(pend0, k, now_ts));
                if pending_live(pend0, k, now_ts) {
                    assert(pend1.contains_key(k) && pend1[k] == pend0[k]);
                    assert(pending_live(pend1, k, now_ts));
                }
                assert(false);
            }
        }
        assert_maps_equal!(fin.last_shown@, init.last_shown@, k => {
            assert(!alerted(alerts, k));
        });
        assert_maps_equal!(fin.pending@, init.pending@, k => {
            assert(!alerted(alerts, k));
            if pend0.contains_key(k) {
                assert(now_ts - pend0[k] < POPUP_DISPLAY_DURATION as int);
                assert(pending_live(pend0, k, now_ts));
                assert(pend1.contains_key(k) && pend1[k] == pend0[k]);
            }
        });
    }
}

} // verus!

//! Due-time alerts of tasks: which tasks ask for attention, and in what order.

use vstd::prelude::*;
use crate::ids::PlannerId;
use crate::instant::{
    is_not_after, minutes_before, not_after, parse_instant, representable, rfc3339_instant,
    subtract_minutes, Instant,
};
use crate::planner::{Planner, Task, TaskStatus};
use crate::sorting::{ranked_sorted, sort_ranked, strict_order, Ranked};
use crate::text::{lemma_text_before_irreflexive, lemma_text_before_transitive, text_before, text_equals, text_less};

verus! {

/// Whether an optional text sorts before another: a missing one first, then by text.
pub open spec fn optional_text_before(a: Option<String>, b: Option<String>) -> bool {
    match (a, b) {
        (None, Some(_)) => true,
        (Some(x), Some(y)) => text_before(x@, y@),
        _ => false,
    }
}

/// Whether two optional texts read the same.
pub open spec fn same_optional_text(a: Option<String>, b: Option<String>) -> bool {
    match (a, b) {
        (None, None) => true,
        (Some(x), Some(y)) => x@ == y@,
        _ => false,
    }
}

fn check_optional_text_before(a: &Option<String>, b: &Option<String>) -> (before: bool)
    ensures
        before == optional_text_before(*a, *b),
{
    match (a, b) {
        (None, Some(_)) => true,
        (Some(x), Some(y)) => text_less(x.as_str(), y.as_str()),
        _ => false,
    }
}

fn check_same_optional_text(a: &Option<String>, b: &Option<String>) -> (same: bool)
    ensures
        same == same_optional_text(*a, *b),
{
    match (a, b) {
        (None, None) => true,
        (Some(x), Some(y)) => text_equals(x.as_str(), y.as_str()),
        _ => false,
    }
}

/// A task waiting for attention, ranked by the due time it was alerted for,
/// then by its position in the list.
#[derive(Clone, Debug)]
pub struct TaskRank {
    pub due: Option<String>,
    pub position: usize,
}

impl Ranked for TaskRank {
    open spec fn precedes(&self, other: &Self) -> bool {
        ||| optional_text_before(self.due, other.due)
        ||| (same_optional_text(self.due, other.due) && self.position < other.position)
    }

    fn check_precedes(&self, other: &Self) -> (before: bool) {
        check_optional_text_before(&self.due, &other.due) || (check_same_optional_text(
            &self.due,
            &other.due,
        ) && self.position < other.position)
    }
}

proof fn lemma_task_rank_order()
    ensures
        strict_order::<TaskRank>(),
{
    assert forall|a: TaskRank| !#[trigger] a.precedes(&a) by {
        if let Some(x) = a.due {
            lemma_text_before_irreflexive(x@);
        }
    }
    assert forall|a: TaskRank, b: TaskRank, c: TaskRank|
        #[trigger] a.precedes(&b) && #[trigger] b.precedes(&c) implies a.precedes(&c) by {
        match (a.due, b.due, c.due) {
            (Some(x), Some(y), Some(z)) => {
                if text_before(x@, y@) && text_before(y@, z@) {
                    lemma_text_before_transitive(x@, y@, z@);
                }
                if text_before(x@, y@) && y@ == z@ {
                }
                if x@ == y@ && text_before(y@, z@) {
                }
            },
            _ => {},
        }
    }
}

/// The ranks of the tasks waiting for attention, in list order.
pub open spec fn pending_task_ranks(tasks: Seq<Task>) -> Seq<TaskRank>
    decreases tasks.len(),
{
    if tasks.len() == 0 {
        Seq::empty()
    } else {
        let rest = pending_task_ranks(tasks.drop_last());
        let t = tasks.last();
        if t.attention_pending {
            rest.push(TaskRank { due: t.attention_due_utc, position: (tasks.len() - 1) as usize })
        } else {
            rest
        }
    }
}

proof fn lemma_pending_task_ranks_positions(tasks: Seq<Task>)
    ensures
        forall|i: int|
            0 <= i < pending_task_ranks(tasks).len() ==> #[trigger] pending_task_ranks(tasks)[i].position
                < tasks.len(),
    decreases tasks.len(),
{
    if tasks.len() > 0 {
        lemma_pending_task_ranks_positions(tasks.drop_last());
    }
}

/// The identifiers of the tasks waiting for attention, in the order
/// their ranks give (see `TaskRank`).
pub open spec fn task_attention_order(tasks: Seq<Task>, ids: Seq<PlannerId>) -> bool {
    exists|ranks: Seq<TaskRank>|
        {
            &&& ranks.to_multiset() == pending_task_ranks(tasks).to_multiset()
            &&& ranked_sorted(ranks)
            &&& ranks.len() == ids.len()
            &&& forall|i: int| 0 <= i < ranks.len() ==> #[trigger] ids[i] == tasks[ranks[i].position as int].id
        }
}

/// The tasks waiting for attention, earliest alerted due time first (a task
/// without one first of all); tasks with the same due time keep their order.
pub fn pending_attention(planner: &Planner) -> (ids: Vec<PlannerId>)
    ensures
        task_attention_order(planner.tasks@, ids@),
{
    let tasks = &planner.tasks;
    let mut ranks: Vec<TaskRank> = Vec::new();
    let mut i: usize = 0;
    while i < tasks.len()
        invariant
            0 <= i <= tasks@.len(),
            ranks@ == pending_task_ranks(tasks@.take(i as int)),
        decreases tasks@.len() - i,
    {
        proof {
            assert(tasks@.take(i as int + 1).drop_last() =~= tasks@.take(i as int));
        }
        let t = &tasks[i];
        if t.attention_pending {
            let due = match &t.attention_due_utc {
                Some(text) => Some(text.clone()),
                None => None,
            };
            ranks.push(TaskRank { due, position: i });
        }
        i = i + 1;
    }
    proof {
        assert(tasks@.take(tasks@.len() as int) =~= tasks@);
        lemma_task_rank_order();
        lemma_pending_task_ranks_positions(tasks@);
    }
    let ghost unsorted = ranks@;
    let sorted = sort_ranked(ranks);
    proof {
        broadcast use vstd::seq_lib::group_to_multiset_ensures;
        assert forall|k: int| 0 <= k < sorted@.len() implies #[trigger] sorted@[k].position < tasks@.len() by {
            assert(sorted@.to_multiset().count(sorted@[k]) > 0);
            assert(unsorted.contains(sorted@[k]));
        }
    }
    let mut ids: Vec<PlannerId> = Vec::new();
    let mut k: usize = 0;
    while k < sorted.len()
        invariant
            0 <= k <= sorted@.len(),
            ids@.len() == k,
            forall|m: int| 0 <= m < sorted@.len() ==> #[trigger] sorted@[m].position < tasks@.len(),
            forall|m: int| 0 <= m < k ==> #[trigger] ids@[m] == tasks@[sorted@[m].position as int].id,
        decreases sorted@.len() - k,
    {
        let position = sorted[k].position;
        ids.push(tasks[position].id.duplicate());
        k = k + 1;
    }
    ids
}

/// The due moment and the first alert's offset of a task that an alert may
/// still be delivered for: open, not waiting for attention, with a readable
/// due time and an alert, and not yet alerted for that due time.
pub open spec fn task_alert_candidate(task: Task) -> Option<(Instant, i32)> {
    if task.status == TaskStatus::Open && !task.attention_pending && task.alerts@.len() > 0 {
        match task.due_utc {
            Some(due) => if same_optional_text(task.delivered_for_due_utc, task.due_utc) {
                None
            } else {
                match rfc3339_instant(due@) {
                    Some(moment) => Some((moment, task.alerts@[0].offset_minutes)),
                    None => None,
                }
            },
            None => None,
        }
    } else {
        None
    }
}

/// The alert moment of a candidate task lies in the calendar's range.
pub open spec fn task_alert_in_range(task: Task) -> bool {
    match task_alert_candidate(task) {
        Some((due, offset)) => minutes_before(due, offset as i64) is Some,
        None => true,
    }
}

/// Whether the task's alert moment has come by `now`.
pub open spec fn task_alert_due(task: Task, now: Instant) -> bool {
    match task_alert_candidate(task) {
        Some((due, offset)) => match minutes_before(due, offset as i64) {
            Some(alert_at) => not_after(alert_at, now),
            None => false,
        },
        None => false,
    }
}

/// A task once its alert is delivered: it waits for attention for its due time.
pub open spec fn alerted_task(task: Task) -> Task {
    Task {
        attention_pending: true,
        attention_due_utc: task.due_utc,
        delivered_for_due_utc: task.due_utc,
        ..task
    }
}

/// The tasks after delivering every alert that has come by `now`.
pub open spec fn tasks_after_alerts(tasks: Seq<Task>, now: Instant) -> Seq<Task> {
    Seq::new(tasks.len(), |i: int| if task_alert_due(tasks[i], now) { alerted_task(tasks[i]) } else { tasks[i] })
}

/// Identifiers of the tasks whose alert has come by `now`, in list order.
pub open spec fn alerted_task_ids(tasks: Seq<Task>, now: Instant) -> Seq<PlannerId>
    decreases tasks.len(),
{
    if tasks.len() == 0 {
        Seq::empty()
    } else {
        let rest = alerted_task_ids(tasks.drop_last(), now);
        if task_alert_due(tasks.last(), now) {
            rest.push(tasks.last().id)
        } else {
            rest
        }
    }
}

/// Delivers each task alert whose moment has come by `now`: the task then
/// waits for attention, and is not alerted again for the same due time.
/// Returns the tasks alerted, in list order.
pub fn reconcile(planner: &mut Planner, now: Instant) -> (delivered: Vec<PlannerId>)
    requires
        forall|i: int| 0 <= i < old(planner).tasks@.len() ==> #[trigger] task_alert_in_range(old(planner).tasks@[i]),
    ensures
        final(planner).tasks@ == tasks_after_alerts(old(planner).tasks@, now),
        delivered@ == alerted_task_ids(old(planner).tasks@, now),
        final(planner).events == old(planner).events,
        final(planner).event_receipts == old(planner).event_receipts,
        final(planner).event_checked_at_utc == old(planner).event_checked_at_utc,
        final(planner).reminders == old(planner).reminders,
        final(planner).alarms == old(planner).alarms,
        final(planner).alarm_receipts == old(planner).alarm_receipts,
        final(planner).alarm_checked_at_utc == old(planner).alarm_checked_at_utc,
        final(planner).alarm_snoozes == old(planner).alarm_snoozes,
        final(planner).timers == old(planner).timers,
        final(planner).stopwatch == old(planner).stopwatch,
{
    let ghost initial = planner.tasks@;
    let mut delivered: Vec<PlannerId> = Vec::new();
    let mut i: usize = 0;
    while i < planner.tasks.len()
        invariant
            planner.tasks@.len() == initial.len(),
            0 <= i <= initial.len(),
            forall|k: int| 0 <= k < initial.len() ==> #[trigger] task_alert_in_range(initial[k]),
            forall|k: int| 0 <= k < i ==> planner.tasks@[k] == tasks_after_alerts(initial, now)[k],
            forall|k: int| i <= k < initial.len() ==> planner.tasks@[k] == initial[k],
            delivered@ == alerted_task_ids(initial.take(i as int), now),
            planner.events == old(planner).events,
            planner.event_receipts == old(planner).event_receipts,
            planner.event_checked_at_utc == old(planner).event_checked_at_utc,
            planner.reminders == old(planner).reminders,
            planner.alarms == old(planner).alarms,
            planner.alarm_receipts == old(planner).alarm_receipts,
            planner.alarm_checked_at_utc == old(planner).alarm_checked_at_utc,
            planner.alarm_snoozes == old(planner).alarm_snoozes,
            planner.timers == old(planner).timers,
            planner.stopwatch == old(planner).stopwatch,
        decreases initial.len() - i,
    {
        proof {
            assert(initial.take(i as int + 1).drop_last() =~= initial.take(i as int));
            assert(initial.take(i as int + 1).last() == initial[i as int]);
        }
        let fires = task_alert_has_come(&planner.tasks[i], now);
        if fires {
            let ghost before = planner.tasks@;
            let mut task = planner.tasks.remove(i);
            let due = match &task.due_utc {
                Some(text) => Some(text.clone()),
                None => None,
            };
            let again = match &task.due_utc {
                Some(text) => Some(text.clone()),
                None => None,
            };
            task.attention_pending = true;
            task.attention_due_utc = due;
            task.delivered_for_due_utc = again;
            delivered.push(task.id.duplicate());
            planner.tasks.insert(i, task);
            proof {
                assert(planner.tasks@ =~= before.update(i as int, alerted_task(initial[i as int])));
            }
        }
        i = i + 1;
    }
    proof {
        assert(initial.take(initial.len() as int) =~= initial);
        assert(planner.tasks@ =~= tasks_after_alerts(initial, now));
    }
    delivered
}

fn task_alert_has_come(task: &Task, now: Instant) -> (due: bool)
    requires
        task_alert_in_range(*task),
    ensures
        due == task_alert_due(*task, now),
{
    match task_alert_moment(task) {
        Some(Some(alert_at)) => is_not_after(alert_at, now),
        _ => false,
    }
}

/// The alert moment of a candidate task: `None` when the task is no
/// candidate, `Some(None)` when the moment is outside the calendar's range.
fn task_alert_moment(task: &Task) -> (moment: Option<Option<Instant>>)
    ensures
        match task_alert_candidate(*task) {
            Some((due, offset)) => moment == Some(minutes_before(due, offset as i64)),
            None => moment is None,
        },
{
    if task.status != TaskStatus::Open || task.attention_pending || task.alerts.len() == 0 {
        return None;
    }
    let due_text = match &task.due_utc {
        Some(text) => text,
        None => return None,
    };
    if check_same_optional_text(&task.delivered_for_due_utc, &task.due_utc) {
        return None;
    }
    let due = match parse_instant(due_text.as_str()) {
        Some(moment) => moment,
        None => return None,
    };
    Some(subtract_minutes(due, task.alerts[0].offset_minutes as i64))
}

/// Whether every task alert moment lies in the calendar's range.
pub fn task_alerts_in_range(planner: &Planner) -> (in_range: bool)
    ensures
        in_range == forall|i: int| 0 <= i < planner.tasks@.len() ==> #[trigger] task_alert_in_range(planner.tasks@[i]),
{
    let mut i: usize = 0;
    while i < planner.tasks.len()
        invariant
            0 <= i <= planner.tasks@.len(),
            forall|k: int| 0 <= k < i ==> #[trigger] task_alert_in_range(planner.tasks@[k]),
        decreases planner.tasks@.len() - i,
    {
        let moment = task_alert_moment(&planner.tasks[i]);
        if let Some(None) = moment {
            assert(!task_alert_in_range(planner.tasks@[i as int]));
            return false;
        }
        i = i + 1;
    }
    true
}

/// Delivers the task alerts that have come by `now`, as `reconcile` does,
/// when every alert moment lies in the calendar's range; otherwise changes
/// nothing and returns `None`.
pub fn try_reconcile(planner: &mut Planner, now: Instant) -> (delivered: Option<Vec<PlannerId>>)
    ensures
        match delivered {
            Some(ids) => {
                &&& forall|i: int| 0 <= i < old(planner).tasks@.len() ==> #[trigger] task_alert_in_range(old(planner).tasks@[i])
                &&& final(planner).tasks@ == tasks_after_alerts(old(planner).tasks@, now)
                &&& ids@ == alerted_task_ids(old(planner).tasks@, now)
                &&& final(planner).timers == old(planner).timers
                &&& final(planner).reminders == old(planner).reminders
                &&& final(planner).events == old(planner).events
            },
            None => {
                &&& !forall|i: int| 0 <= i < old(planner).tasks@.len() ==> #[trigger] task_alert_in_range(old(planner).tasks@[i])
                &&& *final(planner) == *old(planner)
            },
        },
{
    if task_alerts_in_range(planner) {
        Some(reconcile(planner, now))
    } else {
        None
    }
}


/// A task is alerted once for its due time: once alerted, no later moment
/// alerts it again while its due time and delivery mark stay as the alert
/// left them, whether or not its attention was dismissed since.
pub proof fn lemma_task_alerted_once(task: Task, now: Instant, later_task: Task, later: Instant)
    requires
        task_alert_due(task, now),
        later_task.due_utc == alerted_task(task).due_utc,
        later_task.delivered_for_due_utc == alerted_task(task).delivered_for_due_utc,
    ensures
        !task_alert_due(later_task, later),
{
    let due = task.due_utc->0;
    assert(same_optional_text(later_task.delivered_for_due_utc, later_task.due_utc));
}

/// Which tasks an alert reaches. Only an open task that is not already
/// waiting for attention, with a readable due time, an alert, and no
/// delivery yet for that due time is alerted, and it is alerted exactly when
/// its first alert's moment (that many minutes before the due time) has come.
/// Reconciling leaves every other task as it is and never lists it: each task
/// listed is an open task of the list, and every task that is not open comes
/// out unchanged.
pub proof fn lemma_only_open_tasks_are_alerted(tasks: Seq<Task>, now: Instant)
    ensures
        forall|task: Task| #[trigger] task_alert_due(task, now) <==> {
            let due = rfc3339_instant(task.due_utc->0@);
            let alert_at = minutes_before(due->0, task.alerts@[0].offset_minutes as i64);
            &&& task.status == TaskStatus::Open
            &&& !task.attention_pending
            &&& task.alerts@.len() > 0
            &&& task.due_utc is Some
            &&& !same_optional_text(task.delivered_for_due_utc, task.due_utc)
            &&& due is Some
            &&& alert_at is Some
            &&& not_after(alert_at->0, now)
        },
        forall|i: int|
            0 <= i < tasks.len() && tasks[i].status != TaskStatus::Open ==> #[trigger] tasks_after_alerts(
                tasks,
                now,
            )[i] == tasks[i],
        forall|k: int|
            0 <= k < alerted_task_ids(tasks, now).len() ==> exists|i: int|
                0 <= i < tasks.len() && #[trigger] tasks[i].id == #[trigger] alerted_task_ids(tasks, now)[k]
                    && tasks[i].status == TaskStatus::Open,
    decreases tasks.len(),
{
    if tasks.len() > 0 {
        let rest = tasks.drop_last();
        lemma_only_open_tasks_are_alerted(rest, now);
        assert forall|k: int| 0 <= k < alerted_task_ids(tasks, now).len() implies exists|i: int|
            0 <= i < tasks.len() && #[trigger] tasks[i].id == #[trigger] alerted_task_ids(tasks, now)[k]
                && tasks[i].status == TaskStatus::Open by {
            let ids = alerted_task_ids(tasks, now);
            if k < alerted_task_ids(rest, now).len() {
                assert(ids[k] == alerted_task_ids(rest, now)[k]);
                let i = choose|i: int|
                    0 <= i < rest.len() && #[trigger] rest[i].id == #[trigger] alerted_task_ids(rest, now)[k]
                        && rest[i].status == TaskStatus::Open;
                assert(tasks[i] == rest[i]);
            } else {
                assert(task_alert_due(tasks.last(), now));
                assert(tasks[tasks.len() - 1].id == ids[k]);
            }
        }
    }
}
} // verus!

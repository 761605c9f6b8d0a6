//! The queues of the attention windows: what each waiting task, event,
//! reminder and timer shows, in the order the planner gives them.

use vstd::prelude::*;
use std::collections::VecDeque;
use crate::clock::Clock;
use crate::clock_views::{main_time_zone, main_zone_text};
use crate::event_time::{event_attention_order, pending_attention as pending_events};
use crate::ids::PlannerId;
use crate::instant::{parse_instant, rfc3339_instant};
use crate::keyed::{find_by_key, index_of_key, lemma_index_of_key};
use crate::models::{timer_display_title, timer_duration_text};
use crate::plan_week::{read_or_utc, reading_or_utc};
use crate::planner::{Event, EventReceipt, Planner, Reminder, Task, Timer};
use crate::reminder_time::{pending_attention as pending_reminders, reminder_attention_order};
use crate::task_time::{pending_attention as pending_tasks, task_attention_order};
use crate::text::{padded2, push_char, push_padded2, push_str};
use crate::timer_time::{pending_attention as pending_timers, timers_needing_attention};
use crate::zoned::{valid_local, LocalDateTime};

verus! {

/// English three-letter month names.
pub open spec fn month_short(month: int) -> Seq<char> {
    if month == 1 {
        "Jan"@
    } else if month == 2 {
        "Feb"@
    } else if month == 3 {
        "Mar"@
    } else if month == 4 {
        "Apr"@
    } else if month == 5 {
        "May"@
    } else if month == 6 {
        "Jun"@
    } else if month == 7 {
        "Jul"@
    } else if month == 8 {
        "Aug"@
    } else if month == 9 {
        "Sep"@
    } else if month == 10 {
        "Oct"@
    } else if month == 11 {
        "Nov"@
    } else {
        "Dec"@
    }
}

fn month_short_name(month: u32) -> (name: &'static str)
    ensures
        name@ == month_short(month as int),
{
    if month == 1 {
        "Jan"
    } else if month == 2 {
        "Feb"
    } else if month == 3 {
        "Mar"
    } else if month == 4 {
        "Apr"
    } else if month == 5 {
        "May"
    } else if month == 6 {
        "Jun"
    } else if month == 7 {
        "Jul"
    } else if month == 8 {
        "Aug"
    } else if month == 9 {
        "Sep"
    } else if month == 10 {
        "Oct"
    } else if month == 11 {
        "Nov"
    } else {
        "Dec"
    }
}

/// A wall-clock time as `DD Mon · HH:MM` (chrono's `%d %b · %H:%M`).
pub open spec fn day_month_time(local: LocalDateTime) -> Seq<char> {
    padded2(local.date.day as nat) + " "@ + month_short(local.date.month as int) + " · "@ + padded2(
        local.hour as nat,
    ) + seq![':'] + padded2(local.minute as nat)
}

fn push_day_month_time(text: &mut String, local: LocalDateTime)
    ensures
        final(text)@ == old(text)@ + day_month_time(local),
{
    push_padded2(text, local.date.day as u128);
    push_str(text, " ");
    push_str(text, month_short_name(local.date.month));
    push_str(text, " · ");
    push_padded2(text, local.hour as u128);
    push_char(text, ':');
    push_padded2(text, local.minute as u128);
    assert(final(text)@ =~= old(text)@ + day_month_time(local));
}

/// `prefix` and the wall-clock time of a moment text in `zone`, when the
/// text names a moment.
pub open spec fn moment_label(prefix: Seq<char>, text: Seq<char>, zone: Seq<char>) -> Option<Seq<char>> {
    match rfc3339_instant(text) {
        Some(moment) => match reading_or_utc(zone, moment) {
            Some(local) => Some(prefix + day_month_time(local)),
            None => None,
        },
        None => None,
    }
}

fn label_moment(prefix: &str, text: &str, zone: &str) -> (label: Option<String>)
    ensures
        match moment_label(prefix@, text@, zone@) {
            Some(l) => label matches Some(s) && s@ == l,
            None => label is None,
        },
{
    let moment = match parse_instant(text) {
        Some(m) => m,
        None => return None,
    };
    let local = match read_or_utc(zone, moment) {
        Some(l) => l,
        None => return None,
    };
    let mut label = prefix.to_owned();
    push_day_month_time(&mut label, local);
    Some(label)
}

/// When a timer rang, on the wall clock of the main clock's zone; empty
/// when it has not rung or the moment cannot be read.
pub open spec fn triggered_text(timer: Timer, clocks: Seq<Clock>) -> Seq<char> {
    match timer.attention_triggered_at_utc {
        Some(text) => match moment_label(Seq::empty(), text@, main_zone_text(clocks)) {
            Some(l) => l,
            None => Seq::empty(),
        },
        None => Seq::empty(),
    }
}

/// When a timer rang, as `DD Mon · HH:MM` on the main clock.
pub fn timer_triggered_label(timer: &Timer, clocks: &Vec<Clock>) -> (label: String)
    ensures
        label@ == triggered_text(*timer, clocks@),
{
    let zone = main_time_zone(clocks);
    match &timer.attention_triggered_at_utc {
        Some(text) => {
            proof {
                assert(""@ =~= Seq::<char>::empty()) by {
                    reveal_strlit("");
                }
            }
            match label_moment("", text.as_str(), zone.as_str()) {
                Some(l) => l,
                None => String::new(),
            }
        },
        None => String::new(),
    }
}

/// A task waiting for attention, as its window shows it.
#[derive(Clone, Debug)]
pub struct TaskAttentionItem {
    pub task_id: PlannerId,
    pub title: String,
    pub time: String,
}

/// What the window shows for the task with identifier `id`: its title and
/// `Due ` with the time it became due on the main clock.
pub open spec fn task_item(tasks: Seq<Task>, zone: Seq<char>, id: Seq<char>) -> Option<(Seq<char>, Seq<char>, Seq<char>)> {
    let i = index_of_key(tasks, id);
    if i < tasks.len() {
        match tasks[i].attention_due_utc {
            Some(text) => match moment_label("Due "@, text@, zone) {
                Some(time) => Some((id, tasks[i].title@, time)),
                None => None,
            },
            None => None,
        }
    } else {
        None
    }
}

pub open spec fn task_item_view(item: TaskAttentionItem) -> (Seq<char>, Seq<char>, Seq<char>) {
    (item.task_id@, item.title@, item.time@)
}

/// The window's entry for a task waiting for attention, if it has one.
pub fn task_attention_item(id: &PlannerId, planner: &Planner, zone: &str) -> (item: Option<TaskAttentionItem>)
    ensures
        match task_item(planner.tasks@, zone@, id@) {
            Some(v) => item matches Some(i) && task_item_view(i) == v,
            None => item is None,
        },
{
    proof {
        lemma_index_of_key(planner.tasks@, id@);
    }
    let i = find_by_key(&planner.tasks, id);
    if i >= planner.tasks.len() {
        return None;
    }
    let task = &planner.tasks[i];
    let due = match &task.attention_due_utc {
        Some(text) => text,
        None => return None,
    };
    match label_moment("Due ", due.as_str(), zone) {
        Some(time) => Some(TaskAttentionItem { task_id: id.duplicate(), title: task.title.clone(), time }),
        None => None,
    }
}

/// The tasks waiting for attention, in the planner's order, as their
/// window shows them on the main clock.
pub fn pending_task_attention_items(planner: &Planner, clocks: &Vec<Clock>) -> (items: VecDeque<TaskAttentionItem>)
    ensures
        exists|ids: Seq<PlannerId>|
            {
                &&& task_attention_order(planner.tasks@, ids)
                &&& items@.map_values(|i: TaskAttentionItem| task_item_view(i)) == ids.filter_map(
                    |id: PlannerId| task_item(planner.tasks@, main_zone_text(clocks@), id@),
                )
            },
{
    let zone = main_time_zone(clocks);
    let ids = pending_tasks(planner);
    let ghost f = |id: PlannerId| task_item(planner.tasks@, zone@, id@);
    let mut items: VecDeque<TaskAttentionItem> = VecDeque::new();
    let mut k: usize = 0;
    while k < ids.len()
        invariant
            0 <= k <= ids@.len(),
            f == (|id: PlannerId| task_item(planner.tasks@, zone@, id@)),
            items@.map_values(|i: TaskAttentionItem| task_item_view(i)) == ids@.take(k as int).filter_map(f),
        decreases ids@.len() - k,
    {
        proof {
            ids@.lemma_filter_map_take_succ(f, k as int);
        }
        let ghost before = items@;
        if let Some(item) = task_attention_item(&ids[k], planner, zone.as_str()) {
            items.push_back(item);
            assert(items@.map_values(|i: TaskAttentionItem| task_item_view(i)) =~= before.map_values(
                |i: TaskAttentionItem| task_item_view(i),
            ).push(task_item_view(item)));
        }
        k = k + 1;
    }
    assert(ids@.take(k as int) =~= ids@);
    items
}

/// An event alert waiting for acknowledgement, as its window shows it.
#[derive(Clone, Debug)]
pub struct EventAttentionItem {
    pub event_id: PlannerId,
    pub occurrence_utc: String,
    pub title: String,
    pub time: String,
}

/// What the window shows for a receipt: the title of its event and
/// `Starts ` with the occurrence's start on the main clock.
pub open spec fn event_item(events: Seq<Event>, zone: Seq<char>, receipt: EventReceipt) -> Option<(Seq<char>, Seq<char>, Seq<char>, Seq<char>)> {
    let i = index_of_key(events, receipt.event_id@);
    if i < events.len() {
        match moment_label("Starts "@, receipt.occurrence_utc@, zone) {
            Some(time) => Some((receipt.event_id@, receipt.occurrence_utc@, events[i].title@, time)),
            None => None,
        }
    } else {
        None
    }
}

pub open spec fn event_item_view(item: EventAttentionItem) -> (Seq<char>, Seq<char>, Seq<char>, Seq<char>) {
    (item.event_id@, item.occurrence_utc@, item.title@, item.time@)
}

/// The window's entry for an event receipt, if its event still exists.
pub fn event_attention_item(receipt: &EventReceipt, planner: &Planner, zone: &str) -> (item: Option<EventAttentionItem>)
    ensures
        match event_item(planner.events@, zone@, *receipt) {
            Some(v) => item matches Some(i) && event_item_view(i) == v,
            None => item is None,
        },
{
    proof {
        lemma_index_of_key(planner.events@, receipt.event_id@);
    }
    let i = find_by_key(&planner.events, &receipt.event_id);
    if i >= planner.events.len() {
        return None;
    }
    let event = &planner.events[i];
    match label_moment("Starts ", receipt.occurrence_utc.as_str(), zone) {
        Some(time) => Some(
            EventAttentionItem {
                event_id: receipt.event_id.duplicate(),
                occurrence_utc: receipt.occurrence_utc.clone(),
                title: event.title.clone(),
                time,
            },
        ),
        None => None,
    }
}

/// The event alerts waiting for acknowledgement, in the planner's order,
/// as their window shows them on the main clock.
pub fn pending_event_attention_items(planner: &Planner, clocks: &Vec<Clock>) -> (items: VecDeque<EventAttentionItem>)
    ensures
        exists|pending: Seq<EventReceipt>|
            {
                &&& event_attention_order(planner.event_receipts@, pending)
                &&& items@.map_values(|i: EventAttentionItem| event_item_view(i)) == pending.filter_map(
                    |r: EventReceipt| event_item(planner.events@, main_zone_text(clocks@), r),
                )
            },
{
    let zone = main_time_zone(clocks);
    let pending = pending_events(planner);
    let ghost f = |r: EventReceipt| event_item(planner.events@, zone@, r);
    let mut items: VecDeque<EventAttentionItem> = VecDeque::new();
    let mut k: usize = 0;
    while k < pending.len()
        invariant
            0 <= k <= pending@.len(),
            f == (|r: EventReceipt| event_item(planner.events@, zone@, r)),
            items@.map_values(|i: EventAttentionItem| event_item_view(i)) == pending@.take(k as int).filter_map(f),
        decreases pending@.len() - k,
    {
        proof {
            pending@.lemma_filter_map_take_succ(f, k as int);
        }
        let ghost before = items@;
        if let Some(item) = event_attention_item(&pending[k], planner, zone.as_str()) {
            items.push_back(item);
            assert(items@.map_values(|i: EventAttentionItem| event_item_view(i)) =~= before.map_values(
                |i: EventAttentionItem| event_item_view(i),
            ).push(event_item_view(item)));
        }
        k = k + 1;
    }
    assert(pending@.take(k as int) =~= pending@);
    items
}

/// A delivered reminder waiting for dismissal, as its window shows it.
#[derive(Clone, Debug)]
pub struct ReminderAttentionItem {
    pub reminder_id: PlannerId,
    pub title: String,
}

/// The title of the reminder with identifier `id`, if there is one.
pub open spec fn reminder_item(reminders: Seq<Reminder>, id: Seq<char>) -> Option<(Seq<char>, Seq<char>)> {
    let i = index_of_key(reminders, id);
    if i < reminders.len() {
        Some((id, reminders[i].title@))
    } else {
        None
    }
}

pub open spec fn reminder_item_view(item: ReminderAttentionItem) -> (Seq<char>, Seq<char>) {
    (item.reminder_id@, item.title@)
}

/// The delivered reminders waiting for dismissal, in the planner's order.
pub fn pending_reminder_attention_items(planner: &Planner) -> (items: VecDeque<ReminderAttentionItem>)
    ensures
        exists|ids: Seq<PlannerId>|
            {
                &&& reminder_attention_order(planner.reminders@, ids)
                &&& items@.map_values(|i: ReminderAttentionItem| reminder_item_view(i)) == ids.filter_map(
                    |id: PlannerId| reminder_item(planner.reminders@, id@),
                )
            },
{
    let ids = pending_reminders(planner);
    let ghost f = |id: PlannerId| reminder_item(planner.reminders@, id@);
    let mut items: VecDeque<ReminderAttentionItem> = VecDeque::new();
    let mut k: usize = 0;
    while k < ids.len()
        invariant
            0 <= k <= ids@.len(),
            f == (|id: PlannerId| reminder_item(planner.reminders@, id@)),
            items@.map_values(|i: ReminderAttentionItem| reminder_item_view(i)) == ids@.take(k as int).filter_map(f),
        decreases ids@.len() - k,
    {
        proof {
            ids@.lemma_filter_map_take_succ(f, k as int);
            lemma_index_of_key(planner.reminders@, ids@[k as int]@);
        }
        let ghost before = items@;
        let i = find_by_key(&planner.reminders, &ids[k]);
        if i < planner.reminders.len() {
            let item = ReminderAttentionItem { reminder_id: ids[k].duplicate(), title: planner.reminders[i].title.clone() };
            items.push_back(item);
            assert(items@.map_values(|i: ReminderAttentionItem| reminder_item_view(i)) =~= before.map_values(
                |i: ReminderAttentionItem| reminder_item_view(i),
            ).push(reminder_item_view(item)));
        }
        k = k + 1;
    }
    assert(ids@.take(k as int) =~= ids@);
    items
}

/// A finished timer waiting for attention, as its window shows it.
#[derive(Clone, Debug)]
pub struct TimerAttentionItem {
    pub timer_id: PlannerId,
    pub title: String,
    pub triggered_at: String,
}

/// What the window shows for the timer with identifier `id`: its title
/// with its duration, and when it rang on the main clock.
pub open spec fn timer_item(timers: Seq<Timer>, clocks: Seq<Clock>, id: Seq<char>) -> Option<(Seq<char>, Seq<char>, Seq<char>)> {
    let i = index_of_key(timers, id);
    if i < timers.len() {
        Some((
            id,
            timers[i].title@ + " — "@ + timer_duration_text(timers[i].duration_seconds as nat),
            triggered_text(timers[i], clocks),
        ))
    } else {
        None
    }
}

pub open spec fn timer_item_view(item: TimerAttentionItem) -> (Seq<char>, Seq<char>, Seq<char>) {
    (item.timer_id@, item.title@, item.triggered_at@)
}

/// The timers waiting for attention, in the planner's order.
pub fn pending_timer_attention_items(planner: &Planner, clocks: &Vec<Clock>) -> (items: VecDeque<TimerAttentionItem>)
    ensures
        items@.map_values(|i: TimerAttentionItem| timer_item_view(i)) == timers_needing_attention(planner.timers@).filter_map(
            |id: PlannerId| timer_item(planner.timers@, clocks@, id@),
        ),
{
    let ids = pending_timers(planner);
    let ghost f = |id: PlannerId| timer_item(planner.timers@, clocks@, id@);
    let mut items: VecDeque<TimerAttentionItem> = VecDeque::new();
    let mut k: usize = 0;
    while k < ids.len()
        invariant
            0 <= k <= ids@.len(),
            f == (|id: PlannerId| timer_item(planner.timers@, clocks@, id@)),
            items@.map_values(|i: TimerAttentionItem| timer_item_view(i)) == ids@.take(k as int).filter_map(f),
        decreases ids@.len() - k,
    {
        proof {
            ids@.lemma_filter_map_take_succ(f, k as int);
            lemma_index_of_key(planner.timers@, ids@[k as int]@);
        }
        let ghost before = items@;
        let i = find_by_key(&planner.timers, &ids[k]);
        if i < planner.timers.len() {
            let timer = &planner.timers[i];
            let item = TimerAttentionItem {
                timer_id: ids[k].duplicate(),
                title: timer_display_title(timer),
                triggered_at: timer_triggered_label(timer, clocks),
            };
            items.push_back(item);
            assert(items@.map_values(|i: TimerAttentionItem| timer_item_view(i)) =~= before.map_values(
                |i: TimerAttentionItem| timer_item_view(i),
            ).push(timer_item_view(item)));
        }
        k = k + 1;
    }
    assert(ids@.take(k as int) =~= ids@);
    items
}

} // verus!

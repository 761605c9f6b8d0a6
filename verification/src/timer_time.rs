//! Countdowns measured against the clock: what is left, and which ran out.

use vstd::prelude::*;
use crate::ids::PlannerId;
use crate::instant::{
    instant_text, parse_instant, representable, rfc3339_instant, seconds_between, utc_rfc3339,
    whole_seconds_between, Instant,
};
use crate::keyed::{find_by_key, index_of_key, lemma_index_of_key, Keyed};
use crate::planner::{Planner, Timer, TimerState};

verus! {

/// Whole seconds a running countdown has run by `now`: none when its start is
/// missing or unreadable, and never a negative amount.
pub open spec fn elapsed_since_start(timer: Timer, now: Instant) -> int {
    match timer.started_at_utc {
        Some(text) => match rfc3339_instant(text@) {
            Some(start) => if whole_seconds_between(now, start) > 0 {
                whole_seconds_between(now, start) as int
            } else {
                0
            },
            None => 0,
        },
        None => 0,
    }
}

/// What is left of a countdown at `now`; only a running countdown moves.
pub open spec fn timer_remaining(timer: Timer, now: Instant) -> u64 {
    if timer.state != TimerState::Running {
        timer.remaining_seconds
    } else if elapsed_since_start(timer, now) >= timer.remaining_seconds {
        0
    } else {
        (timer.remaining_seconds - elapsed_since_start(timer, now)) as u64
    }
}

/// The seconds left of a countdown at `now`, reconstructed from its start.
pub fn remaining_seconds(timer: &Timer, now: Instant) -> (remaining: u64)
    requires
        representable(now),
    ensures
        remaining == timer_remaining(*timer, now),
{
    if timer.state != TimerState::Running {
        return timer.remaining_seconds;
    }
    let elapsed: u64 = match &timer.started_at_utc {
        Some(text) => match parse_instant(text.as_str()) {
            Some(start) => {
                let seconds = seconds_between(now, start);
                if seconds > 0 {
                    seconds as u64
                } else {
                    0
                }
            },
            None => 0,
        },
        None => 0,
    };
    timer.remaining_seconds.saturating_sub(elapsed)
}

/// A countdown that is running and has nothing left at `now`.
pub open spec fn timer_due(timer: Timer, now: Instant) -> bool {
    timer.state == TimerState::Running && timer_remaining(timer, now) == 0
}

/// Identifiers of the countdowns that ran out by `now`, in list order.
pub open spec fn due_timer_ids(timers: Seq<Timer>, now: Instant) -> Seq<PlannerId>
    decreases timers.len(),
{
    if timers.len() == 0 {
        Seq::empty()
    } else {
        let rest = due_timer_ids(timers.drop_last(), now);
        if timer_due(timers.last(), now) {
            rest.push(timers.last().id)
        } else {
            rest
        }
    }
}

/// Whether a repeating countdown runs again, and the repeats left after this run.
pub open spec fn repeat_decision(timer: Timer) -> (bool, Option<u32>) {
    if !timer.repeat {
        (false, timer.repeats_remaining)
    } else {
        match timer.repeats_remaining {
            Some(left) => if left > 0 {
                (true, Some((left - 1) as u32))
            } else {
                (false, Some(left))
            },
            None => (true, None),
        }
    }
}

/// A countdown that ran out at the moment written `now_text`: it finishes and
/// asks for attention (stamped once), then starts over when it repeats.
pub open spec fn fired_timer(timer: Timer, now_text: String) -> Timer {
    let triggered = if timer.attention_pending {
        timer.attention_triggered_at_utc
    } else {
        Some(now_text)
    };
    let (again, left) = repeat_decision(timer);
    if again {
        Timer {
            state: TimerState::Running,
            remaining_seconds: timer.duration_seconds,
            started_at_utc: Some(now_text),
            attention_pending: true,
            attention_triggered_at_utc: triggered,
            repeats_remaining: left,
            ..timer
        }
    } else {
        Timer {
            state: TimerState::Finished,
            remaining_seconds: 0,
            started_at_utc: None,
            attention_pending: true,
            attention_triggered_at_utc: triggered,
            repeats_remaining: left,
            ..timer
        }
    }
}

/// Fires, one identifier after the other, the first countdown that carries
/// it; gives the countdowns after that and the identifiers that newly ask
/// for attention.
pub open spec fn fire_in_turn(timers: Seq<Timer>, ids: Seq<PlannerId>, now_text: String) -> (
    Seq<Timer>,
    Seq<PlannerId>,
)
    decreases ids.len(),
{
    if ids.len() == 0 {
        (timers, Seq::empty())
    } else {
        let (current, newly) = fire_in_turn(timers, ids.drop_last(), now_text);
        let k = index_of_key(current, ids.last()@);
        if 0 <= k < current.len() {
            let timer = current[k];
            (
                current.update(k, fired_timer(timer, now_text)),
                if timer.attention_pending {
                    newly
                } else {
                    newly.push(ids.last())
                },
            )
        } else {
            (current, newly)
        }
    }
}

fn fire_timer(timer: &mut Timer, now_text: &String)
    ensures
        *final(timer) == fired_timer(*old(timer), *now_text),
{
    let was_pending = timer.attention_pending;
    timer.finish();
    if !was_pending {
        timer.attention_triggered_at_utc = Some(now_text.clone());
    }
    let again = if timer.repeat {
        match timer.repeats_remaining {
            Some(left) => if left > 0 {
                timer.repeats_remaining = Some(left - 1);
                true
            } else {
                false
            },
            None => true,
        }
    } else {
        false
    };
    if again {
        timer.state = TimerState::Running;
        timer.remaining_seconds = timer.duration_seconds;
        timer.started_at_utc = Some(now_text.clone());
    }
}

/// Finishes every running countdown that ran out by `now`; a repeating one
/// starts over from `now`. Returns the identifiers that newly ask for
/// attention (one already waiting for attention is not reported again).
pub fn reconcile(planner: &mut Planner, now: Instant) -> (newly_pending: Vec<PlannerId>)
    requires
        representable(now),
    ensures
        exists|now_text: String|
            {
                &&& now_text@ == utc_rfc3339(now)
                &&& fire_in_turn(old(planner).timers@, due_timer_ids(old(planner).timers@, now), now_text)
                    == (final(planner).timers@, newly_pending@)
            },
        final(planner).events == old(planner).events,
        final(planner).event_receipts == old(planner).event_receipts,
        final(planner).event_checked_at_utc == old(planner).event_checked_at_utc,
        final(planner).tasks == old(planner).tasks,
        final(planner).reminders == old(planner).reminders,
        final(planner).alarms == old(planner).alarms,
        final(planner).alarm_receipts == old(planner).alarm_receipts,
        final(planner).alarm_checked_at_utc == old(planner).alarm_checked_at_utc,
        final(planner).alarm_snoozes == old(planner).alarm_snoozes,
        final(planner).stopwatch == old(planner).stopwatch,
{
    let ghost original = planner.timers@;
    let mut due: Vec<PlannerId> = Vec::new();
    let mut i: usize = 0;
    while i < planner.timers.len()
        invariant
            planner.timers@ == original,
            representable(now),
            0 <= i <= original.len(),
            due@ == due_timer_ids(original.take(i as int), now),
        decreases original.len() - i,
    {
        let timer = &planner.timers[i];
        proof {
            assert(original.take(i as int + 1).drop_last() =~= original.take(i as int));
        }
        if timer.state == TimerState::Running && remaining_seconds(timer, now) == 0 {
            due.push(timer.id.duplicate());
        }
        i = i + 1;
    }
    proof {
        assert(original.take(original.len() as int) =~= original);
    }
    let now_text = instant_text(now);
    let mut newly: Vec<PlannerId> = Vec::new();
    let mut j: usize = 0;
    while j < due.len()
        invariant
            0 <= j <= due@.len(),
            due@ == due_timer_ids(original, now),
            fire_in_turn(original, due@.take(j as int), now_text) == (planner.timers@, newly@),
            planner.events == old(planner).events,
            planner.event_receipts == old(planner).event_receipts,
            planner.event_checked_at_utc == old(planner).event_checked_at_utc,
            planner.tasks == old(planner).tasks,
            planner.reminders == old(planner).reminders,
            planner.alarms == old(planner).alarms,
            planner.alarm_receipts == old(planner).alarm_receipts,
            planner.alarm_checked_at_utc == old(planner).alarm_checked_at_utc,
            planner.alarm_snoozes == old(planner).alarm_snoozes,
            planner.stopwatch == old(planner).stopwatch,
        decreases due@.len() - j,
    {
        let id = &due[j];
        proof {
            assert(due@.take(j as int + 1).drop_last() =~= due@.take(j as int));
            lemma_index_of_key(planner.timers@, id@);
        }
        let k = find_by_key(&planner.timers, id);
        if k < planner.timers.len() {
            let ghost before = planner.timers@;
            let mut timer = planner.timers.remove(k);
            let was_pending = timer.attention_pending;
            fire_timer(&mut timer, &now_text);
            planner.timers.insert(k, timer);
            proof {
                assert(planner.timers@ =~= before.update(k as int, fired_timer(before[k as int], now_text)));
            }
            if !was_pending {
                newly.push(id.duplicate());
            }
        }
        j = j + 1;
    }
    proof {
        assert(due@.take(due@.len() as int) =~= due@);
    }
    newly
}

/// Identifiers of the countdowns that ask for attention: those waiting for
/// it and those that finished, in list order.
pub open spec fn timers_needing_attention(timers: Seq<Timer>) -> Seq<PlannerId>
    decreases timers.len(),
{
    if timers.len() == 0 {
        Seq::empty()
    } else {
        let rest = timers_needing_attention(timers.drop_last());
        let t = timers.last();
        if t.attention_pending || t.state == TimerState::Finished {
            rest.push(t.id)
        } else {
            rest
        }
    }
}

/// The countdowns that ask for attention.
pub fn pending_attention(planner: &Planner) -> (ids: Vec<PlannerId>)
    ensures
        ids@ == timers_needing_attention(planner.timers@),
{
    let timers = &planner.timers;
    let mut ids: Vec<PlannerId> = Vec::new();
    let mut i: usize = 0;
    while i < timers.len()
        invariant
            0 <= i <= timers@.len(),
            ids@ == timers_needing_attention(timers@.take(i as int)),
        decreases timers@.len() - i,
    {
        proof {
            assert(timers@.take(i as int + 1).drop_last() =~= timers@.take(i as int));
        }
        let t = &timers[i];
        if t.attention_pending || t.state == TimerState::Finished {
            ids.push(t.id.duplicate());
        }
        i = i + 1;
    }
    proof {
        assert(timers@.take(timers@.len() as int) =~= timers@);
    }
    ids
}


/// Two lists of countdowns with the same identifiers at the same positions.
pub open spec fn same_keys(a: Seq<Timer>, b: Seq<Timer>) -> bool {
    a.len() == b.len() && forall|i: int| 0 <= i < a.len() ==> #[trigger] a[i].id@ == b[i].id@
}

proof fn lemma_index_of_key_same_keys(a: Seq<Timer>, b: Seq<Timer>, key: Seq<char>)
    requires
        same_keys(a, b),
    ensures
        index_of_key(a, key) == index_of_key(b, key),
    decreases a.len(),
{
    if a.len() > 0 {
        assert(a[0].id@ == b[0].id@);
        let a1 = a.drop_first();
        let b1 = b.drop_first();
        assert forall|i: int| 0 <= i < a1.len() implies #[trigger] a1[i].id@ == b1[i].id@ by {
            assert(a[i + 1].id@ == b[i + 1].id@);
        }
        lemma_index_of_key_same_keys(a1, b1, key);
    }
}

proof fn lemma_key_found(items: Seq<Timer>, p: int)
    requires
        0 <= p < items.len(),
    ensures
        index_of_key(items, items[p].id@) < items.len(),
        index_of_key(items, items[p].id@) <= p,
{
    lemma_index_of_key(items, items[p].id@);
    if index_of_key(items, items[p].id@) > p {
        assert(items[p].key() != items[p].id@);
    }
}

/// What firing in turn does: identifiers stay in place, a countdown waiting
/// for attention keeps waiting, each fired countdown waits for attention,
/// and a countdown no identifier points at is left alone.
proof fn lemma_fire_in_turn_effects(timers: Seq<Timer>, ids: Seq<PlannerId>, now_text: String)
    ensures
        same_keys(fire_in_turn(timers, ids, now_text).0, timers),
        forall|p: int|
            0 <= p < timers.len() && timers[p].attention_pending ==> #[trigger] fire_in_turn(
                timers,
                ids,
                now_text,
            ).0[p].attention_pending,
        forall|j: int|
            0 <= j < ids.len() && index_of_key(timers, #[trigger] ids[j]@) < timers.len()
                ==> fire_in_turn(timers, ids, now_text).0[index_of_key(timers, ids[j]@)].attention_pending,
        forall|p: int|
            0 <= p < timers.len() && (forall|j: int| 0 <= j < ids.len() ==> index_of_key(timers, #[trigger] ids[j]@) != p)
                ==> #[trigger] fire_in_turn(timers, ids, now_text).0[p] == timers[p],
    decreases ids.len(),
{
    if ids.len() > 0 {
        let prefix = ids.drop_last();
        lemma_fire_in_turn_effects(timers, prefix, now_text);
        let current = fire_in_turn(timers, prefix, now_text).0;
        let last = ids.last();
        lemma_index_of_key_same_keys(current, timers, last@);
        let k = index_of_key(current, last@);
        let result = fire_in_turn(timers, ids, now_text).0;
        assert forall|j: int| 0 <= j < prefix.len() implies #[trigger] prefix[j] == ids[j] by {}
        assert(ids.drop_last() == prefix);
        assert(result == (if 0 <= k < current.len() {
            current.update(k, fired_timer(current[k], now_text))
        } else {
            current
        }));
        assert forall|j: int|
            0 <= j < ids.len() && index_of_key(timers, #[trigger] ids[j]@) < timers.len()
                implies result[index_of_key(timers, ids[j]@)].attention_pending by {
            let idx = index_of_key(timers, ids[j]@);
            lemma_index_of_key(timers, ids[j]@);
            if j < prefix.len() {
                assert(prefix[j] == ids[j]);
                assert(current[idx].attention_pending);
                if 0 <= k < current.len() && idx != k {
                    assert(result[idx] == current[idx]);
                }
            } else {
                assert(ids[j] == last);
                assert(idx == k);
                assert(result[k] == fired_timer(current[k], now_text));
            }
        }
        assert forall|p: int|
            0 <= p < timers.len() && (forall|j: int| 0 <= j < ids.len() ==> index_of_key(timers, #[trigger] ids[j]@) != p)
                implies #[trigger] result[p] == timers[p] by {
            assert forall|j: int| 0 <= j < prefix.len() implies index_of_key(timers, #[trigger] prefix[j]@) != p by {
                assert(prefix[j] == ids[j]);
            }
            assert(index_of_key(timers, ids[ids.len() - 1]@) != p);
        }
    }
}

/// The `j`-th due identifier belongs to a due countdown.
spec fn due_id_has_timer(timers: Seq<Timer>, now: Instant, j: int) -> bool {
    exists|p: int| 0 <= p < timers.len() && timer_due(timers[p], now) && #[trigger] timers[p].id == due_timer_ids(timers, now)[j]
}

proof fn lemma_due_ids_sound(timers: Seq<Timer>, now: Instant)
    ensures
        forall|j: int| 0 <= j < due_timer_ids(timers, now).len() ==> #[trigger] due_id_has_timer(timers, now, j),
    decreases timers.len(),
{
    if timers.len() > 0 {
        let rest = timers.drop_last();
        lemma_due_ids_sound(rest, now);
        let ids = due_timer_ids(timers, now);
        let before = due_timer_ids(rest, now);
        assert forall|j: int| 0 <= j < ids.len() implies #[trigger] due_id_has_timer(timers, now, j) by {
            if j < before.len() {
                assert(ids[j] == before[j]);
                assert(due_id_has_timer(rest, now, j));
                let p = choose|p: int| 0 <= p < rest.len() && timer_due(rest[p], now) && #[trigger] rest[p].id == before[j];
                assert(rest[p] == timers[p]);
                assert(timers[p].id == ids[j]);
            } else {
                let p = timers.len() - 1;
                assert(ids[j] == timers[p].id);
            }
        }
    }
}

proof fn lemma_due_ids_complete(timers: Seq<Timer>, now: Instant)
    ensures
        forall|p: int|
            0 <= p < timers.len() && timer_due(#[trigger] timers[p], now) ==> exists|j: int|
                0 <= j < due_timer_ids(timers, now).len() && due_timer_ids(timers, now)[j] == timers[p].id,
    decreases timers.len(),
{
    if timers.len() > 0 {
        let rest = timers.drop_last();
        lemma_due_ids_complete(rest, now);
        let ids = due_timer_ids(timers, now);
        let before = due_timer_ids(rest, now);
        assert forall|p: int| 0 <= p < timers.len() && timer_due(#[trigger] timers[p], now) implies exists|j: int|
            0 <= j < ids.len() && ids[j] == timers[p].id by {
            if p < rest.len() {
                assert(rest[p] == timers[p]);
                let j = choose|j: int| 0 <= j < before.len() && before[j] == rest[p].id;
                assert(ids[j] == before[j]);
            } else {
                assert(ids[ids.len() - 1] == timers[p].id);
            }
        }
    }
}

proof fn lemma_pending_fires_report_nothing(timers: Seq<Timer>, ids: Seq<PlannerId>, now_text: String)
    requires
        forall|j: int|
            0 <= j < ids.len() ==> index_of_key(timers, #[trigger] ids[j]@) < timers.len()
                && timers[index_of_key(timers, ids[j]@)].attention_pending,
    ensures
        fire_in_turn(timers, ids, now_text).1 == Seq::<PlannerId>::empty(),
    decreases ids.len(),
{
    if ids.len() > 0 {
        let prefix = ids.drop_last();
        assert forall|j: int| 0 <= j < prefix.len() implies index_of_key(timers, #[trigger] prefix[j]@)
            < timers.len() && timers[index_of_key(timers, prefix[j]@)].attention_pending by {
            assert(prefix[j] == ids[j]);
        }
        lemma_pending_fires_report_nothing(timers, prefix, now_text);
        lemma_fire_in_turn_effects(timers, prefix, now_text);
        let current = fire_in_turn(timers, prefix, now_text).0;
        let last = ids.last();
        lemma_index_of_key_same_keys(current, timers, last@);
        assert(ids[ids.len() - 1] == last);
        let k = index_of_key(timers, last@);
        lemma_index_of_key(timers, last@);
        assert(timers[k].attention_pending);
        assert(fire_in_turn(timers, prefix, now_text).0[k].attention_pending);
    }
}

/// Each countdown that runs out is reported once: reconciling again at the
/// same moment reports nothing new.
pub proof fn lemma_reconcile_reports_once(timers: Seq<Timer>, now: Instant, now_text: String, again_text: String)
    ensures
        ({
            let after = fire_in_turn(timers, due_timer_ids(timers, now), now_text).0;
            fire_in_turn(after, due_timer_ids(after, now), again_text).1 == Seq::<PlannerId>::empty()
        }),
{
    let ids = due_timer_ids(timers, now);
    lemma_fire_in_turn_effects(timers, ids, now_text);
    let after = fire_in_turn(timers, ids, now_text).0;
    let again = due_timer_ids(after, now);
    lemma_due_ids_sound(after, now);
    lemma_due_ids_sound(timers, now);
    lemma_due_ids_complete(timers, now);
    assert forall|j: int| 0 <= j < again.len() implies index_of_key(after, #[trigger] again[j]@)
        < after.len() && after[index_of_key(after, again[j]@)].attention_pending by {
        assert(due_id_has_timer(after, now, j));
        let p = choose|p: int| 0 <= p < after.len() && timer_due(after[p], now) && #[trigger] after[p].id == again[j];
        lemma_index_of_key_same_keys(after, timers, again[j]@);
        lemma_key_found(after, p);
        // the identifier was due before the first reconcile
        let found_before = exists|i: int| 0 <= i < ids.len() && index_of_key(timers, #[trigger] ids[i]@) == p;
        let i = if found_before {
            choose|i: int| 0 <= i < ids.len() && index_of_key(timers, #[trigger] ids[i]@) == p
        } else {
            assert(after[p] == timers[p]);
            assert(timer_due(timers[p], now));
            choose|i: int| 0 <= i < ids.len() && ids[i] == timers[p].id
        };
        if found_before {
            lemma_index_of_key(timers, ids[i]@);
            assert(timers[p].id@ == ids[i]@);
        }
        assert(after[p].id@ == timers[p].id@);
        assert(ids[i]@ == again[j]@);
        assert(due_id_has_timer(timers, now, i));
        let q = choose|q: int| 0 <= q < timers.len() && timer_due(timers[q], now) && #[trigger] timers[q].id == ids[i];
        lemma_key_found(timers, q);
        assert(index_of_key(timers, ids[i]@) < timers.len());
        assert(after[index_of_key(timers, ids[i]@)].attention_pending);
    }
    lemma_pending_fires_report_nothing(after, again, again_text);
}
} // verus!

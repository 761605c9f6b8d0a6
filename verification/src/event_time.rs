//! Delivered event alerts that still wait for acknowledgement.

use vstd::prelude::*;
use crate::calendar::{
    day_number, is_supported_date, iso_date, lemma_day_number_injective, lemma_day_number_order,
    parse_iso_date, try_shift_day, weekday_from_monday, weekday_index, CalendarDate,
};
use crate::ids::PlannerId;
use crate::instant::{
    instant_text, is_not_after, is_representable, minutes_before, not_after, parse_instant, representable,
    rfc3339_instant, rfc3339_range, subtract_minutes, utc_rfc3339, zone_readable, Instant,
};
use crate::planner::{AlertRule, Event, EventRecurrence, EventReceipt, EventTime, Planner};
use crate::reminder_time::date_numbered;
use crate::zoned::{
    local_seconds, map_local, read_in_zone, valid_local, zone_mapping, zone_reading, LocalDateTime,
    LocalMapping,
};
use crate::sorting::{ranked_sorted, sort_ranked, strict_order, Ranked};
use crate::text::{lemma_text_before_irreflexive, lemma_text_before_transitive, text_before, text_less};

verus! {

/// An unacknowledged receipt, ranked by its delivery text, then by its
/// position in the list.
#[derive(Clone, Debug)]
pub struct ReceiptRank {
    pub delivered: String,
    pub position: usize,
}

impl Ranked for ReceiptRank {
    open spec fn precedes(&self, other: &Self) -> bool {
        ||| text_before(self.delivered@, other.delivered@)
        ||| (self.delivered@ == other.delivered@ && self.position < other.position)
    }

    fn check_precedes(&self, other: &Self) -> (before: bool) {
        text_less(self.delivered.as_str(), other.delivered.as_str()) || (self.delivered
            == other.delivered && self.position < other.position)
    }
}

proof fn lemma_receipt_rank_order()
    ensures
        strict_order::<ReceiptRank>(),
{
    assert forall|a: ReceiptRank| !#[trigger] a.precedes(&a) by {
        lemma_text_before_irreflexive(a.delivered@);
    }
    assert forall|a: ReceiptRank, b: ReceiptRank, c: ReceiptRank|
        #[trigger] a.precedes(&b) && #[trigger] b.precedes(&c) implies a.precedes(&c) by {
        if text_before(a.delivered@, b.delivered@) && text_before(b.delivered@, c.delivered@) {
            lemma_text_before_transitive(a.delivered@, b.delivered@, c.delivered@);
        }
    }
}

/// The ranks of the receipts not yet acknowledged, in list order.
pub open spec fn unacknowledged_ranks(receipts: Seq<EventReceipt>) -> Seq<ReceiptRank>
    decreases receipts.len(),
{
    if receipts.len() == 0 {
        Seq::empty()
    } else {
        let rest = unacknowledged_ranks(receipts.drop_last());
        let r = receipts.last();
        if r.acknowledged_at_utc is None {
            rest.push(ReceiptRank { delivered: r.delivered_at_utc, position: (receipts.len() - 1) as usize })
        } else {
            rest
        }
    }
}

proof fn lemma_unacknowledged_positions(receipts: Seq<EventReceipt>)
    ensures
        forall|i: int|
            0 <= i < unacknowledged_ranks(receipts).len() ==> #[trigger] unacknowledged_ranks(
                receipts,
            )[i].position < receipts.len(),
    decreases receipts.len(),
{
    if receipts.len() > 0 {
        let rest = receipts.drop_last();
        lemma_unacknowledged_positions(rest);
        let position = (receipts.len() - 1) as usize;
        assert(position < receipts.len()) by {
            if receipts.len() - 1 > usize::MAX {
                assert(position <= usize::MAX);
            }
        }
        let all = unacknowledged_ranks(receipts);
        let before = unacknowledged_ranks(rest);
        assert forall|i: int| 0 <= i < all.len() implies #[trigger] all[i].position < receipts.len() by {
            if i < before.len() {
                assert(all[i] == before[i]);
            }
        }
    }
}

fn copy_optional_text(text: &Option<String>) -> (copy: Option<String>)
    ensures
        copy == *text,
{
    match text {
        Some(t) => Some(t.clone()),
        None => None,
    }
}

fn copy_receipt(receipt: &EventReceipt) -> (copy: EventReceipt)
    ensures
        copy == *receipt,
{
    EventReceipt {
        event_id: receipt.event_id.duplicate(),
        occurrence_utc: receipt.occurrence_utc.clone(),
        alert_offset_minutes: receipt.alert_offset_minutes,
        delivered_at_utc: receipt.delivered_at_utc.clone(),
        acknowledged_at_utc: copy_optional_text(&receipt.acknowledged_at_utc),
    }
}

/// The receipts waiting for acknowledgement, in the order their ranks
/// give (see `ReceiptRank`).
pub open spec fn event_attention_order(receipts: Seq<EventReceipt>, pending: Seq<EventReceipt>) -> bool {
    exists|ranks: Seq<ReceiptRank>|
        {
            &&& ranks.to_multiset() == unacknowledged_ranks(receipts).to_multiset()
            &&& ranked_sorted(ranks)
            &&& ranks.len() == pending.len()
            &&& forall|i: int| 0 <= i < ranks.len() ==> #[trigger] pending[i] == receipts[ranks[i].position as int]
        }
}

/// The event alerts delivered but not acknowledged, earliest delivery first;
/// receipts delivered at the same moment keep their order.
pub fn pending_attention(planner: &Planner) -> (pending: Vec<EventReceipt>)
    ensures
        event_attention_order(planner.event_receipts@, pending@),
{
    let receipts = &planner.event_receipts;
    let mut ranks: Vec<ReceiptRank> = Vec::new();
    let mut i: usize = 0;
    while i < receipts.len()
        invariant
            0 <= i <= receipts@.len(),
            ranks@ == unacknowledged_ranks(receipts@.take(i as int)),
        decreases receipts@.len() - i,
    {
        proof {
            assert(receipts@.take(i as int + 1).drop_last() =~= receipts@.take(i as int));
        }
        let r = &receipts[i];
        if r.acknowledged_at_utc.is_none() {
            ranks.push(ReceiptRank { delivered: r.delivered_at_utc.clone(), position: i });
        }
        i = i + 1;
    }
    proof {
        assert(receipts@.take(receipts@.len() as int) =~= receipts@);
        lemma_receipt_rank_order();
        lemma_unacknowledged_positions(receipts@);
    }
    let ghost unsorted = ranks@;
    let sorted = sort_ranked(ranks);
    proof {
        broadcast use vstd::seq_lib::group_to_multiset_ensures;
        assert forall|k: int| 0 <= k < sorted@.len() implies #[trigger] sorted@[k].position < receipts@.len() by {
            assert(sorted@.to_multiset().count(sorted@[k]) > 0);
            assert(unsorted.contains(sorted@[k]));
        }
    }
    let mut pending: Vec<EventReceipt> = Vec::new();
    let mut k: usize = 0;
    while k < sorted.len()
        invariant
            0 <= k <= sorted@.len(),
            pending@.len() == k,
            forall|m: int| 0 <= m < sorted@.len() ==> #[trigger] sorted@[m].position < receipts@.len(),
            forall|m: int| 0 <= m < k ==> #[trigger] pending@[m] == receipts@[sorted@[m].position as int],
        decreases sorted@.len() - k,
    {
        let position = sorted[k].position;
        pending.push(copy_receipt(&receipts[position]));
        k = k + 1;
    }
    pending
}


/// Whether an event first held on `origin` takes place on `date`.
pub open spec fn occurs_on(origin: CalendarDate, date: CalendarDate, recurrence: EventRecurrence) -> bool {
    if day_number(date) < day_number(origin) {
        false
    } else {
        match recurrence {
            EventRecurrence::NoRepeat => date == origin,
            EventRecurrence::Daily => true,
            EventRecurrence::Weekly => weekday_from_monday(date) == weekday_from_monday(origin),
            EventRecurrence::Monthly => date.day == origin.day,
            EventRecurrence::Yearly => date.month == origin.month && date.day == origin.day,
        }
    }
}

/// The dates a repeating event takes place on. It takes place on its first
/// date and never before it. From there on: a one-off event on no other date;
/// a daily one on every date; a weekly one every seventh day; a monthly one
/// on its day of the month; a yearly one on its month and day only. So every
/// date of a yearly event is a date of the monthly event with the same first
/// date, and every date of a monthly, weekly or yearly event is one of the
/// daily event.
pub proof fn lemma_event_occurrence_dates(origin: CalendarDate, date: CalendarDate)
    ensures
        occurs_on(origin, origin, EventRecurrence::NoRepeat),
        occurs_on(origin, origin, EventRecurrence::Daily),
        occurs_on(origin, origin, EventRecurrence::Weekly),
        occurs_on(origin, origin, EventRecurrence::Monthly),
        occurs_on(origin, origin, EventRecurrence::Yearly),
        forall|r: EventRecurrence| #[trigger] occurs_on(origin, date, r) ==> day_number(origin) <= day_number(date),
        occurs_on(origin, date, EventRecurrence::NoRepeat) <==> date == origin,
        occurs_on(origin, date, EventRecurrence::Daily) <==> day_number(origin) <= day_number(date),
        occurs_on(origin, date, EventRecurrence::Weekly) <==> day_number(origin) <= day_number(date) && (
        day_number(date) - day_number(origin)) % 7 == 0,
        occurs_on(origin, date, EventRecurrence::Monthly) <==> day_number(origin) <= day_number(date)
            && date.day == origin.day,
        occurs_on(origin, date, EventRecurrence::Yearly) <==> day_number(origin) <= day_number(date)
            && date.month == origin.month && date.day == origin.day,
        occurs_on(origin, date, EventRecurrence::Yearly) ==> occurs_on(origin, date, EventRecurrence::Monthly),
        occurs_on(origin, date, EventRecurrence::Monthly) ==> occurs_on(origin, date, EventRecurrence::Daily),
        occurs_on(origin, date, EventRecurrence::Weekly) ==> occurs_on(origin, date, EventRecurrence::Daily),
{
    let a = day_number(origin);
    let b = day_number(date);
    if a <= b {
        assert((b % 7 == a % 7) <==> ((b - a) % 7 == 0)) by (nonlinear_arith)
            requires
                a <= b,
        ;
    }
}

fn date_before(a: CalendarDate, b: CalendarDate) -> (before: bool)
    requires
        is_supported_date(a),
        is_supported_date(b),
    ensures
        before == (day_number(a) < day_number(b)),
{
    let before = a.year < b.year || (a.year == b.year && a.month < b.month) || (a.year == b.year
        && a.month == b.month && a.day < b.day);
    proof {
        if before {
            lemma_day_number_order(a, b);
        } else if a != b {
            lemma_day_number_order(b, a);
        }
    }
    before
}

/// Whether an event first held on `origin` takes place on `date`.
pub fn recurrence_matches(origin: CalendarDate, date: CalendarDate, recurrence: EventRecurrence) -> (occurs: bool)
    requires
        is_supported_date(origin),
        is_supported_date(date),
    ensures
        occurs == occurs_on(origin, date, recurrence),
{
    if date_before(date, origin) {
        return false;
    }
    match recurrence {
        EventRecurrence::NoRepeat => {
            proof {
                if date.year == origin.year && date.month == origin.month && date.day == origin.day {
                    assert(date == origin);
                }
            }
            date.year == origin.year && date.month == origin.month && date.day == origin.day
        },
        EventRecurrence::Daily => true,
        EventRecurrence::Weekly => weekday_index(date, true) == weekday_index(origin, true),
        EventRecurrence::Monthly => date.day == origin.day,
        EventRecurrence::Yearly => date.month == origin.month && date.day == origin.day,
    }
}

/// The first date, the wall time and the zone an event's occurrences take:
/// a timed event's start read in its own zone, an all-day event's date at
/// midnight in the zone given for all-day events.
pub struct EventAnchor {
    pub origin: CalendarDate,
    pub hour: u32,
    pub minute: u32,
    pub second: u32,
    pub nanos: u32,
    pub zone: Seq<char>,
}

/// The anchor of an event, when its start and zone are readable. A timed
/// start that its zone shows as a leap second off the last second of a
/// minute (possible only under an offset of whole seconds) gives no wall
/// time the clock can be set to, and no anchor.
pub open spec fn event_anchor(time: EventTime, all_day_zone: Seq<char>) -> Option<EventAnchor> {
    match time {
        EventTime::Timed { start_utc, source_time_zone, .. } => match rfc3339_instant(start_utc@) {
            Some(start) => match zone_reading(source_time_zone@, start) {
                Some(l) => if !valid_local(l) {
                    None
                } else { Some(EventAnchor {
                    origin: l.date,
                    hour: l.hour,
                    minute: l.minute,
                    second: l.second,
                    nanos: l.nanos,
                    zone: source_time_zone@,
                }) },
                None => None,
            },
            None => None,
        },
        EventTime::AllDay { start_date, .. } => match iso_date(start_date@) {
            Some(d) => Some(EventAnchor { origin: d, hour: 0, minute: 0, second: 0, nanos: 0, zone: all_day_zone }),
            None => None,
        },
    }
}

/// The wall-clock time of an anchor's occurrence on `date`.
pub open spec fn anchor_at(anchor: EventAnchor, date: CalendarDate) -> LocalDateTime {
    LocalDateTime { date, hour: anchor.hour, minute: anchor.minute, second: anchor.second, nanos: anchor.nanos }
}

/// The largest alert lead time of an event, counting negative ones as none.
pub open spec fn largest_lead(alerts: Seq<AlertRule>) -> int
    decreases alerts.len(),
{
    if alerts.len() == 0 {
        0
    } else {
        let rest = largest_lead(alerts.drop_last());
        let lead = if alerts.last().offset_minutes > 0 { alerts.last().offset_minutes as int } else { 0 };
        if lead > rest { lead } else { rest }
    }
}

/// The start of the occurrence on the `k`-th date from `first`, if the
/// event takes place then and the zone's clock shows its time (the earlier
/// moment when it shows it twice). A leap-second wall time that a zone's
/// offset of whole seconds places off the last second of a minute names no
/// moment the calendar holds, and no start.
#[verifier::opaque]
pub open spec fn start_on(anchor: EventAnchor, recurrence: EventRecurrence, first: CalendarDate, k: int) -> Option<Instant> {
    let date = date_numbered(day_number(first) + k);
    if occurs_on(anchor.origin, date, recurrence) {
        let start = match zone_mapping(anchor.zone, anchor_at(anchor, date)) {
            Some(LocalMapping::Single(v)) => Some(v),
            Some(LocalMapping::Ambiguous(a, b)) => Some(if not_after(a, b) { a } else { b }),
            _ => None,
        };
        match start {
            Some(v) => if representable(v) { Some(v) } else { None },
            None => None,
        }
    } else {
        None
    }
}

/// The starts on the first `count` dates from `first`, in date order.
pub open spec fn starts_upto(anchor: EventAnchor, recurrence: EventRecurrence, first: CalendarDate, count: int) -> Seq<Instant>
    decreases count,
{
    if count <= 0 {
        Seq::empty()
    } else {
        let rest = starts_upto(anchor, recurrence, first, count - 1);
        match start_on(anchor, recurrence, first, count - 1) {
            Some(v) => rest.push(v),
            None => rest,
        }
    }
}

/// The moments `after` and `now` an event check runs between: whole seconds
/// within a day of the years 0000 to 9999, outside a leap second.
pub open spec fn check_window(after: Instant, now: Instant) -> bool {
    &&& representable(after)
    &&& representable(now)
    &&& rfc3339_range(after)
    &&& rfc3339_range(now)
    &&& after.nanos < 1_000_000_000
    &&& now.nanos < 1_000_000_000
}

/// The starts of an event's occurrences on the local dates from the day
/// before `after` to the day after `now` plus its largest alert lead time.
pub open spec fn event_starts(event: Event, after: Instant, now: Instant, all_day_zone: Seq<char>) -> Seq<Instant> {
    match event_anchor(event.time, all_day_zone) {
        None => Seq::empty(),
        Some(anchor) => match (
            minutes_before(after, 1440),
            minutes_before(now, (-(largest_lead(event.alerts@) + 1440)) as i64),
        ) {
            (Some(from), Some(to)) => match (zone_reading(anchor.zone, from), zone_reading(anchor.zone, to)) {
                (Some(lf), Some(lt)) => starts_upto(
                    anchor,
                    event.recurrence,
                    lf.date,
                    day_number(lt.date) - day_number(lf.date) + 1,
                ),
                _ => Seq::empty(),
            },
            _ => Seq::empty(),
        },
    }
}

/// Starts lie within these bounds: far enough from both ends of the
/// calendar that any alert lead time can be taken from them.
pub open spec fn moderate(instant: Instant) -> bool {
    -200_000_000_000 <= instant.seconds <= 400_000_000_000
}

fn largest_lead_of(alerts: &Vec<AlertRule>) -> (lead: i32)
    ensures
        lead == largest_lead(alerts@),
        0 <= lead,
{
    let mut lead: i32 = 0;
    let mut i: usize = 0;
    while i < alerts.len()
        invariant
            0 <= i <= alerts@.len(),
            lead == largest_lead(alerts@.take(i as int)),
            0 <= lead,
        decreases alerts@.len() - i,
    {
        proof {
            assert(alerts@.take(i as int + 1).drop_last() =~= alerts@.take(i as int));
        }
        let offset = alerts[i].offset_minutes;
        let candidate = if offset > 0 { offset } else { 0 };
        if candidate > lead {
            lead = candidate;
        }
        i = i + 1;
    }
    proof {
        assert(alerts@.take(alerts@.len() as int) =~= alerts@);
    }
    lead
}

fn anchor_of(time: &EventTime, all_day_zone: &str) -> (found: Option<(LocalDateTime, String)>)
    ensures
        match event_anchor(*time, all_day_zone@) {
            Some(a) => found matches Some(f) && f.0 == anchor_at(a, a.origin) && f.1@ == a.zone && valid_local(f.0),
            None => found is None,
        },
{
    match time {
        EventTime::Timed { start_utc, source_time_zone, .. } => {
            let start = match parse_instant(start_utc.as_str()) {
                Some(s) => s,
                None => return None,
            };
            match read_in_zone(source_time_zone.as_str(), start) {
                Some(l) => if l.nanos >= 1_000_000_000 && l.second != 59 {
                    None
                } else {
                    Some((l, source_time_zone.clone()))
                },
                None => None,
            }
        },
        EventTime::AllDay { start_date, .. } => match parse_iso_date(start_date.as_str()) {
            Some(d) => Some((LocalDateTime { date: d, hour: 0, minute: 0, second: 0, nanos: 0 }, all_day_zone.to_owned())),
            None => None,
        },
    }
}

/// The starts of an event's occurrences that alerts between `after` and
/// `now` may concern.
pub fn starts_between(event: &Event, after: Instant, now: Instant, all_day_zone: &str) -> (starts: Vec<Instant>)
    requires
        check_window(after, now),
    ensures
        starts@ == event_starts(*event, after, now, all_day_zone@),
        forall|i: int| 0 <= i < starts@.len() ==> representable(#[trigger] starts@[i]) && moderate(starts@[i]),
{
    let (anchor_time, zone) = match anchor_of(&event.time, all_day_zone) {
        Some(found) => found,
        None => return Vec::new(),
    };
    let ghost anchor = event_anchor(event.time, all_day_zone@)->0;
    let lead = largest_lead_of(&event.alerts);
    let from = match subtract_minutes(after, 1440) {
        Some(f) => f,
        None => return Vec::new(),
    };
    let to = match subtract_minutes(now, -(lead as i64 + 1440)) {
        Some(t) => t,
        None => return Vec::new(),
    };
    assert(from.seconds == after.seconds - 86_400);
    assert(to.seconds == now.seconds + (lead + 1440) * 60);
    let local_from = match read_in_zone(zone.as_str(), from) {
        Some(l) => l,
        None => return Vec::new(),
    };
    let local_to = match read_in_zone(zone.as_str(), to) {
        Some(l) => l,
        None => return Vec::new(),
    };
    let first = local_from.date;
    let last = local_to.date;
    let ghost count = day_number(last) - day_number(first) + 1;
    proof {
        assert(local_seconds(local_from) >= (day_number(first) - 719_162) * 86_400);
        assert(local_seconds(local_to) >= (day_number(last) - 719_162) * 86_400);
    }
    let mut starts: Vec<Instant> = Vec::new();
    let mut date = first;
    let ghost mut k: int = 0;
    let mut more = !date_before(last, date);
    while more
        invariant
            is_supported_date(first),
            is_supported_date(last),
            is_supported_date(date),
            more ==> day_number(date) == day_number(first) + k,
            more ==> day_number(date) <= day_number(last),
            count == day_number(last) - day_number(first) + 1,
            0 <= k,
            more ==> k < count,
            !more ==> k == (if count > 0 { count } else { 0 }),
            zone@ == anchor.zone,
            anchor_time == anchor_at(anchor, anchor.origin),
            valid_local(anchor_time),
            starts@ == starts_upto(anchor, event.recurrence, first, k),
            -200_000_000_000 + 200_000 <= (day_number(first) - 719_162) * 86_400,
            (day_number(last) - 719_162) * 86_400 <= 400_000_000_000 - 200_000,
            forall|i: int| 0 <= i < starts@.len() ==> representable(#[trigger] starts@[i]) && moderate(starts@[i]),
        decreases count - k,
    {
        proof {
            reveal(start_on);
            lemma_day_number_injective(date, date_numbered(day_number(first) + k));
        }
        if recurrence_matches(anchor_time.date, date, event.recurrence) {
            let local = LocalDateTime { date, ..anchor_time };
            let start = match map_local(zone.as_str(), local) {
                Some(LocalMapping::Single(v)) => Some(v),
                Some(LocalMapping::Ambiguous(a, b)) => Some(if is_not_after(a, b) { a } else { b }),
                _ => None,
            };
            if let Some(v) = start {
                if is_representable(v) {
                    starts.push(v);
                }
            }
        }
        proof {
            k = k + 1;
        }
        match try_shift_day(date, 1) {
            Some(next) => {
                date = next;
                more = !date_before(last, date);
            },
            None => {
                more = false;
                proof {
                    crate::calendar::lemma_supported_date_in_range(last);
                    crate::calendar::lemma_supported_date_in_range(date);
                    assert(k == count);
                }
            },
        }
    }
    starts
}


/// What an event receipt records, as text.
pub struct ReceiptView {
    pub event_id: Seq<char>,
    pub occurrence: Seq<char>,
    pub offset: i32,
    pub delivered_at: Seq<char>,
    pub acknowledged: Option<Seq<char>>,
}

/// The record of a receipt.
pub open spec fn receipt_view(receipt: EventReceipt) -> ReceiptView {
    ReceiptView {
        event_id: receipt.event_id@,
        occurrence: receipt.occurrence_utc@,
        offset: receipt.alert_offset_minutes,
        delivered_at: receipt.delivered_at_utc@,
        acknowledged: match receipt.acknowledged_at_utc {
            Some(t) => Some(t@),
            None => None,
        },
    }
}

/// Whether a receipt already records this alert of this occurrence.
pub open spec fn already_delivered(receipts: Seq<EventReceipt>, event_id: Seq<char>, occurrence: Seq<char>, offset: i32) -> bool {
    exists|i: int|
        0 <= i < receipts.len() && #[trigger] receipts[i].event_id@ == event_id && receipts[i].occurrence_utc@
            == occurrence && receipts[i].alert_offset_minutes == offset
}

/// An alert's lead time in minutes; a negative one counts as none.
pub open spec fn lead_of(offset: i32) -> i64 {
    if offset > 0 {
        offset as i64
    } else {
        0
    }
}

/// The receipt one alert of one occurrence gives: one when the alert's
/// moment falls after `after` and by `now` and no receipt records it yet.
pub open spec fn alert_receipts(
    receipts: Seq<EventReceipt>,
    event_id: Seq<char>,
    occurrence: Instant,
    alert: AlertRule,
    after: Instant,
    now: Instant,
) -> Seq<ReceiptView> {
    match minutes_before(occurrence, lead_of(alert.offset_minutes)) {
        Some(due) => if !not_after(due, after) && not_after(due, now) && !already_delivered(
            receipts,
            event_id,
            utc_rfc3339(occurrence),
            alert.offset_minutes,
        ) {
            seq![
                ReceiptView {
                    event_id,
                    occurrence: utc_rfc3339(occurrence),
                    offset: alert.offset_minutes,
                    delivered_at: utc_rfc3339(now),
                    acknowledged: None,
                },
            ]
        } else {
            Seq::empty()
        },
        None => Seq::empty(),
    }
}

/// The receipts the alerts of one occurrence give, in alert order.
pub open spec fn occurrence_receipts(
    receipts: Seq<EventReceipt>,
    event_id: Seq<char>,
    occurrence: Instant,
    alerts: Seq<AlertRule>,
    after: Instant,
    now: Instant,
) -> Seq<ReceiptView>
    decreases alerts.len(),
{
    if alerts.len() == 0 {
        Seq::empty()
    } else {
        occurrence_receipts(receipts, event_id, occurrence, alerts.drop_last(), after, now) + alert_receipts(
            receipts,
            event_id,
            occurrence,
            alerts.last(),
            after,
            now,
        )
    }
}

/// The receipts the occurrences of one event give, in start order.
pub open spec fn starts_receipts(
    receipts: Seq<EventReceipt>,
    event_id: Seq<char>,
    starts: Seq<Instant>,
    alerts: Seq<AlertRule>,
    after: Instant,
    now: Instant,
) -> Seq<ReceiptView>
    decreases starts.len(),
{
    if starts.len() == 0 {
        Seq::empty()
    } else {
        starts_receipts(receipts, event_id, starts.drop_last(), alerts, after, now) + occurrence_receipts(
            receipts,
            event_id,
            starts.last(),
            alerts,
            after,
            now,
        )
    }
}

/// The receipts all events give, event by event.
pub open spec fn events_receipts(
    receipts: Seq<EventReceipt>,
    events: Seq<Event>,
    after: Instant,
    now: Instant,
    all_day_zone: Seq<char>,
) -> Seq<ReceiptView>
    decreases events.len(),
{
    if events.len() == 0 {
        Seq::empty()
    } else {
        let event = events.last();
        events_receipts(receipts, events.drop_last(), after, now, all_day_zone) + starts_receipts(
            receipts,
            event.id@,
            event_starts(event, after, now, all_day_zone),
            event.alerts@,
            after,
            now,
        )
    }
}

fn has_receipt(receipts: &Vec<EventReceipt>, event_id: &PlannerId, occurrence: &String, offset: i32) -> (found: bool)
    ensures
        found == already_delivered(receipts@, event_id@, occurrence@, offset),
{
    let mut i: usize = 0;
    while i < receipts.len()
        invariant
            0 <= i <= receipts@.len(),
            forall|k: int|
                0 <= k < i ==> !(#[trigger] receipts@[k].event_id@ == event_id@ && receipts@[k].occurrence_utc@
                    == occurrence@ && receipts@[k].alert_offset_minutes == offset),
        decreases receipts@.len() - i,
    {
        let r = &receipts[i];
        if r.event_id.same(event_id) && r.occurrence_utc == *occurrence && r.alert_offset_minutes == offset {
            assert(receipts@[i as int].event_id@ == event_id@);
            return true;
        }
        i = i + 1;
    }
    false
}

/// A new receipt, ranked by its occurrence text, then by its position.
#[derive(Clone, Debug)]
pub struct OccurrenceRank {
    pub occurrence: String,
    pub position: usize,
}

impl Ranked for OccurrenceRank {
    open spec fn precedes(&self, other: &Self) -> bool {
        ||| text_before(self.occurrence@, other.occurrence@)
        ||| (self.occurrence@ == other.occurrence@ && self.position < other.position)
    }

    fn check_precedes(&self, other: &Self) -> (before: bool) {
        text_less(self.occurrence.as_str(), other.occurrence.as_str()) || (self.occurrence
            == other.occurrence && self.position < other.position)
    }
}

proof fn lemma_occurrence_rank_order()
    ensures
        strict_order::<OccurrenceRank>(),
{
    assert forall|a: OccurrenceRank| !#[trigger] a.precedes(&a) by {
        lemma_text_before_irreflexive(a.occurrence@);
    }
    assert forall|a: OccurrenceRank, b: OccurrenceRank, c: OccurrenceRank|
        #[trigger] a.precedes(&b) && #[trigger] b.precedes(&c) implies a.precedes(&c) by {
        if text_before(a.occurrence@, b.occurrence@) && text_before(b.occurrence@, c.occurrence@) {
            lemma_text_before_transitive(a.occurrence@, b.occurrence@, c.occurrence@);
        }
    }
}

/// Delivers the event alerts whose moment falls after `after` and by `now`:
/// every alert of every occurrence starting in the window gets one receipt,
/// unless a receipt already records it. The new receipts, ordered by their
/// occurrence text (equal texts in the order found), are added to the
/// planner's receipts and returned; the check moment becomes `now`.
pub fn reconcile(planner: &mut Planner, after: Instant, now: Instant, all_day_zone: &str) -> (delivered: Vec<EventReceipt>)
    requires
        check_window(after, now),
    ensures
        exists|unsorted: Seq<OccurrenceRank>, ranks: Seq<OccurrenceRank>|
            #![trigger unsorted.to_multiset(), ranks.to_multiset()]
            {
                let found = events_receipts(old(planner).event_receipts@, old(planner).events@, after, now, all_day_zone@);
                &&& unsorted.len() == found.len()
                &&& forall|p: int| 0 <= p < unsorted.len() ==> #[trigger] unsorted[p].position == p
                    && unsorted[p].occurrence@ == found[p].occurrence
                &&& ranks.to_multiset() == unsorted.to_multiset()
                &&& ranked_sorted(ranks)
                &&& ranks.len() == delivered@.len()
                &&& forall|i: int| 0 <= i < ranks.len() ==> #[trigger] receipt_view(delivered@[i]) == found[ranks[i].position as int]
            },
        final(planner).event_receipts@ == old(planner).event_receipts@ + delivered@,
        all_delivered(events_receipts(old(planner).event_receipts@, old(planner).events@, after, now, all_day_zone@), delivered@),
        final(planner).event_checked_at_utc matches Some(t) && t@ == utc_rfc3339(now),
        final(planner).events == old(planner).events,
        final(planner).tasks == old(planner).tasks,
        final(planner).reminders == old(planner).reminders,
        final(planner).alarms == old(planner).alarms,
        final(planner).alarm_receipts == old(planner).alarm_receipts,
        final(planner).alarm_checked_at_utc == old(planner).alarm_checked_at_utc,
        final(planner).alarm_snoozes == old(planner).alarm_snoozes,
        final(planner).timers == old(planner).timers,
        final(planner).stopwatch == old(planner).stopwatch,
{
    let ghost receipts = planner.event_receipts@;
    let ghost events = planner.events@;
    let now_text = instant_text(now);
    let mut found: Vec<EventReceipt> = Vec::new();
    let mut i: usize = 0;
    while i < planner.events.len()
        invariant
            check_window(after, now),
            now_text@ == utc_rfc3339(now),
            planner.event_receipts@ == receipts,
            planner.events@ == events,
            0 <= i <= events.len(),
            found@.map_values(|r: EventReceipt| receipt_view(r)) == events_receipts(receipts, events.take(i as int), after, now, all_day_zone@),
        decreases events.len() - i,
    {
        let event = &planner.events[i];
        let starts = starts_between(event, after, now, all_day_zone);
        let ghost base = found@.map_values(|r: EventReceipt| receipt_view(r));
        let mut j: usize = 0;
        while j < starts.len()
            invariant
                check_window(after, now),
                now_text@ == utc_rfc3339(now),
                planner.event_receipts@ == receipts,
                event == events[i as int],
                0 <= j <= starts@.len(),
                starts@ == event_starts(*event, after, now, all_day_zone@),
                forall|q: int| 0 <= q < starts@.len() ==> representable(#[trigger] starts@[q]) && moderate(starts@[q]),
                found@.map_values(|r: EventReceipt| receipt_view(r)) == base + starts_receipts(receipts, event.id@, starts@.take(j as int), event.alerts@, after, now),
            decreases starts@.len() - j,
        {
            let occurrence = starts[j];
            let ghost middle = found@.map_values(|r: EventReceipt| receipt_view(r));
            let mut k: usize = 0;
            while k < event.alerts.len()
                invariant
                    check_window(after, now),
                    now_text@ == utc_rfc3339(now),
                    planner.event_receipts@ == receipts,
                    representable(occurrence),
                    moderate(occurrence),
                    0 <= k <= event.alerts@.len(),
                    found@.map_values(|r: EventReceipt| receipt_view(r)) == middle + occurrence_receipts(receipts, event.id@, occurrence, event.alerts@.take(k as int), after, now),
                decreases event.alerts@.len() - k,
            {
                let alert = &event.alerts[k];
                let lead: i64 = if alert.offset_minutes > 0 { alert.offset_minutes as i64 } else { 0 };
                let ghost before = found@.map_values(|r: EventReceipt| receipt_view(r));
                proof {
                    assert(event.alerts@.take(k as int + 1).drop_last() =~= event.alerts@.take(k as int));
                    assert(event.alerts@.take(k as int + 1).last() == *alert);
                }
                match subtract_minutes(occurrence, lead) {
                    Some(due) => {
                        if !is_not_after(due, after) && is_not_after(due, now) {
                            let occurrence_text = instant_text(occurrence);
                            if !has_receipt(&planner.event_receipts, &event.id, &occurrence_text, alert.offset_minutes) {
                                found.push(EventReceipt {
                                    event_id: event.id.duplicate(),
                                    occurrence_utc: occurrence_text,
                                    alert_offset_minutes: alert.offset_minutes,
                                    delivered_at_utc: now_text.clone(),
                                    acknowledged_at_utc: None,
                                });
                                proof {
                                    assert(found@.map_values(|r: EventReceipt| receipt_view(r)) =~= before.push(receipt_view(found@.last())));
                                }
                            }
                        }
                    },
                    None => {},
                }
                proof {
                    assert(found@.map_values(|r: EventReceipt| receipt_view(r)) =~= middle + occurrence_receipts(receipts, event.id@, occurrence, event.alerts@.take(k as int + 1), after, now));
                }
                k = k + 1;
            }
            proof {
                assert(event.alerts@.take(event.alerts@.len() as int) =~= event.alerts@);
                assert(starts@.take(j as int + 1).drop_last() =~= starts@.take(j as int));
                assert(starts@.take(j as int + 1).last() == occurrence);
                assert(found@.map_values(|r: EventReceipt| receipt_view(r)) =~= base + starts_receipts(receipts, event.id@, starts@.take(j as int + 1), event.alerts@, after, now));
            }
            j = j + 1;
        }
        proof {
            assert(starts@.take(starts@.len() as int) =~= starts@);
            assert(events.take(i as int + 1).drop_last() =~= events.take(i as int));
            assert(events.take(i as int + 1).last() == events[i as int]);
            assert(found@.map_values(|r: EventReceipt| receipt_view(r)) =~= events_receipts(receipts, events.take(i as int + 1), after, now, all_day_zone@));
        }
        i = i + 1;
    }
    proof {
        assert(events.take(events.len() as int) =~= events);
    }
    let ghost all = found@.map_values(|r: EventReceipt| receipt_view(r));
    // order the new receipts by their occurrence text
    let mut ranks: Vec<OccurrenceRank> = Vec::new();
    let mut p: usize = 0;
    while p < found.len()
        invariant
            0 <= p <= found@.len(),
            ranks@.len() == p,
            forall|q: int| 0 <= q < p ==> #[trigger] ranks@[q].position == q && ranks@[q].occurrence == found@[q].occurrence_utc,
        decreases found@.len() - p,
    {
        ranks.push(OccurrenceRank { occurrence: found[p].occurrence_utc.clone(), position: p });
        p = p + 1;
    }
    proof {
        lemma_occurrence_rank_order();
    }
    let ghost unsorted = ranks@;
    let order = sort_ranked(ranks);
    proof {
        broadcast use vstd::seq_lib::group_to_multiset_ensures;
        assert forall|q: int| 0 <= q < order@.len() implies #[trigger] order@[q].position < found@.len() by {
            assert(order@.to_multiset().count(order@[q]) > 0);
            assert(unsorted.contains(order@[q]));
        }
    }
    let mut delivered: Vec<EventReceipt> = Vec::new();
    let mut q: usize = 0;
    while q < order.len()
        invariant
            0 <= q <= order@.len(),
            delivered@.len() == q,
            all == found@.map_values(|r: EventReceipt| receipt_view(r)),
            forall|m: int| 0 <= m < order@.len() ==> #[trigger] order@[m].position < found@.len(),
            forall|m: int| 0 <= m < q ==> #[trigger] delivered@[m] == found@[order@[m].position as int],
        decreases order@.len() - q,
    {
        delivered.push(copy_receipt(&found[order[q].position]));
        q = q + 1;
    }
    let ghost before_receipts = planner.event_receipts@;
    let mut r: usize = 0;
    while r < delivered.len()
        invariant
            0 <= r <= delivered@.len(),
            planner.event_receipts@ == before_receipts + delivered@.take(r as int),
            planner.events == old(planner).events,
            planner.tasks == old(planner).tasks,
            planner.reminders == old(planner).reminders,
            planner.alarms == old(planner).alarms,
            planner.alarm_receipts == old(planner).alarm_receipts,
            planner.alarm_checked_at_utc == old(planner).alarm_checked_at_utc,
            planner.alarm_snoozes == old(planner).alarm_snoozes,
            planner.timers == old(planner).timers,
            planner.stopwatch == old(planner).stopwatch,
        decreases delivered@.len() - r,
    {
        planner.event_receipts.push(copy_receipt(&delivered[r]));
        proof {
            assert(delivered@.take(r as int + 1) =~= delivered@.take(r as int).push(delivered@[r as int]));
        }
        r = r + 1;
        assert(planner.event_receipts@ =~= before_receipts + delivered@.take(r as int));
    }
    proof {
        assert(delivered@.take(delivered@.len() as int) =~= delivered@);
        assert forall|m: int| 0 <= m < order@.len() implies #[trigger] receipt_view(delivered@[m]) == all[order@[m].position as int] by {
            assert(all[order@[m].position as int] == receipt_view(found@[order@[m].position as int]));
        }
        assert forall|m: int| 0 <= m < unsorted.len() implies #[trigger] unsorted[m].position == m && unsorted[m].occurrence@ == all[m].occurrence by {
            assert(all[m] == receipt_view(found@[m]));
        }
        assert forall|p: int| 0 <= p < all.len() implies exists|i: int| 0 <= i < delivered@.len() && #[trigger] receipt_view(delivered@[i]) == #[trigger] all[p] by {
            broadcast use vstd::seq_lib::group_to_multiset_ensures;
            assert(unsorted.contains(unsorted[p]));
            assert(order@.to_multiset().count(unsorted[p]) > 0);
            assert(order@.contains(unsorted[p]));
            let m = choose|m: int| 0 <= m < order@.len() && order@[m] == unsorted[p];
            assert(receipt_view(delivered@[m]) == all[order@[m].position as int]);
        }
    }
    planner.event_checked_at_utc = Some(now_text);
    delivered
}

/// Whether every receipt view found has a delivered receipt showing it.
pub open spec fn all_delivered(found: Seq<ReceiptView>, delivered: Seq<EventReceipt>) -> bool {
    forall|p: int| 0 <= p < found.len() ==> exists|i: int| 0 <= i < delivered.len() && #[trigger] receipt_view(delivered[i]) == #[trigger] found[p]
}

/// Whether a receipt records the alert a receipt view names.
pub open spec fn recorded(receipts: Seq<EventReceipt>, view: ReceiptView) -> bool {
    already_delivered(receipts, view.event_id, view.occurrence, view.offset)
}

/// Receipts that start with `receipts` and may go on.
pub open spec fn extends(later: Seq<EventReceipt>, receipts: Seq<EventReceipt>) -> bool {
    &&& receipts.len() <= later.len()
    &&& forall|i: int| 0 <= i < receipts.len() ==> #[trigger] later[i] == receipts[i]
}

proof fn lemma_alert_once(
    receipts: Seq<EventReceipt>,
    later: Seq<EventReceipt>,
    event_id: Seq<char>,
    occurrence: Instant,
    alert: AlertRule,
    after: Instant,
    now: Instant,
)
    requires
        extends(later, receipts),
        forall|v: ReceiptView| alert_receipts(receipts, event_id, occurrence, alert, after, now).contains(v)
            ==> recorded(later, v),
    ensures
        alert_receipts(later, event_id, occurrence, alert, after, now).len() == 0,
{
    let text = utc_rfc3339(occurrence);
    let offset = alert.offset_minutes;
    if already_delivered(receipts, event_id, text, offset) {
        let i = choose|i: int|
            0 <= i < receipts.len() && #[trigger] receipts[i].event_id@ == event_id && receipts[i].occurrence_utc@
                == text && receipts[i].alert_offset_minutes == offset;
        assert(later[i] == receipts[i]);
        assert(later[i].event_id@ == event_id);
        assert(already_delivered(later, event_id, text, offset));
    } else {
        match minutes_before(occurrence, lead_of(offset)) {
            Some(due) => {
                if !not_after(due, after) && not_after(due, now) {
                    let found = alert_receipts(receipts, event_id, occurrence, alert, after, now);
                    assert(found.contains(found[0]));
                    assert(recorded(later, found[0]));
                    assert(found[0].event_id == event_id && found[0].occurrence == text && found[0].offset == offset);
                    assert(already_delivered(later, event_id, text, offset));
                }
            },
            None => {},
        }
    }
}

proof fn lemma_occurrence_once(
    receipts: Seq<EventReceipt>,
    later: Seq<EventReceipt>,
    event_id: Seq<char>,
    occurrence: Instant,
    alerts: Seq<AlertRule>,
    after: Instant,
    now: Instant,
)
    requires
        extends(later, receipts),
        forall|v: ReceiptView| occurrence_receipts(receipts, event_id, occurrence, alerts, after, now).contains(v)
            ==> recorded(later, v),
    ensures
        occurrence_receipts(later, event_id, occurrence, alerts, after, now).len() == 0,
    decreases alerts.len(),
{
    if alerts.len() > 0 {
        let rest = occurrence_receipts(receipts, event_id, occurrence, alerts.drop_last(), after, now);
        let last = alert_receipts(receipts, event_id, occurrence, alerts.last(), after, now);
        assert forall|v: ReceiptView| rest.contains(v) implies recorded(later, v) by {
            let k = choose|k: int| 0 <= k < rest.len() && rest[k] == v;
            assert((rest + last)[k] == v);
            assert((rest + last).contains(v));
        }
        assert forall|v: ReceiptView| last.contains(v) implies recorded(later, v) by {
            let k = choose|k: int| 0 <= k < last.len() && last[k] == v;
            assert((rest + last)[rest.len() + k] == v);
            assert((rest + last).contains(v));
        }
        lemma_occurrence_once(receipts, later, event_id, occurrence, alerts.drop_last(), after, now);
        lemma_alert_once(receipts, later, event_id, occurrence, alerts.last(), after, now);
    }
}

proof fn lemma_starts_once(
    receipts: Seq<EventReceipt>,
    later: Seq<EventReceipt>,
    event_id: Seq<char>,
    starts: Seq<Instant>,
    alerts: Seq<AlertRule>,
    after: Instant,
    now: Instant,
)
    requires
        extends(later, receipts),
        forall|v: ReceiptView| starts_receipts(receipts, event_id, starts, alerts, after, now).contains(v)
            ==> recorded(later, v),
    ensures
        starts_receipts(later, event_id, starts, alerts, after, now).len() == 0,
    decreases starts.len(),
{
    if starts.len() > 0 {
        let rest = starts_receipts(receipts, event_id, starts.drop_last(), alerts, after, now);
        let last = occurrence_receipts(receipts, event_id, starts.last(), alerts, after, now);
        assert forall|v: ReceiptView| rest.contains(v) implies recorded(later, v) by {
            let k = choose|k: int| 0 <= k < rest.len() && rest[k] == v;
            assert((rest + last)[k] == v);
            assert((rest + last).contains(v));
        }
        assert forall|v: ReceiptView| last.contains(v) implies recorded(later, v) by {
            let k = choose|k: int| 0 <= k < last.len() && last[k] == v;
            assert((rest + last)[rest.len() + k] == v);
            assert((rest + last).contains(v));
        }
        lemma_starts_once(receipts, later, event_id, starts.drop_last(), alerts, after, now);
        lemma_occurrence_once(receipts, later, event_id, starts.last(), alerts, after, now);
    }
}

proof fn lemma_events_once(
    receipts: Seq<EventReceipt>,
    later: Seq<EventReceipt>,
    events: Seq<Event>,
    after: Instant,
    now: Instant,
    all_day_zone: Seq<char>,
)
    requires
        extends(later, receipts),
        forall|v: ReceiptView| events_receipts(receipts, events, after, now, all_day_zone).contains(v)
            ==> recorded(later, v),
    ensures
        events_receipts(later, events, after, now, all_day_zone).len() == 0,
    decreases events.len(),
{
    if events.len() > 0 {
        let event = events.last();
        let starts = event_starts(event, after, now, all_day_zone);
        let rest = events_receipts(receipts, events.drop_last(), after, now, all_day_zone);
        let last = starts_receipts(receipts, event.id@, starts, event.alerts@, after, now);
        assert forall|v: ReceiptView| rest.contains(v) implies recorded(later, v) by {
            let k = choose|k: int| 0 <= k < rest.len() && rest[k] == v;
            assert((rest + last)[k] == v);
            assert((rest + last).contains(v));
        }
        assert forall|v: ReceiptView| last.contains(v) implies recorded(later, v) by {
            let k = choose|k: int| 0 <= k < last.len() && last[k] == v;
            assert((rest + last)[rest.len() + k] == v);
            assert((rest + last).contains(v));
        }
        lemma_events_once(receipts, later, events.drop_last(), after, now, all_day_zone);
        lemma_starts_once(receipts, later, event.id@, starts, event.alerts@, after, now);
    }
}

/// Each event alert is delivered once: once the receipts a check delivered
/// are recorded, a check over the same window delivers nothing more.
pub proof fn lemma_event_alert_delivered_once(
    receipts: Seq<EventReceipt>,
    delivered: Seq<EventReceipt>,
    events: Seq<Event>,
    after: Instant,
    now: Instant,
    all_day_zone: Seq<char>,
)
    requires
        all_delivered(events_receipts(receipts, events, after, now, all_day_zone), delivered),
    ensures
        events_receipts(receipts + delivered, events, after, now, all_day_zone).len() == 0,
{
    let later = receipts + delivered;
    let found = events_receipts(receipts, events, after, now, all_day_zone);
    assert forall|v: ReceiptView| found.contains(v) implies recorded(later, v) by {
        let p = choose|p: int| 0 <= p < found.len() && found[p] == v;
        let i = choose|i: int| 0 <= i < delivered.len() && #[trigger] receipt_view(delivered[i]) == found[p];
        let j = receipts.len() + i;
        assert(later[j] == delivered[i]);
        assert(later[j].event_id@ == v.event_id);
    }
    lemma_events_once(receipts, later, events, after, now, all_day_zone);
}

} // verus!

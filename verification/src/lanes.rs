//! Side-by-side lanes for overlapping markers in the plan's week view.

use vstd::prelude::*;
use crate::sorting::{ranked_sorted, sort_ranked, stable_arrangement, strict_order, ties_agree, tied, Ranked};
use crate::text::{lemma_text_before_transitive, text_before, text_less};

verus! {

/// The day and the minute range a marker covers.
#[derive(Clone, Copy, Debug, PartialEq, Eq, Structural)]
pub struct LaneSpan {
    pub day: i32,
    pub start: i32,
    pub end: i32,
}

/// The lane a marker is drawn in and the number of lanes of its cluster.
#[derive(Clone, Copy, Debug, PartialEq, Eq, Structural)]
pub struct LanePlacement {
    pub lane: i32,
    pub count: i32,
}

/// End of a cluster: starting at `spans[from]`, it takes the following spans of
/// the same day for as long as each starts before the latest end seen so far.
pub open spec fn cluster_limit(spans: Seq<LaneSpan>, from: int, j: int, end: int) -> int
    decreases spans.len() - j,
{
    if 0 <= j < spans.len() && spans[j].day == spans[from].day && spans[j].start < end {
        cluster_limit(
            spans,
            from,
            j + 1,
            if spans[j].end > end {
                spans[j].end as int
            } else {
                end
            },
        )
    } else {
        j
    }
}

/// The lowest lane whose last marker has ended by `start`; a new lane when none has.
pub open spec fn first_free_lane(ends: Seq<i32>, start: int) -> int
    decreases ends.len(),
{
    if ends.len() == 0 {
        0
    } else if ends[0] <= start {
        0
    } else {
        1 + first_free_lane(ends.drop_first(), start)
    }
}

/// The end of the last marker in each lane after placing spans `from..k` of a cluster.
pub open spec fn lane_ends(spans: Seq<LaneSpan>, from: int, k: int) -> Seq<i32>
    decreases k - from,
{
    if k <= from {
        Seq::empty()
    } else {
        let ends = lane_ends(spans, from, k - 1);
        let lane = first_free_lane(ends, spans[k - 1].start as int);
        let grown = if lane >= ends.len() {
            ends.push(0i32)
        } else {
            ends
        };
        grown.update(lane, spans[k - 1].end)
    }
}

/// The placements of the cluster `from..limit`.
pub open spec fn cluster_placements(spans: Seq<LaneSpan>, from: int, limit: int) -> Seq<
    LanePlacement,
> {
    let lanes = lane_ends(spans, from, limit).len();
    let count = if lanes < 1 {
        1
    } else {
        lanes
    };
    Seq::new(
        (limit - from) as nat,
        |i: int|
            LanePlacement {
                lane: first_free_lane(lane_ends(spans, from, from + i), spans[from + i].start as int) as i32,
                count: count as i32,
            },
    )
}

/// Placements of the spans from `from` on, cluster by cluster.
pub open spec fn placements_from(spans: Seq<LaneSpan>, from: int) -> Seq<LanePlacement>
    decreases spans.len() - from,
{
    if from < 0 || from >= spans.len() {
        Seq::empty()
    } else {
        let limit = cluster_limit(spans, from, from + 1, spans[from].end as int);
        if limit <= from || limit > spans.len() {
            Seq::empty()
        } else {
            cluster_placements(spans, from, limit) + placements_from(spans, limit)
        }
    }
}

proof fn lemma_cluster_limit_bounds(spans: Seq<LaneSpan>, from: int, j: int, end: int)
    requires
        0 <= from < j <= spans.len(),
    ensures
        j <= cluster_limit(spans, from, j, end) <= spans.len(),
    decreases spans.len() - j,
{
    if j < spans.len() && spans[j].day == spans[from].day && spans[j].start < end {
        lemma_cluster_limit_bounds(
            spans,
            from,
            j + 1,
            if spans[j].end > end {
                spans[j].end as int
            } else {
                end
            },
        );
    }
}

proof fn lemma_first_free_lane(ends: Seq<i32>, start: int)
    ensures
        0 <= first_free_lane(ends, start) <= ends.len(),
        first_free_lane(ends, start) < ends.len() ==> ends[first_free_lane(ends, start)] <= start,
        forall|i: int| 0 <= i < first_free_lane(ends, start) ==> #[trigger] ends[i] > start,
    decreases ends.len(),
{
    if ends.len() > 0 && ends[0] > start {
        lemma_first_free_lane(ends.drop_first(), start);
        assert forall|i: int| 0 <= i < first_free_lane(ends, start) implies #[trigger] ends[i]
            > start by {
            if i > 0 {
                assert(ends[i] == ends.drop_first()[i - 1]);
            }
        }
    }
}

proof fn lemma_lane_ends_len(spans: Seq<LaneSpan>, from: int, k: int)
    requires
        from <= k,
    ensures
        lane_ends(spans, from, k).len() <= k - from,
    decreases k - from,
{
    if k > from {
        lemma_lane_ends_len(spans, from, k - 1);
        lemma_first_free_lane(lane_ends(spans, from, k - 1), spans[k - 1].start as int);
    }
}

/// Assigns lanes: within each cluster of overlapping spans of one day, each
/// span takes the lowest lane that is free at its start.
pub fn assign_lanes(spans: &Vec<LaneSpan>) -> (placements: Vec<LanePlacement>)
    requires
        spans@.len() < i32::MAX,
    ensures
        placements@ == placements_from(spans@, 0),
{
    let n = spans.len();
    let ghost s = spans@;
    let mut placements: Vec<LanePlacement> = Vec::new();
    let mut cluster_start: usize = 0;
    while cluster_start < n
        invariant
            n == s.len(),
            s == spans@,
            n < i32::MAX,
            0 <= cluster_start <= n,
            placements_from(s, 0) == placements@ + placements_from(s, cluster_start as int),
        decreases n - cluster_start,
    {
        // extend the cluster
        let day = spans[cluster_start].day;
        let mut cluster_end: i32 = spans[cluster_start].end;
        let mut limit: usize = cluster_start + 1;
        proof {
            lemma_cluster_limit_bounds(s, cluster_start as int, limit as int, cluster_end as int);
        }
        while limit < n && spans[limit].day == day && spans[limit].start < cluster_end
            invariant
                n == s.len(),
                s == spans@,
                0 <= cluster_start < limit <= n,
                day == s[cluster_start as int].day,
                cluster_limit(s, cluster_start as int, cluster_start + 1, s[cluster_start as int].end as int)
                    == cluster_limit(s, cluster_start as int, limit as int, cluster_end as int),
            decreases n - limit,
        {
            if spans[limit].end > cluster_end {
                cluster_end = spans[limit].end;
            }
            limit = limit + 1;
        }
        let ghost cs = cluster_start as int;
        assert(limit as int == cluster_limit(s, cs, cs + 1, s[cs].end as int));
        // place the spans of the cluster
        let mut ends: Vec<i32> = Vec::new();
        let mut lanes: Vec<i32> = Vec::new();
        let mut k: usize = cluster_start;
        while k < limit
            invariant
                n == s.len(),
                s == spans@,
                n < i32::MAX,
                0 <= cluster_start <= k <= limit <= n,
                ends@ == lane_ends(s, cluster_start as int, k as int),
                lanes@.len() == k - cluster_start,
                forall|i: int|
                    0 <= i < k - cluster_start ==> #[trigger] lanes@[i] == first_free_lane(
                        lane_ends(s, cluster_start as int, cluster_start + i),
                        s[cluster_start + i].start as int,
                    ),
            decreases limit - k,
        {
            let start = spans[k].start;
            proof {
                lemma_first_free_lane(ends@, start as int);
                lemma_lane_ends_len(s, cluster_start as int, k as int);
            }
            let mut lane: usize = 0;
            while lane < ends.len() && ends[lane] > start
                invariant
                    0 <= lane <= ends@.len(),
                    lane <= first_free_lane(ends@, start as int),
                    first_free_lane(ends@, start as int) <= ends@.len(),
                    first_free_lane(ends@, start as int) < ends@.len() ==> ends@[first_free_lane(ends@, start as int)] <= start,
                    forall|i: int| 0 <= i < first_free_lane(ends@, start as int) ==> #[trigger] ends@[i] > start,
                decreases ends@.len() - lane,
            {
                lane = lane + 1;
            }
            if lane == ends.len() {
                ends.push(0);
            }
            ends.set(lane, spans[k].end);
            lanes.push(lane as i32);
            k = k + 1;
            proof {
                assert(ends@ =~= lane_ends(s, cluster_start as int, k as int));
            }
        }
        proof {
            lemma_lane_ends_len(s, cluster_start as int, limit as int);
        }
        let lane_count: i32 = if ends.len() < 1 { 1 } else { ends.len() as i32 };
        let ghost before = placements@;
        let mut i: usize = 0;
        while i < limit - cluster_start
            invariant
                0 <= cluster_start < limit <= n,
                n < i32::MAX,
                lanes@.len() == limit - cluster_start,
                placements@.len() == before.len() + i,
                0 <= i <= limit - cluster_start,
                placements@ == before + cluster_placements(s, cluster_start as int, limit as int).take(i as int),
                lane_count as int == (if lane_ends(s, cluster_start as int, limit as int).len() < 1 { 1 } else { lane_ends(s, cluster_start as int, limit as int).len() }),
                forall|j: int|
                    0 <= j < limit - cluster_start ==> #[trigger] lanes@[j] == first_free_lane(
                        lane_ends(s, cluster_start as int, cluster_start + j),
                        s[cluster_start + j].start as int,
                    ),
            decreases limit - cluster_start - i,
        {
            placements.push(LanePlacement { lane: lanes[i], count: lane_count });
            i = i + 1;
            proof {
                assert(placements@ =~= before + cluster_placements(s, cluster_start as int, limit as int).take(i as int));
            }
        }
        proof {
            assert(cluster_placements(s, cs, limit as int).take(i as int) =~= cluster_placements(s, cs, limit as int));
            assert(placements_from(s, cs) == cluster_placements(s, cs, limit as int) + placements_from(s, limit as int));
            assert(placements_from(s, 0) =~= placements@ + placements_from(s, limit as int));
        }
        cluster_start = limit;
    }
    assert(placements_from(s, cluster_start as int) =~= Seq::<LanePlacement>::empty());
    assert(placements@ =~= placements_from(s, 0));
    placements
}

/// The order of plan markers: by day, then minute, then identifier.
pub open spec fn key_before(a: (i32, i32, Seq<char>), b: (i32, i32, Seq<char>)) -> bool {
    ||| a.0 < b.0
    ||| (a.0 == b.0 && a.1 < b.1)
    ||| (a.0 == b.0 && a.1 == b.1 && text_before(a.2, b.2))
}

proof fn lemma_key_before_transitive(
    a: (i32, i32, Seq<char>),
    b: (i32, i32, Seq<char>),
    c: (i32, i32, Seq<char>),
)
    requires
        key_before(a, b),
        key_before(b, c),
    ensures
        key_before(a, c),
{
    if a.0 == b.0 && b.0 == c.0 && a.1 == b.1 && b.1 == c.1 {
        lemma_text_before_transitive(a.2, b.2, c.2);
    }
}

/// Keys that neither sorts before are the same key.
proof fn lemma_key_total(a: (i32, i32, Seq<char>), b: (i32, i32, Seq<char>))
    ensures
        !key_before(a, b) && !key_before(b, a) ==> a == b,
{
    crate::text::lemma_text_before_total(a.2, b.2);
}

proof fn lemma_key_irreflexive(a: (i32, i32, Seq<char>))
    ensures
        !key_before(a, a),
{
    crate::text::lemma_text_before_irreflexive(a.2);
}


/// How long a reminder is drawn in the week view, in minutes.
pub const REMINDER_VISUAL_MINUTES: i32 = 30;

/// A reminder drawn in the plan's week view.
#[derive(Clone, Debug)]
pub struct PlanReminderMarker {
    pub id: String,
    pub title: String,
    pub date: String,
    pub time: String,
    pub day_index: i32,
    pub minute_offset: i32,
    pub lane_index: i32,
    pub lane_count: i32,
}

/// A timed event drawn in the plan's week view.
#[derive(Clone, Debug)]
pub struct PlanEventMarker {
    pub id: String,
    pub title: String,
    pub date: String,
    pub time: String,
    pub day_index: i32,
    pub minute_offset: i32,
    pub duration_minutes: i32,
    pub lane_index: i32,
    pub lane_count: i32,
}

fn markers_sort_before(
    day: i32,
    minute: i32,
    id: &str,
    other_day: i32,
    other_minute: i32,
    other_id: &str,
) -> (before: bool)
    ensures
        before == key_before((day, minute, id@), (other_day, other_minute, other_id@)),
{
    if day != other_day {
        day < other_day
    } else if minute != other_minute {
        minute < other_minute
    } else {
        text_less(id, other_id)
    }
}

impl Ranked for PlanReminderMarker {
    open spec fn precedes(&self, other: &Self) -> bool {
        key_before((self.day_index, self.minute_offset, self.id@), (other.day_index, other.minute_offset, other.id@))
    }

    fn check_precedes(&self, other: &Self) -> (before: bool) {
        markers_sort_before(
            self.day_index,
            self.minute_offset,
            self.id.as_str(),
            other.day_index,
            other.minute_offset,
            other.id.as_str(),
        )
    }
}

impl Ranked for PlanEventMarker {
    open spec fn precedes(&self, other: &Self) -> bool {
        key_before((self.day_index, self.minute_offset, self.id@), (other.day_index, other.minute_offset, other.id@))
    }

    fn check_precedes(&self, other: &Self) -> (before: bool) {
        markers_sort_before(
            self.day_index,
            self.minute_offset,
            self.id.as_str(),
            other.day_index,
            other.minute_offset,
            other.id.as_str(),
        )
    }
}

/// The span a reminder covers: its start and the visual duration after it.
pub open spec fn reminder_span(m: PlanReminderMarker) -> LaneSpan {
    LaneSpan {
        day: m.day_index,
        start: m.minute_offset,
        end: (m.minute_offset + REMINDER_VISUAL_MINUTES) as i32,
    }
}

/// The span an event covers: its start and its visible duration.
pub open spec fn event_span(m: PlanEventMarker) -> LaneSpan {
    LaneSpan {
        day: m.day_index,
        start: m.minute_offset,
        end: (m.minute_offset + m.duration_minutes) as i32,
    }
}

/// A reminder marker placed in a lane.
pub open spec fn reminder_in_lane(m: PlanReminderMarker, p: LanePlacement) -> PlanReminderMarker {
    PlanReminderMarker {
        id: m.id,
        title: m.title,
        date: m.date,
        time: m.time,
        day_index: m.day_index,
        minute_offset: m.minute_offset,
        lane_index: p.lane,
        lane_count: p.count,
    }
}

/// An event marker placed in a lane.
pub open spec fn event_in_lane(m: PlanEventMarker, p: LanePlacement) -> PlanEventMarker {
    PlanEventMarker {
        id: m.id,
        title: m.title,
        date: m.date,
        time: m.time,
        day_index: m.day_index,
        minute_offset: m.minute_offset,
        duration_minutes: m.duration_minutes,
        lane_index: p.lane,
        lane_count: p.count,
    }
}

/// The reminder markers in the given order, each in the lane that
/// `placements_from` gives it.
pub open spec fn reminders_in_lanes(sorted: Seq<PlanReminderMarker>) -> Seq<PlanReminderMarker> {
    let placements = placements_from(sorted.map_values(|m: PlanReminderMarker| reminder_span(m)), 0);
    Seq::new(sorted.len(), |i: int| reminder_in_lane(sorted[i], placements[i]))
}

/// The event markers in the given order, each in the lane that
/// `placements_from` gives it.
pub open spec fn events_in_lanes(sorted: Seq<PlanEventMarker>) -> Seq<PlanEventMarker> {
    let placements = placements_from(sorted.map_values(|m: PlanEventMarker| event_span(m)), 0);
    Seq::new(sorted.len(), |i: int| event_in_lane(sorted[i], placements[i]))
}

proof fn lemma_placements_len(spans: Seq<LaneSpan>, from: int)
    requires
        0 <= from <= spans.len(),
    ensures
        placements_from(spans, from).len() == spans.len() - from,
    decreases spans.len() - from,
{
    if from < spans.len() {
        let limit = cluster_limit(spans, from, from + 1, spans[from].end as int);
        lemma_cluster_limit_bounds(spans, from, from + 1, spans[from].end as int);
        lemma_placements_len(spans, limit);
    }
}

fn copy_text(s: &String) -> (copy: String)
    ensures
        copy == *s,
{
    s.clone()
}

/// Sorts reminders by day, minute and identifier (rows that tie keep their
/// order), then gives overlapping reminders of one day side-by-side lanes;
/// each reminder is drawn for thirty minutes.
pub fn arrange_plan_reminder_lanes(rows: Vec<PlanReminderMarker>) -> (arranged: Vec<
    PlanReminderMarker,
>)
    requires
        rows@.len() < i32::MAX,
        forall|i: int|
            0 <= i < rows@.len() ==> #[trigger] rows@[i].minute_offset <= i32::MAX
                - REMINDER_VISUAL_MINUTES,
    ensures
        exists|sorted: Seq<PlanReminderMarker>|
            {
                &&& sorted.to_multiset() == rows@.to_multiset()
                &&& ranked_sorted(sorted)
                &&& stable_arrangement(rows@, sorted)
                &&& arranged@ == reminders_in_lanes(sorted)
            },
{
    proof {
        lemma_reminder_order();
    }
    let sorted = sort_ranked(rows);
    proof {
        broadcast use vstd::seq_lib::group_to_multiset_ensures;
        assert forall|i: int| 0 <= i < sorted@.len() implies #[trigger] sorted@[i].minute_offset
            <= i32::MAX - REMINDER_VISUAL_MINUTES by {
            assert(sorted@.to_multiset().count(sorted@[i]) > 0);
            assert(rows@.contains(sorted@[i]));
        }
        assert(sorted@.len() == rows@.len()) by {
            assert(sorted@.to_multiset().len() == rows@.to_multiset().len());
        }
    }
    let n = sorted.len();
    let mut spans: Vec<LaneSpan> = Vec::new();
    let mut i: usize = 0;
    while i < n
        invariant
            n == sorted@.len(),
            0 <= i <= n,
            forall|k: int|
                0 <= k < n ==> #[trigger] sorted@[k].minute_offset <= i32::MAX
                    - REMINDER_VISUAL_MINUTES,
            spans@ =~= sorted@.take(i as int).map_values(|m: PlanReminderMarker| reminder_span(m)),
        decreases n - i,
    {
        let m = &sorted[i];
        spans.push(
            LaneSpan {
                day: m.day_index,
                start: m.minute_offset,
                end: m.minute_offset + REMINDER_VISUAL_MINUTES,
            },
        );
        i = i + 1;
    }
    let ghost all_spans = sorted@.map_values(|m: PlanReminderMarker| reminder_span(m));
    assert(sorted@.take(n as int) =~= sorted@);
    assert(spans@ =~= all_spans);
    let placements = assign_lanes(&spans);
    proof {
        lemma_placements_len(all_spans, 0);
    }
    let mut arranged: Vec<PlanReminderMarker> = Vec::new();
    let mut j: usize = 0;
    while j < n
        invariant
            n == sorted@.len(),
            0 <= j <= n,
            placements@ == placements_from(all_spans, 0),
            placements@.len() == n,
            all_spans == sorted@.map_values(|m: PlanReminderMarker| reminder_span(m)),
            arranged@ =~= reminders_in_lanes(sorted@).take(j as int),
        decreases n - j,
    {
        let m = &sorted[j];
        let placement = placements[j];
        arranged.push(
            PlanReminderMarker {
                id: copy_text(&m.id),
                title: copy_text(&m.title),
                date: copy_text(&m.date),
                time: copy_text(&m.time),
                day_index: m.day_index,
                minute_offset: m.minute_offset,
                lane_index: placement.lane,
                lane_count: placement.count,
            },
        );
        j = j + 1;
    }
    assert(reminders_in_lanes(sorted@).take(n as int) =~= reminders_in_lanes(sorted@));
    arranged
}

/// Sorts timed events by day, minute and identifier (rows that tie keep
/// their order), then gives overlapping events of one day side-by-side lanes.
pub fn arrange_plan_event_lanes(rows: Vec<PlanEventMarker>) -> (arranged: Vec<PlanEventMarker>)
    requires
        rows@.len() < i32::MAX,
        forall|i: int|
            0 <= i < rows@.len() ==> i32::MIN <= #[trigger] rows@[i].minute_offset
                + rows@[i].duration_minutes <= i32::MAX,
    ensures
        exists|sorted: Seq<PlanEventMarker>|
            {
                &&& sorted.to_multiset() == rows@.to_multiset()
                &&& ranked_sorted(sorted)
                &&& stable_arrangement(rows@, sorted)
                &&& arranged@ == events_in_lanes(sorted)
            },
{
    proof {
        lemma_event_order();
    }
    let sorted = sort_ranked(rows);
    proof {
        broadcast use vstd::seq_lib::group_to_multiset_ensures;
        assert forall|i: int| 0 <= i < sorted@.len() implies i32::MIN <= #[trigger] sorted@[i].minute_offset
            + sorted@[i].duration_minutes <= i32::MAX by {
            assert(sorted@.to_multiset().count(sorted@[i]) > 0);
            assert(rows@.contains(sorted@[i]));
        }
        assert(sorted@.len() == rows@.len()) by {
            assert(sorted@.to_multiset().len() == rows@.to_multiset().len());
        }
    }
    let n = sorted.len();
    let mut spans: Vec<LaneSpan> = Vec::new();
    let mut i: usize = 0;
    while i < n
        invariant
            n == sorted@.len(),
            0 <= i <= n,
            forall|k: int|
                0 <= k < n ==> i32::MIN <= #[trigger] sorted@[k].minute_offset
                    + sorted@[k].duration_minutes <= i32::MAX,
            spans@ =~= sorted@.take(i as int).map_values(|m: PlanEventMarker| event_span(m)),
        decreases n - i,
    {
        let m = &sorted[i];
        spans.push(
            LaneSpan {
                day: m.day_index,
                start: m.minute_offset,
                end: m.minute_offset + m.duration_minutes,
            },
        );
        i = i + 1;
    }
    let ghost all_spans = sorted@.map_values(|m: PlanEventMarker| event_span(m));
    assert(sorted@.take(n as int) =~= sorted@);
    assert(spans@ =~= all_spans);
    let placements = assign_lanes(&spans);
    proof {
        lemma_placements_len(all_spans, 0);
    }
    let mut arranged: Vec<PlanEventMarker> = Vec::new();
    let mut j: usize = 0;
    while j < n
        invariant
            n == sorted@.len(),
            0 <= j <= n,
            placements@ == placements_from(all_spans, 0),
            placements@.len() == n,
            all_spans == sorted@.map_values(|m: PlanEventMarker| event_span(m)),
            arranged@ =~= events_in_lanes(sorted@).take(j as int),
        decreases n - j,
    {
        let m = &sorted[j];
        let placement = placements[j];
        arranged.push(
            PlanEventMarker {
                id: copy_text(&m.id),
                title: copy_text(&m.title),
                date: copy_text(&m.date),
                time: copy_text(&m.time),
                day_index: m.day_index,
                minute_offset: m.minute_offset,
                duration_minutes: m.duration_minutes,
                lane_index: placement.lane,
                lane_count: placement.count,
            },
        );
        j = j + 1;
    }
    assert(events_in_lanes(sorted@).take(n as int) =~= events_in_lanes(sorted@));
    arranged
}

/// Plan reminders are strictly ordered by day, minute and identifier.
pub proof fn lemma_reminder_order()
    ensures
        strict_order::<PlanReminderMarker>(),
        ties_agree::<PlanReminderMarker>(),
{
    assert forall|a: PlanReminderMarker, b: PlanReminderMarker, c: PlanReminderMarker|
        #[trigger] tied(a, b) && #[trigger] b.precedes(&c) implies a.precedes(&c) by {
        lemma_key_total((a.day_index, a.minute_offset, a.id@), (b.day_index, b.minute_offset, b.id@));
    }
    assert forall|a: PlanReminderMarker| !#[trigger] a.precedes(&a) by {
        lemma_key_irreflexive((a.day_index, a.minute_offset, a.id@));
    }
    assert forall|a: PlanReminderMarker, b: PlanReminderMarker, c: PlanReminderMarker|
        #[trigger] a.precedes(&b) && #[trigger] b.precedes(&c) implies a.precedes(&c) by {
        lemma_key_before_transitive(
            (a.day_index, a.minute_offset, a.id@),
            (b.day_index, b.minute_offset, b.id@),
            (c.day_index, c.minute_offset, c.id@),
        );
    }
}

/// Plan events are strictly ordered by day, minute and identifier.
pub proof fn lemma_event_order()
    ensures
        strict_order::<PlanEventMarker>(),
        ties_agree::<PlanEventMarker>(),
{
    assert forall|a: PlanEventMarker, b: PlanEventMarker, c: PlanEventMarker|
        #[trigger] tied(a, b) && #[trigger] b.precedes(&c) implies a.precedes(&c) by {
        lemma_key_total((a.day_index, a.minute_offset, a.id@), (b.day_index, b.minute_offset, b.id@));
    }
    assert forall|a: PlanEventMarker| !#[trigger] a.precedes(&a) by {
        lemma_key_irreflexive((a.day_index, a.minute_offset, a.id@));
    }
    assert forall|a: PlanEventMarker, b: PlanEventMarker, c: PlanEventMarker|
        #[trigger] a.precedes(&b) && #[trigger] b.precedes(&c) implies a.precedes(&c) by {
        lemma_key_before_transitive(
            (a.day_index, a.minute_offset, a.id@),
            (b.day_index, b.minute_offset, b.id@),
            (c.day_index, c.minute_offset, c.id@),
        );
    }
}


proof fn lemma_lane_ends_grow(spans: Seq<LaneSpan>, from: int, k1: int, k2: int)
    requires
        from <= k1 <= k2,
    ensures
        lane_ends(spans, from, k1).len() <= lane_ends(spans, from, k2).len(),
    decreases k2 - k1,
{
    if k1 < k2 {
        lemma_lane_ends_grow(spans, from, k1, k2 - 1);
        lemma_first_free_lane(lane_ends(spans, from, k2 - 1), spans[k2 - 1].start as int);
    }
}

proof fn lemma_lane_in_ends(spans: Seq<LaneSpan>, from: int, k: int)
    requires
        from <= k,
    ensures
        0 <= first_free_lane(lane_ends(spans, from, k), spans[k].start as int) < lane_ends(
            spans,
            from,
            k + 1,
        ).len(),
{
    lemma_first_free_lane(lane_ends(spans, from, k), spans[k].start as int);
}

proof fn lemma_cluster_lanes(spans: Seq<LaneSpan>, from: int, limit: int)
    requires
        0 <= from < limit <= spans.len(),
        spans.len() < i32::MAX,
    ensures
        forall|i: int|
            0 <= i < limit - from ==> 0 <= #[trigger] cluster_placements(spans, from, limit)[i].lane
                < cluster_placements(spans, from, limit)[i].count,
{
    let all = lane_ends(spans, from, limit);
    lemma_lane_ends_len(spans, from, limit);
    assert forall|i: int| 0 <= i < limit - from implies 0 <= #[trigger] cluster_placements(
        spans,
        from,
        limit,
    )[i].lane < cluster_placements(spans, from, limit)[i].count by {
        lemma_lane_in_ends(spans, from, from + i);
        lemma_lane_ends_grow(spans, from, from + i + 1, limit);
    }
}

/// Every marker is drawn in one of its cluster's lanes: its lane is below
/// the cluster's lane count.
pub proof fn lemma_lanes_within_count(spans: Seq<LaneSpan>, from: int)
    requires
        0 <= from <= spans.len(),
        spans.len() < i32::MAX,
    ensures
        forall|i: int|
            0 <= i < placements_from(spans, from).len() ==> 0 <= #[trigger] placements_from(
                spans,
                from,
            )[i].lane < placements_from(spans, from)[i].count,
    decreases spans.len() - from,
{
    if from < spans.len() {
        let limit = cluster_limit(spans, from, from + 1, spans[from].end as int);
        lemma_cluster_limit_bounds(spans, from, from + 1, spans[from].end as int);
        lemma_cluster_lanes(spans, from, limit);
        lemma_lanes_within_count(spans, limit);
        let head = cluster_placements(spans, from, limit);
        let tail = placements_from(spans, limit);
        assert forall|i: int| 0 <= i < placements_from(spans, from).len() implies 0
            <= #[trigger] placements_from(spans, from)[i].lane < placements_from(spans, from)[i].count by {
            if i < head.len() {
                assert(placements_from(spans, from)[i] == head[i]);
            } else {
                assert(placements_from(spans, from)[i] == tail[i - head.len()]);
            }
        }
    }
}

/// The lane a span of a cluster is placed in.
pub open spec fn lane_of(spans: Seq<LaneSpan>, from: int, k: int) -> int {
    first_free_lane(lane_ends(spans, from, k), spans[k].start as int)
}

/// After span `k1` is placed, its lane stays taken at least until `k1` ends.
proof fn lemma_lane_end_kept(spans: Seq<LaneSpan>, from: int, k1: int, k: int)
    requires
        0 <= from <= k1 < k <= spans.len(),
        forall|i: int| 0 <= i < spans.len() ==> #[trigger] spans[i].start <= spans[i].end,
    ensures
        lane_of(spans, from, k1) < lane_ends(spans, from, k).len(),
        lane_ends(spans, from, k)[lane_of(spans, from, k1)] >= spans[k1].end,
    decreases k - k1,
{
    let lane = lane_of(spans, from, k1);
    lemma_lane_in_ends(spans, from, k1);
    if k == k1 + 1 {
        let before = lane_ends(spans, from, k1);
        lemma_first_free_lane(before, spans[k1].start as int);
        let grown = if lane >= before.len() { before.push(0i32) } else { before };
        assert(lane_ends(spans, from, k) == grown.update(lane, spans[k1].end));
    } else {
        lemma_lane_end_kept(spans, from, k1, k - 1);
        let ends = lane_ends(spans, from, k - 1);
        let last = k - 1;
        let placed = lane_of(spans, from, last);
        lemma_first_free_lane(ends, spans[last].start as int);
        assert(spans[last].start <= spans[last].end);
        let grown = if placed >= ends.len() { ends.push(0i32) } else { ends };
        assert(lane_ends(spans, from, k) == grown.update(placed, spans[last].end));
        assert(grown[lane] == ends[lane]);
        if placed == lane {
            assert(ends[lane] <= spans[last].start);
        }
    }
}

/// Markers of one cluster that overlap in time are never drawn in the same
/// lane (for markers that do not end before they start).
pub proof fn lemma_overlapping_markers_get_different_lanes(spans: Seq<LaneSpan>, from: int, limit: int, i: int, j: int)
    requires
        0 <= from < limit <= spans.len(),
        spans.len() < i32::MAX,
        forall|k: int| 0 <= k < spans.len() ==> #[trigger] spans[k].start <= spans[k].end,
        0 <= i < j < limit - from,
        spans[from + j].start < spans[from + i].end,
    ensures
        cluster_placements(spans, from, limit)[i].lane != cluster_placements(spans, from, limit)[j].lane,
{
    let k1 = from + i;
    let k2 = from + j;
    lemma_lane_end_kept(spans, from, k1, k2);
    lemma_first_free_lane(lane_ends(spans, from, k2), spans[k2].start as int);
    lemma_lane_in_ends(spans, from, k1);
    lemma_lane_in_ends(spans, from, k2);
    assert(lane_of(spans, from, k1) < 2_147_483_647 && lane_of(spans, from, k2) < 2_147_483_647) by {
        lemma_lane_ends_len(spans, from, k1 + 1);
        lemma_lane_ends_len(spans, from, k2 + 1);
    }
}

/// Every lane below the lane count of spans `from..k` holds one of them.
proof fn lemma_lanes_used(spans: Seq<LaneSpan>, from: int, k: int, lane: int)
    requires
        from <= k,
        0 <= lane < lane_ends(spans, from, k).len(),
    ensures
        exists|m: int| from <= m < k && lane_of(spans, from, m) == lane,
    decreases k - from,
{
    let ends = lane_ends(spans, from, k - 1);
    lemma_first_free_lane(ends, spans[k - 1].start as int);
    if lane < ends.len() {
        lemma_lanes_used(spans, from, k - 1, lane);
        let m = choose|m: int| from <= m < k - 1 && lane_of(spans, from, m) == lane;
        assert(from <= m < k && lane_of(spans, from, m) == lane);
    } else {
        assert(lane_of(spans, from, k - 1) == lane);
    }
}

/// A cluster's lane count is the number of lanes its markers use: each of
/// its markers is in a lane below the count, and each lane below the count
/// holds one of its markers.
pub proof fn lemma_cluster_uses_its_lanes(spans: Seq<LaneSpan>, from: int, limit: int, lane: int)
    requires
        0 <= from < limit <= spans.len(),
        spans.len() < i32::MAX,
        0 <= lane < cluster_placements(spans, from, limit)[0].count,
    ensures
        forall|i: int|
            0 <= i < limit - from ==> 0 <= #[trigger] cluster_placements(spans, from, limit)[i].lane
                < cluster_placements(spans, from, limit)[i].count,
        exists|i: int| 0 <= i < limit - from && cluster_placements(spans, from, limit)[i].lane == lane,
{
    lemma_cluster_lanes(spans, from, limit);
    lemma_lane_in_ends(spans, from, from);
    lemma_lane_ends_grow(spans, from, from + 1, limit);
    lemma_lane_ends_len(spans, from, limit);
    lemma_lanes_used(spans, from, limit, lane);
    let m = choose|m: int| from <= m < limit && lane_of(spans, from, m) == lane;
    lemma_lane_in_ends(spans, from, m);
    lemma_lane_ends_grow(spans, from, m + 1, limit);
    assert(cluster_placements(spans, from, limit)[m - from].lane == lane);
}
} // verus!

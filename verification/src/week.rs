use vstd::prelude::*;

use crate::card::CardView;
use crate::card::KanbanCard;
use crate::column::Col;
use crate::date::in_calendar;
use crate::date::Date;
use crate::calendar::weekday_from_sunday;
use crate::layout::hits;
use crate::layout::holds_index;
use crate::layout::tagged_view;
use crate::tracks::lemma_first_fit;
use crate::tracks::lemma_first_free_found;
use crate::tracks::lemma_same_track_disjoint;
use crate::tracks::lemma_track_owner;
use crate::tracks::lemma_track_ends_step;
use crate::tracks::track_ends;
use crate::tracks::track_of;

verus! {

/// A card as the calendar shows it in one week: its column, its place in the
/// list of cards, the days it covers within the week, and the track (row
/// within the week) it is drawn on.
pub struct WeekEvent {
    pub col: Col,
    pub task: usize,
    pub start: Date,
    pub end: Date,
    pub track: usize,
}

/// What a week event holds, with days as day numbers.
pub struct EventView {
    pub col: Col,
    pub task: int,
    pub start: int,
    pub end: int,
    pub track: int,
}

impl View for WeekEvent {
    type V = EventView;

    open spec fn view(&self) -> EventView {
        EventView {
            col: self.col,
            task: self.task as int,
            start: self.start@,
            end: self.end@,
            track: self.track as int,
        }
    }
}

/// The days card `c` covers in the week that starts on day `ws`: from its start
/// (`today` without one) to its end (its start without one), cut to the week;
/// `None` when it does not meet the week.
pub open spec fn week_span(c: CardView, ws: int, today: int) -> Option<(int, int)> {
    let s = match c.start_date {
        Some(d) => d,
        None => today,
    };
    let e = match c.end_date {
        Some(d) => d,
        None => s,
    };
    if s <= ws + 6 && e >= ws {
        Some(
            (
                if s > ws {
                    s
                } else {
                    ws
                },
                if e < ws + 6 {
                    e
                } else {
                    ws + 6
                },
            ),
        )
    } else {
        None
    }
}

/// The cards of `tasks` that meet the week starting on day `ws`, in their
/// order, as (column, place in `tasks`, first day, last day).
pub open spec fn week_candidates(tasks: Seq<(Col, CardView)>, ws: int, today: int) -> Seq<
    (Col, int, int, int),
>
    decreases tasks.len(),
{
    if tasks.len() == 0 {
        Seq::empty()
    } else {
        let prev = week_candidates(tasks.drop_last(), ws, today);
        match week_span(tasks.last().1, ws, today) {
            Some((cs, ce)) => prev.push((tasks.last().0, tasks.len() - 1, cs, ce)),
            None => prev,
        }
    }
}

/// The order of events in a week: longer ones first, then those that start
/// earlier, then those whose card comes first.
pub open spec fn event_before(a: (Col, int, int, int), b: (Col, int, int, int)) -> bool {
    ||| b.3 - b.2 < a.3 - a.2
    ||| b.3 - b.2 == a.3 - a.2 && a.2 < b.2
    ||| b.3 - b.2 == a.3 - a.2 && a.2 == b.2 && a.1 < b.1
}

/// Whether event `a` comes before event `b` in a week's order.
fn event_precedes(a: &WeekEvent, b: &WeekEvent) -> (r: bool)
    ensures
        r == event_before(event_key(a@), event_key(b@)),
{
    let len_a = a.end.days() as i64 - a.start.days() as i64;
    let len_b = b.end.days() as i64 - b.start.days() as i64;
    let sa = a.start.days();
    let sb = b.start.days();
    len_b < len_a || (len_b == len_a && sa < sb) || (len_b == len_a && sa == sb && a.task < b.task)
}

/// The (column, card place, first day, last day) of an event.
pub open spec fn event_key(e: EventView) -> (Col, int, int, int) {
    (e.col, e.task, e.start, e.end)
}

/// The first and last days of each event.
pub open spec fn spans_of(r: Seq<EventView>) -> Seq<(int, int)> {
    Seq::new(r.len(), |k: int| (r[k].start, r[k].end))
}

/// `r` is the week's layout: the events of the cards that meet the week, each
/// once (`p` maps each to its place among them), in the order of
/// `event_before`, each on the first track free when it is placed.
pub open spec fn week_layout(
    tasks: Seq<(Col, CardView)>,
    ws: int,
    today: int,
    r: Seq<EventView>,
    p: Seq<int>,
) -> bool {
    let cand = week_candidates(tasks, ws, today);
    &&& r.len() == cand.len()
    &&& p.len() == r.len()
    &&& forall|k: int| 0 <= k < r.len() ==> 0 <= #[trigger] p[k] < cand.len() && event_key(r[k]) == cand[p[k]]
    &&& forall|k: int, l: int| 0 <= k < l < r.len() ==> p[k] != p[l]
    &&& forall|j: int| 0 <= j < cand.len() ==> #[trigger] hits(p, j)
    &&& forall|k: int, l: int| 0 <= k < l < r.len() ==> event_before(event_key(#[trigger] r[k]), event_key(#[trigger] r[l]))
    &&& forall|k: int| 0 <= k < r.len() ==> (#[trigger] r[k]).track == track_of(spans_of(r), k)
}

/// What a sequence of week events holds.
pub open spec fn events_view(r: Seq<WeekEvent>) -> Seq<EventView> {
    Seq::new(r.len(), |k: int| r[k]@)
}

/// The (column, card place, first day, last day) of each event.
pub open spec fn cand_keys(s: Seq<WeekEvent>) -> Seq<(Col, int, int, int)> {
    Seq::new(s.len(), |q: int| event_key(s[q]@))
}

/// The day numbers of `s`.
pub open spec fn as_ints(s: Seq<i32>) -> Seq<int> {
    Seq::new(s.len(), |j: int| s[j] as int)
}

proof fn lemma_candidates_step(tasks: Seq<(Col, CardView)>, ws: int, today: int, i: int)
    requires
        0 <= i < tasks.len(),
    ensures
        week_candidates(tasks.take(i + 1), ws, today) == match week_span(tasks[i].1, ws, today) {
            Some((cs, ce)) => week_candidates(tasks.take(i), ws, today).push((tasks[i].0, i, cs, ce)),
            None => week_candidates(tasks.take(i), ws, today),
        },
{
    assert(tasks.take(i + 1).drop_last() =~= tasks.take(i));
}

proof fn lemma_candidates_shape(tasks: Seq<(Col, CardView)>, ws: int, today: int)
    ensures
        forall|k: int|
            0 <= k < week_candidates(tasks, ws, today).len() ==> {
                let c = #[trigger] week_candidates(tasks, ws, today)[k];
                &&& 0 <= c.1 < tasks.len()
                &&& c.0 == tasks[c.1].0
                &&& week_span(tasks[c.1].1, ws, today) == Some((c.2, c.3))
            },
        forall|k: int, l: int|
            0 <= k < l < week_candidates(tasks, ws, today).len() ==> (#[trigger] week_candidates(
                tasks,
                ws,
                today,
            )[k]).1 < (#[trigger] week_candidates(tasks, ws, today)[l]).1,
        forall|i: int|
            0 <= i < tasks.len() && (#[trigger] week_span(tasks[i].1, ws, today)) is Some ==> exists|k: int|
                0 <= k < week_candidates(tasks, ws, today).len() && #[trigger] week_candidates(
                    tasks,
                    ws,
                    today,
                )[k].1 == i,
    decreases tasks.len(),
{
    if tasks.len() > 0 {
        let t0 = tasks.drop_last();
        lemma_candidates_shape(t0, ws, today);
        let prev = week_candidates(t0, ws, today);
        let cand = week_candidates(tasks, ws, today);
        assert forall|k: int| 0 <= k < prev.len() implies #[trigger] prev[k].1 < tasks.len() - 1 by {}
        assert forall|i: int|
            0 <= i < tasks.len() && (#[trigger] week_span(tasks[i].1, ws, today)) is Some implies exists|k: int|
                0 <= k < cand.len() && #[trigger] cand[k].1 == i by {
            if i < tasks.len() - 1 {
                assert(t0[i] == tasks[i]);
                let k = choose|k: int| 0 <= k < prev.len() && #[trigger] prev[k].1 == i;
                assert(cand[k] == prev[k]);
            } else {
                assert(cand[prev.len() as int].1 == i);
            }
        }
    }
}

/// The layout of the week that starts on `week_start`: the cards of `tasks`
/// that meet the week, cut to it, longest first, then earliest start, then in
/// card order, each on the first track whose last event ends before it
/// starts. A card without a start date starts `today`; one without an end date
/// ends on its start.
pub fn week_events(tasks: &Vec<(Col, KanbanCard)>, week_start: Date, today: Date) -> (r: Vec<WeekEvent>)
    requires
        in_calendar(week_start@ + 6),
    ensures
        exists|p: Seq<int>| #[trigger] week_layout(tagged_view(tasks@), week_start@, today@, events_view(r@), p),
{
    let ghost ts = tagged_view(tasks@);
    let ghost ws = week_start@;
    let ws_days = week_start.days();
    let week_end = week_start.plus_days(6);
    let we_days = week_end.days();
    // The events of the cards that meet the week, in card order.
    let mut cands: Vec<WeekEvent> = Vec::new();
    let mut i: usize = 0;
    while i < tasks.len()
        invariant
            0 <= i <= tasks.len(),
            ts == tagged_view(tasks@),
            ws == week_start@,
            ws_days == ws,
            we_days == ws + 6,
            week_end@ == ws + 6,
            cand_keys(cands@) == week_candidates(ts.take(i as int), ws, today@),
        decreases tasks.len() - i,
    {
        let card = &tasks[i].1;
        let s = match card.start_date {
            Some(d) => d,
            None => today,
        };
        let e = match card.end_date {
            Some(d) => d,
            None => s,
        };
        proof {
            lemma_candidates_step(ts, ws, today@, i as int);
        }
        let sd = s.days();
        let ed = e.days();
        assert(ts[i as int] == (tasks@[i as int].0, tasks@[i as int].1@));
        if sd <= we_days && ed >= ws_days {
            let cs = if sd > ws_days {
                s
            } else {
                week_start
            };
            let ce = if ed < we_days {
                e
            } else {
                week_end
            };
            let ghost before = cands@;
            cands.push(WeekEvent { col: tasks[i].0, task: i, start: cs, end: ce, track: 0 });
            assert(cand_keys(cands@) =~= cand_keys(before).push(event_key(cands@.last()@)));
            assert(cand_keys(cands@) == week_candidates(ts.take(i as int + 1), ws, today@));
        } else {
            assert(cand_keys(cands@) == week_candidates(ts.take(i as int + 1), ws, today@));
        }
        i = i + 1;
    }
    assert(ts.take(tasks.len() as int) =~= ts);
    assert(forall|q: int| 0 <= q < cands@.len() ==> event_key(#[trigger] cands@[q]@) == cand_keys(cands@)[q]);
    let ghost cand = week_candidates(ts, ws, today@);
    assert(cand == cand_keys(cands@));
    proof {
        lemma_candidates_shape(ts, ws, today@);
    }
    assert(forall|q: int| 0 <= q < cands@.len() ==> event_key(#[trigger] cands@[q]@) == cand[q]);
    // The order of the events: longest first, then earliest start, then card order.
    let n = cands.len();
    let mut order: Vec<usize> = Vec::new();
    let mut i: usize = 0;
    while i < n
        invariant
            0 <= i <= n,
            n == cands@.len(),
            n == cand.len(),
            forall|q: int| 0 <= q < n ==> event_key(#[trigger] cands@[q]@) == cand[q],
            forall|k: int, l: int| 0 <= k < l < cand.len() ==> (#[trigger] cand[k]).1 < (#[trigger] cand[l]).1,
            order@.len() == i,
            forall|k: int| 0 <= k < i ==> #[trigger] order@[k] < i,
            forall|k: int, l: int| 0 <= k < l < i ==> order@[k] != order@[l],
            forall|q: int| 0 <= q < i ==> #[trigger] holds_index(order@, q),
            forall|k: int, l: int|
                0 <= k < l < i ==> event_before(cand[(#[trigger] order@[k]) as int], cand[(#[trigger] order@[l]) as int]),
        decreases n - i,
    {
        let mut j: usize = i;
        while j > 0 && event_precedes(&cands[i], &cands[order[j - 1]])
            invariant
                0 <= j <= i,
                i < n,
                n == cands@.len(),
                n == cand.len(),
                forall|q: int| 0 <= q < n ==> event_key(#[trigger] cands@[q]@) == cand[q],
                order@.len() == i,
                forall|k: int| 0 <= k < i ==> #[trigger] order@[k] < i,
                forall|k: int| j <= k < i ==> event_before(cand[i as int], cand[(#[trigger] order@[k]) as int]),
            decreases j,
        {
            j = j - 1;
        }
        let ghost old_order = order@;
        order.insert(j, i);
        proof {
            old_order.insert_ensures(j as int, i);
            let c = cand[i as int];
            if j > 0 {
                let b = cand[old_order[j - 1] as int];
                assert(b.1 < c.1);
                assert(event_before(b, c));
            }
            assert forall|k: int| 0 <= k < j implies event_before(cand[(#[trigger] old_order[k]) as int], cand[i as int]) by {
                if k < j - 1 {
                    assert(event_before(cand[old_order[k] as int], cand[old_order[j - 1] as int]));
                }
            }
            assert forall|q: int| 0 <= q < i + 1 implies #[trigger] holds_index(order@, q) by {
                if q == i {
                    assert(order@[j as int] == q);
                } else {
                    assert(holds_index(old_order, q));
                        let k = choose|k: int| 0 <= k < old_order.len() && old_order[k] == q;
                    if k < j {
                        assert(order@[k] == q);
                    } else {
                        assert(order@[k + 1] == q);
                    }
                }
            }
            assert forall|k: int, l: int| 0 <= k < l < i + 1 implies order@[k] != order@[l] && event_before(
                cand[(#[trigger] order@[k]) as int],
                cand[(#[trigger] order@[l]) as int],
            ) by {
                if k == j {
                    assert(order@[l] == old_order[l - 1]);
                } else if l == j {
                    assert(order@[k] == old_order[k]);
                } else {
                    let kk = if k < j {
                        k
                    } else {
                        k - 1
                    };
                    let ll = if l < j {
                        l
                    } else {
                        l - 1
                    };
                    assert(order@[k] == old_order[kk]);
                    assert(order@[l] == old_order[ll]);
                }
            }
        }
        i = i + 1;
    }
    // Each event in that order goes on the first track that is free for it.
    let ghost sorted = Seq::new(n as nat, |q: int| cand[order@[q] as int]);
    let ghost spans = Seq::new(n as nat, |q: int| (sorted[q].2, sorted[q].3));
    let mut tracks: Vec<i32> = Vec::new();
    let mut r: Vec<WeekEvent> = Vec::new();
    let mut k: usize = 0;
    assert(as_ints(tracks@) =~= track_ends(spans.take(0)));
    while k < n
        invariant
            0 <= k <= n,
            n == cands@.len(),
            n == cand.len(),
            order@.len() == n,
            forall|q: int| 0 <= q < n ==> #[trigger] order@[q] < n,
            forall|q: int| 0 <= q < n ==> #[trigger] holds_index(order@, q),
            forall|q: int| 0 <= q < n ==> event_key(#[trigger] cands@[q]@) == cand[q],
            sorted == Seq::new(n as nat, |q: int| cand[order@[q] as int]),
            spans == Seq::new(n as nat, |q: int| (sorted[q].2, sorted[q].3)),
            as_ints(tracks@) == track_ends(spans.take(k as int)),
            r@.len() == k,
            forall|q: int| 0 <= q < k ==> event_key(#[trigger] r@[q]@) == sorted[q] && r@[q]@.track == track_of(spans, q),
        decreases n - k,
    {
        let ev = &cands[order[k]];
        let cs = ev.start.days();
        let ghost ends = as_ints(tracks@);
        assert(event_key(cands@[order@[k as int] as int]@) == cand[order@[k as int] as int]);
        assert(sorted[k as int] == cand[order@[k as int] as int]);
        assert(spans[k as int] == (ev.start@, ev.end@));
        let mut t: usize = 0;
        while t < tracks.len() && !(cs > tracks[t])
            invariant
                0 <= t <= tracks.len(),
                ends == as_ints(tracks@),
                forall|j: int| 0 <= j < t ==> cs <= ends[j],
            decreases tracks.len() - t,
        {
            t = t + 1;
        }
        proof {
            lemma_first_free_found(ends, cs as int, t as int, 0);
            lemma_track_ends_step(spans, k as int);
            assert(track_of(spans, k as int) == t);
        }
        let ce = ev.end.days();
        if t == tracks.len() {
            tracks.push(ce);
            assert(as_ints(tracks@) =~= ends.push(ce as int));
        } else {
            tracks.set(t, ce);
            assert(as_ints(tracks@) =~= ends.update(t as int, ce as int));
        }
        let ghost before = r@;
        r.push(WeekEvent { col: ev.col, task: ev.task, start: ev.start, end: ev.end, track: t });
        assert forall|q: int| 0 <= q < k + 1 implies event_key(#[trigger] r@[q]@) == sorted[q] && r@[q]@.track
            == track_of(spans, q) by {
            if q < k {
                assert(r@[q] == before[q]);
            }
        }
        k = k + 1;
    }
    let ghost rv = events_view(r@);
    let ghost p = Seq::new(n as nat, |q: int| order@[q] as int);
    assert forall|j: int| 0 <= j < cand.len() implies #[trigger] hits(p, j) by {
        assert(holds_index(order@, j));
        let k = choose|k: int| 0 <= k < order@.len() && order@[k] == j;
        assert(p[k] == j);
    }
    assert(spans_of(rv) =~= spans);
    assert(week_layout(ts, ws, today@, rv, p));
    r
}

/// Cards drawn on the same track of a week do not overlap: of two events on
/// one track, the earlier one ends before the later one starts (for events
/// that do not end before they start).
pub proof fn lemma_week_tracks_disjoint(
    tasks: Seq<(Col, CardView)>,
    ws: int,
    today: int,
    r: Seq<EventView>,
    p: Seq<int>,
    k: int,
    l: int,
)
    requires
        week_layout(tasks, ws, today, r, p),
        forall|q: int| 0 <= q < r.len() ==> (#[trigger] r[q]).start <= r[q].end,
        0 <= k < l < r.len(),
        r[k].track == r[l].track,
    ensures
        r[k].end < r[l].start,
{
    let ev = spans_of(r);
    assert forall|q: int| 0 <= q < ev.len() implies (#[trigger] ev[q]).0 <= ev[q].1 by {
        assert(r[q].start <= r[q].end);
    }
    lemma_same_track_disjoint(ev, k, l);
}

/// A week event goes on a new track only when every existing track is taken:
/// below its track, each track's last event so far ends on or after its start.
pub proof fn lemma_week_first_fit(
    tasks: Seq<(Col, CardView)>,
    ws: int,
    today: int,
    r: Seq<EventView>,
    p: Seq<int>,
    k: int,
    t: int,
)
    requires
        week_layout(tasks, ws, today, r, p),
        0 <= k < r.len(),
        0 <= t < r[k].track,
    ensures
        exists|j: int| 0 <= j < k && #[trigger] r[j].track == t && r[k].start <= r[j].end,
{
    let ev = spans_of(r);
    lemma_first_fit(ev, k, t);
    lemma_track_owner(ev, k, t);
    let j = choose|j: int| 0 <= j < k && track_of(ev, j) == t && ev[j].1 == track_ends(ev.take(k))[t];
    assert(r[j].track == t);
}

/// The week layout shows every card that meets the week, and only those, each
/// once, with its column and the days it covers in the week.
pub proof fn lemma_week_layout_members(
    tasks: Seq<(Col, CardView)>,
    ws: int,
    today: int,
    r: Seq<EventView>,
    p: Seq<int>,
)
    requires
        week_layout(tasks, ws, today, r, p),
    ensures
        forall|k: int|
            0 <= k < r.len() ==> {
                let e = #[trigger] r[k];
                &&& 0 <= e.task < tasks.len()
                &&& e.col == tasks[e.task].0
                &&& week_span(tasks[e.task].1, ws, today) == Some((e.start, e.end))
                &&& ws <= e.start <= ws + 6
                &&& ws <= e.end <= ws + 6
            },
        forall|i: int|
            0 <= i < tasks.len() && (#[trigger] week_span(tasks[i].1, ws, today)) is Some ==> exists|k: int|
                0 <= k < r.len() && r[k].task == i,
        forall|k: int, l: int| 0 <= k < l < r.len() ==> (#[trigger] r[k]).task != (#[trigger] r[l]).task,
{
    let cand = week_candidates(tasks, ws, today);
    lemma_candidates_shape(tasks, ws, today);
    assert forall|k: int| 0 <= k < r.len() implies {
        let e = #[trigger] r[k];
        &&& 0 <= e.task < tasks.len()
        &&& e.col == tasks[e.task].0
        &&& week_span(tasks[e.task].1, ws, today) == Some((e.start, e.end))
        &&& ws <= e.start <= ws + 6
        &&& ws <= e.end <= ws + 6
    } by {
        assert(event_key(r[k]) == cand[p[k]]);
    }
    assert forall|i: int|
        0 <= i < tasks.len() && (#[trigger] week_span(tasks[i].1, ws, today)) is Some implies exists|k: int|
            0 <= k < r.len() && r[k].task == i by {
        let q = choose|q: int| 0 <= q < cand.len() && #[trigger] cand[q].1 == i;
        assert(hits(p, q));
        let k = choose|k: int| 0 <= k < p.len() && p[k] == q;
        assert(event_key(r[k]) == cand[p[k]]);
    }
    assert forall|k: int, l: int| 0 <= k < l < r.len() implies (#[trigger] r[k]).task != (#[trigger] r[l]).task by {
        assert(event_key(r[k]) == cand[p[k]]);
        assert(event_key(r[l]) == cand[p[l]]);
        if p[k] < p[l] {
            assert(cand[p[k]].1 < cand[p[l]].1);
        } else {
            assert(cand[p[l]].1 < cand[p[k]].1);
        }
    }
}

/// The start of the calendar grid for the month of `view_month`: the Sunday
/// on or before it.
pub fn calendar_grid_start(view_month: Date) -> (r: Date)
    requires
        in_calendar(view_month@ - view_month@ % 7),
    ensures
        r@ == view_month@ - view_month@ % 7,
{
    let days_from_sun = weekday_from_sunday(view_month);
    view_month.plus_days(-(days_from_sun as i32))
}

/// The calendar grid starts on a Sunday, at most six days before the first of
/// the month it shows.
pub proof fn lemma_grid_start_is_sunday(view_month: int)
    ensures
        (view_month - view_month % 7) % 7 == 0,
        view_month - 6 <= view_month - view_month % 7 <= view_month,
{
}

/// The first days of the six weeks the calendar shows for the month of
/// `view_month`, seven days apart from the Sunday on or before it.
pub fn calendar_weeks(view_month: Date) -> (r: Vec<Date>)
    requires
        in_calendar(view_month@ - view_month@ % 7),
        in_calendar(view_month@ - view_month@ % 7 + 35),
    ensures
        r@.len() == 6,
        forall|row: int| 0 <= row < 6 ==> (#[trigger] r@[row])@ == view_month@ - view_month@ % 7 + 7 * row,
{
    let start = calendar_grid_start(view_month);
    let mut r: Vec<Date> = Vec::new();
    let mut row: i32 = 0;
    while row < 6
        invariant
            0 <= row <= 6,
            start@ == view_month@ - view_month@ % 7,
            in_calendar(start@),
            in_calendar(start@ + 35),
            r@.len() == row,
            forall|q: int| 0 <= q < row ==> (#[trigger] r@[q])@ == start@ + 7 * q,
        decreases 6 - row,
    {
        r.push(start.plus_days(7 * row));
        row = row + 1;
    }
    r
}

} // verus!

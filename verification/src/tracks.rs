use vstd::prelude::*;

verus! {

/// The first track at or after `t` that is free for an event starting on day
/// `start`: one whose last event ends before `start`; `ends.len()` (a new
/// track) when there is none.
pub open spec fn first_free_from(ends: Seq<int>, start: int, t: int) -> int
    decreases ends.len() - t,
{
    if t >= ends.len() {
        ends.len() as int
    } else if start > ends[t] {
        t
    } else {
        first_free_from(ends, start, t + 1)
    }
}

/// The track an event from `start` to `end` is placed on, given the end days
/// `ends` of the tracks so far, and the track ends after placing it.
pub open spec fn place(ends: Seq<int>, start: int, end: int) -> (int, Seq<int>) {
    let t = first_free_from(ends, start, 0);
    if t == ends.len() {
        (t, ends.push(end))
    } else {
        (t, ends.update(t, end))
    }
}

/// The end days of the tracks after placing the events `ev` (start and end
/// days), in order, each on the first free track.
pub open spec fn track_ends(ev: Seq<(int, int)>) -> Seq<int>
    decreases ev.len(),
{
    if ev.len() == 0 {
        Seq::empty()
    } else {
        place(track_ends(ev.drop_last()), ev.last().0, ev.last().1).1
    }
}

/// The track of event `k` of `ev` when the events are placed in order, each on
/// the first free track.
pub open spec fn track_of(ev: Seq<(int, int)>, k: int) -> int {
    first_free_from(track_ends(ev.take(k)), ev[k].0, 0)
}

/// A scan that stops at the first free track finds what `first_free_from` names.
pub proof fn lemma_first_free_found(ends: Seq<int>, start: int, t: int, from: int)
    requires
        0 <= from <= t <= ends.len(),
        forall|j: int| from <= j < t ==> start <= ends[j],
        t == ends.len() || start > ends[t],
    ensures
        first_free_from(ends, start, from) == t,
    decreases t - from,
{
    if from < t {
        lemma_first_free_found(ends, start, t, from + 1);
    }
}

pub proof fn lemma_first_free_bounds(ends: Seq<int>, start: int, from: int)
    requires
        0 <= from <= ends.len(),
    ensures
        from <= first_free_from(ends, start, from) <= ends.len(),
        first_free_from(ends, start, from) < ends.len() ==> start > ends[first_free_from(ends, start, from)],
    decreases ends.len() - from,
{
    if from < ends.len() && !(start > ends[from]) {
        lemma_first_free_bounds(ends, start, from + 1);
    }
}

pub proof fn lemma_track_ends_step(ev: Seq<(int, int)>, n: int)
    requires
        0 <= n < ev.len(),
    ensures
        track_ends(ev.take(n + 1)) == place(track_ends(ev.take(n)), ev[n].0, ev[n].1).1,
{
    assert(ev.take(n + 1).drop_last() =~= ev.take(n));
}

/// While events whose end is not before their start are placed, every event
/// placed so far lies on an existing track that ends no earlier than it.
proof fn lemma_track_inv(ev: Seq<(int, int)>, n: int)
    requires
        0 <= n <= ev.len(),
        forall|i: int| 0 <= i < ev.len() ==> (#[trigger] ev[i]).0 <= ev[i].1,
    ensures
        forall|k: int|
            0 <= k < n ==> track_of(ev, k) < track_ends(ev.take(n)).len() && ev[k].1 <= track_ends(
                ev.take(n),
            )[#[trigger] track_of(ev, k)],
        0 <= track_ends(ev.take(n)).len() <= n,
    decreases n,
{
    if n > 0 {
        let m = n - 1;
        lemma_track_inv(ev, m);
        let ends = track_ends(ev.take(m));
        lemma_track_ends_step(ev, m);
        lemma_first_free_bounds(ends, ev[m].0, 0);
        let t = first_free_from(ends, ev[m].0, 0);
        assert(track_of(ev, m) == t);
        let ends2 = track_ends(ev.take(n));
        assert(ends2 == place(ends, ev[m].0, ev[m].1).1);
        if t == ends.len() {
            assert(place(ends, ev[m].0, ev[m].1).1 == ends.push(ev[m].1));
        } else {
            assert(place(ends, ev[m].0, ev[m].1).1 == ends.update(t, ev[m].1));
        }
        assert forall|k: int| 0 <= k < n implies track_of(ev, k) < ends2.len() && ev[k].1 <= ends2[#[trigger] track_of(
            ev,
            k,
        )] by {
            let tk = track_of(ev, k);
            lemma_first_free_bounds(track_ends(ev.take(k)), ev[k].0, 0);
            if k < m {
                assert(tk < ends.len() && ev[k].1 <= ends[tk]);
                if t == ends.len() {
                    assert(ends2 == ends.push(ev[m].1));
                    assert(ends2[tk] == ends[tk]);
                } else if tk == t {
                    assert(ev[m].0 <= ev[m].1);
                    assert(ends2[tk] == ev[m].1);
                } else {
                    assert(ends2 == ends.update(t, ev[m].1));
                    assert(ends2[tk] == ends[tk]);
                }
            } else {
                assert(tk == t);
                assert(ends2[t] == ev[m].1);
            }
        }
    }
}

/// Events on the same track do not overlap: when no event ends before it
/// starts, an event placed on a track starts after every earlier event on
/// that track has ended.
pub proof fn lemma_same_track_disjoint(ev: Seq<(int, int)>, k: int, l: int)
    requires
        forall|i: int| 0 <= i < ev.len() ==> (#[trigger] ev[i]).0 <= ev[i].1,
        0 <= k < l < ev.len(),
        track_of(ev, k) == track_of(ev, l),
    ensures
        ev[k].1 < ev[l].0,
{
    lemma_track_inv(ev, l);
    let ends = track_ends(ev.take(l));
    lemma_first_free_bounds(ends, ev[l].0, 0);
    assert(ev[k].1 <= ends[track_of(ev, k)]);
}

/// A new track is opened only when every existing track is taken: an event's
/// track is the lowest one whose last event ends before the event starts.
pub proof fn lemma_first_fit(ev: Seq<(int, int)>, k: int, t: int)
    requires
        0 <= k < ev.len(),
        0 <= t < track_of(ev, k),
    ensures
        t < track_ends(ev.take(k)).len(),
        ev[k].0 <= track_ends(ev.take(k))[t],
{
    lemma_first_free_bounds(track_ends(ev.take(k)), ev[k].0, 0);
    lemma_first_free_below(track_ends(ev.take(k)), ev[k].0, 0, t);
}

proof fn lemma_first_free_below(ends: Seq<int>, start: int, from: int, t: int)
    requires
        0 <= from <= t < first_free_from(ends, start, from),
        from <= ends.len(),
    ensures
        t < ends.len(),
        start <= ends[t],
    decreases t - from,
{
    if from < t {
        lemma_first_free_below(ends, start, from + 1, t);
    }
}

/// Each track's end day is the end of some earlier event placed on it.
pub proof fn lemma_track_owner(ev: Seq<(int, int)>, n: int, t: int)
    requires
        0 <= n <= ev.len(),
        0 <= t < track_ends(ev.take(n)).len(),
    ensures
        exists|j: int| 0 <= j < n && track_of(ev, j) == t && ev[j].1 == track_ends(ev.take(n))[t],
    decreases n,
{
    if n > 0 {
        let m = n - 1;
        let ends = track_ends(ev.take(m));
        lemma_track_ends_step(ev, m);
        lemma_first_free_bounds(ends, ev[m].0, 0);
        let tm = first_free_from(ends, ev[m].0, 0);
        assert(track_of(ev, m) == tm);
        let ends2 = track_ends(ev.take(n));
        if t == tm {
            if tm == ends.len() {
                assert(ends2 == ends.push(ev[m].1));
            } else {
                assert(ends2 == ends.update(tm, ev[m].1));
            }
            assert(ends2[t] == ev[m].1);
        } else {
            if tm == ends.len() {
                assert(ends2 == ends.push(ev[m].1));
            } else {
                assert(ends2 == ends.update(tm, ev[m].1));
            }
            assert(t < ends.len());
            assert(ends2[t] == ends[t]);
            lemma_track_owner(ev, m, t);
        }
    } else {
        assert(ev.take(0).len() == 0);
    }
}

} // verus!

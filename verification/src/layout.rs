use vstd::prelude::*;

use crate::board::Board;
use crate::board::BoardView;
use crate::card::cards_view;
use crate::card::CardView;
use crate::card::KanbanCard;
use crate::column::Col;
use crate::date::Date;

verus! {

/// The cards of `s`, each paired with column `c`.
pub open spec fn tagged(c: Col, s: Seq<CardView>) -> Seq<(Col, CardView)> {
    Seq::new(s.len(), |i: int| (c, s[i]))
}

/// Every card of the board with its column: the first column top to bottom,
/// then the second, then the third.
pub open spec fn all_cards_spec(b: BoardView) -> Seq<(Col, CardView)> {
    tagged(Col::Todo, b.todo) + tagged(Col::InProgress, b.in_progress) + tagged(Col::Done, b.done)
}

/// What a sequence of cards with their columns holds.
pub open spec fn tagged_view(s: Seq<(Col, KanbanCard)>) -> Seq<(Col, CardView)> {
    Seq::new(s.len(), |i: int| (s[i].0, s[i].1@))
}

/// Some place of `p` holds `j`.
pub open spec fn hits(p: Seq<int>, j: int) -> bool {
    exists|k: int| 0 <= k < p.len() && p[k] == j
}

/// Some place of `o` holds `q`.
pub open spec fn holds_index(o: Seq<usize>, q: int) -> bool {
    exists|k: int| 0 <= k < o.len() && o[k] == q
}

/// `r` is `s` sorted by card id, cards with equal ids keeping their order:
/// `p` maps each place of `r` to the place of `s` it comes from.
pub open spec fn stable_sorted_by_id(s: Seq<(Col, CardView)>, r: Seq<(Col, CardView)>, p: Seq<int>) -> bool {
    &&& r.len() == s.len()
    &&& p.len() == r.len()
    &&& forall|k: int| 0 <= k < r.len() ==> 0 <= #[trigger] p[k] < s.len() && r[k] == s[p[k]]
    &&& forall|k: int, l: int| 0 <= k < l < r.len() ==> p[k] != p[l]
    &&& forall|j: int| 0 <= j < s.len() ==> #[trigger] hits(p, j)
    &&& forall|k: int, l: int|
        0 <= k < l < r.len() ==> (#[trigger] r[k]).1.id < (#[trigger] r[l]).1.id || (r[k].1.id
            == r[l].1.id && p[k] < p[l])
}

fn push_tagged(out: &mut Vec<(Col, KanbanCard)>, c: Col, v: &Vec<KanbanCard>)
    ensures
        tagged_view(final(out)@) == tagged_view(old(out)@) + tagged(c, cards_view(v@)),
{
    let ghost start = tagged_view(out@);
    let mut i: usize = 0;
    while i < v.len()
        invariant
            0 <= i <= v.len(),
            tagged_view(out@) == start + tagged(c, cards_view(v@)).take(i as int),
        decreases v.len() - i,
    {
        let ghost before = out@;
        out.push((c, v[i].clone()));
        assert(tagged_view(out@) =~= tagged_view(before).push((c, v@[i as int]@)));
        assert(tagged(c, cards_view(v@)).take(i as int + 1) =~= tagged(c, cards_view(v@)).take(i as int).push(
            (c, v@[i as int]@),
        ));
        i = i + 1;
    }
    assert(tagged(c, cards_view(v@)).take(v.len() as int) =~= tagged(c, cards_view(v@)));
}

impl Board {
    /// Every card with its column: the first column top to bottom, then the
    /// second, then the third.
    pub fn all_cards(&self) -> (r: Vec<(Col, KanbanCard)>)
        ensures
            tagged_view(r@) == all_cards_spec(self@),
    {
        let mut out: Vec<(Col, KanbanCard)> = Vec::new();
        assert(tagged_view(out@) =~= Seq::<(Col, CardView)>::empty());
        push_tagged(&mut out, Col::Todo, &self.todo);
        push_tagged(&mut out, Col::InProgress, &self.in_progress);
        push_tagged(&mut out, Col::Done, &self.done);
        assert(tagged_view(out@) =~= all_cards_spec(self@));
        out
    }

    /// Every card with its column, sorted by id; cards with equal ids keep
    /// their board order.
    pub fn issue_list(&self) -> (r: Vec<(Col, KanbanCard)>)
        ensures
            exists|p: Seq<int>| stable_sorted_by_id(all_cards_spec(self@), tagged_view(r@), p),
    {
        let all = self.all_cards();
        let ghost s = tagged_view(all@);
        let n = all.len();
        let mut order: Vec<usize> = Vec::new();
        let mut i: usize = 0;
        while i < n
            invariant
                0 <= i <= n,
                n == all@.len(),
                s == tagged_view(all@),
                order@.len() == i,
                forall|k: int| 0 <= k < i ==> #[trigger] order@[k] < i,
                forall|k: int, l: int| 0 <= k < l < i ==> order@[k] != order@[l],
                forall|q: int| 0 <= q < i ==> #[trigger] holds_index(order@, q),
                forall|k: int, l: int|
                    0 <= k < l < i ==> s[(#[trigger] order@[k]) as int].1.id < s[(#[trigger] order@[l]) as int].1.id
                        || (s[order@[k] as int].1.id == s[order@[l] as int].1.id && order@[k] < order@[l]),
            decreases n - i,
        {
            let id = all[i].1.id;
            let mut j: usize = i;
            while j > 0 && all[order[j - 1]].1.id > id
                invariant
                    0 <= j <= i,
                    i < n,
                    n == all@.len(),
                    s == tagged_view(all@),
                    order@.len() == i,
                    id == s[i as int].1.id,
                    forall|k: int| 0 <= k < i ==> #[trigger] order@[k] < i,
                    forall|k: int| j <= k < i ==> s[(#[trigger] order@[k]) as int].1.id > id,
                decreases j,
            {
                j = j - 1;
            }
            let ghost old_order = order@;
            order.insert(j, i);
            proof {
                old_order.insert_ensures(j as int, i);
                assert forall|k: int| 0 <= k < j implies s[(#[trigger] old_order[k]) as int].1.id <= id by {
                    if j > 0 {
                        assert(s[old_order[j - 1] as int].1.id <= id);
                        if k < j - 1 {
                            assert(s[old_order[k] as int].1.id <= s[old_order[j - 1] as int].1.id);
                        }
                    }
                }
                assert forall|q: int| 0 <= q < i + 1 implies #[trigger] holds_index(order@, q) by {
                    if q == i {
                        assert(order@[j as int] == q);
                    } else {
                        assert(holds_index(old_order, q));
                        let k = choose|k: int| 0 <= k < old_order.len() && old_order[k] == q;
                        if k < j {
                            assert(order@[k] == q);
                        } else {
                            assert(order@[k + 1] == q);
                        }
                    }
                }
                assert forall|k: int, l: int| 0 <= k < l < i + 1 implies order@[k] != order@[l] by {
                    if k == j {
                        assert(order@[l] == old_order[l - 1]);
                    } else if l == j {
                        assert(order@[k] == old_order[k]);
                    } else {
                        let kk = if k < j {
                            k
                        } else {
                            k - 1
                        };
                        let ll = if l < j {
                            l
                        } else {
                            l - 1
                        };
                        assert(order@[k] == old_order[kk]);
                        assert(order@[l] == old_order[ll]);
                    }
                }
                assert forall|k: int, l: int| 0 <= k < l < i + 1 implies s[(#[trigger] order@[k]) as int].1.id
                    < s[(#[trigger] order@[l]) as int].1.id || (s[order@[k] as int].1.id
                    == s[order@[l] as int].1.id && order@[k] < order@[l]) by {
                    if k == j {
                        assert(order@[l] == old_order[l - 1]);
                    } else if l == j {
                        assert(order@[k] == old_order[k]);
                    } else {
                        let kk = if k < j {
                            k
                        } else {
                            k - 1
                        };
                        let ll = if l < j {
                            l
                        } else {
                            l - 1
                        };
                        assert(order@[k] == old_order[kk]);
                        assert(order@[l] == old_order[ll]);
                    }
                }
            }
            i = i + 1;
        }
        let mut r: Vec<(Col, KanbanCard)> = Vec::new();
        let mut k: usize = 0;
        while k < n
            invariant
                0 <= k <= n,
                n == all@.len(),
                s == tagged_view(all@),
                order@.len() == n,
                forall|q: int| 0 <= q < n ==> #[trigger] order@[q] < n,
                forall|q: int| 0 <= q < n ==> #[trigger] holds_index(order@, q),
                tagged_view(r@).len() == k,
                forall|q: int| 0 <= q < k ==> #[trigger] tagged_view(r@)[q] == s[order@[q] as int],
            decreases n - k,
        {
            let ghost before = r@;
            let entry = &all[order[k]];
            r.push((entry.0, entry.1.clone()));
            assert(tagged_view(r@) =~= tagged_view(before).push(s[order@[k as int] as int]));
            k = k + 1;
        }
        let ghost p = Seq::new(n as nat, |q: int| order@[q] as int);
        assert forall|j: int| 0 <= j < s.len() implies #[trigger] hits(p, j) by {
            assert(holds_index(order@, j));
            let q = choose|q: int| 0 <= q < order@.len() && order@[q] == j;
            assert(p[q] == j);
        }
        assert(stable_sorted_by_id(s, tagged_view(r@), p));
        r
    }
}

/// The days (from `base`) that card `c` covers on the timeline: it starts at
/// its start date, or at `base` without one, and never before `base`; it
/// ends at its end date, or the day after its start without one, and never
/// before it starts.
pub open spec fn timeline_span_spec(c: CardView, base: int) -> (int, int) {
    let s = match c.start_date {
        Some(d) => d - base,
        None => 0,
    };
    let start = if s > 0 {
        s
    } else {
        0
    };
    let e = match c.end_date {
        Some(d) => d - base,
        None => start + 1,
    };
    let end = if e > start {
        e
    } else {
        start
    };
    (start, end)
}

/// The first and last day offsets (from `base`) at which the timeline draws
/// `card`.
pub fn timeline_span(card: &KanbanCard, base: Date) -> (r: (i32, i32))
    ensures
        (r.0 as int, r.1 as int) == timeline_span_spec(card@, base@),
{
    let b = base.days();
    let s = match card.start_date {
        Some(d) => d.days() - b,
        None => 0,
    };
    let start = if s > 0 {
        s
    } else {
        0
    };
    let e = match card.end_date {
        Some(d) => d.days() - b,
        None => start + 1,
    };
    let end = if e > start {
        e
    } else {
        start
    };
    (start, end)
}

/// A timeline bar never starts before the timeline's first day and never ends
/// before it starts.
pub proof fn lemma_timeline_span_ordered(c: CardView, base: int)
    ensures
        0 <= timeline_span_spec(c, base).0 <= timeline_span_spec(c, base).1,
{
}

/// Where a timeline bar starts: at its start date's offset from `base`, but
/// never before `base`; a card without a start date starts at `base` (offset
/// 0), whatever its end date.
pub proof fn lemma_timeline_start(c: CardView, base: int)
    ensures
        c.start_date is None ==> timeline_span_spec(c, base).0 == 0,
        c.start_date matches Some(d) ==> timeline_span_spec(c, base).0 == if d - base > 0 {
            d - base
        } else {
            0
        },
{
}

/// Where a timeline bar ends: at its end date's offset from `base`, but never
/// before the bar starts; a card without an end date ends the day after it
/// starts.
pub proof fn lemma_timeline_end(c: CardView, base: int)
    ensures
        c.end_date is None ==> timeline_span_spec(c, base).1 == timeline_span_spec(c, base).0 + 1,
        c.end_date matches Some(e) ==> timeline_span_spec(c, base).1 == if e - base > timeline_span_spec(
            c,
            base,
        ).0 {
            e - base
        } else {
            timeline_span_spec(c, base).0
        },
{
}

} // verus!

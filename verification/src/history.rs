use vstd::prelude::*;

use crate::board::can_execute;
use crate::board::can_undo;
use crate::board::execute_spec;
use crate::board::first_at;
use crate::board::move_target;
use crate::board::position_of;
use crate::board::undo_spec;
use crate::board::with_details;
use crate::board::without_id;
use crate::board::BoardView;
use crate::board::CommandView;
use crate::card::CardView;
use crate::column::Col;

verus! {

/// No two cards on the board share an id.
pub open spec fn ids_unique(b: BoardView) -> bool {
    forall|c1: Col, i: int, c2: Col, j: int|
        0 <= i < b.col(c1).len() && 0 <= j < b.col(c2).len() && #[trigger] b.col(c1)[i].id
            == #[trigger] b.col(c2)[j].id ==> c1 == c2 && i == j
}

/// Every card on the board has an id below `bound`.
pub open spec fn ids_below(b: BoardView, bound: u64) -> bool {
    forall|c: Col, i: int| 0 <= i < b.col(c).len() ==> #[trigger] b.col(c)[i].id < bound
}

/// Some card on the board has id `id`.
pub open spec fn has_id(b: BoardView, id: u64) -> bool {
    exists|c: Col, i: int| 0 <= i < b.col(c).len() && #[trigger] b.col(c)[i].id == id
}

/// `cmd` describes a change of `b` as the board's actions make it: a move or
/// a delete names the card at the position it gives, an added card has an id
/// that is not on the board, and an edit holds the card's current texts and
/// dates as its old ones.
pub open spec fn fits(b: BoardView, cmd: CommandView) -> bool {
    match cmd {
        CommandView::Move { id, from_col, from_idx, .. } => {
            &&& from_idx < b.col(from_col).len()
            &&& b.col(from_col)[from_idx as int].id == id
        },
        CommandView::Add { card, .. } => !has_id(b, card.id),
        CommandView::Delete { col, card, original_index } => {
            &&& original_index < b.col(col).len()
            &&& b.col(col)[original_index as int] == card
        },
        CommandView::Edit { id, col, old_title, old_desc, old_start, old_end, .. } => match position_of(
            b.col(col),
            id,
        ) {
            Some(i) => b.col(col)[i] == with_details(b.col(col)[i], old_title, old_desc, old_start, old_end),
            None => true,
        },
    }
}

/// Cards at two different places of a board with distinct ids have
/// different ids.
pub proof fn lemma_distinct_ids(b: BoardView, c1: Col, i: int, c2: Col, j: int)
    requires
        ids_unique(b),
        0 <= i < b.col(c1).len(),
        0 <= j < b.col(c2).len(),
        c1 != c2 || i != j,
    ensures
        b.col(c1)[i].id != b.col(c2)[j].id,
{
    if b.col(c1)[i].id == b.col(c2)[j].id {
        assert(c1 == c2 && i == j);
    }
}

/// The first card of `s` with id `id` is the only one that `position_of` finds.
pub proof fn lemma_position_at(s: Seq<CardView>, id: u64, i: int)
    requires
        first_at(s, id, i),
    ensures
        position_of(s, id) == Some(i),
{
    let k = choose|k: int| first_at(s, id, k);
    assert(first_at(s, id, k));
    if k < i {
        assert(s[k].id == id);
    } else if k > i {
        assert(s[i].id == id);
    }
}

/// Removing the cards with an id that no card of `s` has leaves `s` as it is.
pub proof fn lemma_without_absent_id(s: Seq<CardView>, id: u64)
    requires
        forall|i: int| 0 <= i < s.len() ==> s[i].id != id,
    ensures
        without_id(s, id) == s,
    decreases s.len(),
{
    if s.len() > 0 {
        lemma_without_absent_id(s.drop_last(), id);
        assert(s.drop_last().push(s.last()) =~= s);
    }
}

proof fn lemma_insert_remove<A>(s: Seq<A>, i: int, x: A)
    requires
        0 <= i <= s.len(),
    ensures
        s.insert(i, x).remove(i) == s,
{
    assert(s.insert(i, x).remove(i) =~= s);
}

proof fn lemma_remove_insert<A>(s: Seq<A>, i: int)
    requires
        0 <= i < s.len(),
    ensures
        s.remove(i).insert(i, s[i]) == s,
{
    assert(s.remove(i).insert(i, s[i]) =~= s);
}

/// Undo is the inverse of execute: on a board whose cards have distinct ids,
/// carrying out a command that fits the board and then undoing it gives the
/// board back, and the undo can be carried out.
pub proof fn lemma_undo_inverts_execute(b: BoardView, cmd: CommandView)
    requires
        ids_unique(b),
        fits(b, cmd),
    ensures
        can_execute(b, cmd),
        can_undo(execute_spec(b, cmd), cmd),
        undo_spec(execute_spec(b, cmd), cmd) == b,
{
    let after = execute_spec(b, cmd);
    match cmd {
        CommandView::Move { id, from_col, to_col, from_idx, to_idx } => {
            let fi = from_idx as int;
            let card = b.col(from_col)[fi];
            let b1 = b.with_col(from_col, b.col(from_col).remove(fi));
            let at = move_target(b1, from_col, to_col, fi, to_idx as int);
            let t = b1.col(to_col).insert(at, card);
            b.col(from_col).remove_ensures(fi);
            b1.col(to_col).insert_ensures(at, card);
            assert(after.col(to_col) == t);
            assert forall|j: int| 0 <= j < at implies t[j].id != id by {
                if from_col == to_col {
                    let k = if j < fi {
                        j
                    } else {
                        j + 1
                    };
                    assert(t[j] == b.col(from_col)[k]);
                    lemma_distinct_ids(b, from_col, k, from_col, fi);
                } else {
                    assert(t[j] == b.col(to_col)[j]);
                    lemma_distinct_ids(b, to_col, j, from_col, fi);
                }
            }
            assert(first_at(after.col(to_col), id, at));
            lemma_position_at(after.col(to_col), id, at);
            lemma_insert_remove(b1.col(to_col), at, card);
            let b2 = after.with_col(to_col, after.col(to_col).remove(at));
            assert(b2 =~= b1);
            lemma_remove_insert(b.col(from_col), fi);
            assert(undo_spec(after, cmd) =~= b);
        },
        CommandView::Add { col, card } => {
            let s = b.col(col);
            assert forall|i: int| 0 <= i < s.len() implies s[i].id != card.id by {
                if s[i].id == card.id {
                    assert(has_id(b, card.id));
                }
            }
            lemma_without_absent_id(s, card.id);
            assert(s.push(card).drop_last() =~= s);
            assert(undo_spec(after, cmd) =~= b);
        },
        CommandView::Delete { col, card, original_index } => {
            lemma_remove_insert(b.col(col), original_index as int);
            assert(undo_spec(after, cmd) =~= b);
        },
        CommandView::Edit { id, col, old_title, new_title, old_desc, new_desc, old_start, new_start, old_end, new_end } => {
            let s = b.col(col);
            match position_of(s, id) {
                Some(i) => {
                    assert(first_at(s, id, i));
                    let s2 = s.update(i, with_details(s[i], new_title, new_desc, new_start, new_end));
                    assert(after.col(col) == s2);
                    assert(first_at(s2, id, i));
                    lemma_position_at(s2, id, i);
                    assert(s2.update(i, with_details(s2[i], old_title, old_desc, old_start, old_end)) =~= s);
                    assert(undo_spec(after, cmd) =~= b);
                },
                None => {
                    assert(undo_spec(after, cmd) =~= b);
                },
            }
        },
    }
}

/// Where the card at position `i` of column `c` came from when a move took
/// the card at `fi` of `from` to position `at` of `to`.
spec fn move_origin(from: Col, to: Col, fi: int, at: int, c: Col, i: int) -> (Col, int) {
    if from == to {
        if c == from {
            if i == at {
                (from, fi)
            } else {
                let k = if i < at {
                    i
                } else {
                    i - 1
                };
                (
                    from,
                    if k < fi {
                        k
                    } else {
                        k + 1
                    },
                )
            }
        } else {
            (c, i)
        }
    } else if c == from {
        (
            from,
            if i < fi {
                i
            } else {
                i + 1
            },
        )
    } else if c == to {
        if i < at {
            (to, i)
        } else if i == at {
            (from, fi)
        } else {
            (to, i - 1)
        }
    } else {
        (c, i)
    }
}

/// A board whose every position holds the card of a distinct position of a
/// board with distinct ids has distinct ids too.
proof fn lemma_unique_by_origin(b: BoardView, after: BoardView, origin: spec_fn(Col, int) -> (Col, int))
    requires
        ids_unique(b),
        forall|c: Col, i: int|
            0 <= i < after.col(c).len() ==> {
                let o = #[trigger] origin(c, i);
                &&& 0 <= o.1 < b.col(o.0).len()
                &&& after.col(c)[i] == b.col(o.0)[o.1]
            },
        forall|c1: Col, i1: int, c2: Col, i2: int|
            0 <= i1 < after.col(c1).len() && 0 <= i2 < after.col(c2).len() && #[trigger] origin(c1, i1)
                == #[trigger] origin(c2, i2) ==> c1 == c2 && i1 == i2,
    ensures
        ids_unique(after),
{
    assert forall|c1: Col, i: int, c2: Col, j: int|
        0 <= i < after.col(c1).len() && 0 <= j < after.col(c2).len() && #[trigger] after.col(c1)[i].id
            == #[trigger] after.col(c2)[j].id implies c1 == c2 && i == j by {
        let o1 = origin(c1, i);
        let o2 = origin(c2, j);
        assert(b.col(o1.0)[o1.1].id == b.col(o2.0)[o2.1].id);
    }
}


#[verifier::rlimit(40)]
proof fn lemma_move_keeps_ids(b: BoardView, cmd: CommandView, bound: u64)
    requires
        ids_unique(b),
        ids_below(b, bound),
        fits(b, cmd),
        cmd is Move,
    ensures
        ids_unique(execute_spec(b, cmd)),
        ids_below(execute_spec(b, cmd), bound),
{
    let after = execute_spec(b, cmd);
    if let CommandView::Move { id, from_col, to_col, from_idx, to_idx } = cmd {
    let fi = from_idx as int;
    let card = b.col(from_col)[fi];
    let b1 = b.with_col(from_col, b.col(from_col).remove(fi));
    let at = move_target(b1, from_col, to_col, fi, to_idx as int);
    b.col(from_col).remove_ensures(fi);
    b1.col(to_col).insert_ensures(at, card);
    let origin = |c: Col, i: int| move_origin(from_col, to_col, fi, at, c, i);
    assert forall|c: Col, i: int| 0 <= i < after.col(c).len() implies {
        let o = #[trigger] origin(c, i);
        &&& 0 <= o.1 < b.col(o.0).len()
        &&& after.col(c)[i] == b.col(o.0)[o.1]
    } by {
        if from_col == to_col && c == from_col && i != at {
            let k = if i < at {
                i
            } else {
                i - 1
            };
            assert(after.col(c)[i] == b1.col(c)[k]);
        }
    }
    lemma_unique_by_origin(b, after, origin);
    assert forall|c: Col, i: int| 0 <= i < after.col(c).len() implies #[trigger] after.col(c)[i].id < bound by {
        let o = origin(c, i);
        assert(b.col(o.0)[o.1].id < bound);
    }
    }
}

proof fn lemma_add_keeps_ids(b: BoardView, cmd: CommandView, bound: u64)
    requires
        ids_unique(b),
        ids_below(b, bound),
        fits(b, cmd),
        cmd matches CommandView::Add { card, .. } && card.id < bound,
    ensures
        ids_unique(execute_spec(b, cmd)),
        ids_below(execute_spec(b, cmd), bound),
{
    let after = execute_spec(b, cmd);
    if let CommandView::Add { col, card } = cmd {
    let n = b.col(col).len() as int;
    assert forall|c1: Col, i: int, c2: Col, j: int|
        0 <= i < after.col(c1).len() && 0 <= j < after.col(c2).len() && #[trigger] after.col(c1)[i].id
            == #[trigger] after.col(c2)[j].id implies c1 == c2 && i == j by {
        if c1 == col && i == n {
            if !(c2 == col && j == n) {
                assert(b.col(c2)[j] == after.col(c2)[j]);
                assert(has_id(b, card.id));
            }
        } else if c2 == col && j == n {
            assert(b.col(c1)[i] == after.col(c1)[i]);
            assert(has_id(b, card.id));
        } else {
            assert(b.col(c1)[i] == after.col(c1)[i]);
            assert(b.col(c2)[j] == after.col(c2)[j]);
        }
    }
    assert forall|c: Col, i: int| 0 <= i < after.col(c).len() implies #[trigger] after.col(c)[i].id < bound by {
        if !(c == col && i == n) {
            assert(b.col(c)[i] == after.col(c)[i]);
        }
    }
    }
}

proof fn lemma_delete_keeps_ids(b: BoardView, cmd: CommandView, bound: u64)
    requires
        ids_unique(b),
        ids_below(b, bound),
        fits(b, cmd),
        cmd is Delete,
    ensures
        ids_unique(execute_spec(b, cmd)),
        ids_below(execute_spec(b, cmd), bound),
{
    let after = execute_spec(b, cmd);
    if let CommandView::Delete { col, card, original_index } = cmd {
    let k = original_index as int;
    b.col(col).remove_ensures(k);
    let origin = |c: Col, i: int|
        if c == col && i >= k {
            (c, i + 1)
        } else {
            (c, i)
        };
    lemma_unique_by_origin(b, after, origin);
    assert forall|c: Col, i: int| 0 <= i < after.col(c).len() implies #[trigger] after.col(c)[i].id < bound by {
        let o = origin(c, i);
        assert(b.col(o.0)[o.1].id < bound);
    }
    }
}

proof fn lemma_edit_keeps_ids(b: BoardView, cmd: CommandView, bound: u64)
    requires
        ids_unique(b),
        ids_below(b, bound),
        cmd is Edit,
    ensures
        ids_unique(execute_spec(b, cmd)),
        ids_below(execute_spec(b, cmd), bound),
{
    let after = execute_spec(b, cmd);
    if let CommandView::Edit { id, col, new_title, new_desc, new_start, new_end, .. } = cmd {
    assert forall|c: Col, i: int| 0 <= i < b.col(c).len() implies after.col(c).len() == b.col(c).len()
        && #[trigger] after.col(c)[i].id == b.col(c)[i].id by {}
    assert forall|c1: Col, i: int, c2: Col, j: int|
        0 <= i < after.col(c1).len() && 0 <= j < after.col(c2).len() && #[trigger] after.col(c1)[i].id
            == #[trigger] after.col(c2)[j].id implies c1 == c2 && i == j by {
        assert(b.col(c1)[i].id == b.col(c2)[j].id);
    }
    assert forall|c: Col, i: int| 0 <= i < after.col(c).len() implies #[trigger] after.col(c)[i].id < bound by {
        assert(b.col(c)[i].id < bound);
    }
    }
}

/// Carrying out a command that fits a board keeps the ids of its cards
/// distinct and below `bound`, provided an added card's id is below `bound`.
pub proof fn lemma_execute_keeps_ids(b: BoardView, cmd: CommandView, bound: u64)
    requires
        ids_unique(b),
        ids_below(b, bound),
        fits(b, cmd),
        cmd matches CommandView::Add { card, .. } ==> card.id < bound,
    ensures
        ids_unique(execute_spec(b, cmd)),
        ids_below(execute_spec(b, cmd), bound),
{
    match cmd {
        CommandView::Move { .. } => lemma_move_keeps_ids(b, cmd, bound),
        CommandView::Add { .. } => lemma_add_keeps_ids(b, cmd, bound),
        CommandView::Delete { .. } => lemma_delete_keeps_ids(b, cmd, bound),
        CommandView::Edit { .. } => lemma_edit_keeps_ids(b, cmd, bound),
    }
}

/// The cards of `b` have distinct ids, all below `bound`.
pub open spec fn board_ok(b: BoardView, bound: u64) -> bool {
    ids_unique(b) && ids_below(b, bound)
}

/// The undo history `undo` (most recent command last) leads back from `b`:
/// undoing its last command is possible and gives a board on which that
/// command, carried out again, gives `b`; and so on down the history, every
/// board on the way having distinct ids below `bound`.
pub open spec fn past_ok(b: BoardView, undo: Seq<CommandView>, bound: u64) -> bool
    decreases undo.len(),
{
    &&& board_ok(b, bound)
    &&& undo.len() > 0 ==> {
        let c = undo.last();
        let prev = undo_spec(b, c);
        &&& can_undo(b, c)
        &&& can_execute(prev, c)
        &&& execute_spec(prev, c) == b
        &&& past_ok(prev, undo.drop_last(), bound)
    }
}

/// The redo history `redo` (next command last) leads forward from `b`:
/// carrying out its last command is possible and gives a board on which
/// undoing it gives `b` back; and so on, every board on the way having
/// distinct ids below `bound`.
pub open spec fn future_ok(b: BoardView, redo: Seq<CommandView>, bound: u64) -> bool
    decreases redo.len(),
{
    &&& board_ok(b, bound)
    &&& redo.len() > 0 ==> {
        let c = redo.last();
        let next = execute_spec(b, c);
        &&& can_execute(b, c)
        &&& can_undo(next, c)
        &&& undo_spec(next, c) == b
        &&& future_ok(next, redo.drop_last(), bound)
    }
}

/// Raising the bound on ids keeps a history valid.
pub proof fn lemma_past_ok_raise(b: BoardView, undo: Seq<CommandView>, bound: u64, bound2: u64)
    requires
        past_ok(b, undo, bound),
        bound <= bound2,
    ensures
        past_ok(b, undo, bound2),
    decreases undo.len(),
{
    if undo.len() > 0 {
        lemma_past_ok_raise(undo_spec(b, undo.last()), undo.drop_last(), bound, bound2);
    }
}

/// Raising the bound on ids keeps a redo history valid.
pub proof fn lemma_future_ok_raise(b: BoardView, redo: Seq<CommandView>, bound: u64, bound2: u64)
    requires
        future_ok(b, redo, bound),
        bound <= bound2,
    ensures
        future_ok(b, redo, bound2),
    decreases redo.len(),
{
    if redo.len() > 0 {
        lemma_future_ok_raise(execute_spec(b, redo.last()), redo.drop_last(), bound, bound2);
    }
}

/// Carrying out a command that fits the board extends a valid undo history
/// by that command.
pub proof fn lemma_past_ok_push(b: BoardView, undo: Seq<CommandView>, cmd: CommandView, bound: u64, bound2: u64)
    requires
        past_ok(b, undo, bound),
        fits(b, cmd),
        bound <= bound2,
        cmd matches CommandView::Add { card, .. } ==> card.id < bound2,
    ensures
        can_execute(b, cmd),
        past_ok(execute_spec(b, cmd), undo.push(cmd), bound2),
        future_ok(execute_spec(b, cmd), Seq::empty(), bound2),
{
    lemma_past_ok_raise(b, undo, bound, bound2);
    lemma_undo_inverts_execute(b, cmd);
    lemma_execute_keeps_ids(b, cmd, bound2);
    assert(undo.push(cmd).drop_last() =~= undo);
}

/// Undoing the last command of a valid undo history moves it onto the redo
/// history, and both stay valid.
pub proof fn lemma_undo_step(b: BoardView, undo: Seq<CommandView>, redo: Seq<CommandView>, bound: u64)
    requires
        past_ok(b, undo, bound),
        future_ok(b, redo, bound),
        undo.len() > 0,
    ensures
        can_undo(b, undo.last()),
        past_ok(undo_spec(b, undo.last()), undo.drop_last(), bound),
        future_ok(undo_spec(b, undo.last()), redo.push(undo.last()), bound),
{
    let c = undo.last();
    assert(redo.push(c).drop_last() =~= redo);
    assert(redo.push(c).last() == c);
}

/// Redoing the last command of a valid redo history moves it onto the undo
/// history, and both stay valid.
pub proof fn lemma_redo_step(b: BoardView, undo: Seq<CommandView>, redo: Seq<CommandView>, bound: u64)
    requires
        past_ok(b, undo, bound),
        future_ok(b, redo, bound),
        redo.len() > 0,
    ensures
        can_execute(b, redo.last()),
        past_ok(execute_spec(b, redo.last()), undo.push(redo.last()), bound),
        future_ok(execute_spec(b, redo.last()), redo.drop_last(), bound),
{
    let c = redo.last();
    let next = execute_spec(b, c);
    let u2 = undo.push(c);
    assert(u2.drop_last() =~= undo);
    assert(u2.last() == c);
    assert(undo_spec(next, c) == b);
    assert(future_ok(next, redo.drop_last(), bound));
    reveal_with_fuel(future_ok, 2);
    assert(board_ok(next, bound));
    assert(past_ok(b, u2.drop_last(), bound));
}

} // verus!

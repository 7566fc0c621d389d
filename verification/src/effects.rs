use vstd::prelude::*;

use crate::app::step;
use crate::app::AppView;
use crate::app::MessageView;
use crate::board::first_at;
use crate::board::lemma_edit_effect;
use crate::board::lemma_move_across;
use crate::board::lemma_move_within;
use crate::board::position_of;
use crate::board::CommandView;
use crate::calendar::iso_date_text;
use crate::calendar::parsed_iso_date;
use crate::card::CardView;
use crate::civil::lemma_month_of_first;
use crate::civil::lemma_shifted;
use crate::civil::month_first;
use crate::civil::month_of;
use crate::civil::month_start_of;
use crate::civil::months_shifted;
use crate::column::Col;
use crate::text::trimmed;

verus! {

/// Opening the add dialog for column `col` empties its title and
/// description, and fills its dates with the given day (today without one)
/// and the day after; the cards and the histories stay as they were.
pub proof fn lemma_open_add_fills_form(s: AppView, col: Col, date: Option<int>, today: int)
    ensures
        ({
            let t = step(s, MessageView::OpenAdd(col, date), today);
            let start = match date {
                Some(d) => d,
                None => today,
            };
            &&& t.add_open
            &&& t.add_col == col
            &&& t.add_title == Seq::<char>::empty()
            &&& t.add_desc == Seq::<char>::empty()
            &&& t.add_start_str == iso_date_text(start)
            &&& t.add_end_str == iso_date_text(start + 1)
            &&& t.board == s.board
            &&& t.undo_stack == s.undo_stack
            &&& t.redo_stack == s.redo_stack
            &&& t.next_id == s.next_id
        }),
{
    reveal(step);
}

/// Opening the edit dialog fills it from the card: its id, column, title and
/// description, and each date field from that date alone (empty without
/// one); any drag in progress ends, and the cards and histories stay.
pub proof fn lemma_open_edit_fills_form(
    s: AppView,
    id: u64,
    col: Col,
    title: Seq<char>,
    desc: Seq<char>,
    start: Option<int>,
    end: Option<int>,
    today: int,
)
    ensures
        ({
            let t = step(s, MessageView::OpenEdit(id, col, title, desc, start, end), today);
            &&& t.edit_open
            &&& t.edit_id == id
            &&& t.edit_col == col
            &&& t.edit_title == title
            &&& t.edit_desc == desc
            &&& t.edit_start_str == match start {
                Some(x) => iso_date_text(x),
                None => Seq::<char>::empty(),
            }
            &&& t.edit_end_str == match end {
                Some(x) => iso_date_text(x),
                None => Seq::<char>::empty(),
            }
            &&& t.dragging is None
            &&& t.drag_hover_col is None
            &&& t.board == s.board
            &&& t.undo_stack == s.undo_stack
            &&& t.redo_stack == s.redo_stack
        }),
{
    reveal(step);
}

/// Submitting the add form with a title that is not blank adds to the bottom
/// of the form's column a card with the next id, the trimmed title and
/// description and the dates read from the date fields; the id counter moves
/// on, the form closes, the command can be undone and nothing is left to
/// redo. With a blank title nothing happens.
pub proof fn lemma_submit_add(s: AppView, today: int)
    requires
        s.next_id < u64::MAX,
    ensures
        ({
            let t = step(s, MessageView::SubmitAdd, today);
            let card = CardView {
                id: s.next_id,
                title: trimmed(s.add_title),
                description: trimmed(s.add_desc),
                start_date: parsed_iso_date(s.add_start_str),
                end_date: parsed_iso_date(s.add_end_str),
            };
            if trimmed(s.add_title).len() > 0 {
                &&& t.board.col(s.add_col) == s.board.col(s.add_col).push(card)
                &&& forall|c: Col| c != s.add_col ==> #[trigger] t.board.col(c) == s.board.col(c)
                &&& t.next_id == s.next_id + 1
                &&& !t.add_open
                &&& t.undo_stack.len() == s.undo_stack.len() + 1
                &&& t.undo_stack.drop_last() == s.undo_stack
                &&& t.redo_stack.len() == 0
            } else {
                t == s
            }
        }),
{
    reveal(step);
    if trimmed(s.add_title).len() > 0 {
        let t = step(s, MessageView::SubmitAdd, today);
        assert(t.undo_stack.drop_last() =~= s.undo_stack);
    }
}

/// Submitting the edit form with a title that is not blank gives the first
/// card with the form's id in the form's column the trimmed title and
/// description and the dates read from the date fields, keeping its id and
/// place; every other card stays, the form closes, the change can be undone
/// and nothing is left to redo.
pub proof fn lemma_submit_edit(s: AppView, today: int)
    requires
        trimmed(s.edit_title).len() > 0,
        (position_of(s.board.col(s.edit_col), s.edit_id) is Some),
    ensures
        ({
            let t = step(s, MessageView::SubmitEdit, today);
            let i = position_of(s.board.col(s.edit_col), s.edit_id)->0;
            &&& t.board.col(s.edit_col).len() == s.board.col(s.edit_col).len()
            &&& t.board.col(s.edit_col)[i] == CardView {
                id: s.edit_id,
                title: trimmed(s.edit_title),
                description: trimmed(s.edit_desc),
                start_date: parsed_iso_date(s.edit_start_str),
                end_date: parsed_iso_date(s.edit_end_str),
            }
            &&& forall|j: int|
                0 <= j < s.board.col(s.edit_col).len() && j != i ==> #[trigger] t.board.col(s.edit_col)[j]
                    == s.board.col(s.edit_col)[j]
            &&& forall|c: Col| c != s.edit_col ==> #[trigger] t.board.col(c) == s.board.col(c)
            &&& !t.edit_open
            &&& t.undo_stack.len() == s.undo_stack.len() + 1
            &&& t.redo_stack.len() == 0
        }),
{
    reveal(step);
    lemma_edit_effect(
        s.board,
        s.edit_col,
        s.edit_id,
        trimmed(s.edit_title),
        trimmed(s.edit_desc),
        parsed_iso_date(s.edit_start_str),
        parsed_iso_date(s.edit_end_str),
    );
}

/// Submitting the edit form with a blank title changes nothing; when the
/// column holds no card with the form's id, only the form closes.
pub proof fn lemma_submit_edit_without_change(s: AppView, today: int)
    ensures
        trimmed(s.edit_title).len() == 0 ==> step(s, MessageView::SubmitEdit, today) == s,
        trimmed(s.edit_title).len() > 0 && (position_of(s.board.col(s.edit_col), s.edit_id) is None)
            ==> step(s, MessageView::SubmitEdit, today) == (AppView { edit_open: false, ..s }),
{
    reveal(step);
}

/// Deleting card `id` from column `col` takes out its first occurrence there,
/// the other cards keeping their order; without such a card nothing happens.
pub proof fn lemma_delete_card(s: AppView, id: u64, col: Col, today: int)
    requires
        s.board.col(col).len() <= usize::MAX,
    ensures
        ({
            let t = step(s, MessageView::DeleteCard(id, col), today);
            match position_of(s.board.col(col), id) {
                Some(i) => {
                    &&& s.board.col(col)[i].id == id
                    &&& forall|j: int| 0 <= j < i ==> s.board.col(col)[j].id != id
                    &&& t.board.col(col) == s.board.col(col).remove(i)
                    &&& forall|c: Col| c != col ==> #[trigger] t.board.col(c) == s.board.col(c)
                    &&& t.undo_stack.len() == s.undo_stack.len() + 1
                    &&& t.redo_stack.len() == 0
                },
                None => t == s,
            }
        }),
{
    reveal(step);
    match position_of(s.board.col(col), id) {
        Some(i) => {
            assert(first_at(s.board.col(col), id, i));
        },
        None => {},
    }
}

/// Moving card `id` from `from` to `to` puts its first occurrence in `from` at
/// the bottom of `to`, the other cards keeping their order; without such a
/// card nothing happens.
pub proof fn lemma_move_card(s: AppView, id: u64, from: Col, to: Col, today: int)
    requires
        s.board.col(from).len() <= usize::MAX,
        s.board.col(to).len() <= usize::MAX,
    ensures
        ({
            let t = step(s, MessageView::MoveCard(id, from, to), today);
            match position_of(s.board.col(from), id) {
                Some(i) => {
                    let card = s.board.col(from)[i];
                    &&& card.id == id
                    &&& forall|j: int| 0 <= j < i ==> s.board.col(from)[j].id != id
                    &&& from != to ==> t.board.col(from) == s.board.col(from).remove(i)
                        && t.board.col(to) == s.board.col(to).push(card)
                    &&& from == to ==> t.board.col(to) == s.board.col(from).remove(i).push(card)
                    &&& t.undo_stack.len() == s.undo_stack.len() + 1
                    &&& t.redo_stack.len() == 0
                },
                None => t == s,
            }
        }),
{
    reveal(step);
    match position_of(s.board.col(from), id) {
        Some(i) => {
            assert(first_at(s.board.col(from), id, i));
            let n = s.board.col(to).len();
            let t = step(s, MessageView::MoveCard(id, from, to), today);
            let card = s.board.col(from)[i];
            if from != to {
                lemma_move_across(s.board, id, from, to, i as usize, n as usize);
                let r = t.board.col(to);
                assert(r.remove(n as int) == s.board.col(to));
                assert(r =~= s.board.col(to).push(card)) by {
                    assert forall|k: int| 0 <= k < n implies r[k] == s.board.col(to)[k] by {
                        assert(r.remove(n as int)[k] == r[k]);
                    }
                }
            } else {
                lemma_move_within(s.board, id, from, i as usize, n as usize);
                let r = t.board.col(to);
                let rest = s.board.col(from).remove(i);
                assert(r.remove(n - 1) == rest);
                assert(r =~= rest.push(card)) by {
                    assert forall|k: int| 0 <= k < n - 1 implies r[k] == rest[k] by {
                        assert(r.remove(n - 1)[k] == r[k]);
                    }
                }
            }
        },
        None => {},
    }
}

/// The form and tab messages set exactly their own field.
pub proof fn lemma_field_messages(s: AppView, v: Seq<char>, today: int)
    ensures
        step(s, MessageView::TabSelected(v), today) == (AppView { active_tab: v, ..s }),
        step(s, MessageView::AddTitleChanged(v), today) == (AppView { add_title: v, ..s }),
        step(s, MessageView::AddDescChanged(v), today) == (AppView { add_desc: v, ..s }),
        step(s, MessageView::AddStartChanged(v), today) == (AppView { add_start_str: v, ..s }),
        step(s, MessageView::AddEndChanged(v), today) == (AppView { add_end_str: v, ..s }),
        step(s, MessageView::EditTitleChanged(v), today) == (AppView { edit_title: v, ..s }),
        step(s, MessageView::EditDescChanged(v), today) == (AppView { edit_desc: v, ..s }),
        step(s, MessageView::EditStartChanged(v), today) == (AppView { edit_start_str: v, ..s }),
        step(s, MessageView::EditEndChanged(v), today) == (AppView { edit_end_str: v, ..s }),
        step(s, MessageView::CloseDialogs, today) == (AppView { add_open: false, edit_open: false, ..s }),
{
    reveal(step);
}

/// Dragging: a drag starts with the card's id, column and title; a column is
/// highlighted only while a drag is in progress; leaving a column or
/// cancelling ends the highlight (cancelling also the drag); dropping ends
/// both and, for a card dropped on another column, moves it there as the move
/// message does, while a drop on its own column or without a drag leaves the
/// cards and histories as they were.
pub proof fn lemma_drag_messages(s: AppView, id: u64, col: Col, title: Seq<char>, today: int)
    ensures
        step(s, MessageView::DragStart(id, col, title), today) == (AppView {
            dragging: Some((id, col, title)),
            ..s
        }),
        (s.dragging is Some) ==> step(s, MessageView::DragEnterCol(col), today).drag_hover_col == Some(col),
        (s.dragging is None) ==> step(s, MessageView::DragEnterCol(col), today) == s,
        step(s, MessageView::DragLeaveCol, today) == (AppView { drag_hover_col: None, ..s }),
        step(s, MessageView::DragCancelled, today) == (AppView { dragging: None, drag_hover_col: None, ..s }),
        (step(s, MessageView::DragDropOnCol(col), today).dragging is None),
        (step(s, MessageView::DragDropOnCol(col), today).drag_hover_col is None),
        (match s.dragging {
            Some((d, from, _)) => if from != col {
                &&& step(s, MessageView::DragDropOnCol(col), today).board == step(
                    s,
                    MessageView::MoveCard(d, from, col),
                    today,
                ).board
                &&& step(s, MessageView::DragDropOnCol(col), today).undo_stack == step(
                    s,
                    MessageView::MoveCard(d, from, col),
                    today,
                ).undo_stack
            } else {
                &&& step(s, MessageView::DragDropOnCol(col), today).board == s.board
                &&& step(s, MessageView::DragDropOnCol(col), today).undo_stack == s.undo_stack
            },
            None => {
                &&& step(s, MessageView::DragDropOnCol(col), today).board == s.board
                &&& step(s, MessageView::DragDropOnCol(col), today).undo_stack == s.undo_stack
            },
        }),
{
    reveal(step);
}

/// Calendar navigation: the next (previous) month shows the first day of the
/// month after (before) the one shown, and stays put when that month is out
/// of range; "today" shows the first day of the current month.
pub proof fn lemma_calendar_messages(s: AppView, today: int)
    ensures
        ({
            let m = s.calendar_view_month;
            &&& step(s, MessageView::CalendarNextMonth, today).calendar_view_month == if (months_shifted(m, 1) is Some) {
                month_first(month_of(m) + 1)
            } else {
                month_start_of(m)
            }
            &&& step(s, MessageView::CalendarPrevMonth, today).calendar_view_month == if (months_shifted(m, -1) is Some) {
                month_first(month_of(m) - 1)
            } else {
                month_start_of(m)
            }
            &&& step(s, MessageView::CalendarToday, today).calendar_view_month == month_start_of(today)
            &&& step(s, MessageView::CalendarNextMonth, today).board == s.board
            &&& step(s, MessageView::CalendarPrevMonth, today).board == s.board
        }),
{
    reveal(step);
    let m = s.calendar_view_month;
    lemma_shifted(m, 1);
    lemma_shifted(m, -1);
    lemma_month_of_first(month_of(m) + 1);
    lemma_month_of_first(month_of(m) - 1);
}

/// Undo and redo with nothing to undo or redo change nothing; otherwise each
/// moves exactly one command from one history to the other.
pub proof fn lemma_history_messages(s: AppView, today: int)
    ensures
        s.undo_stack.len() == 0 ==> step(s, MessageView::Undo, today) == s,
        s.redo_stack.len() == 0 ==> step(s, MessageView::Redo, today) == s,
        s.undo_stack.len() > 0 ==> {
            let t = step(s, MessageView::Undo, today);
            &&& t.undo_stack == s.undo_stack.drop_last()
            &&& t.redo_stack == s.redo_stack.push(s.undo_stack.last())
            &&& t.next_id == s.next_id
        },
        s.redo_stack.len() > 0 ==> {
            let t = step(s, MessageView::Redo, today);
            &&& t.redo_stack == s.redo_stack.drop_last()
            &&& t.undo_stack == s.undo_stack.push(s.redo_stack.last())
            &&& t.next_id == s.next_id
        },
{
    reveal(step);
}

} // verus!

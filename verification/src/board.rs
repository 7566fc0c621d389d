use vstd::prelude::*;

use crate::card::cards_view;
use crate::card::opt_day;
use crate::card::lemma_cards_view_insert;
use crate::card::lemma_cards_view_push;
use crate::card::lemma_cards_view_remove;
use crate::card::lemma_cards_view_update;
use crate::card::CardView;
use crate::card::KanbanCard;
use crate::column::Col;
use crate::date::Date;

verus! {

/// What the board holds: the cards of each column, top to bottom.
#[verifier::ext_equal]
pub struct BoardView {
    pub todo: Seq<CardView>,
    pub in_progress: Seq<CardView>,
    pub done: Seq<CardView>,
}

impl BoardView {
    /// The cards of column `c`.
    pub open spec fn col(self, c: Col) -> Seq<CardView> {
        match c {
            Col::Todo => self.todo,
            Col::InProgress => self.in_progress,
            Col::Done => self.done,
        }
    }

    /// The board with the cards of column `c` replaced by `s`.
    pub open spec fn with_col(self, c: Col, s: Seq<CardView>) -> BoardView {
        match c {
            Col::Todo => BoardView { todo: s, ..self },
            Col::InProgress => BoardView { in_progress: s, ..self },
            Col::Done => BoardView { done: s, ..self },
        }
    }
}

/// A change to the board, recorded so that it can be undone and redone.
pub enum Command {
    /// Move card `id` from position `from_idx` of `from_col` to position
    /// `to_idx` of `to_col`.
    Move { id: u64, from_col: Col, to_col: Col, from_idx: usize, to_idx: usize },
    /// Add `card` at the bottom of `col`.
    Add { col: Col, card: KanbanCard },
    /// Delete `card`, which stands at `original_index` of `col`.
    Delete { col: Col, card: KanbanCard, original_index: usize },
    /// Change the texts and dates of card `id` of `col`.
    Edit {
        id: u64,
        col: Col,
        old_title: String,
        new_title: String,
        old_desc: String,
        new_desc: String,
        old_start: Option<Date>,
        new_start: Option<Date>,
        old_end: Option<Date>,
        new_end: Option<Date>,
    },
}

/// What a command holds, with its texts as character sequences.
pub enum CommandView {
    Move { id: u64, from_col: Col, to_col: Col, from_idx: usize, to_idx: usize },
    Add { col: Col, card: CardView },
    Delete { col: Col, card: CardView, original_index: usize },
    Edit {
        id: u64,
        col: Col,
        old_title: Seq<char>,
        new_title: Seq<char>,
        old_desc: Seq<char>,
        new_desc: Seq<char>,
        old_start: Option<int>,
        new_start: Option<int>,
        old_end: Option<int>,
        new_end: Option<int>,
    },
}

impl View for Command {
    type V = CommandView;

    open spec fn view(&self) -> CommandView {
        match self {
            Command::Move { id, from_col, to_col, from_idx, to_idx } => CommandView::Move {
                id: *id,
                from_col: *from_col,
                to_col: *to_col,
                from_idx: *from_idx,
                to_idx: *to_idx,
            },
            Command::Add { col, card } => CommandView::Add { col: *col, card: card@ },
            Command::Delete { col, card, original_index } => CommandView::Delete {
                col: *col,
                card: card@,
                original_index: *original_index,
            },
            Command::Edit {
                id,
                col,
                old_title,
                new_title,
                old_desc,
                new_desc,
                old_start,
                new_start,
                old_end,
                new_end,
            } => CommandView::Edit {
                id: *id,
                col: *col,
                old_title: old_title@,
                new_title: new_title@,
                old_desc: old_desc@,
                new_desc: new_desc@,
                old_start: opt_day(*old_start),
                new_start: opt_day(*new_start),
                old_end: opt_day(*old_end),
                new_end: opt_day(*new_end),
            },
        }
    }
}

impl Clone for Command {
    fn clone(&self) -> (r: Self)
        ensures
            r == *self,
    {
        match self {
            Command::Move { id, from_col, to_col, from_idx, to_idx } => Command::Move {
                id: *id,
                from_col: *from_col,
                to_col: *to_col,
                from_idx: *from_idx,
                to_idx: *to_idx,
            },
            Command::Add { col, card } => Command::Add { col: *col, card: card.clone() },
            Command::Delete { col, card, original_index } => Command::Delete {
                col: *col,
                card: card.clone(),
                original_index: *original_index,
            },
            Command::Edit {
                id,
                col,
                old_title,
                new_title,
                old_desc,
                new_desc,
                old_start,
                new_start,
                old_end,
                new_end,
            } => Command::Edit {
                id: *id,
                col: *col,
                old_title: old_title.clone(),
                new_title: new_title.clone(),
                old_desc: old_desc.clone(),
                new_desc: new_desc.clone(),
                old_start: *old_start,
                new_start: *new_start,
                old_end: *old_end,
                new_end: *new_end,
            },
        }
    }
}

/// Card `i` of `s` is the first one whose id is `id`.
pub open spec fn first_at(s: Seq<CardView>, id: u64, i: int) -> bool {
    &&& 0 <= i < s.len()
    &&& s[i].id == id
    &&& forall|j: int| 0 <= j < i ==> s[j].id != id
}

/// The position of the first card of `s` whose id is `id`, if any.
pub open spec fn position_of(s: Seq<CardView>, id: u64) -> Option<int> {
    if exists|i: int| first_at(s, id, i) {
        Some(choose|i: int| first_at(s, id, i))
    } else {
        None
    }
}

/// `c` with its texts and dates replaced.
pub open spec fn with_details(
    c: CardView,
    title: Seq<char>,
    description: Seq<char>,
    start_date: Option<int>,
    end_date: Option<int>,
) -> CardView {
    CardView { id: c.id, title, description, start_date, end_date }
}

/// `s` without the cards whose id is `id`, the others in their order.
pub open spec fn without_id(s: Seq<CardView>, id: u64) -> Seq<CardView>
    decreases s.len(),
{
    if s.len() == 0 {
        s
    } else if s.last().id == id {
        without_id(s.drop_last(), id)
    } else {
        without_id(s.drop_last(), id).push(s.last())
    }
}

/// `b` with the first card of `col` whose id is `id` given new texts and dates;
/// `b` itself when `col` has no such card.
pub open spec fn edit_spec(
    b: BoardView,
    col: Col,
    id: u64,
    title: Seq<char>,
    description: Seq<char>,
    start_date: Option<int>,
    end_date: Option<int>,
) -> BoardView {
    match position_of(b.col(col), id) {
        Some(i) => b.with_col(
            col,
            b.col(col).update(i, with_details(b.col(col)[i], title, description, start_date, end_date)),
        ),
        None => b,
    }
}

/// Where a moved card is inserted: `to_idx`, one less when the card moves down
/// within its own column, and at most the length of the target column once the
/// card has left its place.
pub open spec fn move_target(b1: BoardView, from_col: Col, to_col: Col, from_idx: int, to_idx: int) -> int {
    let ins = if from_col == to_col && from_idx < to_idx {
        to_idx - 1
    } else {
        to_idx
    };
    if ins < b1.col(to_col).len() {
        ins
    } else {
        b1.col(to_col).len() as int
    }
}

/// Whether `cmd` can be carried out on `b` (a move or a delete names a
/// position that exists).
pub open spec fn can_execute(b: BoardView, cmd: CommandView) -> bool {
    match cmd {
        CommandView::Move { from_col, from_idx, .. } => from_idx < b.col(from_col).len(),
        CommandView::Delete { col, original_index, .. } => original_index < b.col(col).len(),
        _ => true,
    }
}

/// The board after carrying out `cmd` on `b`.
pub open spec fn execute_spec(b: BoardView, cmd: CommandView) -> BoardView {
    match cmd {
        CommandView::Move { from_col, to_col, from_idx, to_idx, .. } => {
            let card = b.col(from_col)[from_idx as int];
            let b1 = b.with_col(from_col, b.col(from_col).remove(from_idx as int));
            let at = move_target(b1, from_col, to_col, from_idx as int, to_idx as int);
            b1.with_col(to_col, b1.col(to_col).insert(at, card))
        },
        CommandView::Add { col, card } => b.with_col(col, b.col(col).push(card)),
        CommandView::Delete { col, original_index, .. } => b.with_col(
            col,
            b.col(col).remove(original_index as int),
        ),
        CommandView::Edit { id, col, new_title, new_desc, new_start, new_end, .. } => edit_spec(
            b,
            col,
            id,
            new_title,
            new_desc,
            new_start,
            new_end,
        ),
    }
}

/// Whether `cmd` can be undone on `b` (the position a card goes back to exists).
pub open spec fn can_undo(b: BoardView, cmd: CommandView) -> bool {
    match cmd {
        CommandView::Move { id, from_col, to_col, from_idx, .. } => match position_of(
            b.col(to_col),
            id,
        ) {
            Some(i) => from_idx <= b.with_col(to_col, b.col(to_col).remove(i)).col(from_col).len(),
            None => true,
        },
        CommandView::Delete { col, original_index, .. } => original_index <= b.col(col).len(),
        _ => true,
    }
}

/// The board after undoing `cmd` on `b`: a moved card found in its target
/// column goes back to its original position, an added card's id is removed
/// from its column, a deleted card is put back at its position, and an edited
/// card gets its old texts and dates back.
pub open spec fn undo_spec(b: BoardView, cmd: CommandView) -> BoardView {
    match cmd {
        CommandView::Move { id, from_col, to_col, from_idx, .. } => match position_of(
            b.col(to_col),
            id,
        ) {
            Some(i) => {
                let card = b.col(to_col)[i];
                let b1 = b.with_col(to_col, b.col(to_col).remove(i));
                b1.with_col(from_col, b1.col(from_col).insert(from_idx as int, card))
            },
            None => b,
        },
        CommandView::Add { col, card } => b.with_col(col, without_id(b.col(col), card.id)),
        CommandView::Delete { col, card, original_index } => b.with_col(
            col,
            b.col(col).insert(original_index as int, card),
        ),
        CommandView::Edit { id, col, old_title, old_desc, old_start, old_end, .. } => edit_spec(
            b,
            col,
            id,
            old_title,
            old_desc,
            old_start,
            old_end,
        ),
    }
}

/// The board: the cards of each column, top to bottom.
pub struct Board {
    pub todo: Vec<KanbanCard>,
    pub in_progress: Vec<KanbanCard>,
    pub done: Vec<KanbanCard>,
}

impl View for Board {
    type V = BoardView;

    open spec fn view(&self) -> BoardView {
        BoardView {
            todo: cards_view(self.todo@),
            in_progress: cards_view(self.in_progress@),
            done: cards_view(self.done@),
        }
    }
}

/// The position of the first card of `v` whose id is `id`, if any.
pub fn find_card(v: &Vec<KanbanCard>, id: u64) -> (r: Option<usize>)
    ensures
        match r {
            Some(i) => position_of(cards_view(v@), id) == Some(i as int),
            None => position_of(cards_view(v@), id) is None,
        },
{
    let ghost s = cards_view(v@);
    let mut i: usize = 0;
    while i < v.len()
        invariant
            0 <= i <= v.len(),
            s == cards_view(v@),
            forall|j: int| 0 <= j < i ==> s[j].id != id,
        decreases v.len() - i,
    {
        if v[i].id == id {
            assert(first_at(s, id, i as int));
            assert forall|k: int| first_at(s, id, k) implies k == i by {
                if k < i {
                } else if k > i {
                    assert(s[i as int].id == id);
                }
            }
            return Some(i);
        }
        i = i + 1;
    }
    assert(!exists|k: int| first_at(s, id, k));
    None
}

/// The cards of `v` whose id is not `id`, in their order.
pub fn cards_without_id(v: &Vec<KanbanCard>, id: u64) -> (r: Vec<KanbanCard>)
    ensures
        cards_view(r@) == without_id(cards_view(v@), id),
{
    let ghost s = cards_view(v@);
    let mut r: Vec<KanbanCard> = Vec::new();
    let mut i: usize = 0;
    while i < v.len()
        invariant
            0 <= i <= v.len(),
            s == cards_view(v@),
            cards_view(r@) == without_id(s.take(i as int), id),
        decreases v.len() - i,
    {
        assert(s.take(i as int + 1).drop_last() =~= s.take(i as int));
        if v[i].id != id {
            proof {
                lemma_cards_view_push(r@, v@[i as int]);
            }
            r.push(v[i].clone());
        }
        i = i + 1;
    }
    assert(s.take(v.len() as int) =~= s);
    r
}

impl Board {
    /// The cards of column `c`.
    pub fn column(&self, c: Col) -> (r: &Vec<KanbanCard>)
        ensures
            cards_view(r@) == self@.col(c),
    {
        match c {
            Col::Todo => &self.todo,
            Col::InProgress => &self.in_progress,
            Col::Done => &self.done,
        }
    }

    fn column_mut(&mut self, c: Col) -> (r: &mut Vec<KanbanCard>)
        ensures
            cards_view(r@) == old(self)@.col(c),
            final(self)@ == old(self)@.with_col(c, cards_view(final(r)@)),
    {
        match c {
            Col::Todo => &mut self.todo,
            Col::InProgress => &mut self.in_progress,
            Col::Done => &mut self.done,
        }
    }
    /// Replaces the texts and dates of the first card of `c` whose id is `id`;
    /// does nothing when there is none.
    fn edit_card(
        &mut self,
        c: Col,
        id: u64,
        title: &String,
        description: &String,
        start_date: Option<Date>,
        end_date: Option<Date>,
    )
        ensures
            final(self)@ == edit_spec(
                old(self)@,
                c,
                id,
                title@,
                description@,
                opt_day(start_date),
                opt_day(end_date),
            ),
    {
        let v = self.column_mut(c);
        match find_card(v, id) {
            Some(i) => {
                let card = KanbanCard {
                    id: v[i].id,
                    title: title.clone(),
                    description: description.clone(),
                    start_date,
                    end_date,
                };
                proof {
                    lemma_cards_view_update(v@, i as int, card);
                }
                v.set(i, card);
            },
            None => {},
        }
    }

    /// Carries out `cmd` on the board.
    pub fn execute_command(&mut self, cmd: &Command)
        requires
            can_execute(old(self)@, cmd@),
        ensures
            final(self)@ == execute_spec(old(self)@, cmd@),
    {
        match cmd {
            Command::Move { from_col, to_col, from_idx, to_idx, .. } => {
                let v = self.column_mut(*from_col);
                proof {
                    lemma_cards_view_remove(v@, *from_idx as int);
                }
                let card = v.remove(*from_idx);
                let mut insert_idx = *to_idx;
                if *from_col == *to_col && *from_idx < insert_idx {
                    insert_idx = insert_idx - 1;
                }
                let len = self.column(*to_col).len();
                assert(len == self@.col(*to_col).len());
                let insert_idx = if insert_idx < len {
                    insert_idx
                } else {
                    len
                };
                let w = self.column_mut(*to_col);
                assert(w@.len() == cards_view(w@).len());
                proof {
                    lemma_cards_view_insert(w@, insert_idx as int, card);
                }
                w.insert(insert_idx, card);
            },
            Command::Add { col, card } => {
                let v = self.column_mut(*col);
                proof {
                    lemma_cards_view_push(v@, *card);
                }
                v.push(card.clone());
            },
            Command::Delete { col, original_index, .. } => {
                let v = self.column_mut(*col);
                proof {
                    lemma_cards_view_remove(v@, *original_index as int);
                }
                v.remove(*original_index);
            },
            Command::Edit { id, col, new_title, new_desc, new_start, new_end, .. } => {
                self.edit_card(*col, *id, new_title, new_desc, *new_start, *new_end);
            },
        }
    }

    /// Undoes `cmd` on the board.
    pub fn undo_command(&mut self, cmd: &Command)
        requires
            can_undo(old(self)@, cmd@),
        ensures
            final(self)@ == undo_spec(old(self)@, cmd@),
    {
        match cmd {
            Command::Move { id, from_col, to_col, from_idx, .. } => {
                match find_card(self.column(*to_col), *id) {
                    Some(current_idx) => {
                        let v = self.column_mut(*to_col);
                        proof {
                            lemma_cards_view_remove(v@, current_idx as int);
                        }
                        let card = v.remove(current_idx);
                        let w = self.column_mut(*from_col);
                        proof {
                            lemma_cards_view_insert(w@, *from_idx as int, card);
                        }
                        w.insert(*from_idx, card);
                    },
                    None => {},
                }
            },
            Command::Add { col, card } => {
                let v = self.column_mut(*col);
                let kept = cards_without_id(v, card.id);
                *v = kept;
            },
            Command::Delete { col, card, original_index } => {
                let v = self.column_mut(*col);
                proof {
                    lemma_cards_view_insert(v@, *original_index as int, *card);
                }
                v.insert(*original_index, card.clone());
            },
            Command::Edit { id, col, old_title, old_desc, old_start, old_end, .. } => {
                self.edit_card(*col, *id, old_title, old_desc, *old_start, *old_end);
            },
        }
    }
}

/// A move between two columns takes the card out of its place and puts it at
/// position `to_idx` of the target column, or at its bottom when `to_idx` is
/// past it; the other cards keep their order and the third column is
/// untouched.
pub proof fn lemma_move_across(b: BoardView, id: u64, from_col: Col, to_col: Col, from_idx: usize, to_idx: usize)
    requires
        from_col != to_col,
        from_idx < b.col(from_col).len(),
    ensures
        ({
            let r = execute_spec(b, CommandView::Move { id, from_col, to_col, from_idx, to_idx });
            let card = b.col(from_col)[from_idx as int];
            let n = b.col(to_col).len();
            let p = if to_idx < n {
                to_idx as int
            } else {
                n as int
            };
            &&& r.col(from_col) == b.col(from_col).remove(from_idx as int)
            &&& r.col(to_col).len() == n + 1
            &&& r.col(to_col)[p] == card
            &&& r.col(to_col).remove(p) == b.col(to_col)
            &&& forall|c: Col| c != from_col && c != to_col ==> #[trigger] r.col(c) == b.col(c)
        }),
{
    let r = execute_spec(b, CommandView::Move { id, from_col, to_col, from_idx, to_idx });
    let card = b.col(from_col)[from_idx as int];
    let n = b.col(to_col).len();
    let p = if to_idx < n {
        to_idx as int
    } else {
        n as int
    };
    assert(r.col(to_col) == b.col(to_col).insert(p, card));
    assert(r.col(to_col).remove(p) =~= b.col(to_col));
}

/// A move within one column takes the card out of its place and puts it back
/// at position `to_idx` when it moves up, at `to_idx - 1` when it moves down
/// (the card's own place has closed up), and at the bottom when that is past
/// the column; the other cards keep their order and the other columns are
/// untouched.
pub proof fn lemma_move_within(b: BoardView, id: u64, col: Col, from_idx: usize, to_idx: usize)
    requires
        from_idx < b.col(col).len(),
    ensures
        ({
            let r = execute_spec(b, CommandView::Move { id, from_col: col, to_col: col, from_idx, to_idx });
            let card = b.col(col)[from_idx as int];
            let n = b.col(col).len();
            let p = if to_idx <= from_idx {
                to_idx as int
            } else if to_idx < n {
                to_idx - 1
            } else {
                n - 1
            };
            &&& r.col(col).len() == n
            &&& r.col(col)[p] == card
            &&& r.col(col).remove(p) == b.col(col).remove(from_idx as int)
            &&& forall|c: Col| c != col ==> #[trigger] r.col(c) == b.col(c)
        }),
{
    let r = execute_spec(b, CommandView::Move { id, from_col: col, to_col: col, from_idx, to_idx });
    let card = b.col(col)[from_idx as int];
    let n = b.col(col).len();
    let p = if to_idx <= from_idx {
        to_idx as int
    } else if to_idx < n {
        to_idx - 1
    } else {
        n - 1
    };
    let rest = b.col(col).remove(from_idx as int);
    assert(r.col(col) == rest.insert(p, card));
    assert(r.col(col).remove(p) =~= rest);
}

/// Adding puts the card at the bottom of its column and leaves the rest.
pub proof fn lemma_add_effect(b: BoardView, col: Col, card: CardView)
    ensures
        execute_spec(b, CommandView::Add { col, card }).col(col) == b.col(col).push(card),
        forall|c: Col| c != col ==> #[trigger] execute_spec(b, CommandView::Add { col, card }).col(c) == b.col(c),
{
}

/// Deleting takes out the card at `original_index` and leaves the rest in
/// order.
pub proof fn lemma_delete_effect(b: BoardView, col: Col, card: CardView, original_index: usize)
    ensures
        execute_spec(b, CommandView::Delete { col, card, original_index }).col(col) == b.col(col).remove(
            original_index as int,
        ),
        forall|c: Col|
            c != col ==> #[trigger] execute_spec(b, CommandView::Delete { col, card, original_index }).col(c)
                == b.col(c),
{
}

/// Editing gives the first card `id` of `col` the new texts and dates, keeping
/// its id and place; every other card stays as it was. Without such a card
/// nothing changes.
pub proof fn lemma_edit_effect(b: BoardView, col: Col, id: u64, t: Seq<char>, d: Seq<char>, s: Option<int>, e: Option<int>)
    ensures
        ({
            let r = edit_spec(b, col, id, t, d, s, e);
            match position_of(b.col(col), id) {
                Some(i) => {
                    &&& r.col(col).len() == b.col(col).len()
                    &&& r.col(col)[i] == CardView { id, title: t, description: d, start_date: s, end_date: e }
                    &&& forall|j: int| 0 <= j < b.col(col).len() && j != i ==> #[trigger] r.col(col)[j] == b.col(col)[j]
                    &&& forall|c: Col| c != col ==> #[trigger] r.col(c) == b.col(c)
                },
                None => r == b,
            }
        }),
{
    match position_of(b.col(col), id) {
        Some(i) => {
            assert(first_at(b.col(col), id, i));
        },
        None => {},
    }
}

/// The cards of `s` without those whose id is `id` are `s` filtered by id.
pub proof fn lemma_without_id_filters(s: Seq<CardView>, id: u64)
    ensures
        without_id(s, id) == s.filter(|c: CardView| c.id != id),
    decreases s.len(),
{
    reveal_with_fuel(Seq::filter, 1);
    if s.len() > 0 {
        lemma_without_id_filters(s.drop_last(), id);
    }
}

/// Undoing an add removes every card with the added card's id from its
/// column, the other cards keeping their order; the other columns stay.
pub proof fn lemma_undo_add_effect(b: BoardView, col: Col, card: CardView)
    ensures
        undo_spec(b, CommandView::Add { col, card }).col(col) == b.col(col).filter(|c: CardView| c.id != card.id),
        forall|c: Col| c != col ==> #[trigger] undo_spec(b, CommandView::Add { col, card }).col(c) == b.col(c),
{
    lemma_without_id_filters(b.col(col), card.id);
}

/// Undoing a delete puts the card back at its old position, the others
/// keeping their order.
pub proof fn lemma_undo_delete_effect(b: BoardView, col: Col, card: CardView, original_index: usize)
    requires
        original_index <= b.col(col).len(),
    ensures
        ({
            let r = undo_spec(b, CommandView::Delete { col, card, original_index });
            &&& r.col(col).len() == b.col(col).len() + 1
            &&& r.col(col)[original_index as int] == card
            &&& r.col(col).remove(original_index as int) == b.col(col)
            &&& forall|c: Col| c != col ==> #[trigger] r.col(c) == b.col(c)
        }),
{
    let r = undo_spec(b, CommandView::Delete { col, card, original_index });
    assert(r.col(col).remove(original_index as int) =~= b.col(col));
}

/// Undoing a move takes the first card with the moved id out of the target
/// column and puts it back at `from_idx` of the column it came from; without
/// such a card nothing changes.
pub proof fn lemma_undo_move_effect(b: BoardView, id: u64, from_col: Col, to_col: Col, from_idx: usize, to_idx: usize)
    requires
        can_undo(b, CommandView::Move { id, from_col, to_col, from_idx, to_idx }),
    ensures
        ({
            let r = undo_spec(b, CommandView::Move { id, from_col, to_col, from_idx, to_idx });
            match position_of(b.col(to_col), id) {
                Some(i) => {
                    let card = b.col(to_col)[i];
                    let rest = if from_col == to_col {
                        b.col(to_col).remove(i)
                    } else {
                        b.col(from_col)
                    };
                    &&& card.id == id
                    &&& forall|j: int| 0 <= j < i ==> b.col(to_col)[j].id != id
                    &&& r.col(from_col)[from_idx as int] == card
                    &&& r.col(from_col).remove(from_idx as int) == rest
                    &&& from_col != to_col ==> r.col(to_col) == b.col(to_col).remove(i)
                    &&& forall|c: Col| c != from_col && c != to_col ==> #[trigger] r.col(c) == b.col(c)
                },
                None => r == b,
            }
        }),
{
    match position_of(b.col(to_col), id) {
        Some(i) => {
            assert(first_at(b.col(to_col), id, i));
            let r = undo_spec(b, CommandView::Move { id, from_col, to_col, from_idx, to_idx });
            let card = b.col(to_col)[i];
            let rest = if from_col == to_col {
                b.col(to_col).remove(i)
            } else {
                b.col(from_col)
            };
            assert(r.col(from_col) == rest.insert(from_idx as int, card));
            assert(r.col(from_col).remove(from_idx as int) =~= rest);
        },
        None => {},
    }
}

/// Carrying out an edit gives the first card `id` of `col` the new texts and
/// dates; undoing it gives that card the old ones. Other cards stay, and
/// without such a card nothing changes.
pub proof fn lemma_edit_command_effect(b: BoardView, cmd: CommandView)
    requires
        cmd is Edit,
    ensures
        ({
            let r = execute_spec(b, cmd);
            let u = undo_spec(b, cmd);
            match cmd {
                CommandView::Edit {
                    id,
                    col,
                    old_title,
                    new_title,
                    old_desc,
                    new_desc,
                    old_start,
                    new_start,
                    old_end,
                    new_end,
                } => match position_of(b.col(col), id) {
                    Some(i) => {
                        &&& r.col(col)[i] == (CardView {
                            id,
                            title: new_title,
                            description: new_desc,
                            start_date: new_start,
                            end_date: new_end,
                        })
                        &&& u.col(col)[i] == (CardView {
                            id,
                            title: old_title,
                            description: old_desc,
                            start_date: old_start,
                            end_date: old_end,
                        })
                        &&& r.col(col).len() == b.col(col).len()
                        &&& u.col(col).len() == b.col(col).len()
                        &&& forall|j: int|
                            0 <= j < b.col(col).len() && j != i ==> #[trigger] r.col(col)[j] == b.col(col)[j]
                                && u.col(col)[j] == b.col(col)[j]
                        &&& forall|c: Col| c != col ==> #[trigger] r.col(c) == b.col(c) && u.col(c) == b.col(c)
                    },
                    None => r == b && u == b,
                },
                _ => true,
            }
        }),
{
    match cmd {
        CommandView::Edit { id, col, old_title, new_title, old_desc, new_desc, old_start, new_start, old_end, new_end } => {
            lemma_edit_effect(b, col, id, new_title, new_desc, new_start, new_end);
            lemma_edit_effect(b, col, id, old_title, old_desc, old_start, old_end);
        },
        _ => {},
    }
}

} // verus!

use vstd::prelude::*;

use crate::board::execute_spec;
use crate::board::find_card;
use crate::board::first_at;
use crate::board::position_of;
use crate::board::undo_spec;
use crate::board::Board;
use crate::board::BoardView;
use crate::board::Command;
use crate::board::CommandView;
use crate::calendar::add_months;
use crate::calendar::add_months_spec;
use crate::calendar::iso_date_text;
use crate::calendar::iso_text;
use crate::calendar::month_start;
use crate::calendar::lemma_add_months_is_month_start;
use crate::civil::is_month_start;
use crate::civil::lemma_month_start_is_first;
use crate::civil::month_start_of;
use crate::calendar::parse_iso;
use crate::calendar::parsed_iso_date;
use crate::card::opt_day;
use crate::card::CardView;
use crate::card::KanbanCard;
use crate::column::Col;
use crate::date::in_calendar;
use crate::date::Date;
use crate::date::MAX_DAY;
use crate::history::has_id;
use crate::history::fits;
use crate::history::future_ok;
use crate::history::lemma_past_ok_push;
use crate::history::lemma_past_ok_raise;
use crate::history::lemma_future_ok_raise;
use crate::history::lemma_redo_step;
use crate::history::lemma_undo_step;
use crate::history::lemma_undo_inverts_execute;
use crate::history::ids_below;
use crate::history::past_ok;
use crate::text::trim_text;
use crate::text::trimmed;

verus! {

/// An event the board reacts to.
pub enum Message {
    TabSelected(String),
    OpenAdd(Col, Option<Date>),
    OpenEdit(u64, Col, String, String, Option<Date>, Option<Date>),
    CloseDialogs,
    AddTitleChanged(String),
    AddDescChanged(String),
    AddStartChanged(String),
    AddEndChanged(String),
    SubmitAdd,
    EditTitleChanged(String),
    EditDescChanged(String),
    EditStartChanged(String),
    EditEndChanged(String),
    SubmitEdit,
    MoveCard(u64, Col, Col),
    DeleteCard(u64, Col),
    Undo,
    Redo,
    DragStart(u64, Col, String),
    DragCancelled,
    DragEnterCol(Col),
    DragLeaveCol,
    DragDropOnCol(Col),
    CalendarPrevMonth,
    CalendarNextMonth,
    CalendarToday,
}

/// What a message holds, with texts as character sequences and dates as day
/// numbers.
pub enum MessageView {
    TabSelected(Seq<char>),
    OpenAdd(Col, Option<int>),
    OpenEdit(u64, Col, Seq<char>, Seq<char>, Option<int>, Option<int>),
    CloseDialogs,
    AddTitleChanged(Seq<char>),
    AddDescChanged(Seq<char>),
    AddStartChanged(Seq<char>),
    AddEndChanged(Seq<char>),
    SubmitAdd,
    EditTitleChanged(Seq<char>),
    EditDescChanged(Seq<char>),
    EditStartChanged(Seq<char>),
    EditEndChanged(Seq<char>),
    SubmitEdit,
    MoveCard(u64, Col, Col),
    DeleteCard(u64, Col),
    Undo,
    Redo,
    DragStart(u64, Col, Seq<char>),
    DragCancelled,
    DragEnterCol(Col),
    DragLeaveCol,
    DragDropOnCol(Col),
    CalendarPrevMonth,
    CalendarNextMonth,
    CalendarToday,
}

impl View for Message {
    type V = MessageView;

    open spec fn view(&self) -> MessageView {
        match self {
            Message::TabSelected(t) => MessageView::TabSelected(t@),
            Message::OpenAdd(c, d) => MessageView::OpenAdd(*c, opt_day(*d)),
            Message::OpenEdit(id, c, t, d, s, e) => MessageView::OpenEdit(
                *id,
                *c,
                t@,
                d@,
                opt_day(*s),
                opt_day(*e),
            ),
            Message::CloseDialogs => MessageView::CloseDialogs,
            Message::AddTitleChanged(v) => MessageView::AddTitleChanged(v@),
            Message::AddDescChanged(v) => MessageView::AddDescChanged(v@),
            Message::AddStartChanged(v) => MessageView::AddStartChanged(v@),
            Message::AddEndChanged(v) => MessageView::AddEndChanged(v@),
            Message::SubmitAdd => MessageView::SubmitAdd,
            Message::EditTitleChanged(v) => MessageView::EditTitleChanged(v@),
            Message::EditDescChanged(v) => MessageView::EditDescChanged(v@),
            Message::EditStartChanged(v) => MessageView::EditStartChanged(v@),
            Message::EditEndChanged(v) => MessageView::EditEndChanged(v@),
            Message::SubmitEdit => MessageView::SubmitEdit,
            Message::MoveCard(id, f, t) => MessageView::MoveCard(*id, *f, *t),
            Message::DeleteCard(id, c) => MessageView::DeleteCard(*id, *c),
            Message::Undo => MessageView::Undo,
            Message::Redo => MessageView::Redo,
            Message::DragStart(id, c, t) => MessageView::DragStart(*id, *c, t@),
            Message::DragCancelled => MessageView::DragCancelled,
            Message::DragEnterCol(c) => MessageView::DragEnterCol(*c),
            Message::DragLeaveCol => MessageView::DragLeaveCol,
            Message::DragDropOnCol(c) => MessageView::DragDropOnCol(*c),
            Message::CalendarPrevMonth => MessageView::CalendarPrevMonth,
            Message::CalendarNextMonth => MessageView::CalendarNextMonth,
            Message::CalendarToday => MessageView::CalendarToday,
        }
    }
}

/// Everything the board keeps: the cards, the history, the drag in progress,
/// the add and edit forms, the selected tab and the month the calendar shows.
#[verifier::ext_equal]
pub struct AppView {
    pub active_tab: Seq<char>,
    pub calendar_view_month: int,
    pub board: BoardView,
    pub next_id: u64,
    pub undo_stack: Seq<CommandView>,
    pub redo_stack: Seq<CommandView>,
    pub dragging: Option<(u64, Col, Seq<char>)>,
    pub drag_hover_col: Option<Col>,
    pub add_open: bool,
    pub add_col: Col,
    pub add_title: Seq<char>,
    pub add_desc: Seq<char>,
    pub add_start_str: Seq<char>,
    pub add_end_str: Seq<char>,
    pub edit_open: bool,
    pub edit_id: u64,
    pub edit_col: Col,
    pub edit_title: Seq<char>,
    pub edit_desc: Seq<char>,
    pub edit_start_str: Seq<char>,
    pub edit_end_str: Seq<char>,
}

/// What a sequence of commands holds.
pub open spec fn commands_view(s: Seq<Command>) -> Seq<CommandView> {
    Seq::new(s.len(), |i: int| s[i]@)
}

/// The text of an optional date in the format `%Y-%m-%d`; empty without one.
pub open spec fn date_text(d: Option<int>) -> Seq<char> {
    match d {
        Some(x) => iso_date_text(x),
        None => Seq::empty(),
    }
}

/// `s` after carrying out `c`: the board changes, `c` goes on top of the undo
/// history and the redo history is emptied.
pub open spec fn dispatch_spec(s: AppView, c: CommandView) -> AppView {
    AppView {
        board: execute_spec(s.board, c),
        undo_stack: s.undo_stack.push(c),
        redo_stack: Seq::empty(),
        ..s
    }
}

/// `s` after moving card `id` from column `from` to the bottom of column `to`;
/// `s` itself when `from` holds no such card.
pub open spec fn move_card_spec(s: AppView, id: u64, from: Col, to: Col) -> AppView {
    match position_of(s.board.col(from), id) {
        Some(i) => dispatch_spec(
            s,
            CommandView::Move {
                id,
                from_col: from,
                to_col: to,
                from_idx: i as usize,
                to_idx: s.board.col(to).len() as usize,
            },
        ),
        None => s,
    }
}

/// `s` after adding to column `col` a card with the given texts and dates and
/// the id `s.next_id`, which then moves on by one.
pub open spec fn add_card_spec(
    s: AppView,
    col: Col,
    title: Seq<char>,
    description: Seq<char>,
    start_date: Option<int>,
    end_date: Option<int>,
) -> AppView {
    let card = CardView { id: s.next_id, title, description, start_date, end_date };
    dispatch_spec(
        AppView { next_id: (s.next_id + 1) as u64, ..s },
        CommandView::Add { col, card },
    )
}

/// `s` after giving the first card `id` of column `col` new texts and dates;
/// `s` itself when `col` holds no such card.
pub open spec fn edit_card_spec(
    s: AppView,
    col: Col,
    id: u64,
    title: Seq<char>,
    description: Seq<char>,
    start_date: Option<int>,
    end_date: Option<int>,
) -> AppView {
    match position_of(s.board.col(col), id) {
        Some(i) => {
            let card = s.board.col(col)[i];
            dispatch_spec(
                s,
                CommandView::Edit {
                    id,
                    col,
                    old_title: card.title,
                    new_title: title,
                    old_desc: card.description,
                    new_desc: description,
                    old_start: card.start_date,
                    new_start: start_date,
                    old_end: card.end_date,
                    new_end: end_date,
                },
            )
        },
        None => s,
    }
}

/// The state after `s` receives message `m`, `today` being the current date.
#[verifier::opaque]
pub open spec fn step(s: AppView, m: MessageView, today: int) -> AppView {
    match m {
        MessageView::TabSelected(t) => AppView { active_tab: t, ..s },
        MessageView::OpenAdd(col, date) => {
            let start = match date {
                Some(d) => d,
                None => today,
            };
            AppView {
                add_open: true,
                add_col: col,
                add_title: Seq::empty(),
                add_desc: Seq::empty(),
                add_start_str: iso_date_text(start),
                add_end_str: iso_date_text(start + 1),
                ..s
            }
        },
        MessageView::OpenEdit(id, col, title, desc, start, end) => AppView {
            dragging: None,
            drag_hover_col: None,
            edit_open: true,
            edit_id: id,
            edit_col: col,
            edit_title: title,
            edit_desc: desc,
            edit_start_str: date_text(start),
            edit_end_str: date_text(end),
            ..s
        },
        MessageView::CloseDialogs => AppView { add_open: false, edit_open: false, ..s },
        MessageView::AddTitleChanged(v) => AppView { add_title: v, ..s },
        MessageView::AddDescChanged(v) => AppView { add_desc: v, ..s },
        MessageView::AddStartChanged(v) => AppView { add_start_str: v, ..s },
        MessageView::AddEndChanged(v) => AppView { add_end_str: v, ..s },
        MessageView::SubmitAdd => {
            if trimmed(s.add_title).len() > 0 {
                let s1 = add_card_spec(
                    s,
                    s.add_col,
                    trimmed(s.add_title),
                    trimmed(s.add_desc),
                    parsed_iso_date(s.add_start_str),
                    parsed_iso_date(s.add_end_str),
                );
                AppView { add_open: false, ..s1 }
            } else {
                s
            }
        },
        MessageView::EditTitleChanged(v) => AppView { edit_title: v, ..s },
        MessageView::EditDescChanged(v) => AppView { edit_desc: v, ..s },
        MessageView::EditStartChanged(v) => AppView { edit_start_str: v, ..s },
        MessageView::EditEndChanged(v) => AppView { edit_end_str: v, ..s },
        MessageView::SubmitEdit => {
            if trimmed(s.edit_title).len() > 0 {
                let s1 = edit_card_spec(
                    s,
                    s.edit_col,
                    s.edit_id,
                    trimmed(s.edit_title),
                    trimmed(s.edit_desc),
                    parsed_iso_date(s.edit_start_str),
                    parsed_iso_date(s.edit_end_str),
                );
                AppView { edit_open: false, ..s1 }
            } else {
                s
            }
        },
        MessageView::MoveCard(id, from, to) => move_card_spec(s, id, from, to),
        MessageView::DeleteCard(id, col) => match position_of(s.board.col(col), id) {
            Some(i) => dispatch_spec(
                s,
                CommandView::Delete {
                    col,
                    card: s.board.col(col)[i],
                    original_index: i as usize,
                },
            ),
            None => s,
        },
        MessageView::Undo => {
            if s.undo_stack.len() > 0 {
                let c = s.undo_stack.last();
                AppView {
                    board: undo_spec(s.board, c),
                    undo_stack: s.undo_stack.drop_last(),
                    redo_stack: s.redo_stack.push(c),
                    ..s
                }
            } else {
                s
            }
        },
        MessageView::Redo => {
            if s.redo_stack.len() > 0 {
                let c = s.redo_stack.last();
                AppView {
                    board: execute_spec(s.board, c),
                    undo_stack: s.undo_stack.push(c),
                    redo_stack: s.redo_stack.drop_last(),
                    ..s
                }
            } else {
                s
            }
        },
        MessageView::DragStart(id, col, title) => AppView { dragging: Some((id, col, title)), ..s },
        MessageView::DragCancelled => AppView { dragging: None, drag_hover_col: None, ..s },
        MessageView::DragEnterCol(col) => {
            if s.dragging is Some {
                AppView { drag_hover_col: Some(col), ..s }
            } else {
                s
            }
        },
        MessageView::DragLeaveCol => AppView { drag_hover_col: None, ..s },
        MessageView::DragDropOnCol(to) => {
            let s1 = AppView { dragging: None, ..s };
            let s2 = match s.dragging {
                Some((id, from, _)) => {
                    if from != to {
                        move_card_spec(s1, id, from, to)
                    } else {
                        s1
                    }
                },
                None => s1,
            };
            AppView { drag_hover_col: None, ..s2 }
        },
        MessageView::CalendarPrevMonth => AppView {
            calendar_view_month: add_months_spec(s.calendar_view_month, -1),
            ..s
        },
        MessageView::CalendarNextMonth => AppView {
            calendar_view_month: add_months_spec(s.calendar_view_month, 1),
            ..s
        },
        MessageView::CalendarToday => AppView { calendar_view_month: month_start_of(today), ..s },
    }
}

/// The histories of `s` are valid for its board and ids: undo and redo can
/// always be carried out and give back the boards they left.
pub open spec fn app_ok(s: AppView) -> bool {
    &&& past_ok(s.board, s.undo_stack, s.next_id)
    &&& future_ok(s.board, s.redo_stack, s.next_id)
}

/// The cards the board starts with, around day `today`.
pub open spec fn sample_board(today: int) -> BoardView {
    BoardView {
        todo: seq![
            CardView {
                id: 1,
                title: "Design system setup"@,
                description: "Configure color tokens and typography"@,
                start_date: Some(today),
                end_date: Some(today + 3),
            },
            CardView {
                id: 2,
                title: "Write unit tests"@,
                description: "Cover core business logic"@,
                start_date: Some(today + 4),
                end_date: Some(today + 7),
            },
        ],
        in_progress: seq![
            CardView {
                id: 3,
                title: "Implement auth flow"@,
                description: "OAuth2 with refresh tokens"@,
                start_date: Some(today - 2),
                end_date: Some(today + 5),
            },
        ],
        done: seq![
            CardView {
                id: 4,
                title: "Project scaffolding"@,
                description: "Initial repo setup done"@,
                start_date: Some(today),
                end_date: Some(today + 1),
            },
        ],
    }
}

/// The state the board starts in on day `today`.
pub open spec fn initial_view(today: int) -> AppView {
    AppView {
        active_tab: "board"@,
        calendar_view_month: month_start_of(today),
        board: sample_board(today),
        next_id: 5,
        undo_stack: Seq::empty(),
        redo_stack: Seq::empty(),
        dragging: None,
        drag_hover_col: None,
        add_open: false,
        add_col: Col::Todo,
        add_title: Seq::empty(),
        add_desc: Seq::empty(),
        add_start_str: Seq::empty(),
        add_end_str: Seq::empty(),
        edit_open: false,
        edit_id: 0,
        edit_col: Col::Todo,
        edit_title: Seq::empty(),
        edit_desc: Seq::empty(),
        edit_start_str: Seq::empty(),
        edit_end_str: Seq::empty(),
    }
}

/// What the drag in progress holds.
pub open spec fn dragging_view(d: Option<(u64, Col, String)>) -> Option<(u64, Col, Seq<char>)> {
    match d {
        Some((id, col, title)) => Some((id, col, title@)),
        None => None,
    }
}

proof fn lemma_commands_push(s: Seq<Command>, c: Command)
    ensures
        commands_view(s.push(c)) == commands_view(s).push(c@),
{
    assert(commands_view(s.push(c)) =~= commands_view(s).push(c@));
}

proof fn lemma_commands_drop_last(s: Seq<Command>)
    requires
        s.len() > 0,
    ensures
        commands_view(s.drop_last()) == commands_view(s).drop_last(),
        commands_view(s).last() == s.last()@,
{
    assert(commands_view(s.drop_last()) =~= commands_view(s).drop_last());
}

/// The Kanban board with its history, forms and views' state.
pub struct KanbanApp {
    active_tab: String,
    calendar_view_month: Date,
    board: Board,
    next_id: u64,
    undo_stack: Vec<Command>,
    redo_stack: Vec<Command>,
    dragging: Option<(u64, Col, String)>,
    drag_hover_col: Option<Col>,
    add_open: bool,
    add_col: Col,
    add_title: String,
    add_desc: String,
    add_start_str: String,
    add_end_str: String,
    edit_open: bool,
    edit_id: u64,
    edit_col: Col,
    edit_title: String,
    edit_desc: String,
    edit_start_str: String,
    edit_end_str: String,
}

impl View for KanbanApp {
    type V = AppView;

    closed spec fn view(&self) -> AppView {
        AppView {
            active_tab: self.active_tab@,
            calendar_view_month: self.calendar_view_month@,
            board: self.board@,
            next_id: self.next_id,
            undo_stack: commands_view(self.undo_stack@),
            redo_stack: commands_view(self.redo_stack@),
            dragging: dragging_view(self.dragging),
            drag_hover_col: self.drag_hover_col,
            add_open: self.add_open,
            add_col: self.add_col,
            add_title: self.add_title@,
            add_desc: self.add_desc@,
            add_start_str: self.add_start_str@,
            add_end_str: self.add_end_str@,
            edit_open: self.edit_open,
            edit_id: self.edit_id,
            edit_col: self.edit_col,
            edit_title: self.edit_title@,
            edit_desc: self.edit_desc@,
            edit_start_str: self.edit_start_str@,
            edit_end_str: self.edit_end_str@,
        }
    }
}

impl KanbanApp {
    /// The state is consistent: its histories can be undone and redone, and
    /// the calendar shows a month from its first day.
    pub open spec fn wf(&self) -> bool {
        app_ok(self@) && is_month_start(self@.calendar_view_month)
    }

    /// The board as it starts on day `today`, with four sample cards.
    pub fn new(today: Date) -> (r: KanbanApp)
        requires
            in_calendar(today@ - 2),
            in_calendar(today@ + 7),
        ensures
            r@ == initial_view(today@),
            r.wf(),
    {
        let c1 = KanbanCard {
            id: 1,
            title: "Design system setup".to_owned(),
            description: "Configure color tokens and typography".to_owned(),
            start_date: Some(today),
            end_date: Some(today.plus_days(3)),
        };
        let c2 = KanbanCard {
            id: 2,
            title: "Write unit tests".to_owned(),
            description: "Cover core business logic".to_owned(),
            start_date: Some(today.plus_days(4)),
            end_date: Some(today.plus_days(7)),
        };
        let c3 = KanbanCard {
            id: 3,
            title: "Implement auth flow".to_owned(),
            description: "OAuth2 with refresh tokens".to_owned(),
            start_date: Some(today.plus_days(-2)),
            end_date: Some(today.plus_days(5)),
        };
        let c4 = KanbanCard {
            id: 4,
            title: "Project scaffolding".to_owned(),
            description: "Initial repo setup done".to_owned(),
            start_date: Some(today),
            end_date: Some(today.plus_days(1)),
        };
        let board = Board { todo: vec![c1, c2], in_progress: vec![c3], done: vec![c4] };
        let app = KanbanApp {
            active_tab: "board".to_owned(),
            calendar_view_month: month_start(today),
            board,
            next_id: 5,
            undo_stack: Vec::new(),
            redo_stack: Vec::new(),
            dragging: None,
            drag_hover_col: None,
            add_open: false,
            add_col: Col::Todo,
            add_title: String::new(),
            add_desc: String::new(),
            add_start_str: String::new(),
            add_end_str: String::new(),
            edit_open: false,
            edit_id: 0,
            edit_col: Col::Todo,
            edit_title: String::new(),
            edit_desc: String::new(),
            edit_start_str: String::new(),
            edit_end_str: String::new(),
        };
        assert(app@.board =~= sample_board(today@));
        assert(app@ =~= initial_view(today@));
        assert(app@.undo_stack =~= Seq::<CommandView>::empty());
        assert(app@.redo_stack =~= Seq::<CommandView>::empty());
        proof {
            lemma_month_start_is_first(today@);
        }
        app
    }

    /// Carries out `cmd`, records it for undo and forgets what could be redone.
    fn dispatch(&mut self, cmd: Command)
        requires
            app_ok(old(self)@),
            fits(old(self)@.board, cmd@),
            cmd@ matches CommandView::Add { card, .. } ==> card.id < old(self).next_id,
        ensures
            final(self)@ == dispatch_spec(old(self)@, cmd@),
            app_ok(final(self)@),
    {
        proof {
            lemma_past_ok_push(self@.board, self@.undo_stack, cmd@, self.next_id, self.next_id);
        }
        self.board.execute_command(&cmd);
        proof {
            lemma_commands_push(self.undo_stack@, cmd);
        }
        self.undo_stack.push(cmd);
        self.redo_stack.clear();
        assert(commands_view(self.redo_stack@) =~= Seq::<CommandView>::empty());
        assert(self@ =~= dispatch_spec(old(self)@, cmd@));
    }

    /// Moves card `id` from column `from` to the bottom of column `to`, if
    /// `from` holds it.
    fn move_card(&mut self, id: u64, from: Col, to: Col)
        requires
            app_ok(old(self)@),
        ensures
            final(self)@ == move_card_spec(old(self)@, id, from, to),
            app_ok(final(self)@),
    {
        match find_card(self.board.column(from), id) {
            Some(from_idx) => {
                let to_idx = self.board.column(to).len();
                let ghost s = self@.board.col(from);
                assert(first_at(s, id, from_idx as int));
                let cmd = Command::Move { id, from_col: from, to_col: to, from_idx, to_idx };
                self.dispatch(cmd);
            },
            None => {},
        }
    }

    // Read access for the views.

    /// The selected tab.
    pub fn active_tab(&self) -> (r: &String)
        ensures
            r@ == self@.active_tab,
    {
        &self.active_tab
    }

    /// The title typed in the add form.
    pub fn add_title(&self) -> (r: &String)
        ensures
            r@ == self@.add_title,
    {
        &self.add_title
    }

    /// The description typed in the add form.
    pub fn add_desc(&self) -> (r: &String)
        ensures
            r@ == self@.add_desc,
    {
        &self.add_desc
    }

    /// The start date typed in the add form.
    pub fn add_start_str(&self) -> (r: &String)
        ensures
            r@ == self@.add_start_str,
    {
        &self.add_start_str
    }

    /// The end date typed in the add form.
    pub fn add_end_str(&self) -> (r: &String)
        ensures
            r@ == self@.add_end_str,
    {
        &self.add_end_str
    }

    /// The title typed in the edit form.
    pub fn edit_title(&self) -> (r: &String)
        ensures
            r@ == self@.edit_title,
    {
        &self.edit_title
    }

    /// The description typed in the edit form.
    pub fn edit_desc(&self) -> (r: &String)
        ensures
            r@ == self@.edit_desc,
    {
        &self.edit_desc
    }

    /// The start date typed in the edit form.
    pub fn edit_start_str(&self) -> (r: &String)
        ensures
            r@ == self@.edit_start_str,
    {
        &self.edit_start_str
    }

    /// The end date typed in the edit form.
    pub fn edit_end_str(&self) -> (r: &String)
        ensures
            r@ == self@.edit_end_str,
    {
        &self.edit_end_str
    }

    /// Whether the add form is open.
    pub fn add_open(&self) -> (r: bool)
        ensures
            r == self@.add_open,
    {
        self.add_open
    }

    /// Whether the edit form is open.
    pub fn edit_open(&self) -> (r: bool)
        ensures
            r == self@.edit_open,
    {
        self.edit_open
    }

    /// The column a dragged card is over, if any.
    pub fn drag_hover_col(&self) -> (r: Option<Col>)
        ensures
            r == self@.drag_hover_col,
    {
        self.drag_hover_col
    }

    /// The first day of the month the calendar shows.
    pub fn calendar_view_month(&self) -> (r: Date)
        ensures
            r@ == self@.calendar_view_month,
    {
        self.calendar_view_month
    }

    /// The cards of the board.
    pub fn board(&self) -> (r: &Board)
        ensures
            r@ == self@.board,
    {
        &self.board
    }

    /// The card being dragged (id, column, title), if any.
    pub fn dragging(&self) -> (r: &Option<(u64, Col, String)>)
        ensures
            dragging_view(*r) == self@.dragging,
    {
        &self.dragging
    }

    /// The id the next added card gets.
    pub fn next_id(&self) -> (r: u64)
        ensures
            r == self@.next_id,
    {
        self.next_id
    }

    /// Whether there is a command to undo.
    pub fn undo_available(&self) -> (r: bool)
        ensures
            r == (self@.undo_stack.len() > 0),
    {
        !self.undo_stack.is_empty()
    }

    /// Whether there is a command to redo.
    pub fn redo_available(&self) -> (r: bool)
        ensures
            r == (self@.redo_stack.len() > 0),
    {
        !self.redo_stack.is_empty()
    }

    /// Whether column `col` is highlighted as the target of the drag in
    /// progress.
    pub fn is_drop_target(&self, col: Col) -> (r: bool)
        ensures
            r == (self@.dragging is Some && self@.drag_hover_col == Some(col)),
    {
        self.dragging.is_some() && match self.drag_hover_col {
            Some(c) => c == col,
            None => false,
        }
    }

    fn open_add(&mut self, col: Col, date: Option<Date>, today: Date)
        requires
            app_ok(old(self)@),
            (match date {
                Some(d) => d@,
                None => today@,
            }) < MAX_DAY,
        ensures
            final(self)@ == step(old(self)@, MessageView::OpenAdd(col, opt_day(date)), today@),
            app_ok(final(self)@),
    {
        proof {
            reveal(step);
        }
        let ghost s = self@;
        self.add_open = true;
        self.add_col = col;
        self.add_title = String::new();
        self.add_desc = String::new();
        let start_date = match date {
            Some(d) => d,
            None => today,
        };
        let _ = start_date.days();
        self.add_start_str = iso_text(start_date);
        self.add_end_str = iso_text(start_date.plus_days(1));
        assert(self@ =~= step(s, MessageView::OpenAdd(col, opt_day(date)), today@));
    }

    fn open_edit(
        &mut self,
        id: u64,
        col: Col,
        title: String,
        desc: String,
        start: Option<Date>,
        end: Option<Date>,
        today: Date,
    )
        requires
            app_ok(old(self)@),
        ensures
            final(self)@ == step(
                old(self)@,
                MessageView::OpenEdit(id, col, title@, desc@, opt_day(start), opt_day(end)),
                today@,
            ),
            app_ok(final(self)@),
    {
        proof {
            reveal(step);
        }
        let ghost s = self@;
        self.dragging = None;
        self.drag_hover_col = None;
        self.edit_open = true;
        self.edit_id = id;
        self.edit_col = col;
        self.edit_title = title;
        self.edit_desc = desc;
        self.edit_start_str = match start {
            Some(d) => iso_text(d),
            None => String::new(),
        };
        self.edit_end_str = match end {
            Some(d) => iso_text(d),
            None => String::new(),
        };
        assert(self@ =~= step(
            s,
            MessageView::OpenEdit(id, col, title@, desc@, opt_day(start), opt_day(end)),
            today@,
        ));
    }

    /// Adds to column `col` a card with the given texts and dates and the next
    /// id, as an undoable command.
    pub fn add_card(
        &mut self,
        col: Col,
        title: String,
        description: String,
        start_date: Option<Date>,
        end_date: Option<Date>,
    )
        requires
            app_ok(old(self)@),
            old(self)@.next_id < u64::MAX,
        ensures
            final(self)@ == add_card_spec(
                old(self)@,
                col,
                title@,
                description@,
                opt_day(start_date),
                opt_day(end_date),
            ),
            app_ok(final(self)@),
    {
        let ghost s = self@;
        let card = KanbanCard { id: self.next_id, title, description, start_date, end_date };
        let ghost old_id = self.next_id;
        proof {
            if has_id(s.board, old_id) {
                let (c, i) = choose|c: Col, i: int|
                    0 <= i < s.board.col(c).len() && #[trigger] s.board.col(c)[i].id == old_id;
                assert(s.board.col(c)[i].id < old_id);
            }
            lemma_past_ok_raise(s.board, s.undo_stack, old_id, (old_id + 1) as u64);
            lemma_future_ok_raise(s.board, s.redo_stack, old_id, (old_id + 1) as u64);
        }
        self.next_id = self.next_id + 1;
        self.dispatch(Command::Add { col, card });
    }

    /// Gives the first card `id` of column `col` new texts and dates, as an
    /// undoable command; does nothing when `col` holds no such card.
    pub fn edit_card(
        &mut self,
        col: Col,
        id: u64,
        title: String,
        description: String,
        start_date: Option<Date>,
        end_date: Option<Date>,
    )
        requires
            app_ok(old(self)@),
        ensures
            final(self)@ == edit_card_spec(
                old(self)@,
                col,
                id,
                title@,
                description@,
                opt_day(start_date),
                opt_day(end_date),
            ),
            app_ok(final(self)@),
    {
        match find_card(self.board.column(col), id) {
            Some(idx) => {
                let old_card = &self.board.column(col)[idx];
                let cmd = Command::Edit {
                    id,
                    col,
                    old_title: old_card.title.clone(),
                    new_title: title,
                    old_desc: old_card.description.clone(),
                    new_desc: description,
                    old_start: old_card.start_date,
                    new_start: start_date,
                    old_end: old_card.end_date,
                    new_end: end_date,
                };
                self.dispatch(cmd);
            },
            None => {},
        }
    }

    fn submit_add(&mut self, today: Date)
        requires
            app_ok(old(self)@),
            trimmed(old(self)@.add_title).len() > 0 ==> old(self)@.next_id < u64::MAX,
        ensures
            final(self)@ == step(old(self)@, MessageView::SubmitAdd, today@),
            app_ok(final(self)@),
    {
        proof {
            reveal(step);
        }
        let ghost s = self@;
        let title = trim_text(&self.add_title);
        if !title.as_str().is_empty() {
            let description = trim_text(&self.add_desc);
            let start_date = parse_iso(self.add_start_str.as_str());
            let end_date = parse_iso(self.add_end_str.as_str());
            self.add_card(self.add_col, title, description, start_date, end_date);
            self.add_open = false;
            assert(self@ =~= step(s, MessageView::SubmitAdd, today@));
        }
    }

    fn submit_edit(&mut self, today: Date)
        requires
            app_ok(old(self)@),
        ensures
            final(self)@ == step(old(self)@, MessageView::SubmitEdit, today@),
            app_ok(final(self)@),
    {
        proof {
            reveal(step);
        }
        let ghost s = self@;
        let title = trim_text(&self.edit_title);
        if !title.as_str().is_empty() {
            let description = trim_text(&self.edit_desc);
            let start_date = parse_iso(self.edit_start_str.as_str());
            let end_date = parse_iso(self.edit_end_str.as_str());
            self.edit_card(self.edit_col, self.edit_id, title, description, start_date, end_date);
            self.edit_open = false;
            assert(self@ =~= step(s, MessageView::SubmitEdit, today@));
        }
    }

    fn delete_card(&mut self, id: u64, col: Col, today: Date)
        requires
            app_ok(old(self)@),
        ensures
            final(self)@ == step(old(self)@, MessageView::DeleteCard(id, col), today@),
            app_ok(final(self)@),
    {
        proof {
            reveal(step);
        }
        match find_card(self.board.column(col), id) {
            Some(idx) => {
                let card = self.board.column(col)[idx].clone();
                let cmd = Command::Delete { col, card, original_index: idx };
                self.dispatch(cmd);
            },
            None => {},
        }
    }

    fn undo(&mut self, today: Date)
        requires
            app_ok(old(self)@),
        ensures
            final(self)@ == step(old(self)@, MessageView::Undo, today@),
            app_ok(final(self)@),
    {
        proof {
            reveal(step);
        }
        let ghost s = self@;
        proof {
            if self.undo_stack@.len() > 0 {
                lemma_commands_drop_last(self.undo_stack@);
                lemma_undo_step(s.board, s.undo_stack, s.redo_stack, s.next_id);
            }
        }
        match self.undo_stack.pop() {
            Some(cmd) => {
                self.board.undo_command(&cmd);
                proof {
                    lemma_commands_push(self.redo_stack@, cmd);
                }
                self.redo_stack.push(cmd);
                assert(self@ =~= step(s, MessageView::Undo, today@));
            },
            None => {},
        }
    }

    fn redo(&mut self, today: Date)
        requires
            app_ok(old(self)@),
        ensures
            final(self)@ == step(old(self)@, MessageView::Redo, today@),
            app_ok(final(self)@),
    {
        proof {
            reveal(step);
        }
        let ghost s = self@;
        proof {
            if self.redo_stack@.len() > 0 {
                lemma_commands_drop_last(self.redo_stack@);
                lemma_redo_step(s.board, s.undo_stack, s.redo_stack, s.next_id);
            }
        }
        match self.redo_stack.pop() {
            Some(cmd) => {
                self.board.execute_command(&cmd);
                proof {
                    lemma_commands_push(self.undo_stack@, cmd);
                }
                self.undo_stack.push(cmd);
                assert(self@ =~= step(s, MessageView::Redo, today@));
            },
            None => {},
        }
    }

    fn drop_on_col(&mut self, to_col: Col, today: Date)
        requires
            app_ok(old(self)@),
        ensures
            final(self)@ == step(old(self)@, MessageView::DragDropOnCol(to_col), today@),
            app_ok(final(self)@),
    {
        proof {
            reveal(step);
        }
        let ghost s = self@;
        let taken = self.dragging.take();
        match taken {
            Some((id, from_col, _title)) => {
                if from_col != to_col {
                    self.move_card(id, from_col, to_col);
                }
            },
            None => {},
        }
        self.drag_hover_col = None;
        assert(self@ =~= step(s, MessageView::DragDropOnCol(to_col), today@));
    }

    /// The messages that fill in the forms and open, close or submit them.
    fn update_forms(&mut self, message: Message, today: Date)
        requires
            app_ok(old(self)@),
            message is TabSelected || message is OpenAdd || message is OpenEdit || message is CloseDialogs
                || message is AddTitleChanged || message is AddDescChanged || message is AddStartChanged
                || message is AddEndChanged || message is SubmitAdd || message is EditTitleChanged
                || message is EditDescChanged || message is EditStartChanged || message is EditEndChanged
                || message is SubmitEdit,
            message matches Message::OpenAdd(_, date) ==> (match date {
                Some(d) => d@,
                None => today@,
            }) < MAX_DAY,
            message is SubmitAdd && trimmed(old(self)@.add_title).len() > 0 ==> old(self)@.next_id < u64::MAX,
        ensures
            final(self)@ == step(old(self)@, message@, today@),
            app_ok(final(self)@),
    {
        proof {
            reveal(step);
        }
        let ghost s = self@;
        match message {
            Message::TabSelected(tab) => {
                self.active_tab = tab;
                assert(self@ =~= step(s, message@, today@));
            },
            Message::OpenAdd(col, date) => self.open_add(col, date, today),
            Message::OpenEdit(id, col, title, desc, start, end) => self.open_edit(
                id,
                col,
                title,
                desc,
                start,
                end,
                today,
            ),
            Message::CloseDialogs => {
                self.add_open = false;
                self.edit_open = false;
                assert(self@ =~= step(s, message@, today@));
            },
            Message::AddTitleChanged(val) => {
                self.add_title = val;
                assert(self@ =~= step(s, message@, today@));
            },
            Message::AddDescChanged(val) => {
                self.add_desc = val;
                assert(self@ =~= step(s, message@, today@));
            },
            Message::AddStartChanged(val) => {
                self.add_start_str = val;
                assert(self@ =~= step(s, message@, today@));
            },
            Message::AddEndChanged(val) => {
                self.add_end_str = val;
                assert(self@ =~= step(s, message@, today@));
            },
            Message::SubmitAdd => self.submit_add(today),
            Message::EditTitleChanged(val) => {
                self.edit_title = val;
                assert(self@ =~= step(s, message@, today@));
            },
            Message::EditDescChanged(val) => {
                self.edit_desc = val;
                assert(self@ =~= step(s, message@, today@));
            },
            Message::EditStartChanged(val) => {
                self.edit_start_str = val;
                assert(self@ =~= step(s, message@, today@));
            },
            Message::EditEndChanged(val) => {
                self.edit_end_str = val;
                assert(self@ =~= step(s, message@, today@));
            },
            Message::SubmitEdit => self.submit_edit(today),
            _ => {},
        }
    }

    /// The messages that change the cards or the history, and the drag and
    /// calendar messages.
    #[verifier::rlimit(60)]
    fn update_board(&mut self, message: Message, today: Date)
        requires
            app_ok(old(self)@),
            message is MoveCard || message is DeleteCard || message is Undo || message is Redo
                || message is DragStart || message is DragCancelled || message is DragEnterCol
                || message is DragLeaveCol || message is DragDropOnCol || message is CalendarPrevMonth
                || message is CalendarNextMonth || message is CalendarToday,
        ensures
            final(self)@ == step(old(self)@, message@, today@),
            app_ok(final(self)@),
    {
        proof {
            reveal(step);
        }
        let ghost s = self@;
        match message {
            Message::MoveCard(id, from, to) => self.move_card(id, from, to),
            Message::DeleteCard(id, col) => self.delete_card(id, col, today),
            Message::Undo => self.undo(today),
            Message::Redo => self.redo(today),
            Message::DragStart(id, col, title) => {
                self.dragging = Some((id, col, title));
                assert(self@ =~= step(s, message@, today@));
            },
            Message::DragCancelled => {
                self.dragging = None;
                self.drag_hover_col = None;
                assert(self@ =~= step(s, message@, today@));
            },
            Message::DragEnterCol(col) => {
                if self.dragging.is_some() {
                    self.drag_hover_col = Some(col);
                }
                assert(self@ =~= step(s, message@, today@));
            },
            Message::DragLeaveCol => {
                self.drag_hover_col = None;
                assert(self@ =~= step(s, message@, today@));
            },
            Message::DragDropOnCol(to_col) => self.drop_on_col(to_col, today),
            Message::CalendarPrevMonth => {
                self.calendar_view_month = add_months(self.calendar_view_month, -1);
                assert(self@ =~= step(s, message@, today@));
            },
            Message::CalendarNextMonth => {
                self.calendar_view_month = add_months(self.calendar_view_month, 1);
                assert(self@ =~= step(s, message@, today@));
            },
            Message::CalendarToday => {
                self.calendar_view_month = month_start(today);
                assert(self@ =~= step(s, message@, today@));
            },
            _ => {},
        }
    }

    /// Reacts to `message`, `today` being the current date: the state becomes
    /// `step(old state, message, today)` and stays consistent.
    pub fn update(&mut self, message: Message, today: Date)
        requires
            app_ok(old(self)@),
            message matches Message::OpenAdd(_, date) ==> (match date {
                Some(d) => d@,
                None => today@,
            }) < MAX_DAY,
            message is SubmitAdd && trimmed(old(self)@.add_title).len() > 0 ==> old(self)@.next_id < u64::MAX,
        ensures
            final(self)@ == step(old(self)@, message@, today@),
            app_ok(final(self)@),
            old(self).wf() ==> final(self).wf(),
            final(self)@.next_id >= old(self)@.next_id,
    {
        proof {
            lemma_step_keeps_month_and_ids(self@, message@, today@);
        }
        match message {
            Message::TabSelected(..) | Message::OpenAdd(..) | Message::OpenEdit(..)
            | Message::CloseDialogs | Message::AddTitleChanged(..) | Message::AddDescChanged(..)
            | Message::AddStartChanged(..) | Message::AddEndChanged(..) | Message::SubmitAdd
            | Message::EditTitleChanged(..) | Message::EditDescChanged(..)
            | Message::EditStartChanged(..) | Message::EditEndChanged(..) | Message::SubmitEdit => {
                self.update_forms(message, today);
            },
            _ => {
                self.update_board(message, today);
            },
        }
    }
}

/// The calendar keeps showing a month from its first day whatever message
/// comes, and the id counter never goes down.
pub proof fn lemma_step_keeps_month_and_ids(s: AppView, m: MessageView, today: int)
    ensures
        is_month_start(s.calendar_view_month) ==> is_month_start(step(s, m, today).calendar_view_month),
        m is SubmitAdd && trimmed(s.add_title).len() > 0 ==> s.next_id < u64::MAX ==> step(s, m, today).next_id
            == s.next_id + 1,
        !(m is SubmitAdd && trimmed(s.add_title).len() > 0) ==> step(s, m, today).next_id == s.next_id,
{
    reveal(step);
    match m {
        MessageView::CalendarPrevMonth => lemma_add_months_is_month_start(s.calendar_view_month, -1),
        MessageView::CalendarNextMonth => lemma_add_months_is_month_start(s.calendar_view_month, 1),
        MessageView::CalendarToday => lemma_month_start_is_first(today),
        _ => {},
    }
}

/// Undo followed by redo gives back the state before the undo.
pub proof fn lemma_undo_then_redo(s: AppView, today: int)
    requires
        app_ok(s),
        s.undo_stack.len() > 0,
    ensures
        step(step(s, MessageView::Undo, today), MessageView::Redo, today) == s,
{
    reveal(step);
    let c = s.undo_stack.last();
    let t = step(s, MessageView::Undo, today);
    assert(t.redo_stack.last() == c);
    assert(t.redo_stack.drop_last() =~= s.redo_stack);
    assert(t.undo_stack.push(c) =~= s.undo_stack);
    assert(step(t, MessageView::Redo, today) =~= s);
}

/// Redo followed by undo gives back the state before the redo.
pub proof fn lemma_redo_then_undo(s: AppView, today: int)
    requires
        app_ok(s),
        s.redo_stack.len() > 0,
    ensures
        step(step(s, MessageView::Redo, today), MessageView::Undo, today) == s,
{
    reveal(step);
    let c = s.redo_stack.last();
    let t = step(s, MessageView::Redo, today);
    assert(t.undo_stack.last() == c);
    assert(t.undo_stack.drop_last() =~= s.undo_stack);
    assert(t.redo_stack.push(c) =~= s.redo_stack);
    assert(step(t, MessageView::Undo, today) =~= s);
}

/// Carrying out `c` through the history and then undoing it gives back the
/// board and the undo history, with `c` as the only command left to redo.
proof fn lemma_undo_after_dispatch(s: AppView, c: CommandView, today: int)
    requires
        app_ok(s),
        fits(s.board, c),
    ensures
        step(dispatch_spec(s, c), MessageView::Undo, today).board == s.board,
        step(dispatch_spec(s, c), MessageView::Undo, today).undo_stack == s.undo_stack,
        step(dispatch_spec(s, c), MessageView::Undo, today).redo_stack == seq![c],
{
    reveal(step);
    lemma_undo_inverts_execute(s.board, c);
    let t = dispatch_spec(s, c);
    assert(t.undo_stack.drop_last() =~= s.undo_stack);
    assert(Seq::<CommandView>::empty().push(c) =~= seq![c]);
}

proof fn lemma_reverts_submit_add(s: AppView, today: int)
    requires
        app_ok(s),
    ensures
        step(s, MessageView::SubmitAdd, today).undo_stack.len() > s.undo_stack.len() ==> {
            &&& step(step(s, MessageView::SubmitAdd, today), MessageView::Undo, today).board == s.board
            &&& step(step(s, MessageView::SubmitAdd, today), MessageView::Undo, today).undo_stack
                == s.undo_stack
        },
{
    reveal(step);
    if trimmed(s.add_title).len() > 0 {
        let card = CardView {
            id: s.next_id,
            title: trimmed(s.add_title),
            description: trimmed(s.add_desc),
            start_date: parsed_iso_date(s.add_start_str),
            end_date: parsed_iso_date(s.add_end_str),
        };
        let c = CommandView::Add { col: s.add_col, card };
        if has_id(s.board, s.next_id) {
            let (k, i) = choose|k: Col, i: int|
                0 <= i < s.board.col(k).len() && #[trigger] s.board.col(k)[i].id == s.next_id;
            assert(ids_below(s.board, s.next_id));
            assert(s.board.col(k)[i].id < s.next_id);
        }
        let s1 = AppView { next_id: (s.next_id + 1) as u64, ..s };
        lemma_undo_after_dispatch(s, c, today);
        assert(step(dispatch_spec(s1, c), MessageView::Undo, today).board == step(
            dispatch_spec(s, c),
            MessageView::Undo,
            today,
        ).board);
    }
}

proof fn lemma_reverts_submit_edit(s: AppView, today: int)
    requires
        app_ok(s),
    ensures
        step(s, MessageView::SubmitEdit, today).undo_stack.len() > s.undo_stack.len() ==> {
            &&& step(step(s, MessageView::SubmitEdit, today), MessageView::Undo, today).board == s.board
            &&& step(step(s, MessageView::SubmitEdit, today), MessageView::Undo, today).undo_stack
                == s.undo_stack
        },
{
    reveal(step);
    if trimmed(s.edit_title).len() > 0 {
        match position_of(s.board.col(s.edit_col), s.edit_id) {
            Some(i) => {
                let card = s.board.col(s.edit_col)[i];
                let c = CommandView::Edit {
                    id: s.edit_id,
                    col: s.edit_col,
                    old_title: card.title,
                    new_title: trimmed(s.edit_title),
                    old_desc: card.description,
                    new_desc: trimmed(s.edit_desc),
                    old_start: card.start_date,
                    new_start: parsed_iso_date(s.edit_start_str),
                    old_end: card.end_date,
                    new_end: parsed_iso_date(s.edit_end_str),
                };
                lemma_undo_after_dispatch(s, c, today);
            },
            None => {},
        }
    }
}

proof fn lemma_reverts_move(s: AppView, id: u64, from: Col, to: Col, today: int)
    requires
        app_ok(s),
        s.board.col(from).len() <= usize::MAX,
    ensures
        move_card_spec(s, id, from, to).undo_stack.len() > s.undo_stack.len() ==> {
            &&& step(move_card_spec(s, id, from, to), MessageView::Undo, today).board == s.board
            &&& step(move_card_spec(s, id, from, to), MessageView::Undo, today).undo_stack == s.undo_stack
        },
{
    match position_of(s.board.col(from), id) {
        Some(i) => {
            assert(first_at(s.board.col(from), id, i));
            let c = CommandView::Move {
                id,
                from_col: from,
                to_col: to,
                from_idx: i as usize,
                to_idx: s.board.col(to).len() as usize,
            };
            lemma_undo_after_dispatch(s, c, today);
        },
        None => {},
    }
}

proof fn lemma_reverts_move_message(s: AppView, id: u64, from: Col, to: Col, today: int)
    requires
        app_ok(s),
        s.board.col(from).len() <= usize::MAX,
    ensures
        step(s, MessageView::MoveCard(id, from, to), today).undo_stack.len() > s.undo_stack.len() ==> {
            &&& step(step(s, MessageView::MoveCard(id, from, to), today), MessageView::Undo, today).board
                == s.board
            &&& step(step(s, MessageView::MoveCard(id, from, to), today), MessageView::Undo, today).undo_stack
                == s.undo_stack
        },
{
    reveal(step);
    lemma_reverts_move(s, id, from, to, today);
}

proof fn lemma_reverts_delete(s: AppView, id: u64, col: Col, today: int)
    requires
        app_ok(s),
        s.board.col(col).len() <= usize::MAX,
    ensures
        step(s, MessageView::DeleteCard(id, col), today).undo_stack.len() > s.undo_stack.len() ==> {
            &&& step(step(s, MessageView::DeleteCard(id, col), today), MessageView::Undo, today).board
                == s.board
            &&& step(step(s, MessageView::DeleteCard(id, col), today), MessageView::Undo, today).undo_stack
                == s.undo_stack
        },
{
    reveal(step);
    match position_of(s.board.col(col), id) {
        Some(i) => {
            assert(first_at(s.board.col(col), id, i));
            let c = CommandView::Delete { col, card: s.board.col(col)[i], original_index: i as usize };
            lemma_undo_after_dispatch(s, c, today);
        },
        None => {},
    }
}

/// What a drop does to the board and the histories.
proof fn lemma_drop_effect(s: AppView, to: Col, today: int)
    ensures
        ({
            let t = step(s, MessageView::DragDropOnCol(to), today);
            let s1 = AppView { dragging: None, ..s };
            match s.dragging {
                Some((id, from, _)) => if from != to {
                    let t1 = move_card_spec(s1, id, from, to);
                    t.board == t1.board && t.undo_stack == t1.undo_stack && t.redo_stack
                        == t1.redo_stack
                } else {
                    t.undo_stack == s.undo_stack
                },
                None => t.undo_stack == s.undo_stack,
            }
        }),
{
    reveal(step);
}

/// Undo acts on the board and the histories alone.
proof fn lemma_undo_same(t1: AppView, t2: AppView, today: int)
    requires
        t1.board == t2.board,
        t1.undo_stack == t2.undo_stack,
        t1.redo_stack == t2.redo_stack,
    ensures
        step(t1, MessageView::Undo, today).board == step(t2, MessageView::Undo, today).board,
        step(t1, MessageView::Undo, today).undo_stack == step(t2, MessageView::Undo, today).undo_stack,
{
    reveal(step);
}

proof fn lemma_reverts_drop(s: AppView, to: Col, today: int)
    requires
        app_ok(s),
        forall|c: Col| #[trigger] s.board.col(c).len() <= usize::MAX,
    ensures
        step(s, MessageView::DragDropOnCol(to), today).undo_stack.len() > s.undo_stack.len() ==> {
            &&& step(step(s, MessageView::DragDropOnCol(to), today), MessageView::Undo, today).board
                == s.board
            &&& step(step(s, MessageView::DragDropOnCol(to), today), MessageView::Undo, today).undo_stack
                == s.undo_stack
        },
{
    lemma_drop_effect(s, to, today);
    let t = step(s, MessageView::DragDropOnCol(to), today);
    let s1 = AppView { dragging: None, ..s };
    match s.dragging {
        Some((id, from, _)) => {
            if from != to {
                assert(s1.board.col(from).len() <= usize::MAX);
                lemma_reverts_move(s1, id, from, to, today);
                lemma_undo_same(t, move_card_spec(s1, id, from, to), today);
            }
        },
        None => {},
    }
}

proof fn lemma_reverts_redo(s: AppView, today: int)
    requires
        app_ok(s),
    ensures
        step(s, MessageView::Redo, today).undo_stack.len() > s.undo_stack.len() ==> step(
            step(s, MessageView::Redo, today),
            MessageView::Undo,
            today,
        ) == s,
{
    if s.redo_stack.len() > 0 {
        lemma_redo_then_undo(s, today);
    } else {
        reveal(step);
    }
}

/// Messages other than the six that carry out commands leave the undo
/// history as long as it was, or shorter.
proof fn lemma_no_command(s: AppView, m: MessageView, today: int)
    requires
        !(m is SubmitAdd || m is SubmitEdit || m is MoveCard || m is DeleteCard || m is Redo
            || m is DragDropOnCol),
    ensures
        step(s, m, today).undo_stack.len() <= s.undo_stack.len(),
{
    reveal(step);
}

/// Undo takes back any action: when a message adds a command to the undo
/// history, undoing right after gives back the board and the undo history as
/// they were before the message.
pub proof fn lemma_undo_reverts_action(s: AppView, m: MessageView, today: int)
    requires
        app_ok(s),
        forall|c: Col| #[trigger] s.board.col(c).len() <= usize::MAX,
        step(s, m, today).undo_stack.len() > s.undo_stack.len(),
    ensures
        step(step(s, m, today), MessageView::Undo, today).board == s.board,
        step(step(s, m, today), MessageView::Undo, today).undo_stack == s.undo_stack,
{
    match m {
        MessageView::SubmitAdd => lemma_reverts_submit_add(s, today),
        MessageView::SubmitEdit => lemma_reverts_submit_edit(s, today),
        MessageView::MoveCard(id, from, to) => {
            assert(s.board.col(from).len() <= usize::MAX);
            lemma_reverts_move_message(s, id, from, to, today);
        },
        MessageView::DeleteCard(id, col) => {
            assert(s.board.col(col).len() <= usize::MAX);
            lemma_reverts_delete(s, id, col, today);
        },
        MessageView::Redo => lemma_reverts_redo(s, today),
        MessageView::DragDropOnCol(to) => lemma_reverts_drop(s, to, today),
        _ => lemma_no_command(s, m, today),
    }
}

} // verus!

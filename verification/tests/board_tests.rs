use chrono::{Datelike, NaiveDate};
use kanban::app::{KanbanApp, Message};
use kanban::board::{Board, Command};
use kanban::card::KanbanCard;
use kanban::column::{col_name, col_rgb, next_col, prev_col, Col};
use kanban::date::Date;

fn day(y: i32, m: u32, d: u32) -> Date {
    Date::from_days(NaiveDate::from_ymd_opt(y, m, d).unwrap().num_days_from_ce()).unwrap()
}

fn today() -> Date {
    day(2024, 3, 15)
}

fn ids(app: &KanbanApp, col: Col) -> Vec<u64> {
    app.board().column(col).iter().map(|c| c.id).collect()
}

fn titles(app: &KanbanApp, col: Col) -> Vec<String> {
    app.board().column(col).iter().map(|c| c.title.clone()).collect()
}

fn snapshot(app: &KanbanApp) -> Vec<(u64, String, String, Option<i32>, Option<i32>)> {
    let mut out = Vec::new();
    for col in [Col::Todo, Col::InProgress, Col::Done] {
        for c in app.board().column(col) {
            out.push((
                c.id,
                c.title.clone(),
                c.description.clone(),
                c.start_date.map(|d| d.days()),
                c.end_date.map(|d| d.days()),
            ));
        }
        out.push((u64::MAX, String::new(), String::new(), None, None));
    }
    out
}

fn card(id: u64, title: &str) -> KanbanCard {
    KanbanCard { id, title: title.to_string(), description: String::new(), start_date: None, end_date: None }
}

#[test]
fn column_names_and_neighbours() {
    assert_eq!(col_name(Col::Todo), "Todo");
    assert_eq!(col_name(Col::InProgress), "In Progress");
    assert_eq!(col_name(Col::Done), "Done");
    assert_eq!(prev_col(Col::Todo), None);
    assert_eq!(prev_col(Col::InProgress), Some(Col::Todo));
    assert_eq!(prev_col(Col::Done), Some(Col::InProgress));
    assert_eq!(next_col(Col::Todo), Some(Col::InProgress));
    assert_eq!(next_col(Col::InProgress), Some(Col::Done));
    assert_eq!(next_col(Col::Done), None);
}

#[test]
fn neighbours_are_inverse() {
    for c in [Col::Todo, Col::InProgress, Col::Done] {
        if let Some(n) = next_col(c) {
            assert_eq!(prev_col(n), Some(c));
        }
        if let Some(p) = prev_col(c) {
            assert_eq!(next_col(p), Some(c));
        }
    }
}

#[test]
fn column_colours() {
    assert_eq!(col_rgb(Col::Todo), (34, 197, 94));
    assert_eq!(col_rgb(Col::InProgress), (234, 179, 8));
    assert_eq!(col_rgb(Col::Done), (139, 92, 246));
}

#[test]
fn initial_board() {
    let t = today();
    let app = KanbanApp::new(t);
    assert_eq!(ids(&app, Col::Todo), vec![1, 2]);
    assert_eq!(ids(&app, Col::InProgress), vec![3]);
    assert_eq!(ids(&app, Col::Done), vec![4]);
    assert_eq!(titles(&app, Col::Todo), vec!["Design system setup", "Write unit tests"]);
    let first = &app.board().column(Col::Todo)[0];
    assert_eq!(first.description, "Configure color tokens and typography");
    assert_eq!(first.start_date, Some(t));
    assert_eq!(first.end_date, Some(t.plus_days(3)));
    let auth = &app.board().column(Col::InProgress)[0];
    assert_eq!(auth.start_date, Some(t.plus_days(-2)));
    assert_eq!(auth.end_date, Some(t.plus_days(5)));
    assert_eq!(app.active_tab(), "board");
    assert_eq!(app.calendar_view_month(), day(2024, 3, 1));
    assert!(!app.undo_available());
    assert!(!app.redo_available());
    assert!(!app.add_open());
    assert!(!app.edit_open());
    assert!(app.dragging().is_none());
}

#[test]
fn move_card_then_undo_and_redo() {
    let mut app = KanbanApp::new(today());
    app.update(Message::MoveCard(1, Col::Todo, Col::InProgress), today());
    assert_eq!(ids(&app, Col::Todo), vec![2]);
    assert_eq!(ids(&app, Col::InProgress), vec![3, 1]);
    assert!(app.undo_available());
    app.update(Message::Undo, today());
    assert_eq!(ids(&app, Col::Todo), vec![1, 2]);
    assert_eq!(ids(&app, Col::InProgress), vec![3]);
    assert!(app.redo_available());
    app.update(Message::Redo, today());
    assert_eq!(ids(&app, Col::Todo), vec![2]);
    assert_eq!(ids(&app, Col::InProgress), vec![3, 1]);
    assert!(!app.redo_available());
}

#[test]
fn move_of_missing_card_does_nothing() {
    let mut app = KanbanApp::new(today());
    app.update(Message::MoveCard(3, Col::Todo, Col::Done), today());
    assert_eq!(ids(&app, Col::Todo), vec![1, 2]);
    assert_eq!(ids(&app, Col::Done), vec![4]);
    assert!(!app.undo_available());
}

#[test]
fn delete_then_undo_restores_position() {
    let mut app = KanbanApp::new(today());
    let before = snapshot(&app);
    app.update(Message::DeleteCard(1, Col::Todo), today());
    assert_eq!(ids(&app, Col::Todo), vec![2]);
    app.update(Message::Undo, today());
    assert_eq!(ids(&app, Col::Todo), vec![1, 2]);
    assert_eq!(snapshot(&app), before);
}

#[test]
fn submit_add_trims_and_parses() {
    let mut app = KanbanApp::new(today());
    app.update(Message::OpenAdd(Col::Done, None), today());
    assert!(app.add_open());
    assert_eq!(app.add_start_str(), "2024-03-15");
    assert_eq!(app.add_end_str(), "2024-03-16");
    app.update(Message::AddTitleChanged("  Ship it \t".to_string()), today());
    app.update(Message::AddDescChanged(" notes ".to_string()), today());
    app.update(Message::AddStartChanged("2024-04-01".to_string()), today());
    app.update(Message::AddEndChanged("not a date".to_string()), today());
    app.update(Message::SubmitAdd, today());
    assert!(!app.add_open());
    assert_eq!(ids(&app, Col::Done), vec![4, 5]);
    let added = &app.board().column(Col::Done)[1];
    assert_eq!(added.title, "Ship it");
    assert_eq!(added.description, "notes");
    assert_eq!(added.start_date, Some(day(2024, 4, 1)));
    assert_eq!(added.end_date, None);
    app.update(Message::Undo, today());
    assert_eq!(ids(&app, Col::Done), vec![4]);
    app.update(Message::Redo, today());
    assert_eq!(ids(&app, Col::Done), vec![4, 5]);
}

#[test]
fn submit_add_with_blank_title_keeps_form_open() {
    let mut app = KanbanApp::new(today());
    app.update(Message::OpenAdd(Col::Todo, Some(day(2024, 12, 31))), today());
    assert_eq!(app.add_start_str(), "2024-12-31");
    assert_eq!(app.add_end_str(), "2025-01-01");
    app.update(Message::AddTitleChanged(" \n ".to_string()), today());
    app.update(Message::SubmitAdd, today());
    assert!(app.add_open());
    assert_eq!(ids(&app, Col::Todo), vec![1, 2]);
    assert!(!app.undo_available());
}

#[test]
fn new_ids_are_fresh_after_undo() {
    let mut app = KanbanApp::new(today());
    app.update(Message::OpenAdd(Col::Todo, None), today());
    app.update(Message::AddTitleChanged("A".to_string()), today());
    app.update(Message::SubmitAdd, today());
    app.update(Message::Undo, today());
    app.update(Message::OpenAdd(Col::Todo, None), today());
    app.update(Message::AddTitleChanged("B".to_string()), today());
    app.update(Message::SubmitAdd, today());
    assert_eq!(ids(&app, Col::Todo), vec![1, 2, 6]);
    assert!(!app.redo_available());
}

#[test]
fn edit_then_undo_restores_card() {
    let mut app = KanbanApp::new(today());
    let before = snapshot(&app);
    app.update(
        Message::OpenEdit(3, Col::InProgress, "Implement auth flow".to_string(), "x".to_string(), None, Some(day(2024, 3, 20))),
        today(),
    );
    assert!(app.edit_open());
    assert_eq!(app.edit_start_str(), "");
    assert_eq!(app.edit_end_str(), "2024-03-20");
    app.update(Message::EditTitleChanged(" Auth v2 ".to_string()), today());
    app.update(Message::EditDescChanged("".to_string()), today());
    app.update(Message::EditStartChanged("2024-03-01".to_string()), today());
    app.update(Message::SubmitEdit, today());
    assert!(!app.edit_open());
    let c = &app.board().column(Col::InProgress)[0];
    assert_eq!(c.title, "Auth v2");
    assert_eq!(c.description, "");
    assert_eq!(c.start_date, Some(day(2024, 3, 1)));
    assert_eq!(c.end_date, Some(day(2024, 3, 20)));
    app.update(Message::Undo, today());
    assert_eq!(snapshot(&app), before);
}

#[test]
fn edit_of_missing_card_closes_form_without_command() {
    let mut app = KanbanApp::new(today());
    app.update(Message::OpenEdit(99, Col::Todo, "Ghost".to_string(), String::new(), None, None), today());
    app.update(Message::SubmitEdit, today());
    assert!(!app.edit_open());
    assert!(!app.undo_available());
}

#[test]
fn drag_and_drop_moves_between_columns() {
    let mut app = KanbanApp::new(today());
    app.update(Message::DragEnterCol(Col::Done), today());
    assert_eq!(app.drag_hover_col(), None);
    app.update(Message::DragStart(2, Col::Todo, "Write unit tests".to_string()), today());
    app.update(Message::DragEnterCol(Col::Done), today());
    assert!(app.is_drop_target(Col::Done));
    assert!(!app.is_drop_target(Col::Todo));
    app.update(Message::DragDropOnCol(Col::Done), today());
    assert!(app.dragging().is_none());
    assert_eq!(app.drag_hover_col(), None);
    assert_eq!(ids(&app, Col::Todo), vec![1]);
    assert_eq!(ids(&app, Col::Done), vec![4, 2]);
}

#[test]
fn drop_on_own_column_does_nothing() {
    let mut app = KanbanApp::new(today());
    app.update(Message::DragStart(1, Col::Todo, "Design system setup".to_string()), today());
    app.update(Message::DragDropOnCol(Col::Todo), today());
    assert!(app.dragging().is_none());
    assert_eq!(ids(&app, Col::Todo), vec![1, 2]);
    assert!(!app.undo_available());
}

#[test]
fn drag_cancel_and_leave() {
    let mut app = KanbanApp::new(today());
    app.update(Message::DragStart(1, Col::Todo, "t".to_string()), today());
    app.update(Message::DragEnterCol(Col::InProgress), today());
    app.update(Message::DragLeaveCol, today());
    assert_eq!(app.drag_hover_col(), None);
    app.update(Message::DragEnterCol(Col::InProgress), today());
    app.update(Message::DragCancelled, today());
    assert!(app.dragging().is_none());
    assert_eq!(app.drag_hover_col(), None);
}

#[test]
fn open_edit_cancels_drag() {
    let mut app = KanbanApp::new(today());
    app.update(Message::DragStart(1, Col::Todo, "t".to_string()), today());
    app.update(Message::DragEnterCol(Col::Done), today());
    app.update(Message::OpenEdit(1, Col::Todo, "t".to_string(), String::new(), None, None), today());
    assert!(app.dragging().is_none());
    assert_eq!(app.drag_hover_col(), None);
    app.update(Message::CloseDialogs, today());
    assert!(!app.edit_open());
    assert!(!app.add_open());
}

#[test]
fn tab_and_calendar_navigation() {
    let mut app = KanbanApp::new(today());
    app.update(Message::TabSelected("calendar".to_string()), today());
    assert_eq!(app.active_tab(), "calendar");
    app.update(Message::CalendarNextMonth, today());
    assert_eq!(app.calendar_view_month(), day(2024, 4, 1));
    app.update(Message::CalendarPrevMonth, today());
    app.update(Message::CalendarPrevMonth, today());
    assert_eq!(app.calendar_view_month(), day(2024, 2, 1));
    app.update(Message::CalendarToday, day(2025, 7, 19));
    assert_eq!(app.calendar_view_month(), day(2025, 7, 1));
}

#[test]
fn new_action_clears_redo() {
    let mut app = KanbanApp::new(today());
    app.update(Message::DeleteCard(4, Col::Done), today());
    app.update(Message::Undo, today());
    assert!(app.redo_available());
    app.update(Message::MoveCard(1, Col::Todo, Col::Done), today());
    assert!(!app.redo_available());
    app.update(Message::Redo, today());
    assert_eq!(ids(&app, Col::Done), vec![4, 1]);
}

#[test]
fn undo_everything_returns_to_start() {
    let mut app = KanbanApp::new(today());
    let start = snapshot(&app);
    app.update(Message::MoveCard(1, Col::Todo, Col::InProgress), today());
    app.update(Message::MoveCard(3, Col::InProgress, Col::Done), today());
    app.update(Message::DeleteCard(2, Col::Todo), today());
    app.update(Message::OpenAdd(Col::InProgress, None), today());
    app.update(Message::AddTitleChanged("New".to_string()), today());
    app.update(Message::SubmitAdd, today());
    let end = snapshot(&app);
    while app.undo_available() {
        app.update(Message::Undo, today());
    }
    assert_eq!(snapshot(&app), start);
    while app.redo_available() {
        app.update(Message::Redo, today());
    }
    assert_eq!(snapshot(&app), end);
}

#[test]
fn undo_and_redo_with_empty_history_do_nothing() {
    let mut app = KanbanApp::new(today());
    let start = snapshot(&app);
    app.update(Message::Undo, today());
    app.update(Message::Redo, today());
    assert_eq!(snapshot(&app), start);
}

#[test]
fn execute_move_within_column_adjusts_target() {
    let mut b = Board { todo: vec![card(1, "a"), card(2, "b"), card(3, "c")], in_progress: vec![], done: vec![] };
    let cmd = Command::Move { id: 1, from_col: Col::Todo, to_col: Col::Todo, from_idx: 0, to_idx: 2 };
    b.execute_command(&cmd);
    let order: Vec<u64> = b.todo.iter().map(|c| c.id).collect();
    assert_eq!(order, vec![2, 1, 3]);
    b.undo_command(&cmd);
    let order: Vec<u64> = b.todo.iter().map(|c| c.id).collect();
    assert_eq!(order, vec![1, 2, 3]);
}

#[test]
fn execute_move_clamps_target_index() {
    let mut b = Board { todo: vec![card(1, "a")], in_progress: vec![card(2, "b")], done: vec![] };
    let cmd = Command::Move { id: 1, from_col: Col::Todo, to_col: Col::InProgress, from_idx: 0, to_idx: 10 };
    b.execute_command(&cmd);
    let order: Vec<u64> = b.in_progress.iter().map(|c| c.id).collect();
    assert_eq!(order, vec![2, 1]);
    assert!(b.todo.is_empty());
}

#[test]
fn undo_add_removes_every_card_with_that_id() {
    let mut b = Board { todo: vec![card(7, "a"), card(8, "b"), card(7, "c")], in_progress: vec![], done: vec![] };
    b.undo_command(&Command::Add { col: Col::Todo, card: card(7, "x") });
    let order: Vec<u64> = b.todo.iter().map(|c| c.id).collect();
    assert_eq!(order, vec![8]);
}

#[test]
fn edit_changes_first_card_with_id_only() {
    let mut b = Board { todo: vec![], in_progress: vec![card(5, "a"), card(5, "b")], done: vec![] };
    let cmd = Command::Edit {
        id: 5,
        col: Col::InProgress,
        old_title: "a".to_string(),
        new_title: "z".to_string(),
        old_desc: String::new(),
        new_desc: "d".to_string(),
        old_start: None,
        new_start: Some(day(2024, 1, 1)),
        old_end: None,
        new_end: None,
    };
    b.execute_command(&cmd);
    assert_eq!(b.in_progress[0].title, "z");
    assert_eq!(b.in_progress[0].description, "d");
    assert_eq!(b.in_progress[0].start_date, Some(day(2024, 1, 1)));
    assert_eq!(b.in_progress[1].title, "b");
    b.undo_command(&cmd);
    assert_eq!(b.in_progress[0].title, "a");
    assert_eq!(b.in_progress[0].start_date, None);
}

#[test]
fn command_clone_is_equal_in_effect() {
    let cmd = Command::Delete { col: Col::Done, card: card(4, "x"), original_index: 0 };
    let copy = cmd.clone();
    match copy {
        Command::Delete { col, card, original_index } => {
            assert_eq!(col, Col::Done);
            assert_eq!(card.id, 4);
            assert_eq!(card.title, "x");
            assert_eq!(original_index, 0);
        }
        _ => panic!("wrong variant"),
    }
}

use chrono::{Datelike, NaiveDate, Weekday};
use kanban::app::{KanbanApp, Message};
use kanban::calendar::{add_months, month_start, parse_iso};
use kanban::card::KanbanCard;
use kanban::column::Col;
use kanban::date::{Date, MAX_DAY, MIN_DAY};
use kanban::layout::timeline_span;
use kanban::week::{calendar_grid_start, calendar_weeks, week_events};

fn day(y: i32, m: u32, d: u32) -> Date {
    Date::from_days(NaiveDate::from_ymd_opt(y, m, d).unwrap().num_days_from_ce()).unwrap()
}

fn card(id: u64, start: Option<Date>, end: Option<Date>) -> KanbanCard {
    KanbanCard { id, title: format!("card {}", id), description: String::new(), start_date: start, end_date: end }
}

#[test]
fn date_range_matches_chrono() {
    assert_eq!(MIN_DAY, NaiveDate::MIN.num_days_from_ce());
    assert_eq!(MAX_DAY, NaiveDate::MAX.num_days_from_ce());
    assert!(Date::from_days(MIN_DAY).is_some());
    assert!(Date::from_days(MAX_DAY).is_some());
    assert!(Date::from_days(MIN_DAY - 1).is_none());
    assert!(Date::from_days(MAX_DAY + 1).is_none());
    assert_eq!(Date::from_days(719_163).unwrap().days(), 719_163);
    assert_eq!(day(2024, 3, 15).plus_days(17), day(2024, 4, 1));
}

#[test]
fn grid_starts_on_the_sunday_before() {
    // 2024-03-15 is a Friday, 2024-03-17 a Sunday, 0001-01-01 a Monday.
    assert_eq!(calendar_grid_start(day(2024, 3, 15)), day(2024, 3, 10));
    assert_eq!(calendar_grid_start(day(2024, 3, 17)), day(2024, 3, 17));
    assert_eq!(calendar_grid_start(day(1, 1, 1)), day(0, 12, 31));
    let d = NaiveDate::from_ymd_opt(1999, 9, 3).unwrap();
    assert_eq!(d.weekday(), Weekday::Fri);
    assert_eq!(calendar_grid_start(day(1999, 9, 3)).days(), d.num_days_from_ce() - 5);
}

#[test]
fn month_start_and_add_months() {
    assert_eq!(month_start(day(2024, 3, 15)), day(2024, 3, 1));
    assert_eq!(month_start(day(2024, 3, 1)), day(2024, 3, 1));
    assert_eq!(add_months(day(2024, 1, 31), 1), day(2024, 2, 1));
    assert_eq!(add_months(day(2024, 3, 15), -1), day(2024, 2, 1));
    assert_eq!(add_months(day(2024, 3, 15), -14), day(2023, 1, 1));
    assert_eq!(add_months(day(2024, 3, 15), 0), day(2024, 3, 15));
    let last = Date::from_days(MAX_DAY).unwrap();
    assert_eq!(add_months(last, 1), month_start(last));
    let first = Date::from_days(MIN_DAY).unwrap();
    assert_eq!(add_months(first, -1), first);
}

#[test]
fn parse_dates() {
    assert_eq!(parse_iso("2024-03-05"), Some(day(2024, 3, 5)));
    assert_eq!(parse_iso("2024-02-29"), Some(day(2024, 2, 29)));
    assert_eq!(parse_iso("2023-02-29"), None);
    assert_eq!(parse_iso("2024-02-30"), None);
    assert_eq!(parse_iso("garbage"), None);
    assert_eq!(parse_iso(""), None);
}

#[test]
fn form_dates_are_written_and_read_back() {
    let t = day(1987, 11, 30);
    let mut app = KanbanApp::new(t);
    app.update(Message::OpenAdd(Col::Todo, None), t);
    assert_eq!(app.add_start_str(), "1987-11-30");
    assert_eq!(app.add_end_str(), "1987-12-01");
    assert_eq!(parse_iso(app.add_start_str()), Some(t));
}

#[test]
fn titles_are_trimmed_of_unicode_whitespace() {
    let t = day(2024, 3, 15);
    let mut app = KanbanApp::new(t);
    app.update(Message::OpenAdd(Col::Todo, None), t);
    app.update(Message::AddTitleChanged("\u{3000}x y\u{a0}".to_string()), t);
    app.update(Message::AddDescChanged("\t\n".to_string()), t);
    app.update(Message::SubmitAdd, t);
    let added = &app.board().column(Col::Todo)[2];
    assert_eq!(added.title, "x y");
    assert_eq!(added.description, "");
}

#[test]
fn add_and_edit_cards_directly() {
    let t = day(2024, 3, 15);
    let mut app = KanbanApp::new(t);
    app.add_card(Col::Done, "Direct".to_string(), "d".to_string(), Some(t), None);
    let added = &app.board().column(Col::Done)[1];
    assert_eq!(added.id, 5);
    assert_eq!(added.title, "Direct");
    assert_eq!(app.next_id(), 6);
    app.edit_card(Col::Done, 5, "Edited".to_string(), String::new(), None, Some(t));
    let edited = &app.board().column(Col::Done)[1];
    assert_eq!(edited.title, "Edited");
    assert_eq!(edited.start_date, None);
    assert_eq!(edited.end_date, Some(t));
    app.edit_card(Col::Todo, 5, "Nope".to_string(), String::new(), None, None);
    assert_eq!(app.board().column(Col::Todo)[0].title, "Design system setup");
    app.update(Message::Undo, t);
    assert_eq!(app.board().column(Col::Done)[1].title, "Direct");
    app.update(Message::Undo, t);
    assert_eq!(app.board().column(Col::Done).len(), 1);
}

#[test]
fn all_cards_in_column_order() {
    let app = KanbanApp::new(day(2024, 3, 15));
    let all = app.board().all_cards();
    let got: Vec<(Col, u64)> = all.iter().map(|(c, k)| (*c, k.id)).collect();
    assert_eq!(got, vec![(Col::Todo, 1), (Col::Todo, 2), (Col::InProgress, 3), (Col::Done, 4)]);
}

#[test]
fn issue_list_sorted_by_id() {
    let t = day(2024, 3, 15);
    let mut app = KanbanApp::new(t);
    app.update(Message::MoveCard(1, Col::Todo, Col::Done), t);
    app.update(Message::MoveCard(2, Col::Todo, Col::InProgress), t);
    let all: Vec<u64> = app.board().all_cards().iter().map(|(_, k)| k.id).collect();
    assert_eq!(all, vec![3, 2, 4, 1]);
    let issues: Vec<(Col, u64)> = app.board().issue_list().iter().map(|(c, k)| (*c, k.id)).collect();
    assert_eq!(issues, vec![(Col::Done, 1), (Col::InProgress, 2), (Col::InProgress, 3), (Col::Done, 4)]);
}

#[test]
fn timeline_spans() {
    let base = day(2024, 3, 10);
    assert_eq!(timeline_span(&card(1, Some(day(2024, 3, 12)), Some(day(2024, 3, 15))), base), (2, 5));
    assert_eq!(timeline_span(&card(1, Some(day(2024, 3, 1)), Some(day(2024, 3, 11))), base), (0, 1));
    assert_eq!(timeline_span(&card(1, None, None), base), (0, 1));
    assert_eq!(timeline_span(&card(1, Some(day(2024, 3, 14)), None), base), (4, 5));
    assert_eq!(timeline_span(&card(1, Some(day(2024, 3, 14)), Some(day(2024, 3, 12))), base), (4, 4));
    assert_eq!(timeline_span(&card(1, None, Some(day(2024, 3, 1))), base), (0, 0));
}

#[test]
fn calendar_grid() {
    assert_eq!(calendar_grid_start(day(2024, 3, 1)), day(2024, 2, 25));
    assert_eq!(calendar_grid_start(day(2024, 9, 1)), day(2024, 9, 1));
    let weeks = calendar_weeks(day(2024, 3, 1));
    assert_eq!(weeks.len(), 6);
    assert_eq!(weeks[0], day(2024, 2, 25));
    assert_eq!(weeks[1], day(2024, 3, 3));
    assert_eq!(weeks[5], day(2024, 3, 31));
}

#[test]
fn week_layout_orders_and_stacks() {
    let ws = day(2024, 3, 10);
    let today = day(2024, 3, 12);
    let tasks = vec![
        (Col::Todo, card(1, Some(day(2024, 3, 11)), Some(day(2024, 3, 12)))),
        (Col::Todo, card(2, Some(day(2024, 3, 1)), Some(day(2024, 3, 30)))),
        (Col::Done, card(3, Some(day(2024, 3, 13)), Some(day(2024, 3, 14)))),
        (Col::InProgress, card(4, Some(day(2024, 4, 1)), None)),
        (Col::InProgress, card(5, None, None)),
        (Col::Todo, card(6, Some(day(2024, 3, 11)), Some(day(2024, 3, 12)))),
    ];
    let ev = week_events(&tasks, ws, today);
    let got: Vec<(usize, i32, i32, usize)> = ev
        .iter()
        .map(|e| (e.task, e.start.days() - ws.days(), e.end.days() - ws.days(), e.track))
        .collect();
    assert_eq!(got, vec![(1, 0, 6, 0), (0, 1, 2, 1), (5, 1, 2, 2), (2, 3, 4, 1), (4, 2, 2, 3)]);
    assert_eq!(ev[0].col, Col::Todo);
    assert_eq!(ev[3].col, Col::Done);
    for a in 0..ev.len() {
        for b in a + 1..ev.len() {
            if ev[a].track == ev[b].track {
                assert!(ev[a].end.days() < ev[b].start.days());
            }
        }
    }
}

#[test]
fn week_layout_of_empty_week() {
    let ws = day(2024, 3, 10);
    let tasks = vec![(Col::Todo, card(1, Some(day(2024, 1, 1)), Some(day(2024, 1, 2))))];
    assert!(week_events(&tasks, ws, day(2024, 3, 12)).is_empty());
}

#[test]
fn next_then_previous_month_returns_to_month_start() {
    for d in [day(2024, 1, 31), day(2023, 12, 31), day(2024, 2, 29), day(1900, 3, 1), day(-5, 7, 19)] {
        assert_eq!(add_months(add_months(d, 1), -1), month_start(d));
        assert_eq!(add_months(add_months(d, -1), 1), month_start(d));
    }
    assert_eq!(add_months(day(2023, 12, 31), 1), day(2024, 1, 1));
    assert_eq!(add_months(day(2024, 1, 1), -1), day(2023, 12, 1));
    assert_eq!(month_start(day(-4, 2, 29)), day(-4, 2, 1));
}

#[test]
fn calendar_month_stays_on_first_day() {
    let t = day(2024, 1, 31);
    let mut app = KanbanApp::new(t);
    assert_eq!(app.calendar_view_month(), day(2024, 1, 1));
    let steps = [
        Message::CalendarNextMonth,
        Message::CalendarNextMonth,
        Message::CalendarPrevMonth,
        Message::CalendarPrevMonth,
        Message::CalendarPrevMonth,
    ];
    let expected = [day(2024, 2, 1), day(2024, 3, 1), day(2024, 2, 1), day(2024, 1, 1), day(2023, 12, 1)];
    for (m, e) in steps.into_iter().zip(expected) {
        app.update(m, t);
        assert_eq!(app.calendar_view_month(), e);
    }
    app.update(Message::CalendarToday, day(2025, 6, 17));
    assert_eq!(app.calendar_view_month(), day(2025, 6, 1));
}

#[test]
fn trimming_edge_cases() {
    let t = day(2024, 3, 15);
    let mut app = KanbanApp::new(t);
    app.update(Message::OpenAdd(Col::Done, None), t);
    app.update(Message::AddTitleChanged(" \u{2003}\u{205f} ".to_string()), t);
    app.update(Message::SubmitAdd, t);
    assert!(app.add_open());
    assert_eq!(app.board().column(Col::Done).len(), 1);
    app.update(Message::AddTitleChanged("  a \t b  ".to_string()), t);
    app.update(Message::AddDescChanged("é".to_string()), t);
    app.update(Message::SubmitAdd, t);
    let added = &app.board().column(Col::Done)[1];
    assert_eq!(added.title, "a \t b");
    assert_eq!(added.description, "é");
}

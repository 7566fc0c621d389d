//! A Kanban board: three columns of cards, commands that change the board,
//! an undo/redo history of those commands, and the layout computations that
//! the board's views (timeline, calendar, issue list) are drawn from.

pub mod column;
pub mod date;
pub mod civil;
pub mod calendar;
pub mod text;
pub mod card;
pub mod board;
pub mod history;
pub mod app;
pub mod effects;
pub mod layout;
pub mod tracks;
pub mod week;

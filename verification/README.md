# kanban

A Kanban board whose logic is verified with Verus: three columns of cards,
commands that move, add, delete and edit cards, an undo/redo history of those
commands, and the layouts the board's views are drawn from.

## Layout

- `src/column.rs` — the three columns, their labels, colours and neighbours.
- `src/date.rs` — dates as day numbers of the proleptic Gregorian calendar.
- `src/civil.rs` — the Gregorian calendar on day numbers: months, their
  lengths, and moving a date by months.
- `src/calendar.rs` — month navigation, weekdays and date text, through chrono.
- `src/text.rs` — trimming of typed text (Unicode whitespace).
- `src/card.rs`, `src/board.rs` — cards, the board, and the commands with
  their execute and undo operations.
- `src/history.rs` — why undo and redo always work: undo inverts execute, and
  the undo and redo histories stay valid.
- `src/app.rs` — the board's state machine: every message and its effect,
  with the undo/redo laws over it.
- `src/layout.rs`, `src/tracks.rs`, `src/week.rs` — the card list in board and
  id order, timeline bars, and the calendar's week layout with its tracks.
- `app/main.rs` — the iced user interface around the library.
- `tests/` — tests on concrete boards, dates and layouts.

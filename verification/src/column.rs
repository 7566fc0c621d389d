use vstd::prelude::*;

verus! {

/// The three columns of the board, left to right.
#[derive(Clone, Copy, PartialEq, Eq, Structural, Debug)]
pub enum Col {
    Todo,
    InProgress,
    Done,
}

/// Position of a column on the board, left to right.
pub open spec fn col_index(col: Col) -> int {
    match col {
        Col::Todo => 0,
        Col::InProgress => 1,
        Col::Done => 2,
    }
}

/// The label shown for a column.
pub open spec fn col_label(col: Col) -> Seq<char> {
    match col {
        Col::Todo => "Todo"@,
        Col::InProgress => "In Progress"@,
        Col::Done => "Done"@,
    }
}

/// The column to the left of `col`, if any.
pub open spec fn spec_prev_col(col: Col) -> Option<Col> {
    match col {
        Col::Todo => None,
        Col::InProgress => Some(Col::Todo),
        Col::Done => Some(Col::InProgress),
    }
}

/// The column to the right of `col`, if any.
pub open spec fn spec_next_col(col: Col) -> Option<Col> {
    match col {
        Col::Todo => Some(Col::InProgress),
        Col::InProgress => Some(Col::Done),
        Col::Done => None,
    }
}

/// The accent colour of a column, as red, green and blue bytes.
pub open spec fn col_rgb_spec(col: Col) -> (u8, u8, u8) {
    match col {
        Col::Todo => (34, 197, 94),
        Col::InProgress => (234, 179, 8),
        Col::Done => (139, 92, 246),
    }
}

/// The accent colour of a column, as red, green and blue bytes.
pub fn col_rgb(col: Col) -> (rgb: (u8, u8, u8))
    ensures
        rgb == col_rgb_spec(col),
{
    match col {
        Col::Todo => (34, 197, 94),
        Col::InProgress => (234, 179, 8),
        Col::Done => (139, 92, 246),
    }
}

/// The label shown for a column.
pub fn col_name(col: Col) -> (name: &'static str)
    ensures
        name@ == col_label(col),
{
    match col {
        Col::Todo => "Todo",
        Col::InProgress => "In Progress",
        Col::Done => "Done",
    }
}

/// The column to the left of `col`; `None` for the leftmost one.
pub fn prev_col(col: Col) -> (prev: Option<Col>)
    ensures
        prev == spec_prev_col(col),
{
    match col {
        Col::Todo => None,
        Col::InProgress => Some(Col::Todo),
        Col::Done => Some(Col::InProgress),
    }
}

/// The column to the right of `col`; `None` for the rightmost one.
pub fn next_col(col: Col) -> (next: Option<Col>)
    ensures
        next == spec_next_col(col),
{
    match col {
        Col::Todo => Some(Col::InProgress),
        Col::InProgress => Some(Col::Done),
        Col::Done => None,
    }
}

/// Moving right then left (or left then right) comes back to the same
/// column: `next_col(a)` is `b` exactly when `prev_col(b)` is `a`.
pub proof fn lemma_prev_next_inverse(a: Col, b: Col)
    ensures
        spec_next_col(a) == Some(b) <==> spec_prev_col(b) == Some(a),
{
}

/// A neighbouring column is one position away: the left neighbour has an
/// index one lower, the right neighbour one higher.
pub proof fn lemma_neighbours_adjacent(a: Col)
    ensures
        spec_prev_col(a) matches Some(p) ==> col_index(p) == col_index(a) - 1,
        spec_next_col(a) matches Some(n) ==> col_index(n) == col_index(a) + 1,
        spec_prev_col(a) is None <==> col_index(a) == 0,
        spec_next_col(a) is None <==> col_index(a) == 2,
{
}

} // verus!

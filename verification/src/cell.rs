//! What one cell of a sheet holds, as far as a lot depends on it.

use vstd::prelude::*;

verus! {

/// The content of a cell.
#[derive(Debug, PartialEq)]
pub enum Cell {
    /// Nothing was entered.
    Empty,
    /// A text, or a number written out as text.
    Text(String),
    /// A value that cannot be taken as text: a truth value, a date, a
    /// duration, an error.
    NoText,
}

/// A cell with its text as a sequence of characters.
pub enum CellView {
    Empty,
    Text(Seq<char>),
    NoText,
}

impl DeepView for Cell {
    type V = CellView;

    open spec fn deep_view(&self) -> CellView {
        match self {
            Cell::Empty => CellView::Empty,
            Cell::Text(text) => CellView::Text(text@),
            Cell::NoText => CellView::NoText,
        }
    }
}

/// A cell that is in use, with the row and the column it stands in. Both
/// are counted from the first row and the first column of its range.
#[derive(Debug, PartialEq)]
pub struct UsedCell {
    pub row: usize,
    pub col: usize,
    pub cell: Cell,
}

/// A used cell over unbounded integers.
pub struct UsedCellView {
    pub row: int,
    pub col: int,
    pub cell: CellView,
}

impl DeepView for UsedCell {
    type V = UsedCellView;

    open spec fn deep_view(&self) -> UsedCellView {
        UsedCellView { row: self.row as int, col: self.col as int, cell: self.cell.deep_view() }
    }
}

} // verus!

//! The cells of a worksheet, as `calamine` hands them out.
//!
//! A `calamine::Range<Data>` is a rectangle of cells cut out of a sheet. It
//! is taken here as a grid: the cells that it stores, in rows, and the
//! number of rows that it answers for. Nothing in this file is proved: it
//! says what the two methods of `Range` that the loader calls return, in
//! terms of that grid.

use crate::cell::{Cell, CellView, UsedCell, UsedCellView};
use calamine::{Data, DataType, Range};
use vstd::prelude::*;

verus! {

/// `calamine::Range`: a rectangle of cells. Nothing of its inside is known
/// here.
#[verifier::external_type_specification]
#[verifier::external_body]
#[verifier::reject_recursive_types(T)]
pub struct ExRange<T>(Range<T>);

/// `calamine::Data`: the value of a cell. Nothing of its inside is known
/// here.
#[verifier::external_type_specification]
#[verifier::external_body]
pub struct ExData(Data);

/// The cells that a range stores, in rows of the range's width, from the
/// top, each row from the left. A range without cells has no rows.
pub uninterp spec fn range_rows(range: Range<Data>) -> Seq<Seq<CellView>>;

/// The height of a range: the number of rows between its first and its
/// last position. A range may store more rows than that, or fewer.
pub uninterp spec fn range_height(range: Range<Data>) -> int;

/// A rectangle of cells cut out of a sheet. Rows and columns are counted
/// from its first cell, not from that of the sheet.
pub struct Grid {
    /// The number of rows in which a cell can be looked up.
    pub height: int,
    /// The cells, row by row from the top, each row from the left.
    pub rows: Seq<Seq<CellView>>,
}

/// A range as a grid.
pub open spec fn grid_of(range: Range<Data>) -> Grid {
    Grid { height: range_height(range), rows: range_rows(range) }
}

impl Grid {
    /// The cell in a row and a column of the grid, if the grid reaches
    /// there.
    pub open spec fn at(self, row: int, col: int) -> Option<CellView> {
        if 0 <= row < self.height && row < self.rows.len() && 0 <= col < self.rows[row].len() {
            Some(self.rows[row][col])
        } else {
            None
        }
    }

    /// The cells that are not empty, row by row from the top, each row
    /// from the left, with the row and the column of each. Every row that
    /// is stored counts, also one below the height.
    pub open spec fn used(self) -> Seq<UsedCellView> {
        used_in_rows(self.rows, self.rows.len() as int)
    }
}

/// The cells among the first `upto` of row number `i` that are not empty,
/// from the left.
pub open spec fn used_in_row(row: Seq<CellView>, i: int, upto: int) -> Seq<UsedCellView>
    decreases upto,
{
    if upto <= 0 || upto > row.len() {
        Seq::empty()
    } else if row[upto - 1] is Empty {
        used_in_row(row, i, upto - 1)
    } else {
        used_in_row(row, i, upto - 1).push(
            UsedCellView { row: i, col: upto - 1, cell: row[upto - 1] },
        )
    }
}

/// The cells of the first `upto` rows that are not empty, row by row from
/// the top.
pub open spec fn used_in_rows(rows: Seq<Seq<CellView>>, upto: int) -> Seq<UsedCellView>
    decreases upto,
{
    if upto <= 0 || upto > rows.len() {
        Seq::empty()
    } else {
        used_in_rows(rows, upto - 1) + used_in_row(
            rows[upto - 1],
            upto - 1,
            rows[upto - 1].len() as int,
        )
    }
}

/// `Range::get`, with the value taken as a [`Cell`]: the cell in a row and
/// a column of the range, or `None` where the row is not below the height,
/// or no cell is stored there. `Data::Empty` is taken as `Cell::Empty`; of
/// any other value, `DataType::as_string` decides whether it is a text.
#[verifier::external_body]
pub(crate) fn cell_at(range: &Range<Data>, row: usize, col: usize) -> (cell: Option<Cell>)
    ensures
        cell.deep_view() == (Grid {
            height: range_height(*range),
            rows: range_rows(*range),
        }).at(row as int, col as int),
{
    range.get((row, col)).map(|data| match data {
        Data::Empty => Cell::Empty,
        other => match other.as_string() {
            Some(text) => Cell::Text(text),
            None => Cell::NoText,
        },
    })
}

/// `Range::used_cells`, collected: the stored cells that are not
/// `Data::Empty`, in the order in which the range stores them, each with
/// its row and its column. The height plays no part in it. Of each value,
/// `DataType::as_string` decides whether it is a text.
#[verifier::external_body]
pub(crate) fn used_cells(range: &Range<Data>) -> (cells: Vec<UsedCell>)
    ensures
        cells.deep_view() == (Grid {
            height: range_height(*range),
            rows: range_rows(*range),
        }).used(),
{
    range.used_cells().map(|(row, col, data)| UsedCell {
        row,
        col,
        cell: match data.as_string() {
            Some(text) => Cell::Text(text),
            None => Cell::NoText,
        },
    }).collect()
}

} // verus!

//! What is asked for on the command line.

use crate::loader::Layout;
use vstd::prelude::*;

verus! {

/// The arguments of one run.
#[derive(Debug, Clone, PartialEq, Eq)]
pub struct Cli {
    /// File path
    pub file: String,
    /// Sheet names
    pub sheets: Vec<String>,
    /// Create file with exec query
    pub exec_query: bool,
    /// Print the list of charge and FAUF numbers
    pub list: bool,
    /// FAUF number row
    pub fauf_row: usize,
    /// FAUF number column
    pub fauf_col: usize,
    /// Charge number row
    pub charge_row: usize,
    /// Charge number column
    pub charge_col: usize,
    /// Row at which the serial numbers start
    pub modul_range_row: usize,
    /// Column of the serial numbers
    pub modul_range_column: usize,
}

impl Cli {
    /// The rows and columns that the arguments name, each counted from the
    /// first cell of the used cells of a sheet.
    pub fn layout(&self) -> (layout: Layout)
        ensures
            layout.fauf_row == self.fauf_row,
            layout.fauf_col == self.fauf_col,
            layout.charge_row == self.charge_row,
            layout.charge_col == self.charge_col,
            layout.modul_range_row == self.modul_range_row,
            layout.modul_range_column == self.modul_range_column,
    {
        Layout {
            fauf_row: self.fauf_row,
            fauf_col: self.fauf_col,
            charge_row: self.charge_row,
            charge_col: self.charge_col,
            modul_range_row: self.modul_range_row,
            modul_range_column: self.modul_range_column,
        }
    }
}

} // verus!

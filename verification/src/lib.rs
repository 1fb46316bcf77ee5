//! Lots of a production run, read from the sheets of a workbook, and the
//! two reports that are made of them: a list of FAUF and charge numbers,
//! and a script of stored-procedure calls that move the items of each lot.

pub mod cell;
pub mod cli;
pub mod loader;
pub mod lot;
pub mod range;
pub mod report;
pub mod text;

pub use cell::{Cell, UsedCell};
pub use cli::Cli;
pub use loader::{
    load_sheet, load_workbook, Field, Layout, LoadError, Loaded, Outcome, SkipReason, Skipped,
    Worksheet,
};
pub use lot::Lot;
pub use report::{create_list, create_sql};

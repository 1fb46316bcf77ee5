//! The record of one worksheet: its FAUF number, its charge number and the
//! serial numbers of its modules.

use vstd::prelude::*;

verus! {

/// What one worksheet yielded.
#[derive(Debug, PartialOrd, PartialEq)]
pub struct Lot {
    /// Name of the worksheet the lot was read from.
    pub sheet: String,
    /// FAUF number: the bucket the items are moved from.
    pub fauf: String,
    /// Charge (batch) number of the production run.
    pub charge: String,
    /// Serial numbers of the modules, in the order in which the sheet lists them.
    pub serials: Vec<String>,
}

/// A lot as text: every field by its characters.
pub struct LotView {
    pub sheet: Seq<char>,
    pub fauf: Seq<char>,
    pub charge: Seq<char>,
    pub serials: Seq<Seq<char>>,
}

impl View for Lot {
    type V = LotView;

    open spec fn view(&self) -> LotView {
        LotView {
            sheet: self.sheet@,
            fauf: self.fauf@,
            charge: self.charge@,
            serials: self.serials.deep_view(),
        }
    }
}

impl LotView {
    /// A lot read from a sheet always names its FAUF and its charge: a sheet
    /// on which either is missing yields no lot.
    pub open spec fn well_formed(self) -> bool {
        self.fauf.len() > 0 && self.charge.len() > 0
    }
}

impl DeepView for Lot {
    type V = LotView;

    open spec fn deep_view(&self) -> LotView {
        self@
    }
}

impl Lot {
    /// Puts the four parts together, unchanged.
    pub fn new(sheet: String, fauf: String, charge: String, serials: Vec<String>) -> (lot: Lot)
        ensures
            lot.sheet == sheet,
            lot.fauf == fauf,
            lot.charge == charge,
            lot.serials == serials,
            lot@.well_formed() <==> fauf@.len() > 0 && charge@.len() > 0,
    {
        Lot { sheet, fauf, charge, serials }
    }
}

} // verus!

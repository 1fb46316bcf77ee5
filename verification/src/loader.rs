//! From the cells of the requested sheets to lots.

use crate::cell::{Cell, CellView, UsedCell, UsedCellView};
use crate::lot::{Lot, LotView};
use crate::range::{cell_at, grid_of, used_cells, used_in_row, used_in_rows, Grid};
use calamine::{Data, Range};
use vstd::prelude::*;

verus! {

/// A FAUF or charge number, as its cell gives it.
#[derive(Debug, PartialEq)]
pub enum Number {
    /// The cell is not there, is empty, or holds the empty text.
    Missing,
    /// The number.
    Given(String),
    /// The cell holds a value that is no text.
    Unreadable,
}

/// A number with its text as a sequence of characters.
pub enum NumberView {
    Missing,
    Given(Seq<char>),
    Unreadable,
}

impl DeepView for Number {
    type V = NumberView;

    open spec fn deep_view(&self) -> NumberView {
        match self {
            Number::Missing => NumberView::Missing,
            Number::Given(text) => NumberView::Given(text@),
            Number::Unreadable => NumberView::Unreadable,
        }
    }
}

/// The number that a cell gives. `None` stands for a row and a column at
/// which the grid has no cell.
pub open spec fn number_in(cell: Option<CellView>) -> NumberView {
    match cell {
        None => NumberView::Missing,
        Some(CellView::Empty) => NumberView::Missing,
        Some(CellView::Text(text)) => if text.len() == 0 {
            NumberView::Missing
        } else {
            NumberView::Given(text)
        },
        Some(CellView::NoText) => NumberView::Unreadable,
    }
}

/// Reads a FAUF or charge number off its cell.
pub fn read_number(cell: Option<Cell>) -> (number: Number)
    ensures
        number.deep_view() == number_in(cell.deep_view()),
{
    match cell {
        None => Number::Missing,
        Some(Cell::Empty) => Number::Missing,
        Some(Cell::Text(text)) => {
            if text.as_str().is_empty() {
                Number::Missing
            } else {
                Number::Given(text)
            }
        },
        Some(Cell::NoText) => Number::Unreadable,
    }
}

/// Whether a used cell belongs to the serial numbers: it stands in the
/// column `col`, in the row `row` or below.
pub open spec fn in_serial_region(row: int, col: int) -> spec_fn(UsedCellView) -> bool {
    |used: UsedCellView| used.row >= row && used.col == col
}

/// The cells that hold the serial numbers, in the order of `used`.
pub open spec fn serial_cells(used: Seq<UsedCellView>, row: int, col: int) -> Seq<UsedCellView> {
    used.filter(in_serial_region(row, col))
}

/// Whether every one of the cells holds a text.
pub open spec fn all_text(cells: Seq<UsedCellView>) -> bool {
    forall|i: int| 0 <= i < cells.len() ==> (#[trigger] cells[i]).cell is Text
}

/// Whether `k` is the place of the first of the cells that holds no text.
pub open spec fn is_first_without_text(cells: Seq<UsedCellView>, k: int) -> bool {
    &&& 0 <= k < cells.len()
    &&& !(cells[k].cell is Text)
    &&& forall|i: int| 0 <= i < k ==> (#[trigger] cells[i]).cell is Text
}

/// The texts of the cells, in their order.
pub open spec fn texts(cells: Seq<UsedCellView>) -> Seq<Seq<char>> {
    Seq::new(cells.len(), |i: int| cells[i].cell->0)
}

/// The serial numbers that the used cells of a sheet give: the texts of the
/// cells of the serial region, in their order. Where one of those cells
/// holds no text there are none, and the row of the first such cell is
/// given instead.
pub open spec fn serials_of(used: Seq<UsedCellView>, row: int, col: int) -> Result<
    Seq<Seq<char>>,
    int,
> {
    let cells = serial_cells(used, row, col);
    if all_text(cells) {
        Ok(texts(cells))
    } else {
        Err(cells[choose|k: int| is_first_without_text(cells, k)].row)
    }
}

/// Picks the serial numbers out of the used cells of a sheet.
pub fn collect_serials(used: &Vec<UsedCell>, row: usize, col: usize) -> (serials: Result<
    Vec<String>,
    usize,
>)
    ensures
        match serials {
            Ok(found) => serials_of(used.deep_view(), row as int, col as int) == Ok::<
                Seq<Seq<char>>,
                int,
            >(found.deep_view()),
            Err(at) => serials_of(used.deep_view(), row as int, col as int) == Err::<
                Seq<Seq<char>>,
                int,
            >(at as int),
        },
{
    let ghost all = used.deep_view();
    let ghost region = in_serial_region(row as int, col as int);
    let mut found: Vec<String> = Vec::new();
    let mut i: usize = 0;
    assert(all.take(0) =~= Seq::empty());
    assert(all.take(0).filter(region) =~= Seq::empty()) by {
        reveal(Seq::filter);
    }
    while i < used.len()
        invariant
            0 <= i <= used.len(),
            all == used.deep_view(),
            region == in_serial_region(row as int, col as int),
            all_text(all.take(i as int).filter(region)),
            found.deep_view() =~= texts(all.take(i as int).filter(region)),
        decreases used.len() - i,
    {
        let ghost seen = all.take(i as int).filter(region);
        let next = &used[i];
        proof {
            assert(all.take(i as int + 1) =~= all.take(i as int).push(all[i as int]));
            all.take(i as int).lemma_filter_push(all[i as int], region);
            assert(all[i as int] == next.deep_view());
        }
        if next.row >= row && next.col == col {
            match &next.cell {
                Cell::Text(text) => {
                    let ghost before = found.deep_view();
                    found.push(text.clone());
                    proof {
                        assert(all[i as int].cell == CellView::Text(text@));
                        assert(found.deep_view() =~= before.push(text@));
                        assert(found.deep_view() =~= texts(seen.push(all[i as int])));
                    }
                },
                _ => {
                    proof {
                        let cells = serial_cells(all, row as int, col as int);
                        let upto = seen.push(all[i as int]);
                        assert(all =~= all.take(i as int + 1) + all.skip(i as int + 1));
                        Seq::filter_distributes_over_add(
                            all.take(i as int + 1),
                            all.skip(i as int + 1),
                            region,
                        );
                        assert(cells =~= upto + all.skip(i as int + 1).filter(region));
                        let k = seen.len() as int;
                        assert(cells[k] == all[i as int]);
                        assert forall|j: int| 0 <= j < k implies (#[trigger] cells[j]).cell
                            is Text by {
                            assert(cells[j] == seen[j]);
                        }
                        assert(is_first_without_text(cells, k));
                        assert(!all_text(cells));
                        let chosen = choose|c: int| is_first_without_text(cells, c);
                        assert(is_first_without_text(cells, chosen));
                        assert(chosen == k) by {
                            if chosen < k {
                                assert(cells[chosen].cell is Text);
                            } else if chosen > k {
                                assert(cells[k].cell is Text);
                            }
                        }
                    }
                    return Err(next.row);
                },
            }
        }
        i += 1;
    }
    assert(all.take(i as int) =~= all);
    Ok(found)
}

/// Where the parts of a lot stand. Every row and column is counted from
/// the first cell of the range that holds the used cells of the sheet, not
/// from the first cell of the sheet.
#[derive(Debug, Clone, Copy, PartialEq, Eq)]
pub struct Layout {
    pub fauf_row: usize,
    pub fauf_col: usize,
    pub charge_row: usize,
    pub charge_col: usize,
    /// Row of the first serial number.
    pub modul_range_row: usize,
    /// Column of the serial numbers.
    pub modul_range_column: usize,
}

/// A requested sheet: its name, and its cells if the workbook has a sheet
/// of that name.
#[derive(Debug)]
pub struct Worksheet {
    pub name: String,
    pub cells: Option<Range<Data>>,
}

/// A requested sheet with its cells as a grid.
pub struct WorksheetView {
    pub name: Seq<char>,
    pub grid: Option<Grid>,
}

impl View for Worksheet {
    type V = WorksheetView;

    open spec fn view(&self) -> WorksheetView {
        WorksheetView {
            name: self.name@,
            grid: match self.cells {
                Some(range) => Some(grid_of(range)),
                None => None,
            },
        }
    }
}

impl DeepView for Worksheet {
    type V = WorksheetView;

    open spec fn deep_view(&self) -> WorksheetView {
        self@
    }
}

/// Why a sheet yielded no lot though nothing went wrong.
#[derive(Debug, Clone, Copy, PartialEq, Eq)]
pub enum SkipReason {
    /// The workbook has no sheet of that name.
    MissingSheet,
    /// The charge number is missing.
    EmptyCharge,
    /// The FAUF number is missing.
    EmptyFauf,
}

/// The part of a lot whose cell holds a value that is no text.
#[derive(Debug, Clone, Copy, PartialEq, Eq)]
pub enum Field {
    Charge,
    Fauf,
    /// A serial number; `row` is the row of its cell, counted from the
    /// first row of the range.
    Serial { row: usize },
}

/// What became of one requested sheet.
#[derive(Debug, PartialEq)]
pub enum Outcome {
    Loaded(Lot),
    Skipped(SkipReason),
    Failed(Field),
}

/// An outcome with its lot as text.
pub enum OutcomeView {
    Loaded(LotView),
    Skipped(SkipReason),
    Failed(Field),
}

impl DeepView for Outcome {
    type V = OutcomeView;

    open spec fn deep_view(&self) -> OutcomeView {
        match self {
            Outcome::Loaded(lot) => OutcomeView::Loaded(lot@),
            Outcome::Skipped(reason) => OutcomeView::Skipped(*reason),
            Outcome::Failed(field) => OutcomeView::Failed(*field),
        }
    }
}

/// What a requested sheet yields.
///
/// The charge number is looked at first, then the FAUF number, then the
/// serial numbers, and the first of them that is missing or unreadable
/// decides: a missing number skips the sheet, an unreadable cell fails it.
pub open spec fn sheet_outcome(sheet: WorksheetView, layout: Layout) -> OutcomeView {
    match sheet.grid {
        None => OutcomeView::Skipped(SkipReason::MissingSheet),
        Some(grid) => match number_in(grid.at(layout.charge_row as int, layout.charge_col as int)) {
            NumberView::Missing => OutcomeView::Skipped(SkipReason::EmptyCharge),
            NumberView::Unreadable => OutcomeView::Failed(Field::Charge),
            NumberView::Given(charge) => match number_in(
                grid.at(layout.fauf_row as int, layout.fauf_col as int),
            ) {
                NumberView::Missing => OutcomeView::Skipped(SkipReason::EmptyFauf),
                NumberView::Unreadable => OutcomeView::Failed(Field::Fauf),
                NumberView::Given(fauf) => match serials_of(
                    grid.used(),
                    layout.modul_range_row as int,
                    layout.modul_range_column as int,
                ) {
                    Ok(serials) => OutcomeView::Loaded(
                        LotView { sheet: sheet.name, fauf, charge, serials },
                    ),
                    Err(row) => OutcomeView::Failed(Field::Serial { row: row as usize }),
                },
            },
        },
    }
}

/// Reads the lot of one requested sheet.
pub fn load_sheet(sheet: &Worksheet, layout: &Layout) -> (outcome: Outcome)
    ensures
        outcome.deep_view() == sheet_outcome(sheet@, *layout),
        outcome matches Outcome::Loaded(lot) ==> lot@.well_formed() && lot.sheet@ == sheet.name@,
{
    let range = match &sheet.cells {
        Some(range) => range,
        None => {
            return Outcome::Skipped(SkipReason::MissingSheet);
        },
    };
    let charge = match read_number(cell_at(range, layout.charge_row, layout.charge_col)) {
        Number::Given(charge) => charge,
        Number::Missing => {
            return Outcome::Skipped(SkipReason::EmptyCharge);
        },
        Number::Unreadable => {
            return Outcome::Failed(Field::Charge);
        },
    };
    let fauf = match read_number(cell_at(range, layout.fauf_row, layout.fauf_col)) {
        Number::Given(fauf) => fauf,
        Number::Missing => {
            return Outcome::Skipped(SkipReason::EmptyFauf);
        },
        Number::Unreadable => {
            return Outcome::Failed(Field::Fauf);
        },
    };
    let used = used_cells(range);
    match collect_serials(&used, layout.modul_range_row, layout.modul_range_column) {
        Ok(serials) => Outcome::Loaded(Lot::new(sheet.name.clone(), fauf, charge, serials)),
        Err(row) => Outcome::Failed(Field::Serial { row }),
    }
}

/// A sheet that was passed over, by its place among the requested sheets.
#[derive(Debug, Clone, Copy, PartialEq, Eq)]
pub struct Skipped {
    pub sheet: usize,
    pub reason: SkipReason,
}

/// The cell that made the loading fail, by the place of its sheet among the
/// requested sheets and the part of the lot that it holds.
#[derive(Debug, Clone, Copy, PartialEq, Eq)]
pub struct LoadError {
    pub sheet: usize,
    pub field: Field,
}

/// What a workbook yielded: the lots, and the sheets that were passed over.
#[derive(Debug, PartialEq)]
pub struct Loaded {
    pub lots: Vec<Lot>,
    pub skipped: Vec<Skipped>,
}

/// What a workbook yielded, with the lots as text.
pub struct LoadedView {
    pub lots: Seq<LotView>,
    pub skipped: Seq<Skipped>,
}

impl DeepView for Loaded {
    type V = LoadedView;

    open spec fn deep_view(&self) -> LoadedView {
        LoadedView { lots: self.lots.deep_view(), skipped: self.skipped@ }
    }
}

/// The outcome of each requested sheet, in the order of the request.
pub open spec fn outcomes_of(sheets: Seq<WorksheetView>, layout: Layout) -> Seq<OutcomeView> {
    Seq::new(sheets.len(), |i: int| sheet_outcome(sheets[i], layout))
}

/// The lots among the outcomes, in their order.
pub open spec fn lots_in(outcomes: Seq<OutcomeView>) -> Seq<LotView>
    decreases outcomes.len(),
{
    if outcomes.len() == 0 {
        Seq::empty()
    } else {
        match outcomes.last() {
            OutcomeView::Loaded(lot) => lots_in(outcomes.drop_last()).push(lot),
            _ => lots_in(outcomes.drop_last()),
        }
    }
}

/// The sheets that were passed over, in their order.
pub open spec fn skipped_in(outcomes: Seq<OutcomeView>) -> Seq<Skipped>
    decreases outcomes.len(),
{
    if outcomes.len() == 0 {
        Seq::empty()
    } else {
        match outcomes.last() {
            OutcomeView::Skipped(reason) => skipped_in(outcomes.drop_last()).push(
                Skipped { sheet: (outcomes.len() - 1) as usize, reason },
            ),
            _ => skipped_in(outcomes.drop_last()),
        }
    }
}

/// Whether no sheet failed.
pub open spec fn none_failed(outcomes: Seq<OutcomeView>) -> bool {
    forall|i: int| 0 <= i < outcomes.len() ==> !((#[trigger] outcomes[i]) is Failed)
}

/// Whether the sheet at place `k` is the first that failed.
pub open spec fn is_first_failed(outcomes: Seq<OutcomeView>, k: int) -> bool {
    &&& 0 <= k < outcomes.len()
    &&& outcomes[k] is Failed
    &&& forall|i: int| 0 <= i < k ==> !((#[trigger] outcomes[i]) is Failed)
}

/// What the outcomes of the sheets make of the workbook: the first sheet
/// that failed fails the whole, and then no lot is given; else every lot
/// is given, and every sheet that was passed over.
pub open spec fn workbook_result(outcomes: Seq<OutcomeView>) -> Result<LoadedView, LoadError> {
    if none_failed(outcomes) {
        Ok(LoadedView { lots: lots_in(outcomes), skipped: skipped_in(outcomes) })
    } else {
        let k = choose|k: int| is_first_failed(outcomes, k);
        Err(LoadError { sheet: k as usize, field: outcomes[k]->Failed_0 })
    }
}

/// Reads the lots of the requested sheets, in the order of the request.
pub fn load_workbook(sheets: &[Worksheet], layout: &Layout) -> (result: Result<Loaded, LoadError>)
    ensures
        match result {
            Ok(loaded) => workbook_result(outcomes_of(sheets.deep_view(), *layout)) == Ok::<
                LoadedView,
                LoadError,
            >(loaded.deep_view()),
            Err(error) => workbook_result(outcomes_of(sheets.deep_view(), *layout)) == Err::<
                LoadedView,
                LoadError,
            >(error),
        },
{
    let ghost outcomes = outcomes_of(sheets.deep_view(), *layout);
    let mut lots: Vec<Lot> = Vec::new();
    let mut skipped: Vec<Skipped> = Vec::new();
    let mut i: usize = 0;
    assert(outcomes.take(0) =~= Seq::empty());
    while i < sheets.len()
        invariant
            0 <= i <= sheets.len(),
            outcomes == outcomes_of(sheets.deep_view(), *layout),
            none_failed(outcomes.take(i as int)),
            lots.deep_view() =~= lots_in(outcomes.take(i as int)),
            skipped@ =~= skipped_in(outcomes.take(i as int)),
        decreases sheets.len() - i,
    {
        let outcome = load_sheet(&sheets[i], layout);
        proof {
            assert(outcomes.take(i as int + 1).drop_last() =~= outcomes.take(i as int));
            assert(outcomes.take(i as int + 1).last() == outcome.deep_view());
        }
        match outcome {
            Outcome::Loaded(lot) => {
                let ghost before = lots.deep_view();
                lots.push(lot);
                assert(lots.deep_view() =~= before.push(lot@));
            },
            Outcome::Skipped(reason) => {
                skipped.push(Skipped { sheet: i, reason });
            },
            Outcome::Failed(field) => {
                proof {
                    let k = i as int;
                    assert forall|j: int| 0 <= j < k implies !((#[trigger] outcomes[j])
                        is Failed) by {
                        assert(outcomes.take(k)[j] == outcomes[j]);
                    }
                    assert(is_first_failed(outcomes, k));
                    let chosen = choose|c: int| is_first_failed(outcomes, c);
                    assert(is_first_failed(outcomes, chosen));
                    assert(chosen == k) by {
                        if chosen < k {
                            assert(!(outcomes[chosen] is Failed));
                        } else if chosen > k {
                            assert(!(outcomes[k] is Failed));
                        }
                    }
                }
                return Err(LoadError { sheet: i, field });
            },
        }
        proof {
            let ghost seen = outcomes.take(i as int + 1);
            assert forall|j: int| 0 <= j < i + 1 implies !((#[trigger] seen[j]) is Failed) by {
                if j < i {
                    assert(outcomes.take(i as int)[j] == outcomes[j]);
                }
            }
        }
        i += 1;
    }
    assert(outcomes.take(i as int) =~= outcomes);
    Ok(Loaded { lots, skipped })
}

/// A requested sheet that the workbook does not have is passed over: it
/// gives no lot, and it does not fail the loading.
pub proof fn law_missing_sheet_is_skipped(sheet: WorksheetView, layout: Layout)
    requires
        sheet.grid is None,
    ensures
        sheet_outcome(sheet, layout) == OutcomeView::Skipped(SkipReason::MissingSheet),
{
}

/// A sheet whose charge number is missing is passed over, whatever else
/// it holds; so is a sheet with a charge number whose FAUF number is
/// missing. Neither gives a lot, and neither fails the loading.
pub proof fn law_missing_number_is_skipped(sheet: WorksheetView, layout: Layout)
    requires
        sheet.grid is Some,
    ensures
        number_in(sheet.grid->0.at(layout.charge_row as int, layout.charge_col as int))
            is Missing ==> sheet_outcome(sheet, layout) == OutcomeView::Skipped(
            SkipReason::EmptyCharge,
        ),
        number_in(sheet.grid->0.at(layout.charge_row as int, layout.charge_col as int)) is Given
            && number_in(sheet.grid->0.at(layout.fauf_row as int, layout.fauf_col as int))
            is Missing ==> sheet_outcome(sheet, layout) == OutcomeView::Skipped(
            SkipReason::EmptyFauf,
        ),
{
}

/// A sheet that holds a text at the FAUF position and a text at the
/// charge position of its grid, neither of them empty, and only texts in
/// its serial region, gives a lot with exactly that FAUF number, that
/// charge number and those serial numbers.
pub proof fn law_numbers_at_their_positions_give_the_lot(
    sheet: WorksheetView,
    layout: Layout,
    fauf: Seq<char>,
    charge: Seq<char>,
)
    requires
        sheet.grid is Some,
        sheet.grid->0.at(layout.fauf_row as int, layout.fauf_col as int) == Some(
            CellView::Text(fauf),
        ),
        sheet.grid->0.at(layout.charge_row as int, layout.charge_col as int) == Some(
            CellView::Text(charge),
        ),
        fauf.len() > 0,
        charge.len() > 0,
        all_text(
            serial_cells(
                sheet.grid->0.used(),
                layout.modul_range_row as int,
                layout.modul_range_column as int,
            ),
        ),
    ensures
        sheet_outcome(sheet, layout) == OutcomeView::Loaded(
            LotView {
                sheet: sheet.name,
                fauf,
                charge,
                serials: texts(
                    serial_cells(
                        sheet.grid->0.used(),
                        layout.modul_range_row as int,
                        layout.modul_range_column as int,
                    ),
                ),
            },
        ),
{
}

/// The lot of a sheet bears the name of the sheet, and its FAUF and its
/// charge number are not empty.
pub proof fn law_lot_is_well_formed(sheet: WorksheetView, layout: Layout)
    ensures
        sheet_outcome(sheet, layout) matches OutcomeView::Loaded(lot) ==> lot.well_formed()
            && lot.sheet == sheet.name,
{
}

/// The places, among the requested sheets, of the sheets that gave a lot,
/// in their order.
pub open spec fn loaded_places(outcomes: Seq<OutcomeView>) -> Seq<int>
    decreases outcomes.len(),
{
    if outcomes.len() == 0 {
        Seq::empty()
    } else {
        match outcomes.last() {
            OutcomeView::Loaded(_) => loaded_places(outcomes.drop_last()).push(outcomes.len() - 1),
            _ => loaded_places(outcomes.drop_last()),
        }
    }
}

/// There is one lot for every sheet that gave one, and they stand in the
/// order of the request: lot number `k` is the lot of the sheet at
/// `loaded_places(outcomes)[k]`, these places rise, and no sheet that gave
/// a lot is left out.
pub proof fn law_one_lot_per_loaded_sheet(outcomes: Seq<OutcomeView>)
    ensures
        lots_in(outcomes).len() == loaded_places(outcomes).len(),
        forall|k: int|
            0 <= k < lots_in(outcomes).len() ==> 0 <= (#[trigger] loaded_places(outcomes)[k])
                < outcomes.len() && outcomes[loaded_places(outcomes)[k]] == OutcomeView::Loaded(
                lots_in(outcomes)[k],
            ),
        forall|j: int, k: int|
            0 <= j < k < loaded_places(outcomes).len() ==> loaded_places(outcomes)[j]
                < loaded_places(outcomes)[k],
        forall|i: int|
            0 <= i < outcomes.len() && (#[trigger] outcomes[i]) is Loaded ==> loaded_places(
                outcomes,
            ).contains(i),
    decreases outcomes.len(),
{
    if outcomes.len() > 0 {
        let front = outcomes.drop_last();
        law_one_lot_per_loaded_sheet(front);
        let places = loaded_places(outcomes);
        let lots = lots_in(outcomes);
        assert forall|k: int| 0 <= k < lots.len() implies 0 <= (#[trigger] places[k])
            < outcomes.len() && outcomes[places[k]] == OutcomeView::Loaded(lots[k]) by {
            if k < loaded_places(front).len() {
                assert(places[k] == loaded_places(front)[k]);
                assert(front[places[k]] == outcomes[places[k]]);
            }
        }
        assert forall|j: int, k: int| 0 <= j < k < places.len() implies places[j] < places[k] by {
            assert(places[j] == loaded_places(front)[j]);
            if k < loaded_places(front).len() {
                assert(places[k] == loaded_places(front)[k]);
            }
        }
        assert forall|i: int|
            0 <= i < outcomes.len() && (#[trigger] outcomes[i]) is Loaded implies places.contains(
            i,
        ) by {
            if i < front.len() {
                assert(front[i] == outcomes[i]);
                let k = choose|k: int|
                    0 <= k < loaded_places(front).len() && loaded_places(front)[k] == i;
                assert(places[k] == i);
            } else {
                assert(places[places.len() - 1] == i);
            }
        }
    }
}

/// A sheet that is passed over leaves no lot and does not end the run:
/// with or without it in the request, the same lots are read, and the
/// loading fails on the one if and only if it fails on the other. It is
/// reported among the sheets that were passed over.
pub proof fn law_skipped_sheet_leaves_no_lot(sheets: Seq<WorksheetView>, layout: Layout, i: int)
    requires
        0 <= i < sheets.len() <= usize::MAX,
        sheet_outcome(sheets[i], layout) is Skipped,
    ensures
        lots_in(outcomes_of(sheets, layout)) == lots_in(outcomes_of(sheets.remove(i), layout)),
        none_failed(outcomes_of(sheets, layout)) <==> none_failed(
            outcomes_of(sheets.remove(i), layout),
        ),
        skipped_in(outcomes_of(sheets, layout)).contains(
            Skipped { sheet: i as usize, reason: sheet_outcome(sheets[i], layout)->Skipped_0 },
        ),
{
    let outcomes = outcomes_of(sheets, layout);
    assert(outcomes_of(sheets.remove(i), layout) =~= outcomes.remove(i));
    lemma_lots_without_skipped(outcomes, i);
    lemma_skipped_is_reported(outcomes, i);
    let rest = outcomes.remove(i);
    if none_failed(outcomes) {
        assert forall|j: int| 0 <= j < rest.len() implies !((#[trigger] rest[j]) is Failed) by {
            if j < i {
                assert(rest[j] == outcomes[j]);
            } else {
                assert(rest[j] == outcomes[j + 1]);
            }
        }
    }
    if none_failed(rest) {
        assert forall|j: int| 0 <= j < outcomes.len() implies !((#[trigger] outcomes[j])
            is Failed) by {
            if j < i {
                assert(rest[j] == outcomes[j]);
            } else if j > i {
                assert(rest[j - 1] == outcomes[j]);
            }
        }
    }
}

proof fn lemma_lots_without_skipped(outcomes: Seq<OutcomeView>, i: int)
    requires
        0 <= i < outcomes.len(),
        !(outcomes[i] is Loaded),
    ensures
        lots_in(outcomes) == lots_in(outcomes.remove(i)),
    decreases outcomes.len(),
{
    if i == outcomes.len() - 1 {
        assert(outcomes.remove(i) =~= outcomes.drop_last());
    } else {
        lemma_lots_without_skipped(outcomes.drop_last(), i);
        assert(outcomes.remove(i).drop_last() =~= outcomes.drop_last().remove(i));
        assert(outcomes.remove(i).last() == outcomes.last());
    }
}

proof fn lemma_skipped_is_reported(outcomes: Seq<OutcomeView>, i: int)
    requires
        0 <= i < outcomes.len() <= usize::MAX,
        outcomes[i] is Skipped,
    ensures
        skipped_in(outcomes).contains(
            Skipped { sheet: i as usize, reason: outcomes[i]->Skipped_0 },
        ),
    decreases outcomes.len(),
{
    let report = Skipped { sheet: i as usize, reason: outcomes[i]->Skipped_0 };
    if i == outcomes.len() - 1 {
        assert(skipped_in(outcomes).last() == report);
    } else {
        lemma_skipped_is_reported(outcomes.drop_last(), i);
        let front = skipped_in(outcomes.drop_last());
        let k = choose|k: int| 0 <= k < front.len() && front[k] == report;
        assert(skipped_in(outcomes)[k] == report);
    }
}

/// Where no two requested sheets bear the same name, no two lots do.
pub proof fn law_lot_sheets_are_distinct(sheets: Seq<WorksheetView>, layout: Layout)
    requires
        forall|i: int, j: int|
            0 <= i < j < sheets.len() ==> (#[trigger] sheets[i]).name != (
            #[trigger] sheets[j]).name,
    ensures
        forall|a: int, b: int|
            0 <= a < b < lots_in(outcomes_of(sheets, layout)).len() ==> (#[trigger] lots_in(
                outcomes_of(sheets, layout),
            )[a]).sheet != (#[trigger] lots_in(outcomes_of(sheets, layout))[b]).sheet,
{
    let outcomes = outcomes_of(sheets, layout);
    let lots = lots_in(outcomes);
    let places = loaded_places(outcomes);
    law_one_lot_per_loaded_sheet(outcomes);
    assert forall|a: int, b: int| 0 <= a < b < lots.len() implies (#[trigger] lots[a]).sheet
        != (#[trigger] lots[b]).sheet by {
        let i = places[a];
        let j = places[b];
        assert(i < j);
        law_lot_is_well_formed(sheets[i], layout);
        law_lot_is_well_formed(sheets[j], layout);
        assert(outcomes[i] == OutcomeView::Loaded(lots[a]));
        assert(outcomes[j] == OutcomeView::Loaded(lots[b]));
        assert(lots[a].sheet == sheets[i].name);
        assert(lots[b].sheet == sheets[j].name);
    }
}

/// The cells of the column `col` that are not empty, in the rows from
/// `row` up to, but without, `upto`, from the top. Rows and columns are
/// counted from the first cell of the grid.
pub open spec fn column_cells(rows: Seq<Seq<CellView>>, row: int, col: int, upto: int) -> Seq<
    UsedCellView,
>
    decreases upto,
{
    if upto <= 0 || upto > rows.len() {
        Seq::empty()
    } else if row <= upto - 1 && 0 <= col < rows[upto - 1].len() && !(rows[upto - 1][col]
        is Empty) {
        column_cells(rows, row, col, upto - 1).push(
            UsedCellView { row: upto - 1, col, cell: rows[upto - 1][col] },
        )
    } else {
        column_cells(rows, row, col, upto - 1)
    }
}

/// The cells that hold the serial numbers are the cells of one column of
/// the grid: those that are not empty, from the row `row` downward.
pub proof fn law_serial_cells_are_a_column(grid: Grid, row: int, col: int)
    ensures
        serial_cells(grid.used(), row, col) == column_cells(
            grid.rows,
            row,
            col,
            grid.rows.len() as int,
        ),
{
    lemma_serial_cells_of_rows(grid.rows, row, col, grid.rows.len() as int);
}

proof fn lemma_serial_cells_of_rows(rows: Seq<Seq<CellView>>, row: int, col: int, upto: int)
    requires
        0 <= upto <= rows.len(),
    ensures
        used_in_rows(rows, upto).filter(in_serial_region(row, col)) == column_cells(
            rows,
            row,
            col,
            upto,
        ),
    decreases upto,
{
    let region = in_serial_region(row, col);
    if upto == 0 {
        assert(used_in_rows(rows, upto).filter(region) =~= Seq::empty()) by {
            reveal(Seq::filter);
        }
    } else {
        let i = upto - 1;
        let last = used_in_row(rows[i], i, rows[i].len() as int);
        lemma_serial_cells_of_rows(rows, row, col, i);
        lemma_serial_cells_of_row(rows[i], i, row, col, rows[i].len() as int);
        Seq::filter_distributes_over_add(used_in_rows(rows, i), last, region);
        if row <= i && 0 <= col < rows[i].len() && !(rows[i][col] is Empty) {
            assert(column_cells(rows, row, col, i) + seq![
                UsedCellView { row: i, col, cell: rows[i][col] },
            ] =~= column_cells(rows, row, col, upto));
        } else {
            assert(column_cells(rows, row, col, i) + Seq::<UsedCellView>::empty()
                =~= column_cells(rows, row, col, upto));
        }
    }
}

proof fn lemma_serial_cells_of_row(cells: Seq<CellView>, i: int, row: int, col: int, upto: int)
    requires
        0 <= upto <= cells.len(),
    ensures
        used_in_row(cells, i, upto).filter(in_serial_region(row, col)) == if row <= i && 0 <= col
            < upto && !(cells[col] is Empty) {
            seq![UsedCellView { row: i, col, cell: cells[col] }]
        } else {
            Seq::empty()
        },
    decreases upto,
{
    let region = in_serial_region(row, col);
    if upto == 0 {
        assert(used_in_row(cells, i, upto).filter(region) =~= Seq::empty()) by {
            reveal(Seq::filter);
        }
    } else {
        let j = upto - 1;
        lemma_serial_cells_of_row(cells, i, row, col, j);
        if !(cells[j] is Empty) {
            let cell = UsedCellView { row: i, col: j, cell: cells[j] };
            used_in_row(cells, i, j).lemma_filter_push(cell, region);
            if region(cell) {
                assert(Seq::<UsedCellView>::empty().push(cell) =~= seq![cell]);
            }
        }
    }
}

} // verus!

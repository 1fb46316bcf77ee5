use calamine::{Data, Range};
use traceability::cell::{Cell, UsedCell};
use traceability::loader::{collect_serials, read_number, Number};
use traceability::{
    load_sheet, load_workbook, Field, Layout, LoadError, Loaded, Lot, Outcome, SkipReason, Skipped,
    Worksheet,
};

fn usual() -> Layout {
    Layout {
        fauf_row: 1,
        fauf_col: 1,
        charge_row: 1,
        charge_col: 0,
        modul_range_row: 1,
        modul_range_column: 6,
    }
}

fn text(value: &str) -> Data {
    Data::String(value.to_string())
}

fn filled(charge: Data, fauf: Data, serials: Vec<Data>) -> Range<Data> {
    let mut range = Range::new((0, 0), (4, 7));
    range.set_value((0, 0), text("Charge"));
    range.set_value((0, 1), text("FAUF"));
    range.set_value((0, 6), text("Modul"));
    range.set_value((1, 0), charge);
    range.set_value((1, 1), fauf);
    let mut row = 1;
    for serial in serials {
        range.set_value((row, 6), serial);
        row += 1;
    }
    range
}

fn sheet(name: &str, cells: Option<Range<Data>>) -> Worksheet {
    Worksheet { name: name.to_string(), cells }
}

fn lot(sheet: &str, fauf: &str, charge: &str, serials: &[&str]) -> Lot {
    Lot::new(
        sheet.to_string(),
        fauf.to_string(),
        charge.to_string(),
        serials.iter().map(|s| s.to_string()).collect(),
    )
}

#[test]
fn sheet_gives_its_lot() {
    let cells = filled(
        text("TC03909P0"),
        text("82036419"),
        vec![text("1072501425237413"), text("1072501423237413")],
    );
    let outcome = load_sheet(&sheet("41", Some(cells)), &usual());
    assert_eq!(
        outcome,
        Outcome::Loaded(lot(
            "41",
            "82036419",
            "TC03909P0",
            &["1072501425237413", "1072501423237413"]
        ))
    );
}

#[test]
fn missing_sheet_is_skipped() {
    let outcome = load_sheet(&sheet("41", None), &usual());
    assert_eq!(outcome, Outcome::Skipped(SkipReason::MissingSheet));
}

#[test]
fn empty_charge_cell_is_skipped() {
    let cells = filled(Data::Empty, text("82036419"), vec![text("1")]);
    let outcome = load_sheet(&sheet("41", Some(cells)), &usual());
    assert_eq!(outcome, Outcome::Skipped(SkipReason::EmptyCharge));
}

#[test]
fn empty_fauf_cell_is_skipped() {
    let cells = filled(text("TC03909P0"), Data::Empty, vec![text("1")]);
    let outcome = load_sheet(&sheet("41", Some(cells)), &usual());
    assert_eq!(outcome, Outcome::Skipped(SkipReason::EmptyFauf));
}

#[test]
fn empty_text_counts_as_missing() {
    let cells = filled(text(""), text("82036419"), vec![]);
    let outcome = load_sheet(&sheet("41", Some(cells)), &usual());
    assert_eq!(outcome, Outcome::Skipped(SkipReason::EmptyCharge));
}

#[test]
fn cell_outside_the_range_is_missing() {
    let mut cells: Range<Data> = Range::new((0, 0), (0, 0));
    cells.set_value((0, 0), text("Charge"));
    let outcome = load_sheet(&sheet("41", Some(cells)), &usual());
    assert_eq!(outcome, Outcome::Skipped(SkipReason::EmptyCharge));
}

#[test]
fn range_without_cells_is_skipped() {
    let cells: Range<Data> = Range::empty();
    let outcome = load_sheet(&sheet("41", Some(cells)), &usual());
    assert_eq!(outcome, Outcome::Skipped(SkipReason::EmptyCharge));
}

#[test]
fn position_beyond_the_range_is_missing() {
    let cells = filled(text("TC03909P0"), text("82036419"), vec![]);
    let mut layout = usual();
    layout.fauf_row = usize::MAX;
    let outcome = load_sheet(&sheet("41", Some(cells)), &layout);
    assert_eq!(outcome, Outcome::Skipped(SkipReason::EmptyFauf));
}

#[test]
fn charge_without_text_fails() {
    let cells = filled(Data::Bool(true), text("82036419"), vec![]);
    let outcome = load_sheet(&sheet("41", Some(cells)), &usual());
    assert_eq!(outcome, Outcome::Failed(Field::Charge));
}

#[test]
fn fauf_without_text_fails() {
    let cells = filled(text("TC03909P0"), Data::Bool(false), vec![]);
    let outcome = load_sheet(&sheet("41", Some(cells)), &usual());
    assert_eq!(outcome, Outcome::Failed(Field::Fauf));
}

#[test]
fn charge_is_looked_at_before_fauf() {
    let unreadable_first = filled(Data::Bool(true), Data::Empty, vec![]);
    assert_eq!(
        load_sheet(&sheet("41", Some(unreadable_first)), &usual()),
        Outcome::Failed(Field::Charge)
    );
    let empty_first = filled(Data::Empty, Data::Bool(true), vec![]);
    assert_eq!(
        load_sheet(&sheet("41", Some(empty_first)), &usual()),
        Outcome::Skipped(SkipReason::EmptyCharge)
    );
}

#[test]
fn numbers_are_looked_at_before_serials() {
    let cells = filled(text("TC03909P0"), Data::Empty, vec![Data::Bool(true)]);
    assert_eq!(
        load_sheet(&sheet("41", Some(cells)), &usual()),
        Outcome::Skipped(SkipReason::EmptyFauf)
    );
}

#[test]
fn serial_without_text_fails_with_its_row() {
    let cells = filled(
        text("TC03909P0"),
        text("82036419"),
        vec![text("1"), Data::Bool(true), Data::Bool(false)],
    );
    let outcome = load_sheet(&sheet("41", Some(cells)), &usual());
    assert_eq!(outcome, Outcome::Failed(Field::Serial { row: 2 }));
}

#[test]
fn numbers_in_cells_are_taken_as_text() {
    let cells = filled(Data::Int(4711), Data::Float(1.5), vec![Data::Int(7), text("8")]);
    let outcome = load_sheet(&sheet("41", Some(cells)), &usual());
    assert_eq!(outcome, Outcome::Loaded(lot("41", "1.5", "4711", &["7", "8"])));
}

#[test]
fn serials_skip_empty_cells_and_other_columns() {
    let mut cells = filled(text("TC03909P0"), text("82036419"), vec![]);
    cells.set_value((1, 6), text("a"));
    cells.set_value((1, 7), text("not a serial"));
    cells.set_value((2, 5), text("not a serial either"));
    cells.set_value((3, 6), text("b"));
    cells.set_value((4, 6), text(""));
    let outcome = load_sheet(&sheet("41", Some(cells)), &usual());
    assert_eq!(outcome, Outcome::Loaded(lot("41", "82036419", "TC03909P0", &["a", "b", ""])));
}

#[test]
fn sheet_without_serials_gives_a_lot() {
    let cells = filled(text("TC03909P0"), text("82036419"), vec![]);
    let outcome = load_sheet(&sheet("41", Some(cells)), &usual());
    assert_eq!(outcome, Outcome::Loaded(lot("41", "82036419", "TC03909P0", &[])));
}

#[test]
fn positions_are_counted_from_the_first_cell_of_the_range() {
    // The range starts at row 2, column 1 of the sheet.
    let mut cells: Range<Data> = Range::new((2, 1), (5, 8));
    cells.set_value((2, 1), text("Charge"));
    cells.set_value((3, 1), text("TC03909P0"));
    cells.set_value((3, 2), text("82036419"));
    cells.set_value((2, 7), text("Modul"));
    cells.set_value((3, 7), text("s1"));
    cells.set_value((4, 7), text("s2"));
    let outcome = load_sheet(&sheet("41", Some(cells)), &usual());
    assert_eq!(outcome, Outcome::Loaded(lot("41", "82036419", "TC03909P0", &["s1", "s2"])));
}

#[test]
fn numbers_in_the_first_row_of_a_range_that_starts_lower() {
    let mut cells: Range<Data> = Range::new((1, 0), (2, 6));
    cells.set_value((1, 0), text("TC03909P0"));
    cells.set_value((1, 1), text("82036419"));
    cells.set_value((1, 6), text("s1"));
    cells.set_value((2, 6), text("s2"));
    let layout = Layout {
        fauf_row: 0,
        fauf_col: 1,
        charge_row: 0,
        charge_col: 0,
        modul_range_row: 0,
        modul_range_column: 6,
    };
    let outcome = load_sheet(&sheet("41", Some(cells)), &layout);
    assert_eq!(outcome, Outcome::Loaded(lot("41", "82036419", "TC03909P0", &["s1", "s2"])));
}

#[test]
fn fauf_and_charge_are_not_swapped() {
    let mut cells: Range<Data> = Range::new((0, 0), (3, 3));
    cells.set_value((1, 2), text("the fauf"));
    cells.set_value((2, 1), text("the charge"));
    let layout = Layout {
        fauf_row: 1,
        fauf_col: 2,
        charge_row: 2,
        charge_col: 1,
        modul_range_row: 0,
        modul_range_column: 3,
    };
    let outcome = load_sheet(&sheet("s", Some(cells)), &layout);
    assert_eq!(outcome, Outcome::Loaded(lot("s", "the fauf", "the charge", &[])));
}

#[test]
fn sheet_position_of_a_lower_range_is_not_looked_up() {
    // The numbers stand in row 3 of the sheet, which is row 1 of the range.
    let mut cells: Range<Data> = Range::new((2, 0), (5, 7));
    cells.set_value((3, 0), text("TC03909P0"));
    cells.set_value((3, 1), text("82036419"));
    let mut layout = usual();
    layout.charge_row = 3;
    layout.fauf_row = 3;
    let outcome = load_sheet(&sheet("41", Some(cells)), &layout);
    assert_eq!(outcome, Outcome::Skipped(SkipReason::EmptyCharge));
}

#[test]
fn row_stored_below_the_height_is_used_but_not_looked_up() {
    let mut cells: Range<Data> = Range::new((0, 0), (0, 0));
    cells.set_value((0, 0), text("C"));
    cells.set_value((1, 0), text("F"));
    // The range now stores three rows and is two rows high.
    cells[2][0] = text("below");
    assert_eq!(cells.height(), 2);
    assert_eq!(cells.used_cells().count(), 3);
    let serials_from_the_top = Layout {
        fauf_row: 1,
        fauf_col: 0,
        charge_row: 0,
        charge_col: 0,
        modul_range_row: 0,
        modul_range_column: 0,
    };
    assert_eq!(
        load_sheet(&sheet("s", Some(cells.clone())), &serials_from_the_top),
        Outcome::Loaded(lot("s", "F", "C", &["C", "F", "below"]))
    );
    let mut fauf_below = serials_from_the_top;
    fauf_below.fauf_row = 2;
    assert_eq!(
        load_sheet(&sheet("s", Some(cells)), &fauf_below),
        Outcome::Skipped(SkipReason::EmptyFauf)
    );
}

#[test]
fn workbook_gives_lots_in_the_order_of_the_request() {
    let sheets = vec![
        sheet("41", Some(filled(text("C1"), text("F1"), vec![text("a")]))),
        sheet("nope", None),
        sheet("43", Some(filled(Data::Empty, text("F3"), vec![]))),
        sheet("44", Some(filled(text("C4"), Data::Empty, vec![]))),
        sheet("45", Some(filled(text("C5"), text("F5"), vec![text("b"), text("c")]))),
    ];
    let loaded = load_workbook(&sheets, &usual());
    assert_eq!(
        loaded,
        Ok(Loaded {
            lots: vec![lot("41", "F1", "C1", &["a"]), lot("45", "F5", "C5", &["b", "c"])],
            skipped: vec![
                Skipped { sheet: 1, reason: SkipReason::MissingSheet },
                Skipped { sheet: 2, reason: SkipReason::EmptyCharge },
                Skipped { sheet: 3, reason: SkipReason::EmptyFauf },
            ],
        })
    );
}

#[test]
fn workbook_without_the_requested_sheets_gives_no_lot() {
    let sheets = vec![sheet("a", None), sheet("b", None)];
    let loaded = load_workbook(&sheets, &usual()).unwrap();
    assert!(loaded.lots.is_empty());
    assert_eq!(loaded.skipped.len(), 2);
}

#[test]
fn no_request_gives_nothing() {
    let loaded = load_workbook(&[], &usual());
    assert_eq!(loaded, Ok(Loaded { lots: vec![], skipped: vec![] }));
}

#[test]
fn first_failing_sheet_fails_the_workbook() {
    let sheets = vec![
        sheet("41", Some(filled(text("C1"), text("F1"), vec![]))),
        sheet("42", None),
        sheet("43", Some(filled(text("C3"), text("F3"), vec![Data::Bool(true)]))),
        sheet("44", Some(filled(Data::Bool(true), text("F4"), vec![]))),
    ];
    let loaded = load_workbook(&sheets, &usual());
    assert_eq!(loaded, Err(LoadError { sheet: 2, field: Field::Serial { row: 1 } }));
}

#[test]
fn same_sheet_twice_gives_two_lots() {
    let sheets = vec![
        sheet("41", Some(filled(text("C1"), text("F1"), vec![]))),
        sheet("41", Some(filled(text("C1"), text("F1"), vec![]))),
    ];
    let loaded = load_workbook(&sheets, &usual()).unwrap();
    assert_eq!(loaded.lots, vec![lot("41", "F1", "C1", &[]), lot("41", "F1", "C1", &[])]);
}

#[test]
fn read_number_tells_the_cells_apart() {
    assert_eq!(read_number(None), Number::Missing);
    assert_eq!(read_number(Some(Cell::Empty)), Number::Missing);
    assert_eq!(read_number(Some(Cell::Text(String::new()))), Number::Missing);
    assert_eq!(read_number(Some(Cell::Text("82036419".to_string()))), Number::Given("82036419".to_string()));
    assert_eq!(read_number(Some(Cell::NoText)), Number::Unreadable);
}

#[test]
fn collect_serials_keeps_the_region_in_order() {
    let used = vec![
        UsedCell { row: 0, col: 6, cell: Cell::Text("head".to_string()) },
        UsedCell { row: 1, col: 0, cell: Cell::NoText },
        UsedCell { row: 1, col: 6, cell: Cell::Text("x".to_string()) },
        UsedCell { row: 2, col: 6, cell: Cell::Text("y".to_string()) },
        UsedCell { row: 2, col: 7, cell: Cell::Text("z".to_string()) },
    ];
    assert_eq!(collect_serials(&used, 1, 6), Ok(vec!["x".to_string(), "y".to_string()]));
    assert_eq!(collect_serials(&used, 2, 6), Ok(vec!["y".to_string()]));
    assert_eq!(collect_serials(&used, 3, 6), Ok(vec![]));
    assert_eq!(collect_serials(&used, 0, 0), Err(1));
    assert_eq!(collect_serials(&Vec::new(), 1, 6), Ok(vec![]));
}

#[test]
fn collect_serials_names_the_first_cell_without_text() {
    let used = vec![
        UsedCell { row: 1, col: 6, cell: Cell::Text("x".to_string()) },
        UsedCell { row: 3, col: 6, cell: Cell::NoText },
        UsedCell { row: 4, col: 6, cell: Cell::Empty },
    ];
    assert_eq!(collect_serials(&used, 1, 6), Err(3));
    assert_eq!(collect_serials(&used, 4, 6), Err(4));
}

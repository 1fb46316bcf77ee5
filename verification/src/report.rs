//! The two reports that are made of a run of lots.

use crate::lot::{Lot, LotView};
use crate::text::{
    decimal, decimal_value, joined, law_decimal_reads_back, law_line_breaks_add, line_breaks,
    push_decimal, push_joined,
};
use vstd::prelude::*;
use vstd::seq_lib::lemma_flatten_concat;
use vstd::utf8::encode_utf8;
use vstd::string::StringExecFns;

verus! {

/// The line of the list for one lot: its FAUF number, a dash, its charge
/// number.
pub open spec fn list_line(lot: LotView) -> Seq<char> {
    lot.fauf + " - "@ + lot.charge + "\n"@
}

/// The list: the line of every lot, in the order of the lots.
pub open spec fn list_text(lots: Seq<LotView>) -> Seq<char> {
    lots.map_values(|lot: LotView| list_line(lot)).flatten()
}

/// The block of the script for one lot: three lines of comment with the
/// sheet, the charge number and the number of serial numbers, then the
/// call that moves the items, with the FAUF number and the serial numbers
/// joined by commas, then an empty line. Nothing is quoted or escaped.
pub open spec fn sql_block(lot: LotView) -> Seq<char> {
    "--sheet: "@ + lot.sheet + "\n--charge: "@ + lot.charge + "\n--item count: "@ + decimal(
        lot.serials.len(),
    ) + "\nEXEC [dbo].[DDS_MoveItemsFromFaufToFauf]\n\t@FAUF = '"@ + lot.fauf
        + "',\n\t@MODUL = '"@ + joined(lot.serials, ","@) + "';\n\n"@
}

/// The script: the block of every lot, in the order of the lots.
pub open spec fn sql_text(lots: Seq<LotView>) -> Seq<char> {
    lots.map_values(|lot: LotView| sql_block(lot)).flatten()
}

/// Writes the list of FAUF and charge numbers.
pub fn create_list(lots: &[Lot]) -> (res: String)
    ensures
        res@ == list_text(lots.deep_view()),
{
    let ghost all = lots.deep_view();
    let ghost line = |lot: LotView| list_line(lot);
    let mut res = String::new();
    let mut i: usize = 0;
    assert(all.take(0).map_values(line) =~= Seq::<Seq<char>>::empty());
    while i < lots.len()
        invariant
            0 <= i <= lots.len(),
            all == lots.deep_view(),
            line == |lot: LotView| list_line(lot),
            res@ == all.take(i as int).map_values(line).flatten(),
        decreases lots.len() - i,
    {
        let ghost done = all.take(i as int).map_values(line);
        let lot = &lots[i];
        res.append(lot.fauf.as_str());
        res.append(" - ");
        res.append(lot.charge.as_str());
        res.append("\n");
        proof {
            assert(all[i as int] == lot@);
            assert(all.take(i as int + 1).map_values(line) =~= done.push(list_line(lot@)));
            done.lemma_flatten_push(list_line(lot@));
            assert(res@ =~= done.flatten() + list_line(lot@));
        }
        i += 1;
    }
    assert(all.take(i as int) =~= all);
    res
}

/// Writes the script that moves the items of every lot.
pub fn create_sql(lots: &[Lot]) -> (script: String)
    ensures
        script@ == sql_text(lots.deep_view()),
{
    let ghost all = lots.deep_view();
    let ghost block = |lot: LotView| sql_block(lot);
    let mut exec = String::new();
    let mut i: usize = 0;
    assert(all.take(0).map_values(block) =~= Seq::<Seq<char>>::empty());
    while i < lots.len()
        invariant
            0 <= i <= lots.len(),
            all == lots.deep_view(),
            block == |lot: LotView| sql_block(lot),
            exec@ == all.take(i as int).map_values(block).flatten(),
        decreases lots.len() - i,
    {
        let ghost done = all.take(i as int).map_values(block);
        let lot = &lots[i];
        exec.append("--sheet: ");
        exec.append(lot.sheet.as_str());
        exec.append("\n--charge: ");
        exec.append(lot.charge.as_str());
        exec.append("\n--item count: ");
        push_decimal(&mut exec, lot.serials.len());
        exec.append("\nEXEC [dbo].[DDS_MoveItemsFromFaufToFauf]\n\t@FAUF = '");
        exec.append(lot.fauf.as_str());
        exec.append("',\n\t@MODUL = '");
        push_joined(&mut exec, &lot.serials, ",");
        exec.append("';\n\n");
        proof {
            assert(all[i as int] == lot@);
            assert(lot@.serials.len() == lot.serials.len());
            assert(all.take(i as int + 1).map_values(block) =~= done.push(sql_block(lot@)));
            done.lemma_flatten_push(sql_block(lot@));
            assert(exec@ =~= done.flatten() + sql_block(lot@));
        }
        i += 1;
    }
    assert(all.take(i as int) =~= all);
    exec
}

/// The script holds one block for every lot, in the order of the lots:
/// the block of a lot stands right behind the script of the lots before
/// it, and the script of the lots after it follows.
pub proof fn law_sql_block_per_lot(lots: Seq<LotView>, i: int)
    requires
        0 <= i < lots.len(),
    ensures
        sql_text(lots) == sql_text(lots.take(i)) + sql_block(lots[i]) + sql_text(lots.skip(i + 1)),
{
    let block = |lot: LotView| sql_block(lot);
    let before = lots.take(i).map_values(block);
    let after = lots.skip(i + 1).map_values(block);
    assert(lots.map_values(block) =~= before + seq![sql_block(lots[i])] + after);
    lemma_flatten_concat(before + seq![sql_block(lots[i])], after);
    lemma_flatten_concat(before, seq![sql_block(lots[i])]);
    seq![sql_block(lots[i])].lemma_flatten_one_element();
}

/// The list holds one line for every lot, in the order of the lots: the
/// line of a lot stands right behind the list of the lots before it, and
/// the list of the lots after it follows.
pub proof fn law_list_line_per_lot(lots: Seq<LotView>, i: int)
    requires
        0 <= i < lots.len(),
    ensures
        list_text(lots) == list_text(lots.take(i)) + list_line(lots[i]) + list_text(
            lots.skip(i + 1),
        ),
{
    let line = |lot: LotView| list_line(lot);
    let before = lots.take(i).map_values(line);
    let after = lots.skip(i + 1).map_values(line);
    assert(lots.map_values(line) =~= before + seq![list_line(lots[i])] + after);
    lemma_flatten_concat(before + seq![list_line(lots[i])], after);
    lemma_flatten_concat(before, seq![list_line(lots[i])]);
    seq![list_line(lots[i])].lemma_flatten_one_element();
}

/// Two scripts that [`create_sql`] wrote for the same lots are the same,
/// character by character and byte by byte.
pub proof fn law_sql_is_repeatable(lots: Seq<LotView>, first: Seq<char>, second: Seq<char>)
    requires
        first == sql_text(lots),
        second == sql_text(lots),
    ensures
        first == second,
        encode_utf8(first) == encode_utf8(second),
{
}

/// Where no FAUF number and no charge number holds a line break, the list
/// has as many lines as there are lots.
pub proof fn law_list_line_count(lots: Seq<LotView>)
    requires
        forall|i: int|
            0 <= i < lots.len() ==> line_breaks((#[trigger] lots[i]).fauf) == 0 && line_breaks(
                lots[i].charge,
            ) == 0,
    ensures
        line_breaks(list_text(lots)) == lots.len(),
    decreases lots.len(),
{
    let line = |lot: LotView| list_line(lot);
    if lots.len() == 0 {
        assert(lots.map_values(line) =~= Seq::<Seq<char>>::empty());
    } else {
        let last = lots.last();
        let front = lots.drop_last();
        assert forall|i: int| 0 <= i < front.len() implies line_breaks((#[trigger] front[i]).fauf)
            == 0 && line_breaks(front[i].charge) == 0 by {
            assert(front[i] == lots[i]);
        }
        law_list_line_count(front);
        assert(lots.map_values(line) =~= front.map_values(line).push(list_line(last)));
        front.map_values(line).lemma_flatten_push(list_line(last));
        law_line_breaks_add(list_text(front), list_line(last));
        reveal_strlit(" - ");
        reveal_strlit("\n");
        let dash = " - "@;
        let end = "\n"@;
        assert(line_breaks(dash) == 0) by {
            reveal_with_fuel(line_breaks, 4);
        }
        assert(line_breaks(end) == 1) by {
            reveal_with_fuel(line_breaks, 2);
        }
        law_line_breaks_add(last.fauf, dash);
        law_line_breaks_add(last.fauf + dash, last.charge);
        law_line_breaks_add(last.fauf + dash + last.charge, end);
    }
}

/// The count that a block gives is the number of the lot's serial
/// numbers: the digits between `--item count: ` and the end of that line
/// stand for it. The parameter `@MODUL` is the serial numbers joined by
/// commas, between the two quotes.
pub proof fn law_sql_block_parts(lot: LotView)
    ensures
        sql_block(lot) == "--sheet: "@ + lot.sheet + "\n--charge: "@ + lot.charge
            + "\n--item count: "@ + decimal(lot.serials.len()) + (
        "\nEXEC [dbo].[DDS_MoveItemsFromFaufToFauf]\n\t@FAUF = '"@ + lot.fauf
            + "',\n\t@MODUL = '"@ + joined(lot.serials, ","@) + "';\n\n"@),
        decimal_value(decimal(lot.serials.len())) == Some(lot.serials.len()),
        "\nEXEC [dbo].[DDS_MoveItemsFromFaufToFauf]\n\t@FAUF = '"@[0] == '\n',
        "',\n\t@MODUL = '"@.last() == '\'',
        "';\n\n"@[0] == '\'',
{
    law_decimal_reads_back(lot.serials.len());
    reveal_strlit("\nEXEC [dbo].[DDS_MoveItemsFromFaufToFauf]\n\t@FAUF = '");
    reveal_strlit("',\n\t@MODUL = '");
    reveal_strlit("';\n\n");
    let head = "--sheet: "@ + lot.sheet + "\n--charge: "@ + lot.charge + "\n--item count: "@
        + decimal(lot.serials.len());
    let call = "\nEXEC [dbo].[DDS_MoveItemsFromFaufToFauf]\n\t@FAUF = '"@;
    assert(sql_block(lot) =~= head + (call + lot.fauf + "',\n\t@MODUL = '"@ + joined(
        lot.serials,
        ","@,
    ) + "';\n\n"@));
}

} // verus!

//! Plain tables: every column as wide as its widest cell, two spaces between
//! columns, nothing behind the last.

use crate::text::{group_views, push_spaces, spaces, views};
use vstd::prelude::*;
use vstd::string::*;
use vstd::utf8::*;

verus! {

/// The length of a text in bytes.
pub open spec fn byte_len(text: Seq<char>) -> nat {
    encode_utf8(text).len()
}

/// The length of a text in bytes.
pub fn text_bytes(text: &str) -> (length: usize)
    ensures
        length == byte_len(text@),
{
    text.as_bytes().len()
}

/// The cells of rows.
pub open spec fn grid(rows: Seq<Vec<String>>) -> Seq<Seq<Seq<char>>> {
    rows.map_values(|row: Vec<String>| views(row@))
}

/// The width of a column: the length of its longest cell.
pub open spec fn column_width(rows: Seq<Seq<Seq<char>>>, column: int) -> nat
    decreases rows.len(),
{
    if rows.len() == 0 {
        0
    } else {
        let before = column_width(rows.drop_last(), column);
        let own = byte_len(rows.last()[column]);
        if own > before {
            own
        } else {
            before
        }
    }
}

/// The first `count` cells of a row, each but the row's last padded to two
/// spaces beyond the width of its column.
pub open spec fn row_text(rows: Seq<Seq<Seq<char>>>, row: Seq<Seq<char>>, count: int) -> Seq<char>
    decreases count,
{
    if count <= 0 {
        Seq::empty()
    } else {
        let cell = row[count - 1];
        let before = row_text(rows, row, count - 1) + cell;
        if count == row.len() {
            before
        } else {
            before + spaces((column_width(rows, count - 1) - byte_len(cell)) as nat) + spaces(2)
        }
    }
}

/// The first `count` rows of a table, each on its line.
pub open spec fn table_text(rows: Seq<Seq<Seq<char>>>, count: int) -> Seq<char>
    decreases count,
{
    if count <= 0 {
        Seq::empty()
    } else {
        table_text(rows, count - 1) + row_text(rows, rows[count - 1], rows[count - 1].len() as int)
            + "\n"@
    }
}

/// A column is at least as wide as each of its cells.
pub proof fn lemma_column_width(rows: Seq<Seq<Seq<char>>>, column: int, index: int)
    requires
        0 <= index < rows.len(),
    ensures
        byte_len(rows[index][column]) <= column_width(rows, column),
    decreases rows.len(),
{
    if index < rows.len() - 1 {
        lemma_column_width(rows.drop_last(), column, index);
        assert(rows.drop_last()[index] == rows[index]);
    }
}

fn width_of(rows: &Vec<Vec<String>>, column: usize) -> (width: usize)
    requires
        forall|r: int| 0 <= r < rows@.len() ==> column < (#[trigger] rows@[r])@.len(),
    ensures
        width == column_width(grid(rows@), column as int),
{
    broadcast use group_views;

    let ghost cells = grid(rows@);
    let mut width: usize = 0;
    let mut index: usize = 0;
    while index < rows.len()
        invariant
            index <= rows@.len(),
            cells == grid(rows@),
            forall|r: int| 0 <= r < rows@.len() ==> column < (#[trigger] rows@[r])@.len(),
            width == column_width(cells.take(index as int), column as int),
        decreases rows@.len() - index,
    {
        assert(cells.take(index as int + 1).drop_last() =~= cells.take(index as int));
        assert(cells.take(index as int + 1).last() == views(rows@[index as int]@));
        let own: usize = text_bytes(rows[index][column].as_str());
        if own > width {
            width = own;
        }
        index += 1;
    }
    assert(cells.take(index as int) =~= cells);
    width
}

/// Appends a table.
pub fn push_table(output: &mut String, rows: &Vec<Vec<String>>, columns: usize)
    requires
        forall|r: int| 0 <= r < rows@.len() ==> (#[trigger] rows@[r])@.len() == columns,
    ensures
        final(output)@ == old(output)@ + table_text(grid(rows@), rows@.len() as int),
{
    broadcast use group_views;

    let ghost cells = grid(rows@);
    let ghost start = output@;
    let mut widths: Vec<usize> = Vec::new();
    let mut column: usize = 0;
    while column < columns
        invariant
            column <= columns,
            widths@.len() == column,
            cells == grid(rows@),
            forall|r: int| 0 <= r < rows@.len() ==> (#[trigger] rows@[r])@.len() == columns,
            forall|c: int|
                0 <= c < column ==> #[trigger] widths@[c] == column_width(cells, c),
        decreases columns - column,
    {
        widths.push(width_of(rows, column));
        column += 1;
    }
    let mut index: usize = 0;
    assert(start + table_text(cells, 0) =~= start);
    while index < rows.len()
        invariant
            index <= rows@.len(),
            widths@.len() == columns,
            cells == grid(rows@),
            forall|r: int| 0 <= r < rows@.len() ==> (#[trigger] rows@[r])@.len() == columns,
            forall|c: int|
                0 <= c < columns ==> #[trigger] widths@[c] == column_width(cells, c),
            output@ == start + table_text(cells, index as int),
        decreases rows@.len() - index,
    {
        let row = &rows[index];
        let ghost texts = views(row@);
        let ghost before = output@;
        assert(cells[index as int] == texts);
        let mut column: usize = 0;
        assert(before + row_text(cells, texts, 0) =~= before);
        while column < columns
            invariant
                column <= columns,
                index < rows@.len(),
                row@.len() == columns,
                texts == views(row@),
                cells == grid(rows@),
                cells[index as int] == texts,
                cells.len() == rows@.len(),
                widths@.len() == columns,
                forall|c: int|
                    0 <= c < columns ==> #[trigger] widths@[c] == column_width(cells, c),
                output@ == before + row_text(cells, texts, column as int),
            decreases columns - column,
        {
            let value = row[column].as_str();
            assert(texts[column as int] == value@);
            let ghost held = output@;
            output.append(value);
            if column + 1 != columns {
                proof {
                    lemma_column_width(cells, column as int, index as int);
                }
                push_spaces(output, widths[column] - text_bytes(value));
                push_spaces(output, 2);
            }
            column += 1;
            assert(output@ =~= before + row_text(cells, texts, column as int));
        }
        output.append("\n");
        index += 1;
        assert(output@ =~= start + table_text(cells, index as int));
    }
}

} // verus!

//! Pipe-delimited tables: what their lines hold, how wide their columns are,
//! and how they are written out again with every column aligned.

use vstd::prelude::*;
use crate::seqs::views;
use crate::scan::{lines_of, pieces, split, split_lines, strip, stripped, unlines, Trim};

verus! {

/// The cells of a table line: the line without the pipes at its two ends,
/// cut at every pipe that is left, each piece without the white space at its
/// two ends.
pub open spec fn cells_of(line: Seq<char>) -> Seq<Seq<char>> {
    pieces(stripped(line, Trim::Pipes), '|').map_values(
        |cell: Seq<char>| stripped(cell, Trim::WhiteSpace),
    )
}

/// The lengths of the cells, one for each.
pub open spec fn lengths(cells: Seq<Seq<char>>) -> Seq<nat> {
    cells.map_values(|cell: Seq<char>| cell.len())
}

/// The widths after a row has been taken into account: a column grows to the
/// length of the row's cell in that column if that is longer. Cells beyond
/// the last column count for nothing, and a column for which the row has no
/// cell keeps its width.
pub open spec fn widened(widths: Seq<nat>, cells: Seq<Seq<char>>) -> Seq<nat> {
    Seq::new(
        widths.len(),
        |i: int|
            if i < cells.len() && cells[i].len() > widths[i] {
                cells[i].len()
            } else {
                widths[i]
            },
    )
}

/// The widths of the columns of a table: as many as there are headers, each
/// the greatest length among the header and the cells of that column.
pub open spec fn column_widths(headers: Seq<Seq<char>>, rows: Seq<Seq<Seq<char>>>) -> Seq<nat>
    decreases rows.len(),
{
    if rows.len() == 0 {
        lengths(headers)
    } else {
        widened(column_widths(headers, rows.drop_last()), rows.last())
    }
}

/// `n` times the character `c`.
pub open spec fn fill(c: char, n: nat) -> Seq<char> {
    Seq::new(n, |i: int| c)
}

/// How many characters a cell lacks to be `width` long.
pub open spec fn shortfall(cell: Seq<char>, width: nat) -> nat {
    if width > cell.len() {
        (width - cell.len()) as nat
    } else {
        0
    }
}

/// A cell as it stands between two pipes: a space, the cell, spaces up to
/// the width of its column, and a space.
pub open spec fn padded_cell(cell: Seq<char>, width: nat) -> Seq<char> {
    seq![' '] + cell + fill(' ', shortfall(cell, width)) + seq![' ']
}

/// A cell as it is written in a row: padded, and a pipe behind it.
pub open spec fn cell_text(cell: Seq<char>, width: nat) -> Seq<char> {
    padded_cell(cell, width).push('|')
}

/// The cells of a row one after the other, as far as there are columns.
pub open spec fn cells_text(cells: Seq<Seq<char>>, widths: Seq<nat>) -> Seq<char>
    decreases cells.len(),
{
    if cells.len() == 0 {
        Seq::empty()
    } else if cells.len() <= widths.len() {
        cells_text(cells.drop_last(), widths) + cell_text(cells.last(), widths[cells.len() - 1])
    } else {
        cells_text(cells.drop_last(), widths)
    }
}

/// A row as it is written, without the line feed at its end: a pipe, then
/// its cells.
pub open spec fn row_line(cells: Seq<Seq<char>>, widths: Seq<nat>) -> Seq<char> {
    seq!['|'] + cells_text(cells, widths)
}

/// The columns of the separator row: for each, dashes two more than its
/// width, and a pipe.
pub open spec fn rule_cells(widths: Seq<nat>) -> Seq<char>
    decreases widths.len(),
{
    if widths.len() == 0 {
        Seq::empty()
    } else {
        rule_cells(widths.drop_last()) + fill('-', widths.last() + 2) + seq!['|']
    }
}

/// The separator row as it is written, without the line feed at its end.
pub open spec fn rule_line(widths: Seq<nat>) -> Seq<char> {
    seq!['|'] + rule_cells(widths)
}

/// How many lines of a table are rows: all but the first two.
pub open spec fn row_count(lines: Seq<Seq<char>>) -> nat {
    if lines.len() > 2 {
        (lines.len() - 2) as nat
    } else {
        0
    }
}

/// The rows of a table: the cells of each line from the third on.
pub open spec fn data_rows(lines: Seq<Seq<char>>) -> Seq<Seq<Seq<char>>> {
    Seq::new(row_count(lines), |r: int| cells_of(lines[r + 2]))
}

/// The lines of an aligned table: the header row, the separator row, and
/// the rows in their order.
pub open spec fn table_lines(
    headers: Seq<Seq<char>>,
    rows: Seq<Seq<Seq<char>>>,
    widths: Seq<nat>,
) -> Seq<Seq<char>> {
    seq![row_line(headers, widths), rule_line(widths)] + rows.map_values(
        |row: Seq<Seq<char>>| row_line(row, widths),
    )
}

/// A table written with its columns aligned: the header row, the separator
/// row and the rows, each column as wide as its longest cell, each line
/// ended by a line feed.
pub open spec fn aligned_table(headers: Seq<Seq<char>>, rows: Seq<Seq<Seq<char>>>) -> Seq<char> {
    unlines(table_lines(headers, rows, column_widths(headers, rows)))
}

/// A table text with its columns aligned. A text of fewer than two lines is
/// left as it is. Otherwise the first line gives the headers and with them
/// the number of columns, the second line is passed over, and every further
/// line is a row.
pub open spec fn formatted_table(text: Seq<char>) -> Seq<char> {
    let lines = lines_of(text);
    if lines.len() < 2 {
        text
    } else {
        aligned_table(cells_of(lines[0]), data_rows(lines))
    }
}

/// The widths held in machine integers, as numbers.
pub open spec fn measures(widths: Seq<usize>) -> Seq<nat> {
    widths.map_values(|width: usize| width as nat)
}

/// The rows held in vectors, as sequences of cells.
pub open spec fn grid(rows: Seq<Vec<Vec<char>>>) -> Seq<Seq<Seq<char>>> {
    rows.map_values(|row: Vec<Vec<char>>| views(row@))
}

/// Reads the cells of a table line.
pub fn parse_cells(line: &Vec<char>) -> (cells: Vec<Vec<char>>)
    ensures
        views(cells@) == cells_of(line@),
{
    let inner = strip(line, Trim::Pipes);
    let parts = split(&inner, '|');
    let mut cells: Vec<Vec<char>> = Vec::new();
    let mut i: usize = 0;
    while i < parts.len()
        invariant
            i <= parts.len(),
            cells@.len() == i,
            forall|j: int|
                0 <= j < i ==> (#[trigger] cells@[j])@ == stripped(parts@[j]@, Trim::WhiteSpace),
        decreases parts.len() - i,
    {
        cells.push(strip(&parts[i], Trim::WhiteSpace));
        i += 1;
    }
    assert(views(cells@) == views(parts@).map_values(
        |cell: Seq<char>| stripped(cell, Trim::WhiteSpace),
    ));
    cells
}

/// The lengths of the cells.
pub fn cell_lengths(cells: &Vec<Vec<char>>) -> (widths: Vec<usize>)
    ensures
        measures(widths@) == lengths(views(cells@)),
{
    let mut widths: Vec<usize> = Vec::new();
    let mut i: usize = 0;
    while i < cells.len()
        invariant
            i <= cells.len(),
            widths@.len() == i,
            forall|j: int| 0 <= j < i ==> #[trigger] widths@[j] == cells@[j]@.len(),
        decreases cells.len() - i,
    {
        widths.push(cells[i].len());
        i += 1;
    }
    assert(measures(widths@) == lengths(views(cells@)));
    widths
}

/// Widens the columns to hold the cells of one more row.
pub fn widen(widths: &mut Vec<usize>, cells: &Vec<Vec<char>>)
    ensures
        measures(final(widths)@) == widened(measures(old(widths)@), views(cells@)),
{
    let ghost before = widths@;
    let mut i: usize = 0;
    while i < cells.len() && i < widths.len()
        invariant
            widths@.len() == before.len(),
            forall|j: int|
                0 <= j < i && j < widths@.len() ==> #[trigger] widths@[j] as nat == widened(
                    measures(before),
                    views(cells@),
                )[j],
            forall|j: int| i <= j < widths@.len() ==> #[trigger] widths@[j] == before[j],
        decreases cells.len() - i,
    {
        let length = cells[i].len();
        if length > widths[i] {
            widths[i] = length;
        }
        i += 1;
    }
    assert(measures(widths@) == widened(measures(before), views(cells@)));
}

/// Appends the characters of `s` to `out`.
fn push_all(out: &mut Vec<char>, s: &Vec<char>)
    ensures
        final(out)@ == old(out)@ + s@,
{
    let ghost before = out@;
    let mut i: usize = 0;
    while i < s.len()
        invariant
            i <= s.len(),
            out@ == before + s@.take(i as int),
        decreases s.len() - i,
    {
        out.push(s[i]);
        i += 1;
    }
    assert(s@.take(i as int) == s@);
}

/// Appends `n` times the character `c` to `out`.
fn push_fill(out: &mut Vec<char>, c: char, n: usize)
    ensures
        final(out)@ == old(out)@ + fill(c, n as nat),
{
    let ghost before = out@;
    let mut i: usize = 0;
    while i < n
        invariant
            i <= n,
            out@ == before + fill(c, i as nat),
        decreases n - i,
    {
        out.push(c);
        i += 1;
    }
}

/// Appends a row to `out`.
pub fn push_row(out: &mut Vec<char>, cells: &Vec<Vec<char>>, widths: &Vec<usize>)
    ensures
        final(out)@ == old(out)@ + row_line(views(cells@), measures(widths@)).push('\n'),
{
    let ghost before = out@;
    let ghost all = views(cells@);
    let ghost wide = measures(widths@);
    out.push('|');
    let mut i: usize = 0;
    while i < cells.len()
        invariant
            i <= cells.len(),
            all == views(cells@),
            wide == measures(widths@),
            out@ == before + seq!['|'] + cells_text(all.take(i as int), wide),
        decreases cells.len() - i,
    {
        let ghost sofar = out@;
        assert(all.take(i as int + 1).drop_last() == all.take(i as int));
        if i < widths.len() {
            let cell = &cells[i];
            let width = widths[i];
            out.push(' ');
            push_all(out, cell);
            if width > cell.len() {
                push_fill(out, ' ', width - cell.len());
            }
            out.push(' ');
            out.push('|');
            assert(out@ == sofar + cell_text(all[i as int], wide[i as int]));
        }
        i += 1;
    }
    assert(all.take(i as int) == all);
    out.push('\n');
}

/// Appends the separator row to `out`.
pub fn push_rule(out: &mut Vec<char>, widths: &Vec<usize>)
    ensures
        final(out)@ == old(out)@ + rule_line(measures(widths@)).push('\n'),
{
    let ghost before = out@;
    let ghost wide = measures(widths@);
    out.push('|');
    let mut i: usize = 0;
    while i < widths.len()
        invariant
            i <= widths.len(),
            wide == measures(widths@),
            out@ == before + seq!['|'] + rule_cells(wide.take(i as int)),
        decreases widths.len() - i,
    {
        let ghost sofar = out@;
        assert(wide.take(i as int + 1).drop_last() == wide.take(i as int));
        push_fill(out, '-', widths[i]);
        out.push('-');
        out.push('-');
        out.push('|');
        assert(out@ == sofar + fill('-', wide[i as int] + 2) + seq!['|']);
        i += 1;
    }
    assert(wide.take(i as int) == wide);
    out.push('\n');
}

/// Reads the rows of a table: the cells of each line from the third on.
pub fn parse_rows(lines: &Vec<Vec<char>>) -> (rows: Vec<Vec<Vec<char>>>)
    ensures
        grid(rows@) == data_rows(views(lines@)),
{
    let mut rows: Vec<Vec<Vec<char>>> = Vec::new();
    let mut i: usize = 2;
    while i < lines.len()
        invariant
            2 <= i,
            i == 2 || i <= lines.len(),
            rows@.len() == i - 2,
            forall|j: int|
                0 <= j < rows@.len() ==> views((#[trigger] rows@[j])@) == cells_of(lines@[j + 2]@),
        decreases lines.len() - i,
    {
        rows.push(parse_cells(&lines[i]));
        i += 1;
    }
    assert(grid(rows@).len() == data_rows(views(lines@)).len());
    assert forall|j: int| 0 <= j < rows@.len() implies grid(rows@)[j] == data_rows(
        views(lines@),
    )[j] by {
        assert(views(rows@[j]@) == cells_of(lines@[j + 2]@));
        assert(views(lines@)[j + 2] == lines@[j + 2]@);
    }
    assert(grid(rows@) == data_rows(views(lines@)));
    rows
}

/// Measures the columns of a table.
pub fn measure_columns(headers: &Vec<Vec<char>>, rows: &Vec<Vec<Vec<char>>>) -> (widths: Vec<usize>)
    ensures
        measures(widths@) == column_widths(views(headers@), grid(rows@)),
{
    let mut widths = cell_lengths(headers);
    let ghost table = grid(rows@);
    let mut i: usize = 0;
    while i < rows.len()
        invariant
            i <= rows.len(),
            table == grid(rows@),
            measures(widths@) == column_widths(views(headers@), table.take(i as int)),
        decreases rows.len() - i,
    {
        assert(table.take(i as int + 1).drop_last() == table.take(i as int));
        widen(&mut widths, &rows[i]);
        i += 1;
    }
    assert(table.take(i as int) == table);
    widths
}

/// Writes a table with its columns aligned.
pub fn render_table(headers: &Vec<Vec<char>>, rows: &Vec<Vec<Vec<char>>>) -> (written: Vec<char>)
    ensures
        written@ == aligned_table(views(headers@), grid(rows@)),
{
    let widths = measure_columns(headers, rows);
    let ghost table = grid(rows@);
    let ghost wide = measures(widths@);
    let ghost lines = table_lines(views(headers@), table, wide);
    let mut out: Vec<char> = Vec::new();
    push_row(&mut out, headers, &widths);
    push_rule(&mut out, &widths);
    assert(out@ == unlines(lines.take(2))) by {
        assert(lines.take(2) == seq![row_line(views(headers@), wide), rule_line(wide)]);
        assert(lines.take(2).drop_last() == seq![row_line(views(headers@), wide)]);
        assert(lines.take(2).drop_last().drop_last() == Seq::<Seq<char>>::empty());
        reveal_with_fuel(unlines, 3);
    }
    let mut k: usize = 0;
    while k < rows.len()
        invariant
            k <= rows.len(),
            table == grid(rows@),
            wide == measures(widths@),
            lines == table_lines(views(headers@), table, wide),
            out@ == unlines(lines.take(k as int + 2)),
        decreases rows.len() - k,
    {
        assert(lines.take(k as int + 3).drop_last() == lines.take(k as int + 2));
        assert(lines[k as int + 2] == row_line(table[k as int], wide));
        push_row(&mut out, &rows[k], &widths);
        k += 1;
    }
    assert(lines.take(k as int + 2) == lines);
    out
}

/// Aligns the columns of a table text. A text of fewer than two lines comes
/// back unchanged.
pub fn format_chars(text: &Vec<char>) -> (formatted: Vec<char>)
    ensures
        formatted@ == formatted_table(text@),
        lines_of(text@).len() < 2 ==> formatted@ == text@,
{
    let lines = split_lines(text);
    if lines.len() < 2 {
        return text.clone();
    }
    let headers = parse_cells(&lines[0]);
    let rows = parse_rows(&lines);
    render_table(&headers, &rows)
}

} // verus!

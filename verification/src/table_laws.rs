//! What holds of aligned tables: how wide the columns are, what a written
//! row is read back as, and that aligning an aligned table changes nothing.

use vstd::prelude::*;
use crate::chars::is_white_space;
use crate::seqs::first_few;
use crate::scan::{
    free_of, is_trimmed, joined, lines_of, pieces, stripped, unlines, without_carriage_return,
    Trim,
};
use crate::scan_laws::{
    lemma_joined_ends, lemma_lines_free, lemma_lines_of_unlines, lemma_pieces_free,
    lemma_pieces_joined, lemma_pieces_keep_free, lemma_pieces_nonempty, lemma_stripped,
    lemma_stripped_framed, lemma_stripped_keeps_free,
};
use crate::table::{
    cell_text, cells_of, cells_text, column_widths, data_rows, fill, formatted_table,
    padded_cell, row_line, rule_cells, rule_line, shortfall, table_lines, widened,
};

verus! {

/// The cells of a row that are written, each as it stands between two
/// pipes.
pub open spec fn padded_cells(cells: Seq<Seq<char>>, widths: Seq<nat>) -> Seq<Seq<char>> {
    Seq::new(
        first_few(cells, widths.len()).len(),
        |i: int| padded_cell(cells[i], widths[i]),
    )
}

/// Whether every cell is trimmed of white space and holds neither a pipe
/// nor a line feed.
pub open spec fn are_cells(cells: Seq<Seq<char>>) -> bool {
    forall|i: int|
        0 <= i < cells.len() ==> {
            &&& is_trimmed(#[trigger] cells[i], Trim::WhiteSpace)
            &&& free_of(cells[i], '|')
            &&& free_of(cells[i], '\n')
        }
}

/// There are as many columns as headers. No column is narrower than its
/// header or than any cell in it, and each is as wide as one of them.
pub proof fn lemma_column_widths(headers: Seq<Seq<char>>, rows: Seq<Seq<Seq<char>>>)
    ensures
        column_widths(headers, rows).len() == headers.len(),
        forall|i: int|
            0 <= i < headers.len() ==> column_widths(headers, rows)[i] >= (
            #[trigger] headers[i]).len(),
        forall|r: int, i: int|
            0 <= r < rows.len() && 0 <= i < rows[r].len() && i < headers.len() ==> column_widths(
                headers,
                rows,
            )[i] >= (#[trigger] rows[r][i]).len(),
        forall|i: int|
            0 <= i < headers.len() ==> {
                ||| #[trigger] column_widths(headers, rows)[i] == headers[i].len()
                ||| exists|r: int|
                    0 <= r < rows.len() && i < rows[r].len() && column_widths(headers, rows)[i]
                        == (#[trigger] rows[r][i]).len()
            },
    decreases rows.len(),
{
    let widths = column_widths(headers, rows);
    if rows.len() > 0 {
        let before = rows.drop_last();
        let narrower = column_widths(headers, before);
        lemma_column_widths(headers, before);
        assert forall|r: int, i: int|
            0 <= r < rows.len() && 0 <= i < rows[r].len() && i < headers.len() implies widths[i]
            >= (#[trigger] rows[r][i]).len() by {
            if r < rows.len() - 1 {
                assert(before[r][i] == rows[r][i]);
            }
        }
        assert forall|i: int| 0 <= i < headers.len() implies {
            ||| #[trigger] widths[i] == headers[i].len()
            ||| exists|r: int|
                0 <= r < rows.len() && i < rows[r].len() && widths[i] == (
                #[trigger] rows[r][i]).len()
        } by {
            if widths[i] == narrower[i] {
                if narrower[i] != headers[i].len() {
                    let r = choose|r: int|
                        0 <= r < before.len() && i < before[r].len() && narrower[i] == (
                        #[trigger] before[r][i]).len();
                    assert(rows[r][i] == before[r][i]);
                }
            } else {
                assert(widths[i] == rows[rows.len() - 1][i].len());
            }
        }
    }
}

/// A table line has at least one cell; every cell is trimmed of white
/// space and holds no pipe, and no line feed either where the line holds
/// none.
pub proof fn lemma_cells_of(line: Seq<char>)
    ensures
        cells_of(line).len() >= 1,
        forall|i: int|
            0 <= i < cells_of(line).len() ==> is_trimmed(
                #[trigger] cells_of(line)[i],
                Trim::WhiteSpace,
            ) && free_of(cells_of(line)[i], '|'),
        free_of(line, '\n') ==> are_cells(cells_of(line)),
{
    let inner = stripped(line, Trim::Pipes);
    let parts = pieces(inner, '|');
    lemma_pieces_nonempty(inner, '|');
    lemma_pieces_free(inner, '|');
    assert forall|i: int| 0 <= i < cells_of(line).len() implies is_trimmed(
        #[trigger] cells_of(line)[i],
        Trim::WhiteSpace,
    ) && free_of(cells_of(line)[i], '|') by {
        lemma_stripped(parts[i], Trim::WhiteSpace);
        lemma_stripped_keeps_free(parts[i], Trim::WhiteSpace, '|');
    }
    if free_of(line, '\n') {
        lemma_stripped_keeps_free(line, Trim::Pipes, '\n');
        lemma_pieces_keep_free(inner, '|', '\n');
        assert forall|i: int| 0 <= i < cells_of(line).len() implies free_of(
            #[trigger] cells_of(line)[i],
            '\n',
        ) by {
            lemma_stripped_keeps_free(parts[i], Trim::WhiteSpace, '\n');
        }
    }
}

/// The cells that stand beyond the last column are not written.
pub proof fn lemma_cells_text_clipped(cells: Seq<Seq<char>>, widths: Seq<nat>)
    ensures
        cells_text(first_few(cells, widths.len()), widths) == cells_text(cells, widths),
    decreases cells.len(),
{
    if cells.len() > widths.len() {
        let fewer = cells.drop_last();
        lemma_cells_text_clipped(fewer, widths);
        if fewer.len() > widths.len() {
            assert(fewer.take(widths.len() as int) == cells.take(widths.len() as int));
        } else {
            assert(fewer == cells.take(widths.len() as int));
        }
    }
}

/// The written cells of a row are its padded cells with a pipe between
/// neighbours and a pipe at the end, where at least one cell is written.
pub proof fn lemma_cells_text_joined(cells: Seq<Seq<char>>, widths: Seq<nat>)
    requires
        cells.len() >= 1,
        widths.len() >= 1,
    ensures
        cells_text(cells, widths) == joined(padded_cells(cells, widths), '|').push('|'),
    decreases cells.len(),
{
    let fewer = cells.drop_last();
    if cells.len() > widths.len() {
        lemma_cells_text_joined(fewer, widths);
        assert(padded_cells(fewer, widths) == padded_cells(cells, widths));
    } else {
        let last = padded_cell(cells.last(), widths[cells.len() - 1]);
        assert(padded_cells(cells, widths).drop_last() == padded_cells(fewer, widths));
        assert(padded_cells(cells, widths).last() == last);
        if fewer.len() == 0 {
            assert(cells_text(fewer, widths) == Seq::<char>::empty());
            assert(padded_cells(cells, widths).first() == last);
            assert(Seq::<char>::empty() + last.push('|') == last.push('|'));
        } else {
            lemma_cells_text_joined(fewer, widths);
            let before = joined(padded_cells(fewer, widths), '|');
            assert(before.push('|') + last.push('|') == (before.push('|') + last).push('|'));
        }
    }
}

/// A row that was written is read back as its own cells, as far as there
/// are columns.
pub proof fn lemma_cells_of_row_line(cells: Seq<Seq<char>>, widths: Seq<nat>)
    requires
        cells.len() >= 1,
        widths.len() >= 1,
        are_cells(cells),
    ensures
        cells_of(row_line(cells, widths)) == first_few(cells, widths.len()),
{
    let pipe = seq!['|'];
    let space = seq![' '];
    let padded = padded_cells(cells, widths);
    let inner = joined(padded, '|');
    lemma_cells_text_joined(cells, widths);
    assert(row_line(cells, widths) == pipe + inner + pipe);
    assert forall|i: int| 0 <= i < padded.len() implies (#[trigger] padded[i]).len() > 0
        && padded[i].first() == ' ' && padded[i].last() == ' ' && free_of(padded[i], '|') by {
        let cell = cells[i];
        let gap = fill(' ', shortfall(cell, widths[i]));
        assert(padded[i] == space + cell + gap + space);
        assert forall|j: int| 0 <= j < padded[i].len() implies padded[i][j] != '|' by {
            if 1 <= j < 1 + cell.len() {
                assert(padded[i][j] == cell[j - 1]);
            }
        }
    }
    lemma_joined_ends(padded, '|');
    lemma_stripped_framed(pipe, inner, pipe, Trim::Pipes);
    lemma_pieces_joined(padded, '|');
    assert(pieces(stripped(row_line(cells, widths), Trim::Pipes), '|') == padded);
    assert(is_white_space(' '));
    assert forall|i: int| 0 <= i < padded.len() implies stripped(
        #[trigger] padded[i],
        Trim::WhiteSpace,
    ) == cells[i] by {
        let cell = cells[i];
        let gap = fill(' ', shortfall(cell, widths[i]));
        assert(padded[i] == space + cell + (gap + space));
        lemma_stripped_framed(space, cell, gap + space, Trim::WhiteSpace);
    }
    assert(cells_of(row_line(cells, widths)) == first_few(cells, widths.len()));
}

/// A character other than the space and the pipe that no cell holds is not
/// in the written cells, which end in a pipe unless they are empty.
pub proof fn lemma_cells_text_free(cells: Seq<Seq<char>>, widths: Seq<nat>, c: char)
    requires
        c != ' ',
        c != '|',
        forall|i: int| 0 <= i < cells.len() ==> free_of(#[trigger] cells[i], c),
    ensures
        free_of(cells_text(cells, widths), c),
        cells_text(cells, widths).len() > 0 ==> cells_text(cells, widths).last() == '|',
    decreases cells.len(),
{
    if cells.len() > 0 {
        let fewer = cells.drop_last();
        lemma_cells_text_free(fewer, widths, c);
        if cells.len() <= widths.len() {
            let cell = cells.last();
            let written = cell_text(cell, widths[cells.len() - 1]);
            assert forall|j: int| 0 <= j < written.len() implies written[j] != c by {
                if 1 <= j < 1 + cell.len() {
                    assert(written[j] == cell[j - 1]);
                }
            }
        }
    }
}

/// The separator row holds dashes and pipes only.
pub proof fn lemma_rule_cells_free(widths: Seq<nat>, c: char)
    requires
        c != '-',
        c != '|',
    ensures
        free_of(rule_cells(widths), c),
    decreases widths.len(),
{
    if widths.len() > 0 {
        lemma_rule_cells_free(widths.drop_last(), c);
    }
}

/// The lines of an aligned table hold no line feed and end in a pipe.
pub proof fn lemma_table_lines(
    headers: Seq<Seq<char>>,
    rows: Seq<Seq<Seq<char>>>,
    widths: Seq<nat>,
)
    requires
        are_cells(headers),
        forall|r: int| 0 <= r < rows.len() ==> are_cells(#[trigger] rows[r]),
    ensures
        forall|i: int|
            0 <= i < table_lines(headers, rows, widths).len() ==> {
                let line = #[trigger] table_lines(headers, rows, widths)[i];
                free_of(line, '\n') && line.len() > 0 && line.last() == '|'
            },
{
    let written = table_lines(headers, rows, widths);
    assert forall|i: int| 0 <= i < written.len() implies {
        let line = #[trigger] written[i];
        free_of(line, '\n') && line.len() > 0 && line.last() == '|'
    } by {
        if i == 0 {
            lemma_cells_text_free(headers, widths, '\n');
        } else if i == 1 {
            lemma_rule_cells_free(widths, '\n');
            if widths.len() > 0 {
                assert(rule_cells(widths).last() == '|');
            }
        } else {
            assert(written[i] == row_line(rows[i - 2], widths));
            lemma_cells_text_free(rows[i - 2], widths, '\n');
        }
    }
}

/// The length of a line that has a cell of fitting length for each of the
/// columns: for each column its width and three more, after the pipe at the
/// start.
pub open spec fn line_length(widths: Seq<nat>) -> nat
    decreases widths.len(),
{
    if widths.len() == 0 {
        1
    } else {
        line_length(widths.drop_last()) + widths.last() + 3
    }
}

/// The separator row is as long as the widths of the columns demand.
pub proof fn lemma_rule_line_length(widths: Seq<nat>)
    ensures
        rule_line(widths).len() == line_length(widths),
    decreases widths.len(),
{
    if widths.len() > 0 {
        lemma_rule_line_length(widths.drop_last());
    }
}

/// A row of cells none of which is longer than its column is as long as
/// the widths of the columns that it fills demand.
pub proof fn lemma_row_line_length(cells: Seq<Seq<char>>, widths: Seq<nat>)
    requires
        forall|i: int|
            0 <= i < cells.len() && i < widths.len() ==> (#[trigger] cells[i]).len() <= widths[i],
    ensures
        row_line(cells, widths).len() == line_length(first_few(widths, cells.len())),
    decreases cells.len(),
{
    if cells.len() > 0 {
        let fewer = cells.drop_last();
        lemma_row_line_length(fewer, widths);
        if cells.len() <= widths.len() {
            let filled = widths.take(cells.len() as int);
            assert(cells.last() == cells[cells.len() - 1]);
            assert(filled.drop_last() == first_few(widths, fewer.len()));
            assert(filled.last() == widths[cells.len() - 1]);
            if cells.len() == widths.len() {
                assert(filled == widths);
            }
        } else if fewer.len() == widths.len() {
            assert(widths.take(widths.len() as int) == widths);
        }
    }
}

/// The columns stand aligned: the separator row, and every row that has a
/// cell for each column, is as long as the header row.
pub proof fn lemma_rows_align(headers: Seq<Seq<char>>, rows: Seq<Seq<Seq<char>>>)
    ensures
        ({
            let widths = column_widths(headers, rows);
            &&& rule_line(widths).len() == row_line(headers, widths).len()
            &&& forall|r: int|
                0 <= r < rows.len() && (#[trigger] rows[r]).len() >= headers.len() ==> row_line(
                    rows[r],
                    widths,
                ).len() == row_line(headers, widths).len()
        }),
{
    let widths = column_widths(headers, rows);
    lemma_column_widths(headers, rows);
    lemma_rule_line_length(widths);
    lemma_row_line_length(headers, widths);
    assert forall|r: int| 0 <= r < rows.len() && (#[trigger] rows[r]).len()
        >= headers.len() implies row_line(rows[r], widths).len() == row_line(
        headers,
        widths,
    ).len() by {
        lemma_row_line_length(rows[r], widths);
    }
}

/// The cells that stand beyond the last column do not widen any column.
pub proof fn lemma_column_widths_clipped(headers: Seq<Seq<char>>, rows: Seq<Seq<Seq<char>>>)
    ensures
        column_widths(
            headers,
            rows.map_values(|row: Seq<Seq<char>>| first_few(row, headers.len())),
        ) == column_widths(headers, rows),
    decreases rows.len(),
{
    let clip = |row: Seq<Seq<char>>| first_few(row, headers.len());
    if rows.len() > 0 {
        let before = rows.drop_last();
        lemma_column_widths_clipped(headers, before);
        lemma_column_widths(headers, before);
        assert(rows.map_values(clip).drop_last() == before.map_values(clip));
        let narrower = column_widths(headers, before);
        assert(widened(narrower, clip(rows.last())) == widened(narrower, rows.last()));
    } else {
        assert(rows.map_values(clip).len() == 0);
    }
}

/// Aligning a table that is aligned already changes nothing: a second pass
/// gives what the first gave, character for character.
pub proof fn lemma_format_idempotent(text: Seq<char>)
    ensures
        formatted_table(formatted_table(text)) == formatted_table(text),
{
    let lines = lines_of(text);
    if lines.len() >= 2 {
        let headers = cells_of(lines[0]);
        let rows = data_rows(lines);
        let widths = column_widths(headers, rows);
        let written = table_lines(headers, rows, widths);
        let clip = |row: Seq<Seq<char>>| first_few(row, headers.len());

        lemma_lines_free(text);
        lemma_cells_of(lines[0]);
        assert forall|r: int| 0 <= r < rows.len() implies are_cells(#[trigger] rows[r])
            && rows[r].len() >= 1 by {
            assert(rows[r] == cells_of(lines[r + 2]));
            lemma_cells_of(lines[r + 2]);
        }
        lemma_column_widths(headers, rows);

        lemma_table_lines(headers, rows, widths);
        assert forall|i: int| 0 <= i < written.len() implies without_carriage_return(
            #[trigger] written[i],
        ) == written[i] by {}
        lemma_lines_of_unlines(written);
        assert(lines_of(unlines(written)) == written);

        lemma_cells_of_row_line(headers, widths);
        assert(cells_of(written[0]) == headers);
        assert forall|r: int| 0 <= r < rows.len() implies cells_of(#[trigger] written[r + 2])
            == clip(rows[r]) by {
            assert(written[r + 2] == row_line(rows[r], widths));
            lemma_cells_of_row_line(rows[r], widths);
        }
        assert(data_rows(written) == rows.map_values(clip));
        lemma_column_widths_clipped(headers, rows);

        assert forall|r: int| 0 <= r < rows.len() implies row_line(
            #[trigger] rows.map_values(clip)[r],
            widths,
        ) == row_line(rows[r], widths) by {
            lemma_cells_text_clipped(rows[r], widths);
        }
        assert(table_lines(headers, rows.map_values(clip), widths) == written);
    }
}

} // verus!

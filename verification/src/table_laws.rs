//! What a rendered table holds.

use crate::ansi::{BOLD, DIM, RESET};
use crate::markdown_laws::{law_unmarked_text_is_shown, unmarked};
use crate::render::{
    border_line, cell_len, cell_of, column_count, column_width, column_widths, has_separator,
    pad_len, row_cells, row_text, rows_text, separator_line, shown_rows, table_border_from,
    table_cells, table_line, table_rows, table_text,
};
use crate::text::{
    contains_text, ends_with_spec, is_space, join, law_contained_text_stands_somewhere,
    lemma_split_by_len, matches_at, only, repeat, split_on, starts_with_spec, trimmed,
    trimmed_end, trimmed_start,
};
use crate::text_laws::{all_space, law_joined_parts_split, law_trimming_takes_space_only};
use vstd::prelude::*;

verus! {

/// The lines of a table that are rows: all but the separator lines.
pub open spec fn row_lines(lines: Seq<Seq<char>>) -> Seq<Seq<char>> {
    lines.filter(|l: Seq<char>| !separator_line(l))
}

/// What is shown of column `j` of a row: the trimmed piece between the bars, bold in a heading
/// and with its inline markdown elsewhere; nothing where the row has no such column.
pub open spec fn shown_cell(line: Seq<char>, j: int, heading: bool) -> Seq<char> {
    let pieces = split_on(table_line(line), '|');
    if 0 <= j < pieces.len() {
        if heading {
            BOLD@ + trimmed(pieces[j]) + RESET@
        } else {
            crate::render::inline(trimmed(pieces[j]))
        }
    } else {
        Seq::empty()
    }
}

/// What is shown in column `j` of row `i` of a table. The first row is a heading where there is a
/// separator line.
pub open spec fn cell_at(lines: Seq<Seq<char>>, i: int, j: int) -> Seq<char> {
    shown_cell(row_lines(lines)[i], j, i == 0 && row_lines(lines).len() < lines.len())
}

/// The bar beside a cell.
pub open spec fn bar() -> Seq<char> {
    DIM@ + "│"@ + RESET@
}

/// A cell in a column of some width, with one space on each side.
pub open spec fn in_column(cell: Seq<char>, width: nat) -> Seq<char> {
    " "@ + cell + repeat(" "@, (width - cell_len(cell)) as nat) + " "@
}

/// A row on the screen: its cells in their columns, between bars.
pub open spec fn row_shown(line: Seq<char>, heading: bool, widths: Seq<nat>) -> Seq<char> {
    bar() + join(
        Seq::new(widths.len(), |j: int| in_column(shown_cell(line, j, heading), widths[j])),
        bar(),
    ) + bar() + "\n"@
}

/// A border on the screen: a stretch of line for each column, with a space more on each side.
pub open spec fn border_shown(widths: Seq<nat>, left: char, mid: char, right: char) -> Seq<char> {
    DIM@ + seq![left] + join(
        Seq::new(widths.len(), |j: int| repeat("─"@, widths[j] + 2)),
        seq![mid],
    ) + seq![right] + RESET@ + "\n"@
}

/// The rows behind the first one on the screen.
pub open spec fn body_shown(rows: Seq<Seq<char>>, widths: Seq<nat>) -> Seq<char> {
    join(
        Seq::new(rows.len(), |i: int| row_shown(rows[i], false, widths)).skip(1),
        Seq::empty(),
    )
}

proof fn lemma_row_lines(lines: Seq<Seq<char>>)
    ensures
        table_rows(lines) == row_lines(lines).map_values(|l: Seq<char>| table_cells(l)),
        row_lines(lines).len() <= lines.len(),
        has_separator(lines) <==> row_lines(lines).len() < lines.len(),
    decreases lines.len(),
{
    reveal(Seq::filter);
    let f = |l: Seq<char>| table_cells(l);
    if lines.len() == 0 {
        assert(table_rows(lines) =~= row_lines(lines).map_values(f));
    } else {
        let w = lines.drop_last();
        lemma_row_lines(w);
        if separator_line(lines.last()) {
            assert(row_lines(lines) == row_lines(w));
            assert(separator_line(lines[lines.len() - 1]));
        } else {
            assert(row_lines(lines) == row_lines(w).push(lines.last()));
            assert(table_rows(lines) =~= row_lines(lines).map_values(f));
            if has_separator(lines) {
                let i = choose|i: int| 0 <= i < lines.len() && separator_line(#[trigger] lines[i]);
                assert(w[i] == lines[i]);
            }
            if has_separator(w) {
                let i = choose|i: int| 0 <= i < w.len() && separator_line(#[trigger] w[i]);
                assert(w[i] == lines[i]);
            }
        }
    }
}

proof fn lemma_column_count(rows: Seq<Seq<Seq<char>>>)
    ensures
        forall|i: int| 0 <= i < rows.len() ==> (#[trigger] rows[i]).len() <= column_count(rows),
        rows.len() > 0 ==> exists|i: int|
            0 <= i < rows.len() && (#[trigger] rows[i]).len() == column_count(rows),
    decreases rows.len(),
{
    if rows.len() > 0 {
        let w = rows.drop_last();
        lemma_column_count(w);
        assert forall|i: int| 0 <= i < rows.len() implies (#[trigger] rows[i]).len()
            <= column_count(rows) by {
            if i < w.len() {
                assert(w[i] == rows[i]);
            }
        }
        if rows.last().len() >= column_count(w) {
            assert(rows[rows.len() - 1].len() == column_count(rows));
        } else {
            let i = choose|i: int| 0 <= i < w.len() && (#[trigger] w[i]).len() == column_count(w);
            assert(rows[i] == w[i]);
        }
    }
}

proof fn lemma_column_width(rows: Seq<Seq<Seq<char>>>, j: int)
    requires
        0 <= j,
    ensures
        forall|i: int|
            0 <= i < rows.len() ==> cell_len(#[trigger] cell_of(rows[i], j)) <= column_width(
                rows,
                j,
            ),
        column_width(rows, j) > 0 ==> exists|i: int|
            0 <= i < rows.len() && cell_len(#[trigger] cell_of(rows[i], j)) == column_width(rows, j),
    decreases rows.len(),
{
    if rows.len() > 0 {
        let w = rows.drop_last();
        lemma_column_width(w, j);
        assert forall|i: int| 0 <= i < rows.len() implies cell_len(
            #[trigger] cell_of(rows[i], j),
        ) <= column_width(rows, j) by {
            if i < w.len() {
                assert(w[i] == rows[i]);
                assert(cell_len(cell_of(w[i], j)) <= column_width(w, j));
            }
        }
        let last = rows.len() - 1;
        if 0 <= j < rows.last().len() && cell_len(rows.last()[j]) > column_width(w, j) {
            assert(cell_of(rows[last], j) == rows.last()[j]);
        } else if column_width(rows, j) > 0 {
            let i = choose|i: int|
                0 <= i < w.len() && cell_len(#[trigger] cell_of(w[i], j)) == column_width(w, j);
            assert(cell_of(rows[i], j) == cell_of(w[i], j));
        }
    }
}

spec fn row_parts(row: Seq<Seq<char>>, widths: Seq<usize>) -> Seq<Seq<char>> {
    Seq::new(widths.len(), |k: int| in_column(cell_of(row, k), widths[k] as nat))
}

proof fn lemma_row_cells(row: Seq<Seq<char>>, widths: Seq<usize>, j: int)
    requires
        1 <= j <= widths.len(),
        forall|k: int| 0 <= k < widths.len() ==> cell_len(#[trigger] cell_of(row, k)) <= widths[k],
    ensures
        row_cells(row, widths, j) == join(row_parts(row, widths).take(j), bar()) + bar(),
    decreases j,
{
    let parts = row_parts(row, widths);
    let cell = cell_of(row, j - 1);
    let part = in_column(cell, widths[j - 1] as nat);
    assert(parts[j - 1] == part);
    assert(parts.take(j).drop_last() =~= parts.take(j - 1));
    assert(parts.take(j).last() == part);
    let before = row_cells(row, widths, j - 1);
    let pad = repeat(" "@, pad_len(widths[j - 1] as nat, cell_len(cell)));
    assert(row_cells(row, widths, j) == before + " "@ + cell + pad + " "@ + DIM@ + "│"@ + RESET@);
    assert(row_cells(row, widths, j) =~= before + part + bar());
    if j == 1 {
        assert(before =~= Seq::<char>::empty());
        assert(before + part =~= part);
        assert(join(parts.take(1), bar()) == part);
    } else {
        lemma_row_cells(row, widths, j - 1);
    }
}

proof fn lemma_border(widths: Seq<usize>, mid: char, parts: Seq<Seq<char>>, i: int)
    requires
        1 <= i <= widths.len(),
        parts.len() == widths.len(),
        forall|k: int|
            0 <= k < parts.len() ==> #[trigger] parts[k] == repeat("─"@, (widths[k] + 2) as nat),
    ensures
        table_border_from(widths, mid, i) == if i < widths.len() {
            join(parts.take(i), seq![mid]) + seq![mid]
        } else {
            join(parts.take(i), seq![mid])
        },
    decreases i,
{
    assert(parts.take(i).drop_last() =~= parts.take(i - 1));
    assert(parts.take(i).last() == parts[i - 1]);
    let before = table_border_from(widths, mid, i - 1);
    let cell = before + parts[i - 1];
    assert(cell.push(mid) =~= cell + seq![mid]);
    if i == 1 {
        assert(before =~= Seq::<char>::empty());
        assert(cell =~= parts[0]);
    } else {
        lemma_border(widths, mid, parts, i - 1);
    }
}

proof fn lemma_rows_text(
    rows: Seq<Seq<Seq<char>>>,
    widths: Seq<usize>,
    separated: bool,
    shown: Seq<Seq<char>>,
    i: int,
)
    requires
        1 <= i <= rows.len(),
        shown.len() == rows.len(),
        forall|k: int| 0 <= k < rows.len() ==> #[trigger] shown[k] == row_text(rows[k], widths),
    ensures
        rows_text(rows, widths, separated, i) == shown[0] + (if separated {
            border_line(widths, '├', '┼', '┤')
        } else {
            Seq::empty()
        }) + join(shown.subrange(1, i), Seq::empty()),
    decreases i,
{
    let rule = if separated {
        border_line(widths, '├', '┼', '┤')
    } else {
        Seq::<char>::empty()
    };
    let none = Seq::<char>::empty();
    if i == 1 {
        assert(rows_text(rows, widths, separated, 0) =~= none);
        assert(none + shown[0] =~= shown[0]);
        assert(join(shown.subrange(1, 1), none) =~= none);
        assert(shown[0] + none + none =~= shown[0]);
        assert(shown[0] + rule + none =~= shown[0] + rule);
        assert(rows_text(rows, widths, separated, 1) == if separated {
            shown[0] + rule
        } else {
            shown[0]
        });
    } else {
        lemma_rows_text(rows, widths, separated, shown, i - 1);
        let v = shown.subrange(1, i);
        assert(v.drop_last() =~= shown.subrange(1, i - 1));
        assert(v.last() == shown[i - 1]);
        if i == 2 {
            assert(v.drop_last().len() == 0);
            assert(join(v, none) =~= none + shown[1]);
        }
        assert(join(v, none) =~= join(v.drop_last(), none) + shown[i - 1]);
        assert(shown[0] + rule + join(v.drop_last(), none) + shown[i - 1] =~= shown[0] + rule + (
        join(v.drop_last(), none) + shown[i - 1]));
    }
}

proof fn lemma_shown_rows(lines: Seq<Seq<char>>, i: int, j: int)
    requires
        0 <= i < row_lines(lines).len(),
    ensures
        shown_rows(lines).len() == row_lines(lines).len(),
        shown_rows(lines)[i].len() == split_on(table_line(row_lines(lines)[i]), '|').len(),
        cell_of(shown_rows(lines)[i], j) == shown_cell(
            row_lines(lines)[i],
            j,
            i == 0 && row_lines(lines).len() < lines.len(),
        ),
{
    lemma_row_lines(lines);
}

/// A table is its rows in a box: one line for each of its lines that is no separator, in order,
/// which holds, column by column, what is shown of that line; a border on top, one at the bottom,
/// and one under the first row where there is a separator. The first row is then a heading. The
/// columns are as many as the longest row has, each as wide as its widest cell.
#[verifier::rlimit(30)]
pub proof fn law_table_shows_rows(lines: Seq<Seq<char>>) -> (widths: Seq<nat>)
    requires
        row_lines(lines).len() > 0,
        forall|i: int, j: int, heading: bool|
            0 <= i < row_lines(lines).len() ==> cell_len(
                #[trigger] shown_cell(row_lines(lines)[i], j, heading),
            ) <= usize::MAX,
    ensures
        ({
            let rows = row_lines(lines);
            let separated = rows.len() < lines.len();
            &&& table_text(lines) == border_shown(widths, '┌', '┬', '┐') + row_shown(
                rows[0],
                separated,
                widths,
            ) + (if separated {
                border_shown(widths, '├', '┼', '┤')
            } else {
                Seq::empty()
            }) + body_shown(rows, widths) + border_shown(widths, '└', '┴', '┘')
            &&& forall|i: int|
                0 <= i < rows.len() ==> split_on(#[trigger] table_line(rows[i]), '|').len()
                    <= widths.len()
            &&& exists|i: int|
                0 <= i < rows.len() && split_on(#[trigger] table_line(rows[i]), '|').len()
                    == widths.len()
            &&& forall|i: int, j: int|
                0 <= i < rows.len() && 0 <= j < widths.len() ==> cell_len(
                    #[trigger] cell_at(lines, i, j),
                ) <= widths[j]
            &&& forall|j: int|
                0 <= j < widths.len() && #[trigger] widths[j] > 0 ==> exists|i: int|
                    0 <= i < rows.len() && cell_len(
                        #[trigger] cell_at(lines, i, j),
                    ) == widths[j]
        }),
{
    let rows = row_lines(lines);
    let separated = rows.len() < lines.len();
    let cells = shown_rows(lines);
    lemma_row_lines(lines);
    lemma_shown_rows(lines, 0, 0);
    lemma_column_count(cells);
    let widths = column_widths(cells);
    let small = widths.map_values(|w: nat| w as usize);
    assert forall|i: int| 0 <= i < rows.len() implies split_on(
        #[trigger] table_line(rows[i]),
        '|',
    ).len() <= widths.len() by {
        lemma_shown_rows(lines, i, 0);
        assert(cells[i].len() <= widths.len());
    }
    let longest = choose|i: int|
        0 <= i < cells.len() && (#[trigger] cells[i]).len() == column_count(cells);
    lemma_shown_rows(lines, longest, 0);
    assert(split_on(table_line(rows[longest]), '|').len() == widths.len());
    lemma_split_by_len(table_line(rows[longest]), only('|'));
    assert(widths.len() >= 1);
    assert forall|i: int, j: int| 0 <= i < rows.len() && 0 <= j < widths.len() implies cell_len(
        #[trigger] cell_at(lines, i, j),
    ) <= widths[j] by {
        lemma_shown_rows(lines, i, j);
        lemma_column_width(cells, j);
        assert(cell_len(cell_of(cells[i], j)) <= column_width(cells, j));
    }
    assert forall|j: int| 0 <= j < widths.len() && #[trigger] widths[j] > 0 implies exists|i: int|
        0 <= i < rows.len() && cell_len(#[trigger] cell_at(lines, i, j))
            == widths[j] by {
        lemma_column_width(cells, j);
        let i = choose|i: int|
            0 <= i < cells.len() && cell_len(#[trigger] cell_of(cells[i], j)) == column_width(
                cells,
                j,
            );
        lemma_shown_rows(lines, i, j);
        assert(cell_len(cell_at(lines, i, j)) == widths[j]);
    }
    assert forall|j: int| 0 <= j < widths.len() implies #[trigger] small[j] == widths[j] by {
        if widths[j] > 0 {
            let i = choose|i: int|
                0 <= i < rows.len() && cell_len(
                    #[trigger] cell_at(lines, i, j),
                ) == widths[j];
            assert(cell_len(shown_cell(rows[i], j, i == 0 && separated)) <= usize::MAX);
        }
    }
    let shown = Seq::new(
        rows.len(),
        |i: int| row_shown(rows[i], i == 0 && separated, widths),
    );
    assert forall|i: int| 0 <= i < cells.len() implies #[trigger] shown[i] == row_text(
        cells[i],
        small,
    ) by {
        lemma_row_shown(lines, i, widths, small);
    }
    lemma_rows_text(cells, small, separated, shown, rows.len() as int);
    let plain = Seq::new(rows.len(), |i: int| row_shown(rows[i], false, widths));
    assert(shown.subrange(1, rows.len() as int) =~= plain.skip(1));
    lemma_border_shown(widths, small, '┌', '┬', '┐');
    lemma_border_shown(widths, small, '├', '┼', '┤');
    lemma_border_shown(widths, small, '└', '┴', '┘');
    let top = border_shown(widths, '┌', '┬', '┐');
    let rule = if separated {
        border_shown(widths, '├', '┼', '┤')
    } else {
        Seq::<char>::empty()
    };
    let bottom = border_shown(widths, '└', '┴', '┘');
    let body = body_shown(rows, widths);
    assert(shown[0] == row_shown(rows[0], separated, widths));
    assert(top + (shown[0] + rule + body) + bottom =~= top + shown[0] + rule + body + bottom);
    widths
}

proof fn lemma_row_shown(lines: Seq<Seq<char>>, i: int, widths: Seq<nat>, small: Seq<usize>)
    requires
        widths.len() >= 1,
        widths.len() == small.len(),
        forall|j: int| 0 <= j < widths.len() ==> #[trigger] small[j] == widths[j],
        0 <= i < row_lines(lines).len(),
        forall|j: int|
            0 <= j < widths.len() ==> cell_len(#[trigger] cell_at(lines, i, j)) <= widths[j],
    ensures
        row_text(shown_rows(lines)[i], small) == row_shown(
            row_lines(lines)[i],
            i == 0 && row_lines(lines).len() < lines.len(),
            widths,
        ),
{
    let line = row_lines(lines)[i];
    let heading = i == 0 && row_lines(lines).len() < lines.len();
    let row = shown_rows(lines)[i];
    assert forall|k: int| 0 <= k < widths.len() implies cell_len(#[trigger] cell_of(row, k))
        <= small[k] by {
        lemma_shown_rows(lines, i, k);
        assert(cell_len(cell_at(lines, i, k)) <= widths[k]);
        assert(small[k] == widths[k]);
    }
    lemma_row_cells(row, small, small.len() as int);
    let parts = Seq::new(
        widths.len(),
        |j: int| in_column(shown_cell(line, j, heading), widths[j]),
    );
    assert forall|k: int| 0 <= k < widths.len() implies #[trigger] parts[k] == row_parts(
        row,
        small,
    )[k] by {
        lemma_shown_rows(lines, i, k);
        assert(small[k] == widths[k]);
    }
    assert(row_parts(row, small).take(small.len() as int) =~= parts);
    assert(row_text(row, small) =~= row_shown(line, heading, widths));
}

proof fn lemma_border_shown(widths: Seq<nat>, small: Seq<usize>, left: char, mid: char, right: char)
    requires
        widths.len() >= 1,
        widths.len() == small.len(),
        forall|j: int| 0 <= j < widths.len() ==> #[trigger] small[j] == widths[j],
    ensures
        border_line(small, left, mid, right) == border_shown(widths, left, mid, right),
{
    let parts = Seq::new(widths.len(), |j: int| repeat("─"@, widths[j] + 2));
    assert forall|k: int| 0 <= k < parts.len() implies #[trigger] parts[k] == repeat(
        "─"@,
        (small[k] + 2) as nat,
    ) by {
        assert(small[k] == widths[k]);
    }
    lemma_border(small, mid, parts, small.len() as int);
    assert(parts.take(small.len() as int) =~= parts);
    assert(border_line(small, left, mid, right) =~= border_shown(widths, left, mid, right));
}

/// The cells of a line are the trimmed pieces between its bars; the bars at its two ends enclose
/// no cell.
pub proof fn law_line_is_cut_at_bars(pieces: Seq<Seq<char>>)
    requires
        pieces.len() > 0,
        forall|i: int| 0 <= i < pieces.len() ==> !(#[trigger] pieces[i]).contains('|'),
    ensures
        ({
            let line = seq!['|'] + join(pieces, seq!['|']) + seq!['|'];
            &&& split_on(table_line(line), '|') == pieces
            &&& table_cells(line) == pieces.map_values(|p: Seq<char>| trimmed(p))
        }),
{
    let inner = join(pieces, seq!['|']);
    let line = seq!['|'] + inner + seq!['|'];
    reveal_strlit("|");
    assert("|"@ =~= seq!['|']);
    assert(trimmed(line) == line) by {
        assert(trimmed_start(line) == line);
        assert(line.last() == '|');
        assert(trimmed_end(line) == line);
    }
    assert("|"@.is_prefix_of(line));
    assert(line.skip(1) =~= inner + seq!['|']);
    assert("|"@.is_suffix_of(inner + seq!['|']));
    assert((inner + seq!['|']).take(inner.len() as int) =~= inner);
    law_joined_parts_split(pieces, '|');
}

proof fn lemma_trimmed_within(line: Seq<char>) -> (n: int)
    ensures
        0 <= n,
        n + trimmed(line).len() <= line.len(),
        trimmed(line) == line.subrange(n, n + trimmed(line).len()),
        forall|i: int|
            0 <= i < line.len() && !(n <= i < n + trimmed(line).len()) ==> is_space(
                #[trigger] line[i],
            ),
{
    law_trimming_takes_space_only(line);
    let t = trimmed(line);
    let (a, b) = choose|a: Seq<char>, b: Seq<char>|
        all_space(a) && all_space(b) && line == #[trigger] (a + t + b);
    let n = a.len() as int;
    assert(line.subrange(n, n + t.len()) =~= t);
    assert forall|i: int| 0 <= i < line.len() && !(n <= i < n + t.len()) implies is_space(
        #[trigger] line[i],
    ) by {
        if i < n {
            assert(a[i] == line[i]);
        } else {
            assert(b[i - n - t.len()] == line[i]);
        }
    }
    n
}

proof fn lemma_table_line_within(line: Seq<char>) -> (n: int)
    ensures
        0 <= n,
        n + table_line(line).len() <= line.len(),
        table_line(line) == line.subrange(n, n + table_line(line).len()),
        forall|i: int|
            0 <= i < line.len() && !(n <= i < n + table_line(line).len()) ==> is_space(
                #[trigger] line[i],
            ) || line[i] == '|',
{
    reveal_strlit("|");
    assert("|"@ =~= seq!['|']);
    let m = lemma_trimmed_within(line);
    let t = trimmed(line);
    let d: int = if starts_with_spec(t, "|"@) {
        1
    } else {
        0
    };
    let u = t.skip(d);
    assert(t.skip(0) =~= t);
    let e: int = if ends_with_spec(u, "|"@) {
        1
    } else {
        0
    };
    let v = table_line(line);
    assert(u.take(u.len() as int) =~= u);
    assert(v == u.take(u.len() - e));
    assert(d == 1 ==> t.len() > 0 && t[0] == '|');
    assert(e == 1 ==> u.len() > 0 && u[u.len() - 1] == '|');
    let n = m + d;
    assert(v =~= line.subrange(n, n + v.len()));
    assert forall|i: int| 0 <= i < line.len() && !(n <= i < n + v.len()) implies is_space(
        #[trigger] line[i],
    ) || line[i] == '|' by {
        if m <= i < m + t.len() {
            assert(line[i] == t[i - m]);
            if i >= n + v.len() {
                assert(t[i - m] == u[i - m - d]);
            }
        }
    }
    n
}

/// A separator line is one of dashes, colons, bars and spaces with a dash in it.
pub proof fn law_separator_line(line: Seq<char>)
    ensures
        separator_line(line) ==> line.contains('-'),
        separator_line(line) ==> forall|i: int|
            0 <= i < line.len() ==> (#[trigger] line[i] == '-' || line[i] == ':' || line[i] == '|'
                || is_space(line[i])),
        line.contains('-') && (forall|i: int|
            0 <= i < line.len() ==> (#[trigger] line[i] == '-' || line[i] == ':' || line[i] == '|'
                || line[i] == ' ')) ==> separator_line(line),
{
    reveal_strlit("-:| ");
    let set = "-:| "@;
    assert(set[0] == '-' && set[1] == ':' && set[2] == '|' && set[3] == ' ');
    let n = lemma_table_line_within(line);
    let v = table_line(line);
    if separator_line(line) {
        let k = choose|k: int| 0 <= k < v.len() && v[k] == '-';
        assert(line[n + k] == '-');
        assert forall|i: int| 0 <= i < line.len() implies (#[trigger] line[i] == '-' || line[i]
            == ':' || line[i] == '|' || is_space(line[i])) by {
            if n <= i < n + v.len() {
                assert(set.contains(v[i - n]));
            }
        }
    }
    if line.contains('-') && (forall|i: int|
        0 <= i < line.len() ==> (#[trigger] line[i] == '-' || line[i] == ':' || line[i] == '|'
            || line[i] == ' ')) {
        let k = choose|k: int| 0 <= k < line.len() && line[k] == '-';
        assert(n <= k < n + v.len());
        assert(v[k - n] == '-');
        assert forall|i: int| 0 <= i < v.len() implies set.contains(#[trigger] v[i]) by {
            assert(v[i] == line[n + i]);
        }
    }
}

pub(crate) proof fn lemma_contained(a: Seq<char>, b: Seq<char>, c: Seq<char>)
    ensures
        contains_text(a + b + c, b),
{
    law_contained_text_stands_somewhere(a + b + c, b);
    assert((a + b + c).subrange(a.len() as int, (a.len() + b.len()) as int) =~= b);
    assert(matches_at(a + b + c, b, a.len() as int));
}

pub(crate) proof fn lemma_contained_within(a: Seq<char>, b: Seq<char>, c: Seq<char>, p: Seq<char>)
    requires
        contains_text(b, p),
    ensures
        contains_text(a + b + c, p),
{
    law_contained_text_stands_somewhere(b, p);
    let k = choose|k: int| matches_at(b, p, k);
    let s = a + b + c;
    assert(s.subrange(a.len() + k, a.len() + k + p.len()) =~= b.subrange(k, k + p.len()));
    assert(matches_at(s, p, a.len() + k));
    law_contained_text_stands_somewhere(s, p);
}

pub(crate) proof fn lemma_joined_holds(v: Seq<Seq<char>>, sep: Seq<char>, k: int, p: Seq<char>)
    requires
        0 <= k < v.len(),
        contains_text(v[k], p),
    ensures
        contains_text(join(v, sep), p),
    decreases v.len(),
{
    let none = Seq::<char>::empty();
    if v.len() == 1 {
    } else if k == v.len() - 1 {
        let a = join(v.drop_last(), sep) + sep;
        assert(a + v[k] + none =~= a + v.last());
        lemma_contained_within(a, v[k], none, p);
    } else {
        assert(v.drop_last()[k] == v[k]);
        lemma_joined_holds(v.drop_last(), sep, k, p);
        let a = join(v.drop_last(), sep);
        assert(none + a + (sep + v.last()) =~= a + sep + v.last());
        lemma_contained_within(none, a, sep + v.last(), p);
    }
}

proof fn lemma_row_holds(line: Seq<char>, heading: bool, widths: Seq<nat>, j: int, p: Seq<char>)
    requires
        0 <= j < widths.len(),
        contains_text(shown_cell(line, j, heading), p),
    ensures
        contains_text(row_shown(line, heading, widths), p),
{
    let parts = Seq::new(
        widths.len(),
        |j: int| in_column(shown_cell(line, j, heading), widths[j]),
    );
    let cell = shown_cell(line, j, heading);
    let pad = repeat(" "@, (widths[j] - cell_len(cell)) as nat);
    assert(parts[j] =~= " "@ + cell + (pad + " "@));
    lemma_contained_within(" "@, cell, pad + " "@, p);
    lemma_joined_holds(parts, bar(), j, p);
    let mid = join(parts, bar());
    assert(row_shown(line, heading, widths) =~= bar() + mid + (bar() + "\n"@));
    lemma_contained_within(bar(), mid, bar() + "\n"@, p);
}

/// Every cell of a table is contained in what is shown of it: a cell of the heading as it is, and
/// another one, where it is free of inline markdown, as well.
pub proof fn law_table_holds_cells(lines: Seq<Seq<char>>, i: int, j: int)
    requires
        forall|i: int, j: int, heading: bool|
            0 <= i < row_lines(lines).len() ==> cell_len(
                #[trigger] shown_cell(row_lines(lines)[i], j, heading),
            ) <= usize::MAX,
        0 <= i < row_lines(lines).len(),
        0 <= j < split_on(table_line(row_lines(lines)[i]), '|').len(),
    ensures
        contains_text(table_text(lines), cell_at(lines, i, j)),
        unmarked(trimmed(split_on(table_line(row_lines(lines)[i]), '|')[j])) ==> contains_text(
            table_text(lines),
            trimmed(split_on(table_line(row_lines(lines)[i]), '|')[j]),
        ),
{
    let cell = cell_at(lines, i, j);
    let none = Seq::<char>::empty();
    assert(none + cell + none =~= cell);
    lemma_contained(none, cell, none);
    lemma_table_holds(lines, i, j, cell);
    let text = trimmed(split_on(table_line(row_lines(lines)[i]), '|')[j]);
    if unmarked(text) {
        law_unmarked_text_is_shown(text, none);
        if i == 0 && row_lines(lines).len() < lines.len() {
            lemma_contained(BOLD@, text, RESET@);
            lemma_table_holds(lines, i, j, text);
        }
    }
}

proof fn lemma_table_holds(lines: Seq<Seq<char>>, i: int, j: int, p: Seq<char>)
    requires
        forall|i: int, j: int, heading: bool|
            0 <= i < row_lines(lines).len() ==> cell_len(
                #[trigger] shown_cell(row_lines(lines)[i], j, heading),
            ) <= usize::MAX,
        0 <= i < row_lines(lines).len(),
        0 <= j < split_on(table_line(row_lines(lines)[i]), '|').len(),
        contains_text(cell_at(lines, i, j), p),
    ensures
        contains_text(table_text(lines), p),
{
    let rows = row_lines(lines);
    let separated = rows.len() < lines.len();
    let none = Seq::<char>::empty();
    let widths = law_table_shows_rows(lines);
    assert(split_on(table_line(rows[i]), '|').len() <= widths.len());
    lemma_row_holds(rows[i], i == 0 && separated, widths, j, p);
    let top = border_shown(widths, '┌', '┬', '┐');
    let rule = if separated {
        border_shown(widths, '├', '┼', '┤')
    } else {
        none
    };
    let bottom = border_shown(widths, '└', '┴', '┘');
    let body = body_shown(rows, widths);
    let first = row_shown(rows[0], separated, widths);
    if i == 0 {
        assert(top + first + rule + body + bottom =~= top + first + (rule + body + bottom));
        lemma_contained_within(top, first, rule + body + bottom, p);
    } else {
        let all = Seq::new(rows.len(), |i: int| row_shown(rows[i], false, widths)).skip(1);
        assert(all[i - 1] == row_shown(rows[i], false, widths));
        lemma_joined_holds(all, none, i - 1, p);
        lemma_contained_within(top + first + rule, body, bottom, p);
    }
}

} // verus!

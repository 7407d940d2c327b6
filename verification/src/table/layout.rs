//! What holds of tables.

use crate::table::{cell, column_width, column_widths, table_line, table_lines, table_text};
use crate::text::shape::padding_fills_the_width;
use crate::text::{byte_len, joined};
use vstd::prelude::*;

verus! {

/// A column is wide enough for its heading and for each of its cells, and no wider
/// than the widest of them.
pub proof fn column_is_as_wide_as_its_widest(head: Seq<char>, rows: Seq<Seq<Seq<char>>>, c: int)
    ensures
        byte_len(head) <= column_width(head, rows, c),
        forall|i: int|
            0 <= i < rows.len() ==> byte_len(#[trigger] rows[i][c]) <= column_width(head, rows, c),
        column_width(head, rows, c) == byte_len(head) || exists|i: int|
            0 <= i < rows.len() && byte_len(#[trigger] rows[i][c]) == column_width(head, rows, c),
    decreases rows.len(),
{
    if rows.len() > 0 {
        let front = rows.drop_last();
        column_is_as_wide_as_its_widest(head, front, c);
        assert forall|i: int| 0 <= i < rows.len() implies byte_len(#[trigger] rows[i][c])
            <= column_width(head, rows, c) by {
            if i < front.len() {
                assert(front[i][c] == rows[i][c]);
            }
        }
        let w = column_width(head, rows, c);
        if w != byte_len(head) {
            if w == byte_len(rows.last()[c]) {
                assert(rows[rows.len() - 1][c] == rows.last()[c]);
            } else {
                let i = choose|i: int|
                    0 <= i < front.len() && byte_len(#[trigger] front[i][c]) == column_width(
                        head,
                        front,
                        c,
                    );
                assert(rows[i][c] == front[i][c]);
            }
        }
    }
}

/// Where a column starts in a line: behind the columns before it, with two blanks
/// after each.
pub open spec fn column_start(widths: Seq<nat>, c: int) -> int
    decreases c,
{
    if c <= 0 {
        0
    } else {
        column_start(widths, c - 1) + widths[c - 1] + 2
    }
}

/// The texts of the cells, each as wide as its column.
spec fn cells_of(cells: Seq<Seq<char>>, widths: Seq<nat>, left: Seq<bool>) -> Seq<Seq<char>> {
    Seq::new(cells.len(), |c: int| cell(cells[c], widths[c], left[c]))
}

proof fn joined_at(parts: Seq<Seq<char>>, widths: Seq<nat>, c: int)
    requires
        0 <= c < parts.len() == widths.len(),
        forall|k: int| 0 <= k < parts.len() ==> (#[trigger] parts[k]).len() == widths[k],
    ensures
        joined(parts, "  "@).len() >= column_start(widths, c) + widths[c],
        joined(parts, "  "@).subrange(
            column_start(widths, c),
            column_start(widths, c) + widths[c],
        ) == parts[c],
        joined(parts, "  "@).len() == column_start(widths, parts.len() as int) - 2,
    decreases parts.len(),
{
    reveal_strlit("  ");
    let all = joined(parts, "  "@);
    let n = parts.len() as int;
    if parts.len() == 1 {
        assert(column_start(widths, 1) == column_start(widths, 0) + widths[0] + 2);
        assert(all.subrange(0, widths[0] as int) =~= parts[0]);
    } else {
        let front = parts.drop_last();
        let ws = widths.drop_last();
        assert forall|k: int| 0 <= k < front.len() implies (#[trigger] front[k]).len() == ws[k] by {
            assert(front[k] == parts[k]);
        }
        starts_alike(widths, ws, n - 1);
        let before = joined(front, "  "@);
        if c < n - 1 {
            joined_at(front, ws, c);
            starts_alike(widths, ws, c);
            assert(all.subrange(
                column_start(widths, c),
                column_start(widths, c) + widths[c],
            ) =~= before.subrange(column_start(ws, c), column_start(ws, c) + ws[c]));
        } else {
            joined_at(front, ws, 0);
            assert(before.len() == column_start(widths, n - 1) - 2);
            assert(all.subrange(
                column_start(widths, c),
                column_start(widths, c) + widths[c],
            ) =~= parts[c]);
        }
    }
}

proof fn starts_alike(a: Seq<nat>, b: Seq<nat>, c: int)
    requires
        0 <= c <= b.len() <= a.len(),
        forall|k: int| 0 <= k < b.len() ==> a[k] == b[k],
    ensures
        column_start(a, c) == column_start(b, c),
        column_start(a, c) >= 2 * c,
    decreases c,
{
    if c > 0 {
        starts_alike(a, b, c - 1);
    }
}

/// In a line whose cells fit their columns, each cell stands in its own column: at
/// its left edge, or at its right one, with blanks for the rest.
pub proof fn cells_stand_in_their_columns(
    cells: Seq<Seq<char>>,
    widths: Seq<nat>,
    left: Seq<bool>,
    c: int,
)
    requires
        0 <= c < cells.len() == widths.len() == left.len(),
        forall|k: int| 0 <= k < cells.len() ==> (#[trigger] cells[k]).len() <= widths[k],
    ensures
        ({
            let line = table_line(cells, widths, left);
            let at = column_start(widths, c);
            let end = at + widths[c];
            &&& line.len() == column_start(widths, cells.len() as int) - 1
            &&& line.last() == '\n'
            &&& left[c] ==> line.subrange(at, at + cells[c].len()) == cells[c] && forall|i: int|
                at + cells[c].len() <= i < end ==> #[trigger] line[i] == ' '
            &&& !left[c] ==> line.subrange(end - cells[c].len(), end) == cells[c] && forall|i: int|
                at <= i < end - cells[c].len() ==> #[trigger] line[i] == ' '
        }),
{
    let parts = cells_of(cells, widths, left);
    assert forall|k: int| 0 <= k < parts.len() implies (#[trigger] parts[k]).len() == widths[k] by {
        assert(cells[k].len() <= widths[k]);
        padding_fills_the_width(cells[k], widths[k]);
    }
    joined_at(parts, widths, c);
    reveal_strlit("\n");
    let body = joined(parts, "  "@);
    let line = table_line(cells, widths, left);
    assert(line =~= body + "\n"@);
    let at = column_start(widths, c);
    let end = at + widths[c];
    starts_alike(widths, widths, c);
    let text = body.subrange(at, end);
    padding_fills_the_width(cells[c], widths[c]);
    assert forall|i: int| at <= i < end implies #[trigger] line[i] == text[i - at] by {}
    if left[c] {
        assert(line.subrange(at, at + cells[c].len()) =~= text.take(cells[c].len() as int));
    } else {
        assert(line.subrange(end - cells[c].len(), end) =~= text.skip(
            text.len() - cells[c].len(),
        ));
    }
}

/// The lines of a table: first the headings, then the rows in their order, all in
/// columns of the same widths.
pub proof fn rows_follow_the_headings(
    heads: Seq<Seq<char>>,
    left: Seq<bool>,
    front: Seq<Seq<Seq<char>>>,
    row: Seq<Seq<char>>,
    back: Seq<Seq<Seq<char>>>,
)
    ensures
        ({
            let rows = front + seq![row] + back;
            let widths = column_widths(heads, rows);
            &&& widths.len() == heads.len()
            &&& table_text(heads, left, rows) == table_line(heads, widths, left) + table_lines(
                front,
                widths,
                left,
            ) + table_line(row, widths, left) + table_lines(back, widths, left)
            &&& table_text(heads, left, Seq::empty()) == table_line(
                heads,
                column_widths(heads, Seq::empty()),
                left,
            )
        }),
{
    let rows = front + seq![row] + back;
    let widths = column_widths(heads, rows);
    lines_in_order(front + seq![row], back, widths, left);
    lines_in_order(front, seq![row], widths, left);
    assert(seq![row].drop_last() =~= Seq::empty());
    assert(table_lines(seq![row], widths, left) =~= table_line(row, widths, left)) by {
        assert(table_lines(Seq::empty(), widths, left) =~= Seq::empty());
    }
    assert(table_text(heads, left, rows) =~= table_line(heads, widths, left) + table_lines(
        front,
        widths,
        left,
    ) + table_line(row, widths, left) + table_lines(back, widths, left));
    assert(table_text(heads, left, Seq::empty()) =~= table_line(
        heads,
        column_widths(heads, Seq::empty()),
        left,
    ));
}

proof fn lines_in_order(
    a: Seq<Seq<Seq<char>>>,
    b: Seq<Seq<Seq<char>>>,
    widths: Seq<nat>,
    left: Seq<bool>,
)
    ensures
        table_lines(a + b, widths, left) == table_lines(a, widths, left) + table_lines(
            b,
            widths,
            left,
        ),
    decreases b.len(),
{
    if b.len() == 0 {
        assert(a + b =~= a);
        assert(table_lines(a, widths, left) + table_lines(b, widths, left) =~= table_lines(
            a,
            widths,
            left,
        ));
    } else {
        lines_in_order(a, b.drop_last(), widths, left);
        assert((a + b).drop_last() =~= a + b.drop_last());
        assert(table_lines(a + b, widths, left) =~= table_lines(a, widths, left) + table_lines(
            b,
            widths,
            left,
        ));
    }
}

/// The widths of a table are those of its columns.
pub proof fn widths_are_of_their_columns(
    heads: Seq<Seq<char>>,
    rows: Seq<Seq<Seq<char>>>,
    c: int,
    i: int,
)
    requires
        0 <= c < heads.len(),
        0 <= i < rows.len(),
    ensures
        byte_len(heads[c]) <= column_widths(heads, rows)[c],
        byte_len(rows[i][c]) <= column_widths(heads, rows)[c],
{
    column_is_as_wide_as_its_widest(heads[c], rows, c);
}

} // verus!

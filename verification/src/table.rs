//! Column-aligned tables.

use crate::text::{
    byte_count, byte_len, join, joined, pad_left, pad_right, padded_left, padded_right, views,
};
use vstd::prelude::*;

pub mod layout;

verus! {

/// The texts in the cells of a table.
pub open spec fn grid(rows: Seq<Vec<String>>) -> Seq<Seq<Seq<char>>> {
    rows.map_values(|r: Vec<String>| views(r@))
}

/// The width of a column: that of its widest cell in bytes, the heading counted in.
pub open spec fn column_width(head: Seq<char>, rows: Seq<Seq<Seq<char>>>, c: int) -> nat
    decreases rows.len(),
{
    if rows.len() == 0 {
        byte_len(head)
    } else {
        let above = column_width(head, rows.drop_last(), c);
        let own = byte_len(rows.last()[c]);
        if own > above {
            own
        } else {
            above
        }
    }
}

/// The widths of all columns.
pub open spec fn column_widths(heads: Seq<Seq<char>>, rows: Seq<Seq<Seq<char>>>) -> Seq<nat> {
    Seq::new(heads.len(), |c: int| column_width(heads[c], rows, c))
}

/// A cell, set to the left or the right of its column.
pub open spec fn cell(text: Seq<char>, width: nat, left: bool) -> Seq<char> {
    if left {
        padded_right(text, width as int)
    } else {
        padded_left(text, width as int)
    }
}

/// A line of the table: its cells with two blanks between them.
pub open spec fn table_line(cells: Seq<Seq<char>>, widths: Seq<nat>, left: Seq<bool>) -> Seq<char> {
    joined(Seq::new(cells.len(), |c: int| cell(cells[c], widths[c], left[c])), "  "@) + "\n"@
}

/// The lines of some rows.
pub open spec fn table_lines(
    rows: Seq<Seq<Seq<char>>>,
    widths: Seq<nat>,
    left: Seq<bool>,
) -> Seq<char>
    decreases rows.len(),
{
    if rows.len() == 0 {
        Seq::empty()
    } else {
        table_lines(rows.drop_last(), widths, left) + table_line(rows.last(), widths, left)
    }
}

/// A table: its headings, then its rows.
pub open spec fn table_text(
    heads: Seq<Seq<char>>,
    left: Seq<bool>,
    rows: Seq<Seq<Seq<char>>>,
) -> Seq<char> {
    let widths = column_widths(heads, rows);
    table_line(heads, widths, left) + table_lines(rows, widths, left)
}

/// The widths as mathematical numbers.
spec fn nats(v: Seq<usize>) -> Seq<nat> {
    v.map_values(|n: usize| n as nat)
}

fn measure(head: &str, rows: &[Vec<String>], c: usize) -> (r: usize)
    requires
        forall|k: int| 0 <= k < rows@.len() ==> c < (#[trigger] rows@[k])@.len(),
    ensures
        r == column_width(head@, grid(rows@), c as int),
{
    let ghost g = grid(rows@);
    let mut width: usize = byte_count(head);
    let mut i: usize = 0;
    while i < rows.len()
        invariant
            i <= rows@.len(),
            g == grid(rows@),
            forall|k: int| 0 <= k < rows@.len() ==> c < (#[trigger] rows@[k])@.len(),
            width == column_width(head@, g.take(i as int), c as int),
        decreases rows@.len() - i,
    {
        let own: usize = byte_count(rows[i][c].as_str());
        assert(g.take(i + 1).drop_last() =~= g.take(i as int));
        assert(g[i as int] == views(rows@[i as int]@));
        if own > width {
            width = own;
        }
        i += 1;
    }
    assert(g.take(i as int) =~= g);
    width
}

fn push_line(out: &mut String, cells: &[String], widths: &[usize], left: &[bool])
    requires
        widths@.len() == cells@.len(),
        left@.len() == cells@.len(),
    ensures
        final(out)@ == old(out)@ + table_line(views(cells@), nats(widths@), left@),
{
    let mut parts: Vec<String> = Vec::new();
    let mut c: usize = 0;
    while c < cells.len()
        invariant
            c <= cells@.len(),
            widths@.len() == cells@.len(),
            left@.len() == cells@.len(),
            parts@.len() == c,
            forall|k: int|
                0 <= k < c ==> #[trigger] parts@[k]@ == cell(cells@[k]@, widths@[k] as nat, left@[k]),
        decreases cells@.len() - c,
    {
        let part = if left[c] {
            pad_right(cells[c].as_str(), widths[c])
        } else {
            pad_left(cells[c].as_str(), widths[c])
        };
        parts.push(part);
        c += 1;
    }
    let ghost texts = views(cells@);
    assert(views(parts@) =~= Seq::new(
        texts.len(),
        |c: int| cell(texts[c], nats(widths@)[c], left@[c]),
    ));
    let line = join(&parts, "  ");
    out.append(line.as_str());
    out.append("\n");
    assert(out@ =~= old(out)@ + table_line(texts, nats(widths@), left@));
}

/// Writes a table behind a text. A column is as wide as its widest cell, and is
/// set to the left or to the right.
pub fn push_table(out: &mut String, heads: &[String], left: &[bool], rows: &[Vec<String>])
    requires
        left@.len() == heads@.len(),
        forall|k: int| 0 <= k < rows@.len() ==> (#[trigger] rows@[k])@.len() == heads@.len(),
    ensures
        final(out)@ == old(out)@ + table_text(views(heads@), left@, grid(rows@)),
{
    let ghost hs = views(heads@);
    let ghost g = grid(rows@);
    let mut widths: Vec<usize> = Vec::new();
    let mut c: usize = 0;
    while c < heads.len()
        invariant
            c <= heads@.len(),
            forall|k: int| 0 <= k < rows@.len() ==> (#[trigger] rows@[k])@.len() == heads@.len(),
            hs == views(heads@),
            g == grid(rows@),
            widths@.len() == c,
            forall|k: int| 0 <= k < c ==> #[trigger] widths@[k] == column_width(hs[k], g, k),
        decreases heads@.len() - c,
    {
        widths.push(measure(heads[c].as_str(), rows, c));
        c += 1;
    }
    let ghost ws = column_widths(hs, g);
    assert(nats(widths@) =~= ws);
    let ghost start = out@;
    push_line(out, heads, &widths, left);
    let ghost head = out@;
    let mut i: usize = 0;
    assert(out@ =~= head + table_lines(g.take(0), ws, left@));
    while i < rows.len()
        invariant
            i <= rows@.len(),
            g == grid(rows@),
            left@.len() == heads@.len(),
            widths@.len() == heads@.len(),
            nats(widths@) == ws,
            forall|k: int| 0 <= k < rows@.len() ==> (#[trigger] rows@[k])@.len() == heads@.len(),
            out@ == head + table_lines(g.take(i as int), ws, left@),
        decreases rows@.len() - i,
    {
        push_line(out, &rows[i], &widths, left);
        assert(g.take(i + 1).drop_last() =~= g.take(i as int));
        assert(g[i as int] == views(rows@[i as int]@));
        i += 1;
        assert(out@ =~= head + table_lines(g.take(i as int), ws, left@));
    }
    assert(g.take(i as int) =~= g);
    assert(out@ =~= start + table_text(hs, left@, g));
}

} // verus!

//! Column-aligned tables and key-value groups. Rows and pairs are
//! collected first; rendering then pads every cell to its column's
//! display width, so wide glyphs line up as well as narrow ones.

use vstd::prelude::*;
use crate::text::{
    push_spaces, push_str, spaces, string_from, trim_end_ws, trimmed_end_len,
};
use crate::width::{display_width, text_width};

verus! {

/// `a - b`, or zero when `b` is larger.
pub open spec fn minus_or_zero(a: nat, b: nat) -> nat {
    if a > b {
        (a - b) as nat
    } else {
        0
    }
}

/// The larger of `a` and `b`.
pub open spec fn larger(a: nat, b: nat) -> nat {
    if a >= b {
        a
    } else {
        b
    }
}

/// How one column of a table is sized.
#[derive(Debug, Clone, Copy, PartialEq, Eq)]
pub enum ColumnWidth {
    /// As wide as the widest cell of the column.
    Auto,
    /// This many columns, whatever the cells hold.
    Fixed(usize),
}

/// The column sizing that `Table::aligned` reads from a width, where zero
/// means auto-sizing.
pub open spec fn column_of(w: usize) -> ColumnWidth {
    if w == 0 {
        ColumnWidth::Auto
    } else {
        ColumnWidth::Fixed(w)
    }
}

/// The number of columns of a table: the length of its longest row.
pub open spec fn column_count(rows: Seq<Seq<Seq<char>>>) -> nat
    decreases rows.len(),
{
    if rows.len() == 0 {
        0
    } else {
        larger(column_count(rows.drop_last()), rows.last().len())
    }
}

/// The display width of cell `i` of `row`; zero where the row is short.
pub open spec fn cell_width(row: Seq<Seq<char>>, i: int) -> nat {
    if 0 <= i < row.len() {
        text_width(row[i])
    } else {
        0
    }
}

/// The widest display width of cell `i` over all rows.
pub open spec fn content_width(rows: Seq<Seq<Seq<char>>>, i: int) -> nat
    decreases rows.len(),
{
    if rows.len() == 0 {
        0
    } else {
        larger(content_width(rows.drop_last(), i), cell_width(rows.last(), i))
    }
}

/// The width of column `i`: its fixed width where one is given, else the
/// widest of its cells.
pub open spec fn column_width(columns: Seq<ColumnWidth>, rows: Seq<Seq<Seq<char>>>, i: int) -> nat {
    if 0 <= i < columns.len() && columns[i] is Fixed {
        columns[i]->Fixed_0 as nat
    } else {
        content_width(rows, i)
    }
}

/// The width of every column of a table, one per column of its longest row.
pub open spec fn width_plan(columns: Seq<ColumnWidth>, rows: Seq<Seq<Seq<char>>>) -> Seq<nat> {
    Seq::new(column_count(rows), |i: int| column_width(columns, rows, i))
}

/// The cell of `row` in column `i`; empty where the row is short.
pub open spec fn cell_at(row: Seq<Seq<char>>, i: int) -> Seq<char> {
    if 0 <= i < row.len() {
        row[i]
    } else {
        Seq::empty()
    }
}

/// The first `k` columns of `row` laid out: each cell, and after every
/// column but the last, padding up to the column's width and a gap of two
/// spaces.
pub open spec fn row_cells(row: Seq<Seq<char>>, widths: Seq<nat>, k: nat) -> Seq<char>
    decreases k,
{
    if k == 0 {
        Seq::empty()
    } else {
        let i = k - 1;
        let tail = if k < widths.len() {
            spaces(minus_or_zero(widths[i], cell_width(row, i))) + seq![' ', ' ']
        } else {
            Seq::empty()
        };
        row_cells(row, widths, (k - 1) as nat) + cell_at(row, i) + tail
    }
}

/// The line that a table prints for `row`: a two-space indent, then the
/// laid-out columns, without trailing whitespace.
pub open spec fn table_line(row: Seq<Seq<char>>, widths: Seq<nat>) -> Seq<char> {
    trim_end_ws(seq![' ', ' '] + row_cells(row, widths, widths.len()))
}

proof fn lemma_row_fits(rows: Seq<Seq<Seq<char>>>, r: int)
    requires
        0 <= r < rows.len(),
    ensures
        rows[r].len() <= column_count(rows),
    decreases rows.len(),
{
    if r < rows.len() - 1 {
        lemma_row_fits(rows.drop_last(), r);
    }
}

/// Lays out one row: a two-space indent, each cell padded to its column's
/// width with a two-space gap, and no trailing whitespace.
fn render_row(row: &Vec<String>, widths: &Vec<usize>) -> (line: String)
    ensures
        line@ == table_line(
            row@.map_values(|c: String| c@),
            widths@.map_values(|w: usize| w as nat),
        ),
{
    let ghost cells = row@.map_values(|c: String| c@);
    let ghost ws = widths@.map_values(|w: usize| w as nat);
    let mut out: Vec<char> = Vec::new();
    out.push(' ');
    out.push(' ');
    assert(out@ =~= seq![' ', ' '] + row_cells(cells, ws, 0));
    for i in 0..widths.len()
        invariant
            cells == row@.map_values(|c: String| c@),
            ws == widths@.map_values(|w: usize| w as nat),
            out@ =~= seq![' ', ' '] + row_cells(cells, ws, i as nat),
    {
        let ghost before = out@;
        if i < row.len() {
            push_str(&mut out, row[i].as_str());
        }
        assert(out@ =~= before + cell_at(cells, i as int));
        if i + 1 < widths.len() {
            let cw = if i < row.len() {
                display_width(row[i].as_str())
            } else {
                0
            };
            assert(cw as nat == cell_width(cells, i as int));
            let pad = if widths[i] > cw {
                widths[i] - cw
            } else {
                0
            };
            push_spaces(&mut out, pad);
            out.push(' ');
            out.push(' ');
        }
        assert(row_cells(cells, ws, (i + 1) as nat) == row_cells(cells, ws, i as nat) + cell_at(
            cells,
            i as int,
        ) + (if i + 1 < ws.len() {
            spaces(minus_or_zero(ws[i as int], cell_width(cells, i as int))) + seq![' ', ' ']
        } else {
            Seq::empty()
        }));
    }
    let n = trimmed_end_len(&out);
    out.truncate(n);
    string_from(&out)
}

/// A column-aligned table for terminal output: a two-space indent, cells
/// padded to their column's width and a two-space gap between columns,
/// with no box-drawing characters.
pub struct Table {
    columns: Vec<ColumnWidth>,
    rows: Vec<Vec<String>>,
}

impl Table {
    /// How each column is sized; columns past the end auto-size.
    pub closed spec fn layout(&self) -> Seq<ColumnWidth> {
        self.columns@
    }

    /// The rows added so far, each a sequence of cells.
    pub closed spec fn cells(&self) -> Seq<Seq<Seq<char>>> {
        self.rows@.map_values(|r: Vec<String>| r@.map_values(|c: String| c@))
    }

    /// A table whose columns all size to their content.
    pub fn new() -> (t: Table)
        ensures
            t.layout() == Seq::<ColumnWidth>::empty(),
            t.cells() == Seq::<Seq<Seq<char>>>::empty(),
    {
        let t = Table { columns: Vec::new(), rows: Vec::new() };
        assert(t.cells() =~= Seq::<Seq<Seq<char>>>::empty());
        t
    }

    /// A table with a fixed width for each column; a width of zero lets
    /// that column size to its content.
    pub fn aligned(widths: &[usize]) -> (t: Table)
        ensures
            t.layout() == widths@.map_values(|w: usize| column_of(w)),
            t.cells() == Seq::<Seq<Seq<char>>>::empty(),
    {
        let mut columns: Vec<ColumnWidth> = Vec::new();
        for i in 0..widths.len()
            invariant
                columns@ =~= widths@.take(i as int).map_values(|w: usize| column_of(w)),
        {
            if widths[i] == 0 {
                columns.push(ColumnWidth::Auto);
            } else {
                columns.push(ColumnWidth::Fixed(widths[i]));
            }
        }
        assert(widths@.take(widths@.len() as int) =~= widths@);
        let t = Table { columns, rows: Vec::new() };
        assert(t.cells() =~= Seq::<Seq<Seq<char>>>::empty());
        t
    }

    /// Adds a row of cells. Rows may have different lengths; missing
    /// cells print as empty.
    pub fn row(&mut self, cells: &[&str])
        ensures
            final(self).layout() == old(self).layout(),
            final(self).cells() == old(self).cells().push(cells@.map_values(|c: &str| c@)),
    {
        let mut row: Vec<String> = Vec::new();
        for i in 0..cells.len()
            invariant
                row.len() == i,
                forall|j: int| 0 <= j < i ==> (#[trigger] row@[j])@ == cells@[j]@,
        {
            row.push(cells[i].to_owned());
        }
        assert(row@.map_values(|c: String| c@) =~= cells@.map_values(|c: &str| c@));
        self.rows.push(row);
        assert(final(self).cells() =~= old(self).cells().push(cells@.map_values(|c: &str| c@)));
    }
}

impl Table {
    /// The number of columns: the length of the longest row.
    pub fn max_columns(&self) -> (n: usize)
        ensures
            n == column_count(self.cells()),
    {
        let ghost rows = self.cells();
        let mut n: usize = 0;
        assert(rows.take(0) =~= Seq::<Seq<Seq<char>>>::empty());
        for r in 0..self.rows.len()
            invariant
                rows == self.cells(),
                rows.len() == self.rows.len(),
                n == column_count(rows.take(r as int)),
        {
            assert(rows.take(r + 1).drop_last() =~= rows.take(r as int));
            assert(rows.take(r + 1).last() == rows[r as int]);
            if self.rows[r].len() > n {
                n = self.rows[r].len();
            }
        }
        assert(rows.take(rows.len() as int) =~= rows);
        n
    }

    /// The width of every column: its fixed width where one is given,
    /// otherwise the widest display width among its cells.
    pub fn resolve_widths(&self) -> (widths: Vec<usize>)
        ensures
            widths@.map_values(|w: usize| w as nat) == width_plan(self.layout(), self.cells()),
    {
        let ghost rows = self.cells();
        let n = self.max_columns();
        let mut widths: Vec<usize> = Vec::new();
        for i in 0..n
            invariant
                widths.len() == i,
                forall|j: int| 0 <= j < i ==> #[trigger] widths@[j] == 0,
        {
            widths.push(0);
        }
        for r in 0..self.rows.len()
            invariant
                rows == self.cells(),
                rows.len() == self.rows.len(),
                n == column_count(rows),
                widths.len() == n,
                forall|i: int| 0 <= i < n ==> #[trigger] widths@[i] as nat == content_width(rows.take(r as int), i),
        {
            let row = &self.rows[r];
            proof {
                lemma_row_fits(rows, r as int);
                assert(rows.take(r + 1).drop_last() =~= rows.take(r as int));
                assert(rows.take(r + 1).last() == rows[r as int]);
                assert(rows[r as int] == row@.map_values(|c: String| c@));
            }
            for c in 0..row.len()
                invariant
                    rows == self.cells(),
                    rows.len() == self.rows.len(),
                    r < self.rows.len(),
                    row == &self.rows@[r as int],
                    rows[r as int] == row@.map_values(|c: String| c@),
                    rows.take(r + 1).drop_last() == rows.take(r as int),
                    rows.take(r + 1).last() == rows[r as int],
                    row.len() <= n,
                    widths.len() == n,
                    forall|i: int| 0 <= i < n ==> #[trigger] widths@[i] as nat == (if i < c {
                        content_width(rows.take(r + 1), i)
                    } else {
                        content_width(rows.take(r as int), i)
                    }),
            {
                let w = display_width(row[c].as_str());
                assert(rows[r as int][c as int] == row@[c as int]@);
                assert(content_width(rows.take(r + 1), c as int) == larger(
                    content_width(rows.take(r as int), c as int),
                    w as nat,
                ));
                if w > widths[c] {
                    widths.set(c, w);
                }
            }
            assert forall|i: int| 0 <= i < n implies #[trigger] widths@[i] as nat == content_width(rows.take(r + 1), i) by {
                if i >= row.len() {
                    assert(cell_width(rows[r as int], i) == 0);
                }
            }
        }
        assert(rows.take(rows.len() as int) =~= rows);
        let ghost auto = widths@;
        for i in 0..self.columns.len()
            invariant
                rows == self.cells(),
                n == column_count(rows),
                widths.len() == n,
                forall|j: int| 0 <= j < n ==> #[trigger] widths@[j] as nat == (if j < i {
                    column_width(self.layout(), rows, j)
                } else {
                    content_width(rows, j)
                }),
        {
            if i < n {
                match self.columns[i] {
                    ColumnWidth::Fixed(w) => {
                        widths.set(i, w);
                    },
                    ColumnWidth::Auto => {},
                }
            }
        }
        assert(widths@.map_values(|w: usize| w as nat) =~= width_plan(self.layout(), self.cells()));
        widths
    }

    /// The lines that the table prints, one per row: a two-space indent,
    /// each cell padded to its column's width (by display width) and
    /// followed by a two-space gap, the last column unpadded, and no
    /// trailing whitespace. A table without rows prints nothing.
    pub fn render(&self) -> (lines: Vec<String>)
        ensures
            lines.len() == self.cells().len(),
            forall|r: int|
                0 <= r < lines.len() ==> (#[trigger] lines@[r])@ == table_line(
                    self.cells()[r],
                    width_plan(self.layout(), self.cells()),
                ),
    {
        let widths = self.resolve_widths();
        let ghost plan = width_plan(self.layout(), self.cells());
        let mut lines: Vec<String> = Vec::new();
        for r in 0..self.rows.len()
            invariant
                plan == widths@.map_values(|w: usize| w as nat),
                plan == width_plan(self.layout(), self.cells()),
                self.cells().len() == self.rows.len(),
                lines.len() == r,
                forall|k: int| 0 <= k < r ==> (#[trigger] lines@[k])@ == table_line(self.cells()[k], plan),
        {
            let line = render_row(&self.rows[r], &widths);
            lines.push(line);
        }
        lines
    }
}

/// The widest display width among `keys`; zero when there are none.
pub open spec fn max_key_width_of(keys: Seq<Seq<char>>) -> nat
    decreases keys.len(),
{
    if keys.len() == 0 {
        0
    } else {
        larger(max_key_width_of(keys.drop_last()), text_width(keys.last()))
    }
}

/// `key` followed by the spaces that bring its display width up to `width`.
pub open spec fn padded_key(key: Seq<char>, width: nat) -> Seq<char> {
    key + spaces(minus_or_zero(width, text_width(key)))
}

/// The line that a key-value group prints for one pair: a two-space
/// indent, the key padded to `width`, a colon and a space, the value.
pub open spec fn kv_line(key: Seq<char>, value: Seq<char>, width: nat) -> Seq<char> {
    seq![' ', ' '] + padded_key(key, width) + seq![':', ' '] + value
}

/// Key-value pairs printed with their keys padded to a common display
/// width, so that the values line up.
pub struct KvGroup {
    pairs: Vec<(String, String)>,
}

impl KvGroup {
    /// The pairs added so far, in order.
    pub closed spec fn entries(&self) -> Seq<(Seq<char>, Seq<char>)> {
        self.pairs@.map_values(|p: (String, String)| (p.0@, p.1@))
    }

    /// The keys added so far, in order.
    pub open spec fn keys(&self) -> Seq<Seq<char>> {
        self.entries().map_values(|e: (Seq<char>, Seq<char>)| e.0)
    }

    /// An empty group.
    pub fn new() -> (g: KvGroup)
        ensures
            g.entries() == Seq::<(Seq<char>, Seq<char>)>::empty(),
    {
        let g = KvGroup { pairs: Vec::new() };
        assert(g.entries() =~= Seq::<(Seq<char>, Seq<char>)>::empty());
        g
    }

    /// Adds a pair; keys may repeat, and pairs print in the order added.
    pub fn add(&mut self, key: &str, value: &str)
        ensures
            final(self).entries() == old(self).entries().push((key@, value@)),
    {
        self.pairs.push((key.to_owned(), value.to_owned()));
        assert(final(self).entries() =~= old(self).entries().push((key@, value@)));
    }

    /// The display width of the widest key; zero for an empty group.
    pub fn max_key_width(&self) -> (w: usize)
        ensures
            w as nat == max_key_width_of(self.keys()),
    {
        let ghost keys = self.keys();
        let mut w: usize = 0;
        assert(keys.take(0) =~= Seq::<Seq<char>>::empty());
        for i in 0..self.pairs.len()
            invariant
                keys == self.keys(),
                keys.len() == self.pairs.len(),
                w as nat == max_key_width_of(keys.take(i as int)),
        {
            let k = display_width(self.pairs[i].0.as_str());
            assert(keys.take(i + 1).drop_last() =~= keys.take(i as int));
            assert(keys.take(i + 1).last() == self.pairs@[i as int].0@);
            if k > w {
                w = k;
            }
        }
        assert(keys.take(keys.len() as int) =~= keys);
        w
    }

    /// Each pair with its key padded by spaces to the widest key's display
    /// width, in the order added.
    pub fn aligned_pairs(&self) -> (r: Vec<(String, String)>)
        ensures
            r.len() == self.entries().len(),
            forall|i: int|
                0 <= i < r.len() ==> (#[trigger] r@[i]).0@ == padded_key(
                    self.entries()[i].0,
                    max_key_width_of(self.keys()),
                ) && r@[i].1@ == self.entries()[i].1,
    {
        let width = self.max_key_width();
        let mut r: Vec<(String, String)> = Vec::new();
        for i in 0..self.pairs.len()
            invariant
                width as nat == max_key_width_of(self.keys()),
                self.entries().len() == self.pairs.len(),
                r.len() == i,
                forall|j: int|
                    0 <= j < i ==> (#[trigger] r@[j]).0@ == padded_key(
                        self.entries()[j].0,
                        width as nat,
                    ) && r@[j].1@ == self.entries()[j].1,
        {
            let key = self.pairs[i].0.as_str();
            let mut chars: Vec<char> = Vec::new();
            push_str(&mut chars, key);
            let kw = display_width(key);
            let pad = if width > kw {
                width - kw
            } else {
                0
            };
            push_spaces(&mut chars, pad);
            r.push((string_from(&chars), self.pairs[i].1.clone()));
        }
        r
    }

    /// The lines that the group prints, one per pair in the order added:
    /// a two-space indent, the key padded to the widest key's display
    /// width, `": "`, and the value. An empty group prints nothing.
    pub fn render(&self) -> (lines: Vec<String>)
        ensures
            lines.len() == self.entries().len(),
            forall|i: int|
                0 <= i < lines.len() ==> (#[trigger] lines@[i])@ == kv_line(
                    self.entries()[i].0,
                    self.entries()[i].1,
                    max_key_width_of(self.keys()),
                ),
    {
        let pairs = self.aligned_pairs();
        let mut lines: Vec<String> = Vec::new();
        for i in 0..pairs.len()
            invariant
                pairs.len() == self.entries().len(),
                forall|j: int|
                    0 <= j < pairs.len() ==> (#[trigger] pairs@[j]).0@ == padded_key(
                        self.entries()[j].0,
                        max_key_width_of(self.keys()),
                    ) && pairs@[j].1@ == self.entries()[j].1,
                lines.len() == i,
                forall|j: int|
                    0 <= j < i ==> (#[trigger] lines@[j])@ == kv_line(
                        self.entries()[j].0,
                        self.entries()[j].1,
                        max_key_width_of(self.keys()),
                    ),
        {
            let mut chars: Vec<char> = Vec::new();
            chars.push(' ');
            chars.push(' ');
            push_str(&mut chars, pairs[i].0.as_str());
            chars.push(':');
            chars.push(' ');
            push_str(&mut chars, pairs[i].1.as_str());
            assert(chars@ =~= kv_line(
                self.entries()[i as int].0,
                self.entries()[i as int].1,
                max_key_width_of(self.keys()),
            ));
            lines.push(string_from(&chars));
        }
        lines
    }
}

impl Default for Table {
    fn default() -> (t: Table)
        ensures
            t.layout() == Seq::<ColumnWidth>::empty(),
            t.cells() == Seq::<Seq<Seq<char>>>::empty(),
    {
        Table::new()
    }
}

impl Default for KvGroup {
    fn default() -> (g: KvGroup)
        ensures
            g.entries() == Seq::<(Seq<char>, Seq<char>)>::empty(),
    {
        KvGroup::new()
    }
}

proof fn lemma_key_within_max(keys: Seq<Seq<char>>, i: int)
    requires
        0 <= i < keys.len(),
    ensures
        text_width(keys[i]) <= max_key_width_of(keys),
    decreases keys.len(),
{
    if i < keys.len() - 1 {
        lemma_key_within_max(keys.drop_last(), i);
    }
}

/// Every key of a key-value group, with its padding, spans the display
/// width of the widest key, so the values all start in the same column
/// however many characters or wide glyphs the keys hold.
pub proof fn lemma_kv_values_align(keys: Seq<Seq<char>>, i: int)
    requires
        0 <= i < keys.len(),
    ensures
        text_width(keys[i]) + (padded_key(keys[i], max_key_width_of(keys)).len() - keys[i].len())
            == max_key_width_of(keys),
{
    lemma_key_within_max(keys, i);
}

} // verus!

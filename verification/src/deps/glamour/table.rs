//! Table layout: the column sizing and drawing of a table with column
//! borders only, a rule under the header, and a margin on both sides of
//! every cell.
use vstd::prelude::*;
use crate::deps::ansi::{clamp_usize, string_width, truncate_spec, truncate_with_tail, width_of};
use crate::deps::lipgloss;
use crate::text::{chars_of, extend_chars, join, repeat, repeat_char, string_of};

verus! {

broadcast use vstd::string::group_string_axioms;

/// The glyphs used to draw a table.
#[derive(Debug, Clone)]
pub struct Border {
    /// Horizontal rule glyph.
    pub top: String,
    /// Vertical column separator.
    pub left: String,
    /// Crossing of the rule and a column separator.
    pub middle: String,
}

impl Default for Border {
    /// The normal box-drawing border, used when a style leaves the
    /// separators unset.
    fn default() -> (r: Border)
        ensures
            r.top@ == seq!['─'],
            r.left@ == seq!['│'],
            r.middle@ == seq!['┼'],
    {
        proof {
            reveal_strlit("─");
            reveal_strlit("│");
            reveal_strlit("┼");
        }
        Border { top: "─".to_owned(), left: "│".to_owned(), middle: "┼".to_owned() }
    }
}

/// Horizontal alignment of a column's cells.
#[derive(Debug, Clone, Copy, PartialEq, Eq)]
pub enum Align {
    /// Flush left.
    Left,
    /// Centred.
    Center,
    /// Flush right.
    Right,
}

/// A table ready to be laid out.
#[derive(Debug, Clone)]
pub struct Table {
    /// Target total width; 0 asks for the table's own width.
    pub width: usize,
    /// Whether over-long body cells wrap instead of being truncated.
    pub wrap: bool,
    /// Header cells; empty when the table has no header.
    pub headers: Vec<String>,
    /// Body rows.
    pub rows: Vec<Vec<String>>,
    /// Per-column alignment.
    pub aligns: Vec<Align>,
    /// Separator glyphs.
    pub border: Border,
    /// Blank columns inside a cell, on each side.
    pub margin: usize,
}

/// What a table is.
pub struct TableView {
    pub width: int,
    pub wrap: bool,
    pub headers: Seq<Seq<char>>,
    pub rows: Seq<Seq<Seq<char>>>,
    pub aligns: Seq<Align>,
    pub top: Seq<char>,
    pub left: Seq<char>,
    pub middle: Seq<char>,
    pub margin: int,
}

/// The characters of each cell of a row.
pub open spec fn row_view(r: Seq<String>) -> Seq<Seq<char>> {
    r.map_values(|c: String| c@)
}

impl View for Table {
    type V = TableView;

    open spec fn view(&self) -> TableView {
        TableView {
            width: self.width as int,
            wrap: self.wrap,
            headers: row_view(self.headers@),
            rows: self.rows@.map_values(|r: Vec<String>| row_view(r@)),
            aligns: self.aligns@,
            top: self.border.top@,
            left: self.border.left@,
            middle: self.border.middle@,
            margin: self.margin as int,
        }
    }
}

/// The display width of a cell, as `string_width` reports it.
pub open spec fn sw(s: Seq<char>) -> int {
    clamp_usize(width_of(s) as int) as int
}

/// The widest of the header and the first `n` rows, in cells.
pub open spec fn column_count_upto(headers_len: int, rows: Seq<Seq<Seq<char>>>, n: int) -> int
    decreases n,
{
    if n <= 0 {
        headers_len
    } else {
        let m = column_count_upto(headers_len, rows, n - 1);
        if rows[n - 1].len() > m {
            rows[n - 1].len() as int
        } else {
            m
        }
    }
}

/// How many columns the table has.
pub open spec fn column_count(t: TableView) -> int {
    column_count_upto(t.headers.len() as int, t.rows, t.rows.len() as int)
}

/// The header, when there is one, followed by the body rows.
pub open spec fn all_rows(t: TableView) -> Seq<Seq<Seq<char>>> {
    (if t.headers.len() > 0 {
        seq![t.headers]
    } else {
        Seq::empty()
    }) + t.rows
}

/// The width of cell `j` of row `i`, 0 where the row is short.
pub open spec fn cell(all: Seq<Seq<Seq<char>>>, i: int, j: int) -> int {
    if 0 <= j < all[i].len() {
        sw(all[i][j])
    } else {
        0
    }
}

/// The widest cell of column `j` among the first `n` rows.
pub open spec fn col_max(all: Seq<Seq<Seq<char>>>, j: int, n: int) -> int
    decreases n,
{
    if n <= 0 {
        0
    } else {
        let m = col_max(all, j, n - 1);
        if cell(all, n - 1, j) > m {
            cell(all, n - 1, j)
        } else {
            m
        }
    }
}

/// The narrowest cell of column `j` among the first `n` rows, 0 for none.
pub open spec fn col_min(all: Seq<Seq<Seq<char>>>, j: int, n: int) -> int
    decreases n,
{
    if n <= 0 {
        0
    } else if n == 1 {
        cell(all, 0, j)
    } else {
        let m = col_min(all, j, n - 1);
        if cell(all, n - 1, j) < m {
            cell(all, n - 1, j)
        } else {
            m
        }
    }
}

/// The widths of column `j` below the first row.
pub open spec fn later_cells(all: Seq<Seq<Seq<char>>>, j: int) -> Seq<int> {
    if all.len() == 0 {
        Seq::empty()
    } else {
        Seq::new((all.len() - 1) as nat, |i: int| cell(all, i + 1, j))
    }
}

/// The first position of `sorted` holding more than `x`, or the end.
pub open spec fn ins_pos(sorted: Seq<int>, x: int, i: int) -> int
    decreases sorted.len() - i,
{
    if i < 0 || i >= sorted.len() {
        sorted.len() as int
    } else if sorted[i] > x {
        i
    } else {
        ins_pos(sorted, x, i + 1)
    }
}

/// `s` in ascending order.
pub open spec fn sorted_ints(s: Seq<int>) -> Seq<int>
    decreases s.len(),
{
    if s.len() == 0 {
        s
    } else {
        let r = sorted_ints(s.drop_last());
        r.insert(ins_pos(r, s.last(), 0), s.last())
    }
}

/// The median of `values`: the middle one, or the floor of the mean of the
/// middle two; 0 for none.
pub open spec fn median_spec(values: Seq<int>) -> int {
    let v = sorted_ints(values);
    let h = (v.len() / 2) as int;
    if v.len() == 0 {
        0
    } else if v.len() % 2 == 0 {
        (v[h - 1] + v[h]) / 2
    } else {
        v[h]
    }
}

/// The sum of `s`.
pub open spec fn sum(s: Seq<nat>) -> nat
    decreases s.len(),
{
    if s.len() == 0 {
        0
    } else {
        sum(s.drop_last()) + s.last()
    }
}

/// The widest cell of each column.
pub open spec fn maxes(t: TableView) -> Seq<nat> {
    Seq::new(column_count(t) as nat, |j: int| col_max(all_rows(t), j, all_rows(t).len() as int) as nat)
}

/// The separators between columns.
pub open spec fn border_total(cols: int) -> int {
    if cols > 0 {
        cols - 1
    } else {
        0
    }
}

/// The intrinsic width of the table: the widest cell of every column, its
/// margins, and the separators.
pub open spec fn detect_width_spec(t: TableView) -> int {
    let cols = column_count(t);
    sum(maxes(t)) + cols * (2 * t.margin) + border_total(cols)
}

/// Whether the table's widths fit the machine's arithmetic.
pub open spec fn fits(t: TableView) -> bool {
    &&& detect_width_spec(t) + 1 <= usize::MAX
    &&& 2 * t.margin <= usize::MAX
}

proof fn lemma_sum_bound(s: Seq<nat>)
    ensures
        forall|i: int| 0 <= i < s.len() ==> s[i] <= sum(s),
    decreases s.len(),
{
    if s.len() > 0 {
        lemma_sum_bound(s.drop_last());
        assert forall|i: int| 0 <= i < s.len() implies s[i] <= sum(s) by {
            if i < s.len() - 1 {
                assert(s[i] == s.drop_last()[i]);
            }
        }
    }
}

pub proof fn lemma_sum_update(s: Seq<nat>, k: int, v: nat)
    requires
        0 <= k < s.len(),
    ensures
        sum(s.update(k, v)) == sum(s) - s[k] + v,
    decreases s.len(),
{
    if k < s.len() - 1 {
        assert(s.update(k, v).drop_last() =~= s.drop_last().update(k, v));
        lemma_sum_update(s.drop_last(), k, v);
    } else {
        assert(s.update(k, v).drop_last() =~= s.drop_last());
    }
}

/// The first narrowest column from `j` on, given the narrowest so far.
pub open spec fn first_min(ws: Seq<nat>, j: int, idx: int, narrowest: int) -> int
    decreases ws.len() - j,
{
    if j < 0 || j >= ws.len() {
        idx
    } else if ws[j] < narrowest {
        first_min(ws, j + 1, j, ws[j] as int)
    } else {
        first_min(ws, j + 1, idx, narrowest)
    }
}

pub proof fn lemma_first_min(ws: Seq<nat>, j: int, idx: int, narrowest: int)
    requires
        0 <= j <= ws.len(),
        0 <= idx < ws.len(),
    ensures
        0 <= first_min(ws, j, idx, narrowest) < ws.len(),
    decreases ws.len() - j,
{
    if j < ws.len() {
        if ws[j] < narrowest {
            lemma_first_min(ws, j + 1, j, ws[j] as int);
        } else {
            lemma_first_min(ws, j + 1, idx, narrowest);
        }
    }
}

/// Widens the first narrowest column, one column at a time, until the
/// widths and separators fill `target`.
pub open spec fn expand(ws: Seq<nat>, bt: int, target: int) -> Seq<nat>
    decreases target - sum(ws) - bt,
{
    if ws.len() == 0 || sum(ws) + bt >= target {
        ws
    } else {
        let k = first_min(ws, 0, 0, usize::MAX as int);
        proof {
            lemma_first_min(ws, 0, 0, usize::MAX as int);
            lemma_sum_update(ws, k, ws[k] + 1);
        }
        expand(ws.update(k, ws[k] + 1), bt, target)
    }
}

/// The column a "shrink the biggest" step narrows, scanning from `j` with
/// the best so far; -1 for none. `very_big_only` restricts it to columns of
/// half the target or more, `use_floor` to columns above their floor.
pub open spec fn pick_big(
    ws: Seq<nat>,
    very_big_only: bool,
    use_floor: bool,
    target: int,
    floors: Seq<int>,
    j: int,
    bi: int,
    bw: int,
) -> int
    decreases ws.len() - j,
{
    if j < 0 || j >= ws.len() {
        bi
    } else if use_floor && ws[j] <= floors[j] {
        pick_big(ws, very_big_only, use_floor, target, floors, j + 1, bi, bw)
    } else if (!very_big_only || ws[j] >= target / 2) && ws[j] > bw {
        pick_big(ws, very_big_only, use_floor, target, floors, j + 1, j, ws[j] as int)
    } else {
        pick_big(ws, very_big_only, use_floor, target, floors, j + 1, bi, bw)
    }
}

pub proof fn lemma_pick_big(ws: Seq<nat>, vbo: bool, uf: bool, target: int, floors: Seq<int>, j: int, bi: int, bw: int)
    requires
        0 <= j <= ws.len(),
        -1 <= bi < ws.len(),
    ensures
        -1 <= pick_big(ws, vbo, uf, target, floors, j, bi, bw) < ws.len(),
    decreases ws.len() - j,
{
    if j < ws.len() {
        if uf && ws[j] <= floors[j] {
            lemma_pick_big(ws, vbo, uf, target, floors, j + 1, bi, bw);
        } else if (!vbo || ws[j] >= target / 2) && ws[j] > bw {
            lemma_pick_big(ws, vbo, uf, target, floors, j + 1, j, ws[j] as int);
        } else {
            lemma_pick_big(ws, vbo, uf, target, floors, j + 1, bi, bw);
        }
    }
}

/// Narrows the widest eligible column, one column at a time, until the
/// widths and separators fit `target` or nothing is eligible.
pub open spec fn shrink_biggest(
    ws: Seq<nat>,
    very_big_only: bool,
    use_floor: bool,
    bt: int,
    target: int,
    floors: Seq<int>,
) -> Seq<nat>
    decreases sum(ws),
{
    if sum(ws) + bt <= target {
        ws
    } else {
        let k = pick_big(ws, very_big_only, use_floor, target, floors, 0, -1, -1);
        if k < 0 || ws[k] == 0 {
            ws
        } else {
            proof {
                lemma_pick_big(ws, very_big_only, use_floor, target, floors, 0, -1, -1);
                lemma_sum_update(ws, k, (ws[k] - 1) as nat);
            }
            shrink_biggest(ws.update(k, (ws[k] - 1) as nat), very_big_only, use_floor, bt, target, floors)
        }
    }
}

/// The column a "shrink to the median" step narrows, scanning from `j`
/// with the best so far: the one furthest above its median; -1 for none.
pub open spec fn pick_med(
    ws: Seq<nat>,
    use_floor: bool,
    floors: Seq<int>,
    meds: Seq<int>,
    j: int,
    bi: int,
    bd: int,
) -> int
    decreases ws.len() - j,
{
    if j < 0 || j >= ws.len() {
        bi
    } else if use_floor && ws[j] <= floors[j] {
        pick_med(ws, use_floor, floors, meds, j + 1, bi, bd)
    } else if ws[j] - meds[j] > 0 && ws[j] - meds[j] > bd {
        pick_med(ws, use_floor, floors, meds, j + 1, j, ws[j] - meds[j])
    } else {
        pick_med(ws, use_floor, floors, meds, j + 1, bi, bd)
    }
}

pub proof fn lemma_pick_med(ws: Seq<nat>, uf: bool, floors: Seq<int>, meds: Seq<int>, j: int, bi: int, bd: int)
    requires
        0 <= j <= ws.len(),
        -1 <= bi < ws.len(),
    ensures
        -1 <= pick_med(ws, uf, floors, meds, j, bi, bd) < ws.len(),
    decreases ws.len() - j,
{
    if j < ws.len() {
        if uf && ws[j] <= floors[j] {
            lemma_pick_med(ws, uf, floors, meds, j + 1, bi, bd);
        } else if ws[j] - meds[j] > 0 && ws[j] - meds[j] > bd {
            lemma_pick_med(ws, uf, floors, meds, j + 1, j, ws[j] - meds[j]);
        } else {
            lemma_pick_med(ws, uf, floors, meds, j + 1, bi, bd);
        }
    }
}

/// Narrows the column furthest above its median, one column at a time,
/// until the widths fit `target`; the first column is never chosen.
pub open spec fn shrink_to_median(
    ws: Seq<nat>,
    use_floor: bool,
    bt: int,
    target: int,
    floors: Seq<int>,
    meds: Seq<int>,
) -> Seq<nat>
    decreases sum(ws),
{
    if sum(ws) + bt <= target {
        ws
    } else {
        let k = pick_med(ws, use_floor, floors, meds, 0, -1, -1);
        if k <= 0 || ws[k] == 0 {
            ws
        } else {
            proof {
                lemma_pick_med(ws, use_floor, floors, meds, 0, -1, -1);
                lemma_sum_update(ws, k, (ws[k] - 1) as nat);
            }
            shrink_to_median(ws.update(k, (ws[k] - 1) as nat), use_floor, bt, target, floors, meds)
        }
    }
}

/// The width the table is laid out to.
pub open spec fn target_width(t: TableView) -> int {
    if t.width == 0 {
        detect_width_spec(t)
    } else {
        t.width
    }
}

/// Each column's widest cell plus its margins.
pub open spec fn natural_widths(t: TableView) -> Seq<nat> {
    Seq::new(
        column_count(t) as nat,
        |j: int| (col_max(all_rows(t), j, all_rows(t).len() as int) + 2 * t.margin) as nat,
    )
}

/// The narrowest a column may be while its floor holds.
pub open spec fn floors_spec(t: TableView) -> Seq<int> {
    Seq::new(
        column_count(t) as nat,
        |j: int|
            2 * t.margin + {
                let m = col_min(all_rows(t), j, all_rows(t).len() as int);
                if m > 1 {
                    m
                } else {
                    1
                }
            },
    )
}

/// The median width of each column below the first row.
pub open spec fn medians(t: TableView) -> Seq<int> {
    Seq::new(column_count(t) as nat, |j: int| median_spec(later_cells(all_rows(t), j)))
}

/// The column widths: each column's natural width, widened to fill the
/// target when that is wider, or else narrowed in passes (very wide
/// columns, columns above their median, the widest) first down to each
/// column's floor and then, if that was not enough, past it.
pub open spec fn widths_spec(t: TableView) -> Seq<nat> {
    let cols = column_count(t);
    let target = target_width(t);
    let bt = border_total(cols);
    let w0 = natural_widths(t);
    let fl = floors_spec(t);
    let meds = medians(t);
    if cols == 0 {
        Seq::empty()
    } else if sum(w0) + bt <= target {
        expand(w0, bt, target)
    } else {
        let a = shrink_biggest(
            shrink_to_median(shrink_biggest(w0, true, true, bt, target, fl), true, bt, target, fl, meds),
            false,
            true,
            bt,
            target,
            fl,
        );
        if sum(a) + bt > target {
            shrink_biggest(
                shrink_to_median(shrink_biggest(a, true, false, bt, target, fl), false, bt, target, fl, meds),
                false,
                false,
                bt,
                target,
                fl,
            )
        } else {
            a
        }
    }
}

proof fn lemma_col_max(all: Seq<Seq<Seq<char>>>, j: int, n: int)
    requires
        0 <= n <= all.len(),
    ensures
        col_max(all, j, n) >= 0,
        forall|i: int| 0 <= i < n ==> cell(all, i, j) <= col_max(all, j, n),
        n > 0 ==> exists|i: int| 0 <= i < n && cell(all, i, j) == col_max(all, j, n),
    decreases n,
{
    if n > 0 {
        lemma_col_max(all, j, n - 1);
    }
}

impl Table {
    /// A table with the defaults: wrapping, a normal border, and one blank
    /// column on each side of every cell.
    pub fn new(width: usize) -> (r: Table)
        ensures
            r@.width == width,
            r@.wrap,
            r@.headers.len() == 0,
            r@.rows.len() == 0,
            r@.aligns.len() == 0,
            r@.top == seq!['─'],
            r@.left == seq!['│'],
            r@.middle == seq!['┼'],
            r@.margin == 1,
    {
        let t = Table {
            width,
            wrap: true,
            headers: Vec::new(),
            rows: Vec::new(),
            aligns: Vec::new(),
            border: Border::default(),
            margin: 1,
        };
        assert(t@.headers =~= Seq::<Seq<char>>::empty());
        assert(t@.rows =~= Seq::<Seq<Seq<char>>>::empty());
        t
    }

    fn column_count(&self) -> (r: usize)
        ensures
            r == column_count(self@),
    {
        let mut n = self.headers.len();
        let mut i: usize = 0;
        while i < self.rows.len()
            invariant
                i <= self.rows.len(),
                n == column_count_upto(self@.headers.len() as int, self@.rows, i as int),
            decreases self.rows.len() - i,
        {
            assert(self@.rows[i as int].len() == self.rows[i as int].len());
            if self.rows[i].len() > n {
                n = self.rows[i].len();
            }
            i += 1;
        }
        n
    }

    /// Row `i` of the header-then-body sequence.
    fn row_at(&self, i: usize) -> (r: &Vec<String>)
        requires
            i < all_rows(self@).len(),
        ensures
            row_view(r@) == all_rows(self@)[i as int],
    {
        if self.headers.len() > 0 {
            if i == 0 {
                &self.headers
            } else {
                &self.rows[i - 1]
            }
        } else {
            &self.rows[i]
        }
    }

    /// The header, when there is one, followed by the body rows.
    fn all_rows(&self) -> (r: Vec<Vec<String>>)
        ensures
            rows_view(r@) == all_rows(self@),
    {
        let mut out: Vec<Vec<String>> = Vec::new();
        let ghost head: Seq<Seq<Seq<char>>> = if self@.headers.len() > 0 {
            seq![self@.headers]
        } else {
            Seq::empty()
        };
        if self.headers.len() > 0 {
            out.push(copy_row(&self.headers));
        }
        assert(out@.map_values(|row: Vec<String>| row_view(row@)) =~= head);
        let mut i: usize = 0;
        while i < self.rows.len()
            invariant
                i <= self.rows.len(),
                head == (if self@.headers.len() > 0 { seq![self@.headers] } else { Seq::<Seq<Seq<char>>>::empty() }),
                out@.map_values(|row: Vec<String>| row_view(row@)) == head + self@.rows.take(i as int),
            decreases self.rows.len() - i,
        {
            let row = copy_row(&self.rows[i]);
            assert(row_view(row@) == self@.rows[i as int]);
            let ghost before = out@.map_values(|row: Vec<String>| row_view(row@));
            let ghost rv = row_view(row@);
            out.push(row);
            assert(out@.map_values(|row: Vec<String>| row_view(row@)) =~= before.push(rv));
            i += 1;
            assert(out@.map_values(|row: Vec<String>| row_view(row@)) =~= head + self@.rows.take(i as int));
        }
        assert(self@.rows.take(i as int) =~= self@.rows);
        out
    }

    /// The width of cell `j` of row `i`.
    fn cell_width(&self, i: usize, j: usize) -> (r: usize)
        requires
            i < all_rows(self@).len(),
        ensures
            r == cell(all_rows(self@), i as int, j as int),
    {
        let row = self.row_at(i);
        if j < row.len() {
            assert(row_view(row@)[j as int] == row@[j as int]@);
            string_width(row[j].as_str())
        } else {
            0
        }
    }
}

/// A copy of a row of cells.
fn copy_row(r: &Vec<String>) -> (c: Vec<String>)
    ensures
        row_view(c@) == row_view(r@),
{
    let mut out: Vec<String> = Vec::new();
    let mut i: usize = 0;
    while i < r.len()
        invariant
            i <= r.len(),
            row_view(out@) == row_view(r@).take(i as int),
        decreases r.len() - i,
    {
        let c = r[i].clone();
        assert(c@ == row_view(r@)[i as int]);
        let ghost before = row_view(out@);
        out.push(c);
        assert(row_view(out@) =~= before.push(c@));
        i += 1;
        assert(row_view(out@) =~= row_view(r@).take(i as int));
    }
    assert(row_view(r@).take(r.len() as int) =~= row_view(r@));
    out
}

/// The characters of each cell of each row.
pub open spec fn rows_view(all: Seq<Vec<String>>) -> Seq<Seq<Seq<char>>> {
    all.map_values(|row: Vec<String>| row_view(row@))
}

/// The width of cell `j` of row `i`.
fn cell_w(all: &Vec<Vec<String>>, i: usize, j: usize) -> (r: usize)
    requires
        i < all.len(),
    ensures
        r == cell(rows_view(all@), i as int, j as int),
{
    let row = &all[i];
    assert(rows_view(all@)[i as int] == row_view(row@));
    if j < row.len() {
        assert(row_view(row@)[j as int] == row@[j as int]@);
        string_width(row[j].as_str())
    } else {
        0
    }
}

/// The widest cell of column `j`.
fn col_max_exec(all: &Vec<Vec<String>>, j: usize) -> (r: usize)
    ensures
        r == col_max(rows_view(all@), j as int, all.len() as int),
{
    let mut m: usize = 0;
    let mut i: usize = 0;
    while i < all.len()
        invariant
            i <= all.len(),
            m == col_max(rows_view(all@), j as int, i as int),
        decreases all.len() - i,
    {
        let w = cell_w(all, i, j);
        if w > m {
            m = w;
        }
        i += 1;
    }
    m
}

/// The narrowest cell of column `j`, 0 for no rows.
fn col_min_exec(all: &Vec<Vec<String>>, j: usize) -> (r: usize)
    ensures
        r == col_min(rows_view(all@), j as int, all.len() as int),
{
    if all.len() == 0 {
        return 0;
    }
    let mut m: usize = cell_w(all, 0, j);
    let mut i: usize = 1;
    while i < all.len()
        invariant
            1 <= i <= all.len(),
            m == col_min(rows_view(all@), j as int, i as int),
        decreases all.len() - i,
    {
        let w = cell_w(all, i, j);
        if w < m {
            m = w;
        }
        i += 1;
    }
    m
}

/// The widths of column `j` below the first row.
fn later_cells_exec(all: &Vec<Vec<String>>, j: usize) -> (r: Vec<usize>)
    ensures
        r@.map_values(|w: usize| w as int) == later_cells(rows_view(all@), j as int),
{
    let mut out: Vec<usize> = Vec::new();
    if all.len() == 0 {
        assert(out@.map_values(|w: usize| w as int) =~= later_cells(rows_view(all@), j as int));
        return out;
    }
    let mut i: usize = 1;
    while i < all.len()
        invariant
            1 <= i <= all.len(),
            out@.map_values(|w: usize| w as int) =~= later_cells(rows_view(all@), j as int).take(i - 1),
        decreases all.len() - i,
    {
        let w = cell_w(all, i, j);
        let ghost lc = later_cells(rows_view(all@), j as int);
        assert(lc[i - 1] == cell(rows_view(all@), i as int, j as int));
        let ghost before = out@.map_values(|w: usize| w as int);
        out.push(w);
        assert(out@.map_values(|w: usize| w as int) =~= before.push(w as int));
        i += 1;
        assert(out@.map_values(|w: usize| w as int) =~= lc.take(i - 1));
    }
    assert(later_cells(rows_view(all@), j as int).take(i - 1) =~= later_cells(rows_view(all@), j as int));
    out
}

proof fn lemma_sorted_ints(s: Seq<int>)
    ensures
        sorted_ints(s).len() == s.len(),
        forall|a: int, b: int| 0 <= a <= b < s.len() ==> sorted_ints(s)[a] <= sorted_ints(s)[b],
        forall|i: int| 0 <= i < s.len() ==> exists|k: int| 0 <= k < s.len() && #[trigger] sorted_ints(s)[i] == s[k],
    decreases s.len(),
{
    if s.len() > 0 {
        let init = s.drop_last();
        lemma_sorted_ints(init);
        let r = sorted_ints(init);
        let x = s.last();
        lemma_ins_pos(r, x, 0);
        let p = ins_pos(r, x, 0);
        let out = r.insert(p, x);
        assert forall|i: int| 0 <= i < s.len() implies exists|k: int| 0 <= k < s.len() && #[trigger] out[i] == s[k] by {
            if i < p {
                let k = choose|k: int| 0 <= k < init.len() && r[i] == init[k];
                assert(init[k] == s[k]);
            } else if i == p {
                assert(out[i] == s[s.len() - 1]);
            } else {
                let k = choose|k: int| 0 <= k < init.len() && r[i - 1] == init[k];
                assert(init[k] == s[k]);
            }
        }
    }
}

proof fn lemma_ins_pos(sorted: Seq<int>, x: int, i: int)
    requires
        0 <= i <= sorted.len(),
        forall|q: int| 0 <= q < i ==> #[trigger] sorted[q] <= x,
    ensures
        0 <= ins_pos(sorted, x, i) <= sorted.len(),
        forall|q: int| 0 <= q < ins_pos(sorted, x, i) ==> #[trigger] sorted[q] <= x,
        ins_pos(sorted, x, i) < sorted.len() ==> sorted[ins_pos(sorted, x, i)] > x,
    decreases sorted.len() - i,
{
    if i < sorted.len() && sorted[i] <= x {
        lemma_ins_pos(sorted, x, i + 1);
    }
}

/// The median of `values`: the middle one once sorted, or the floor of the
/// mean of the middle two; 0 for none.
fn median(values: &Vec<usize>) -> (r: usize)
    ensures
        r == median_spec(values@.map_values(|w: usize| w as int)),
{
    let ghost vals = values@.map_values(|w: usize| w as int);
    let mut v: Vec<usize> = Vec::new();
    let mut i: usize = 0;
    assert(v@.map_values(|w: usize| w as int) =~= sorted_ints(vals.take(0)));
    while i < values.len()
        invariant
            i <= values.len(),
            vals == values@.map_values(|w: usize| w as int),
            v@.map_values(|w: usize| w as int) == sorted_ints(vals.take(i as int)),
        decreases values.len() - i,
    {
        let x = values[i];
        let ghost sorted = v@.map_values(|w: usize| w as int);
        let mut p: usize = 0;
        while p < v.len() && v[p] <= x
            invariant
                p <= v.len(),
                sorted == v@.map_values(|w: usize| w as int),
                ins_pos(sorted, x as int, 0) == ins_pos(sorted, x as int, p as int),
            decreases v.len() - p,
        {
            p += 1;
        }
        proof {
            let t = vals.take(i + 1);
            assert(t.drop_last() =~= vals.take(i as int));
            assert(t.last() == x as int);
        }
        v.insert(p, x);
        i += 1;
        assert(v@.map_values(|w: usize| w as int) =~= sorted.insert(p as int, x as int));
    }
    assert(vals.take(i as int) =~= vals);
    let n = v.len();
    if n == 0 {
        return 0;
    }
    let h = n / 2;
    proof {
        assert(v@.map_values(|w: usize| w as int)[h as int] == v@[h as int] as int);
    }
    if n % 2 == 0 {
        let a = v[h - 1];
        let b = v[h];
        proof {
            assert(v@.map_values(|w: usize| w as int)[h - 1] == v@[h - 1] as int);
            assert((a as int + b as int) / 2 == a as int / 2 + b as int / 2 + (a as int % 2 + b as int % 2) / 2) by (nonlinear_arith);
        }
        a / 2 + b / 2 + (a % 2 + b % 2) / 2
    } else {
        v[h]
    }
}

/// Widths as natural numbers.
pub open spec fn nv(ws: Seq<usize>) -> Seq<nat> {
    ws.map_values(|w: usize| w as nat)
}

/// Widths as integers.
pub open spec fn iv(ws: Seq<usize>) -> Seq<int> {
    ws.map_values(|w: usize| w as int)
}

/// The sum of the widths.
fn total_of(ws: &Vec<usize>) -> (r: usize)
    requires
        sum(nv(ws@)) <= usize::MAX,
    ensures
        r == sum(nv(ws@)),
{
    let mut t: usize = 0;
    let mut i: usize = 0;
    proof {
        lemma_sum_prefix(nv(ws@), ws.len() as int);
        assert(nv(ws@).take(ws.len() as int) =~= nv(ws@));
    }
    while i < ws.len()
        invariant
            i <= ws.len(),
            t == sum(nv(ws@).take(i as int)),
            sum(nv(ws@)) <= usize::MAX,
            forall|k: int| 0 <= k <= ws.len() ==> sum(#[trigger] nv(ws@).take(k)) <= sum(nv(ws@)),
        decreases ws.len() - i,
    {
        proof {
            assert(nv(ws@).take(i + 1).drop_last() =~= nv(ws@).take(i as int));
            assert(nv(ws@).take(i + 1).last() == ws@[i as int] as nat);
            assert(sum(nv(ws@).take(i + 1)) <= sum(nv(ws@)));
        }
        t = t + ws[i];
        i += 1;
    }
    assert(nv(ws@).take(i as int) =~= nv(ws@));
    t
}

proof fn lemma_sum_prefix(s: Seq<nat>, n: int)
    requires
        0 <= n <= s.len(),
    ensures
        forall|k: int| 0 <= k <= n ==> sum(#[trigger] s.take(k)) <= sum(s.take(n)),
    decreases n,
{
    if n > 0 {
        lemma_sum_prefix(s, n - 1);
        assert(s.take(n).drop_last() =~= s.take(n - 1));
    }
    assert(s.take(n) =~= s.take(n));
    if n == s.len() {
        assert(s.take(n) =~= s);
    }
}

/// The first narrowest column.
fn first_min_exec(ws: &Vec<usize>) -> (r: usize)
    ensures
        r == first_min(nv(ws@), 0, 0, usize::MAX as int),
{
    let mut idx: usize = 0;
    let mut narrowest: usize = usize::MAX;
    let mut j: usize = 0;
    while j < ws.len()
        invariant
            j <= ws.len(),
            first_min(nv(ws@), 0, 0, usize::MAX as int) == first_min(nv(ws@), j as int, idx as int, narrowest as int),
        decreases ws.len() - j,
    {
        if ws[j] < narrowest {
            narrowest = ws[j];
            idx = j;
        }
        j += 1;
    }
    idx
}

/// Widens the first narrowest column until the widths fill `target`.
fn expand_exec(ws: &mut Vec<usize>, bt: usize, target: usize)
    requires
        sum(nv(old(ws)@)) + bt <= usize::MAX,
    ensures
        nv(final(ws)@) == expand(nv(old(ws)@), bt as int, target as int),
{
    let ghost goal = expand(nv(ws@), bt as int, target as int);
    loop
        invariant
            expand(nv(ws@), bt as int, target as int) == goal,
            sum(nv(ws@)) + bt <= usize::MAX,
        ensures
            nv(ws@) == goal,
        decreases target - sum(nv(ws@)) - bt,
    {
        if ws.len() == 0 {
            break;
        }
        let total = total_of(ws);
        if total + bt >= target {
            break;
        }
        let k = first_min_exec(ws);
        let ghost before = nv(ws@);
        proof {
            lemma_first_min(before, 0, 0, usize::MAX as int);
            lemma_sum_update(before, k as int, (ws@[k as int] + 1) as nat);
            lemma_sum_bound(before);
            assert(before[k as int] == ws@[k as int]);
        }
        let w = ws[k];
        ws.set(k, w + 1);
        assert(nv(ws@) =~= before.update(k as int, (w + 1) as nat));
    }
}

/// An optional index or width as the integer the scan keeps, -1 for none.
pub open spec fn opt_int(o: Option<usize>) -> int {
    match o {
        Some(v) => v as int,
        None => -1,
    }
}

/// The column a "shrink the biggest" step narrows, if any.
fn pick_big_exec(ws: &Vec<usize>, very_big_only: bool, use_floor: bool, target: usize, floors: &Vec<usize>) -> (r: Option<usize>)
    requires
        floors.len() == ws.len(),
    ensures
        opt_int(r) == pick_big(nv(ws@), very_big_only, use_floor, target as int, iv(floors@), 0, -1, -1),
{
    let mut bi: Option<usize> = None;
    let mut bw: Option<usize> = None;
    let mut j: usize = 0;
    while j < ws.len()
        invariant
            j <= ws.len(),
            floors.len() == ws.len(),
            pick_big(nv(ws@), very_big_only, use_floor, target as int, iv(floors@), 0, -1, -1)
                == pick_big(nv(ws@), very_big_only, use_floor, target as int, iv(floors@), j as int, opt_int(bi), opt_int(bw)),
        decreases ws.len() - j,
    {
        let w = ws[j];
        assert(iv(floors@)[j as int] == floors@[j as int]);
        if use_floor && w <= floors[j] {
        } else {
            let bigger = match bw {
                Some(b) => w > b,
                None => true,
            };
            if (!very_big_only || w >= target / 2) && bigger {
                bw = Some(w);
                bi = Some(j);
            }
        }
        j += 1;
    }
    bi
}

/// The column a "shrink to the median" step narrows, if any.
fn pick_med_exec(ws: &Vec<usize>, use_floor: bool, floors: &Vec<usize>, meds: &Vec<usize>) -> (r: Option<usize>)
    requires
        floors.len() == ws.len(),
        meds.len() == ws.len(),
    ensures
        opt_int(r) == pick_med(nv(ws@), use_floor, iv(floors@), iv(meds@), 0, -1, -1),
{
    let mut bi: Option<usize> = None;
    let mut bd: Option<usize> = None;
    let mut j: usize = 0;
    while j < ws.len()
        invariant
            j <= ws.len(),
            floors.len() == ws.len(),
            meds.len() == ws.len(),
            pick_med(nv(ws@), use_floor, iv(floors@), iv(meds@), 0, -1, -1)
                == pick_med(nv(ws@), use_floor, iv(floors@), iv(meds@), j as int, opt_int(bi), opt_int(bd)),
        decreases ws.len() - j,
    {
        let w = ws[j];
        assert(iv(floors@)[j as int] == floors@[j as int]);
        assert(iv(meds@)[j as int] == meds@[j as int]);
        if use_floor && w <= floors[j] {
        } else if w > meds[j] {
            let diff = w - meds[j];
            let better = match bd {
                Some(b) => diff > b,
                None => true,
            };
            if better {
                bd = Some(diff);
                bi = Some(j);
            }
        }
        j += 1;
    }
    bi
}

/// Narrows the widest eligible column until the widths fit `target` or
/// nothing is eligible.
fn shrink_biggest_exec(ws: &mut Vec<usize>, very_big_only: bool, use_floor: bool, bt: usize, target: usize, floors: &Vec<usize>)
    requires
        sum(nv(old(ws)@)) + bt <= usize::MAX,
        floors.len() == old(ws).len(),
    ensures
        nv(final(ws)@) == shrink_biggest(nv(old(ws)@), very_big_only, use_floor, bt as int, target as int, iv(floors@)),
        final(ws).len() == old(ws).len(),
{
    let ghost goal = shrink_biggest(nv(ws@), very_big_only, use_floor, bt as int, target as int, iv(floors@));
    let ghost n = ws.len();
    loop
        invariant
            shrink_biggest(nv(ws@), very_big_only, use_floor, bt as int, target as int, iv(floors@)) == goal,
            sum(nv(ws@)) + bt <= usize::MAX,
            ws.len() == n,
            floors.len() == n,
        ensures
            nv(ws@) == goal,
            ws.len() == n,
        decreases sum(nv(ws@)),
    {
        let total = total_of(ws);
        if total + bt <= target {
            break;
        }
        let k = pick_big_exec(ws, very_big_only, use_floor, target, floors);
        let ghost before = nv(ws@);
        proof {
            lemma_pick_big(before, very_big_only, use_floor, target as int, iv(floors@), 0, -1, -1);
        }
        match k {
            None => {
                break;
            },
            Some(k) => {
                assert(before[k as int] == ws@[k as int]);
                if ws[k] == 0 {
                    break;
                }
                proof {
                    lemma_sum_update(before, k as int, (ws@[k as int] - 1) as nat);
                }
                let w = ws[k];
                ws.set(k, w - 1);
                assert(nv(ws@) =~= before.update(k as int, (w - 1) as nat));
            },
        }
    }
}

/// Narrows the column furthest above its median until the widths fit
/// `target`, leaving the first column alone.
fn shrink_to_median_exec(ws: &mut Vec<usize>, use_floor: bool, bt: usize, target: usize, floors: &Vec<usize>, meds: &Vec<usize>)
    requires
        sum(nv(old(ws)@)) + bt <= usize::MAX,
        floors.len() == old(ws).len(),
        meds.len() == old(ws).len(),
    ensures
        nv(final(ws)@) == shrink_to_median(nv(old(ws)@), use_floor, bt as int, target as int, iv(floors@), iv(meds@)),
        final(ws).len() == old(ws).len(),
{
    let ghost goal = shrink_to_median(nv(ws@), use_floor, bt as int, target as int, iv(floors@), iv(meds@));
    let ghost n = ws.len();
    loop
        invariant
            shrink_to_median(nv(ws@), use_floor, bt as int, target as int, iv(floors@), iv(meds@)) == goal,
            sum(nv(ws@)) + bt <= usize::MAX,
            ws.len() == n,
            floors.len() == n,
            meds.len() == n,
        ensures
            nv(ws@) == goal,
            ws.len() == n,
        decreases sum(nv(ws@)),
    {
        let total = total_of(ws);
        if total + bt <= target {
            break;
        }
        let k = pick_med_exec(ws, use_floor, floors, meds);
        let ghost before = nv(ws@);
        proof {
            lemma_pick_med(before, use_floor, iv(floors@), iv(meds@), 0, -1, -1);
        }
        match k {
            None => {
                break;
            },
            Some(k) => {
                assert(before[k as int] == ws@[k as int]);
                if k == 0 || ws[k] == 0 {
                    break;
                }
                proof {
                    lemma_sum_update(before, k as int, (ws@[k as int] - 1) as nat);
                }
                let w = ws[k];
                ws.set(k, w - 1);
                assert(nv(ws@) =~= before.update(k as int, (w - 1) as nat));
            },
        }
    }
}

proof fn lemma_sum_shift(a: Seq<nat>, b: Seq<nat>, c: nat)
    requires
        a.len() == b.len(),
        forall|i: int| 0 <= i < a.len() ==> #[trigger] b[i] == a[i] + c,
    ensures
        sum(b) == sum(a) + a.len() * c,
    decreases a.len(),
{
    if a.len() > 0 {
        let n = a.len();
        assert forall|i: int| 0 <= i < n - 1 implies #[trigger] b.drop_last()[i] == a.drop_last()[i] + c by {
            assert(b[i] == a[i] + c);
        }
        lemma_sum_shift(a.drop_last(), b.drop_last(), c);
        assert(b[n - 1] == a[n - 1] + c);
        assert(sum(b) == sum(b.drop_last()) + b.last());
        assert(sum(a) == sum(a.drop_last()) + a.last());
        assert(sum(b.drop_last()) == sum(a.drop_last()) + (n - 1) * c);
        assert((n - 1) * c + c == n * c) by (nonlinear_arith);
    } else {
        assert(a.len() * c == 0) by (nonlinear_arith)
            requires
                a.len() == 0,
        ;
    }
}

proof fn lemma_shrink_biggest_sum(ws: Seq<nat>, vbo: bool, uf: bool, bt: int, target: int, fl: Seq<int>)
    ensures
        sum(shrink_biggest(ws, vbo, uf, bt, target, fl)) <= sum(ws),
    decreases sum(ws),
{
    if sum(ws) + bt > target {
        let k = pick_big(ws, vbo, uf, target, fl, 0, -1, -1);
        lemma_pick_big(ws, vbo, uf, target, fl, 0, -1, -1);
        if k >= 0 && ws[k] != 0 {
            lemma_sum_update(ws, k, (ws[k] - 1) as nat);
            lemma_shrink_biggest_sum(ws.update(k, (ws[k] - 1) as nat), vbo, uf, bt, target, fl);
        }
    }
}

proof fn lemma_shrink_to_median_sum(ws: Seq<nat>, uf: bool, bt: int, target: int, fl: Seq<int>, meds: Seq<int>)
    ensures
        sum(shrink_to_median(ws, uf, bt, target, fl, meds)) <= sum(ws),
    decreases sum(ws),
{
    if sum(ws) + bt > target {
        let k = pick_med(ws, uf, fl, meds, 0, -1, -1);
        lemma_pick_med(ws, uf, fl, meds, 0, -1, -1);
        if k > 0 && ws[k] != 0 {
            lemma_sum_update(ws, k, (ws[k] - 1) as nat);
            lemma_shrink_to_median_sum(ws.update(k, (ws[k] - 1) as nat), uf, bt, target, fl, meds);
        }
    }
}

proof fn lemma_col_min_le_max(all: Seq<Seq<Seq<char>>>, j: int, n: int)
    requires
        0 < n <= all.len(),
    ensures
        0 <= col_min(all, j, n) <= col_max(all, j, n),
    decreases n,
{
    if n > 1 {
        lemma_col_min_le_max(all, j, n - 1);
    }
}

proof fn lemma_all_rows_nonempty(t: TableView)
    requires
        column_count(t) > 0,
    ensures
        all_rows(t).len() > 0,
{
    if t.headers.len() == 0 {
        lemma_column_count_rows(t.headers.len() as int, t.rows, t.rows.len() as int);
    }
}

proof fn lemma_column_count_rows(h: int, rows: Seq<Seq<Seq<char>>>, n: int)
    requires
        0 <= n <= rows.len(),
        h == 0,
    ensures
        column_count_upto(h, rows, n) > 0 ==> n > 0,
    decreases n,
{
    if n > 0 {
        lemma_column_count_rows(h, rows, n - 1);
    }
}

impl Table {
    /// The horizontal frame each cell adds: one margin per side.
    fn x_padding(&self) -> (r: usize)
        requires
            2 * self.margin <= usize::MAX,
        ensures
            r == 2 * self.margin,
    {
        self.margin * 2
    }

    /// Whether the table's widths fit the machine's arithmetic.
    pub fn fits_machine(&self) -> (r: bool)
        ensures
            r == fits(self@),
    {
        if self.margin > usize::MAX / 2 {
            return false;
        }
        let cols = self.column_count();
        let all = self.all_rows();
        let ghost mx = maxes(self@);
        proof {
            lemma_sum_prefix(mx, mx.len() as int);
            assert(mx.take(mx.len() as int) =~= mx);
        }
        let mut chars: u128 = 0;
        let mut j: usize = 0;
        while j < cols
            invariant
                j <= cols,
                cols == column_count(self@),
                mx == maxes(self@),
                rows_view(all@) == all_rows(self@),
                chars == sum(mx.take(j as int)),
                chars <= usize::MAX,
                forall|k: int| 0 <= k <= mx.len() ==> sum(#[trigger] mx.take(k)) <= sum(mx.take(mx.len() as int)),
                mx.take(mx.len() as int) == mx,
            decreases cols - j,
        {
            let m = col_max_exec(&all, j);
            proof {
                assert(mx.take(j + 1).drop_last() =~= mx.take(j as int));
                lemma_col_max(all_rows(self@), j as int, all_rows(self@).len() as int);
                assert(mx.take(j + 1).last() == m as nat);
            }
            chars = chars + m as u128;
            if chars > usize::MAX as u128 {
                assert(sum(mx.take(j + 1)) <= sum(mx));
                return false;
            }
            j += 1;
        }
        assert(mx.take(cols as int) =~= mx);
        let pad: u128 = 2 * self.margin as u128;
        let c: u128 = cols as u128;
        if pad > 0 && c > usize::MAX as u128 / pad {
            proof {
                assert(c * pad > usize::MAX) by (nonlinear_arith)
                    requires
                        pad > 0,
                        c > usize::MAX as u128 / pad;
            }
            return false;
        }
        proof {
            assert(c * pad <= usize::MAX) by (nonlinear_arith)
                requires
                    pad == 0 || c <= usize::MAX as u128 / pad;
        }
        let bt: u128 = if cols > 0 {
            c - 1
        } else {
            0
        };
        chars + c * pad + bt + 1 <= usize::MAX as u128
    }

    /// The intrinsic width of the table, used when no width was asked for.
    fn detect_width(&self) -> (r: usize)
        requires
            fits(self@),
        ensures
            r == detect_width_spec(self@),
    {
        let cols = self.column_count();
        let all = self.all_rows();
        let ghost mx = maxes(self@);
        proof {
            lemma_sum_prefix(mx, mx.len() as int);
            assert(mx.take(mx.len() as int) =~= mx);
        }
        let mut chars: usize = 0;
        let mut j: usize = 0;
        while j < cols
            invariant
                j <= cols,
                cols == column_count(self@),
                mx == maxes(self@),
                rows_view(all@) == all_rows(self@),
                chars == sum(mx.take(j as int)),
                fits(self@),
                forall|k: int| 0 <= k <= mx.len() ==> sum(#[trigger] mx.take(k)) <= sum(mx.take(mx.len() as int)),
                mx.take(mx.len() as int) == mx,
            decreases cols - j,
        {
            let m = col_max_exec(&all, j);
            proof {
                assert(mx.take(j + 1).drop_last() =~= mx.take(j as int));
                lemma_col_max(all_rows(self@), j as int, all_rows(self@).len() as int);
                assert(mx.take(j + 1).last() == m as nat);
                assert(sum(mx.take(j + 1)) <= sum(mx));
            }
            chars = chars + m;
            j += 1;
        }
        assert(mx.take(cols as int) =~= mx);
        let pad = self.x_padding();
        proof {
            assert(cols * pad <= usize::MAX) by (nonlinear_arith)
                requires
                    chars + cols * pad + border_total(cols as int) <= usize::MAX,
                    chars >= 0,
                    border_total(cols as int) >= 0;
        }
        let bt = if cols > 0 {
            cols - 1
        } else {
            0
        };
        chars + cols * pad + bt
    }

    /// The column widths, fitted to the target width.
    fn widths(&self) -> (r: Vec<usize>)
        requires
            fits(self@),
        ensures
            nv(r@) == widths_spec(self@),
    {
        let cols = self.column_count();
        if cols == 0 {
            let r: Vec<usize> = Vec::new();
            assert(nv(r@) =~= Seq::<nat>::empty());
            return r;
        }
        let target = if self.width == 0 {
            self.detect_width()
        } else {
            self.width
        };
        let all = self.all_rows();
        let pad = self.x_padding();
        let ghost t = self@;
        let ghost al = all_rows(t);
        let ghost w0 = natural_widths(t);
        proof {
            lemma_sum_shift(maxes(t), w0, pad as nat);
            lemma_sum_bound(w0);
            lemma_all_rows_nonempty(t);
        }
        let mut widths: Vec<usize> = Vec::new();
        let mut floors: Vec<usize> = Vec::new();
        let mut meds: Vec<usize> = Vec::new();
        let mut j: usize = 0;
        while j < cols
            invariant
                j <= cols,
                cols == column_count(t),
                t == self@,
                al == all_rows(t),
                al.len() > 0,
                w0 == natural_widths(t),
                rows_view(all@) == al,
                pad == 2 * t.margin,
                fits(t),
                sum(w0) + border_total(cols as int) == detect_width_spec(t),
                forall|i: int| 0 <= i < w0.len() ==> w0[i] <= sum(w0),
                widths.len() == j,
                floors.len() == j,
                meds.len() == j,
                forall|k: int| 0 <= k < j ==> (#[trigger] nv(widths@)[k]) == w0[k],
                forall|k: int| 0 <= k < j ==> (#[trigger] iv(floors@)[k]) == floors_spec(t)[k],
                forall|k: int| 0 <= k < j ==> (#[trigger] iv(meds@)[k]) == medians(t)[k],
            decreases cols - j,
        {
            let m = col_max_exec(&all, j);
            let mn = col_min_exec(&all, j);
            let later = later_cells_exec(&all, j);
            let md = median(&later);
            proof {
                lemma_col_max(al, j as int, al.len() as int);
                lemma_col_min_le_max(al, j as int, al.len() as int);
                assert(w0[j as int] == m + pad);
                assert(later@.map_values(|w: usize| w as int) == later_cells(al, j as int));
            }
            let ghost wb = nv(widths@);
            let ghost fb = iv(floors@);
            let ghost mb = iv(meds@);
            widths.push(m + pad);
            let floor = if mn > 1 {
                pad + mn
            } else {
                pad + 1
            };
            floors.push(floor);
            meds.push(md);
            assert(nv(widths@) =~= wb.push((m + pad) as nat));
            assert(iv(floors@) =~= fb.push(floor as int));
            assert(iv(meds@) =~= mb.push(md as int));
            j += 1;
        }
        assert(nv(widths@) =~= w0);
        assert(iv(floors@) =~= floors_spec(t));
        assert(iv(meds@) =~= medians(t));
        let bt = cols - 1;
        let total = total_of(&widths);
        if total + bt <= target {
            expand_exec(&mut widths, bt, target);
            return widths;
        }
        let ghost fl = floors_spec(t);
        let ghost md = medians(t);
        proof {
            lemma_shrink_biggest_sum(w0, true, true, bt as int, target as int, fl);
        }
        shrink_biggest_exec(&mut widths, true, true, bt, target, &floors);
        proof {
            lemma_shrink_to_median_sum(nv(widths@), true, bt as int, target as int, fl, md);
        }
        shrink_to_median_exec(&mut widths, true, bt, target, &floors, &meds);
        proof {
            lemma_shrink_biggest_sum(nv(widths@), false, true, bt as int, target as int, fl);
        }
        shrink_biggest_exec(&mut widths, false, true, bt, target, &floors);
        let total = total_of(&widths);
        if total + bt > target {
            proof {
                lemma_shrink_biggest_sum(nv(widths@), true, false, bt as int, target as int, fl);
            }
            shrink_biggest_exec(&mut widths, true, false, bt, target, &floors);
            proof {
                lemma_shrink_to_median_sum(nv(widths@), false, bt as int, target as int, fl, md);
            }
            shrink_to_median_exec(&mut widths, false, bt, target, &floors, &meds);
            proof {
                lemma_shrink_biggest_sum(nv(widths@), false, false, bt as int, target as int, fl);
            }
            shrink_biggest_exec(&mut widths, false, false, bt, target, &floors);
        }
        widths
    }
}

/// `s` repeated `n` times.
pub open spec fn repeat_seq(s: Seq<char>, n: nat) -> Seq<char>
    decreases n,
{
    if n == 0 {
        Seq::empty()
    } else {
        repeat_seq(s, (n - 1) as nat) + s
    }
}

/// `n` spaces.
pub open spec fn spaces(n: int) -> Seq<char> {
    repeat(' ', n as nat)
}

/// `s` padded with spaces to `width` columns, by `align`.
pub open spec fn pad_to_spec(s: Seq<char>, width: int, align: Align) -> Seq<char> {
    let w = sw(s);
    if w >= width {
        s
    } else {
        let short = width - w;
        match align {
            Align::Left => s + spaces(short),
            Align::Right => spaces(short) + s,
            Align::Center => spaces(short / 2) + s + spaces(short - short / 2),
        }
    }
}

/// The lines of a cell laid out `w` columns wide: truncated with an
/// ellipsis in a header or when wrapping is off, kept whole at width 0, or
/// else word-wrapped.
pub open spec fn cell_lines(t: TableView, cell: Seq<char>, w: int, header: bool) -> Seq<Seq<char>> {
    if header || !t.wrap {
        seq![truncate_spec(cell, w, seq!['…'])]
    } else if w == 0 {
        seq![cell]
    } else {
        crate::text::split(lipgloss::wrap_spec(cell, w as i64 as int, Seq::empty()), '\n')
    }
}

/// The width inside column `j`'s margins.
pub open spec fn inner_width(t: TableView, widths: Seq<int>, j: int) -> int {
    if 0 <= j < widths.len() {
        if widths[j] > 2 * t.margin {
            widths[j] - 2 * t.margin
        } else {
            0
        }
    } else {
        0
    }
}

/// Column `j`'s alignment, flush left by default.
pub open spec fn align_of(t: TableView, j: int) -> Align {
    if 0 <= j < t.aligns.len() {
        t.aligns[j]
    } else {
        Align::Left
    }
}

/// How many lines the tallest of the first `n` cells has, at least one.
pub open spec fn row_height(cls: Seq<Seq<Seq<char>>>, n: int) -> int
    decreases n,
{
    if n <= 0 {
        1
    } else {
        let h = row_height(cls, n - 1);
        if cls[n - 1].len() > h {
            cls[n - 1].len() as int
        } else {
            h
        }
    }
}

/// Line `i` of a cell, empty below its last line.
pub open spec fn line_of(lines: Seq<Seq<char>>, i: int) -> Seq<char> {
    if 0 <= i < lines.len() {
        lines[i]
    } else {
        Seq::empty()
    }
}

/// Line `i` of a row, through its first `k` cells.
pub open spec fn row_line(t: TableView, cls: Seq<Seq<Seq<char>>>, widths: Seq<int>, i: int, k: int) -> Seq<char>
    decreases k,
{
    if k <= 0 {
        Seq::empty()
    } else {
        let j = k - 1;
        let cell_text = spaces(t.margin) + pad_to_spec(line_of(cls[j], i), inner_width(t, widths, j), align_of(t, j))
            + spaces(t.margin);
        let full = if j < widths.len() { widths[j] } else { 0 };
        row_line(t, cls, widths, i, k - 1) + (if j > 0 { t.left } else { Seq::empty() })
            + truncate_spec(cell_text, full, Seq::empty())
    }
}

/// A row laid out into its lines.
pub open spec fn render_row_spec(t: TableView, row: Seq<Seq<char>>, widths: Seq<int>, header: bool) -> Seq<Seq<char>> {
    let cls = Seq::new(row.len(), |j: int| cell_lines(t, row[j], inner_width(t, widths, j), header));
    Seq::new(row_height(cls, row.len() as int) as nat, |i: int| row_line(t, cls, widths, i, row.len() as int))
}

/// `r` cut or padded with empty cells to `n` cells.
pub open spec fn resize(r: Seq<Seq<char>>, n: int) -> Seq<Seq<char>> {
    if r.len() >= n {
        r.take(n)
    } else {
        r + Seq::new((n - r.len()) as nat, |_i: int| Seq::<char>::empty())
    }
}

/// The rule under the header, through its first `k` columns.
pub open spec fn rule_spec(t: TableView, widths: Seq<int>, k: int) -> Seq<char>
    decreases k,
{
    if k <= 0 {
        Seq::empty()
    } else {
        rule_spec(t, widths, k - 1) + repeat_seq(t.top, widths[k - 1] as nat) + (if k < widths.len() {
            t.middle
        } else {
            Seq::empty()
        })
    }
}

/// The lines of the first `n` body rows.
pub open spec fn body_lines(t: TableView, widths: Seq<int>, n: int) -> Seq<Seq<char>>
    decreases n,
{
    if n <= 0 {
        Seq::empty()
    } else {
        body_lines(t, widths, n - 1) + render_row_spec(t, resize(t.rows[n - 1], column_count(t)), widths, false)
    }
}

/// The table drawn: the header's lines and its rule, then each row's lines,
/// every line cut to the width when one was asked for.
pub open spec fn render_spec(t: TableView) -> Seq<char> {
    let cols = column_count(t);
    let widths = widths_spec(t).map_values(|w: nat| w as int);
    let head = if t.headers.len() > 0 {
        render_row_spec(t, resize(t.headers, cols), widths, true).push(rule_spec(t, widths, widths.len() as int))
    } else {
        Seq::empty()
    };
    let joined = join(head + body_lines(t, widths, t.rows.len() as int), seq!['\n']);
    if cols == 0 || (t.headers.len() == 0 && t.rows.len() == 0) {
        Seq::empty()
    } else if t.width == 0 {
        joined
    } else {
        join(
            crate::text::split(joined, '\n').map_values(|l: Seq<char>| truncate_spec(l, t.width, Seq::empty())),
            seq!['\n'],
        )
    }
}

/// The characters of each line.
pub open spec fn lines_view(ls: Seq<Vec<char>>) -> Seq<Seq<char>> {
    ls.map_values(|l: Vec<char>| l@)
}

/// `s` repeated `n` times.
fn repeat_chars(s: &Vec<char>, n: usize) -> (r: Vec<char>)
    ensures
        r@ == repeat_seq(s@, n as nat),
{
    let mut out: Vec<char> = Vec::new();
    let mut i: usize = 0;
    while i < n
        invariant
            i <= n,
            out@ == repeat_seq(s@, i as nat),
        decreases n - i,
    {
        extend_chars(&mut out, s);
        i += 1;
    }
    out
}

/// `s` padded with spaces to `width` columns, by `align`.
fn pad_to_chars(s: &Vec<char>, width: usize, align: Align) -> (r: Vec<char>)
    ensures
        r@ == pad_to_spec(s@, width as int, align),
{
    let w = crate::deps::ansi::chars_width(s);
    if w >= width {
        let mut r: Vec<char> = Vec::new();
        extend_chars(&mut r, s);
        assert(r@ =~= s@);
        return r;
    }
    let short = width - w;
    let mut r: Vec<char> = Vec::new();
    match align {
        Align::Left => {
            extend_chars(&mut r, s);
            let sp = repeat_char(' ', short);
            extend_chars(&mut r, &sp);
        },
        Align::Right => {
            let sp = repeat_char(' ', short);
            extend_chars(&mut r, &sp);
            extend_chars(&mut r, s);
        },
        Align::Center => {
            let left = short / 2;
            let a = repeat_char(' ', left);
            let b = repeat_char(' ', short - left);
            extend_chars(&mut r, &a);
            extend_chars(&mut r, s);
            extend_chars(&mut r, &b);
        },
    }
    r
}

/// `s` padded with spaces to `width` columns, by `align`.
pub fn pad_to(s: &str, width: usize, align: Align) -> (r: String)
    ensures
        r@ == pad_to_spec(s@, width as int, align),
{
    let v = chars_of(s);
    string_of(&pad_to_chars(&v, width, align))
}

/// A row cut or padded with empty cells to `n` cells.
fn resize_row(r: &Vec<String>, n: usize) -> (c: Vec<String>)
    ensures
        row_view(c@) == resize(row_view(r@), n as int),
{
    let mut out: Vec<String> = Vec::new();
    let mut i: usize = 0;
    while i < n
        invariant
            i <= n,
            row_view(out@) == resize(row_view(r@), n as int).take(i as int),
        decreases n - i,
    {
        let c = if i < r.len() {
            r[i].clone()
        } else {
            String::new()
        };
        let ghost before = row_view(out@);
        proof {
            if i < r.len() {
                assert(row_view(r@)[i as int] == r@[i as int]@);
            }
        }
        out.push(c);
        assert(row_view(out@) =~= before.push(c@));
        i += 1;
        assert(row_view(out@) =~= resize(row_view(r@), n as int).take(i as int));
    }
    assert(resize(row_view(r@), n as int).take(n as int) =~= resize(row_view(r@), n as int));
    out
}

impl Table {
    /// The lines of a cell laid out `w` columns wide.
    fn cell_lines(&self, cell: &String, w: usize, header: bool) -> (r: Vec<Vec<char>>)
        ensures
            lines_view(r@) == cell_lines(self@, cell@, w as int, header),
    {
        let cv = chars_of(cell.as_str());
        if header || !self.wrap {
            let mut tail: Vec<char> = Vec::new();
            tail.push('…');
            assert(tail@ =~= seq!['…']);
            let l = crate::deps::ansi::truncate_chars(&cv, w, &tail);
            let mut r: Vec<Vec<char>> = Vec::new();
            r.push(l);
            assert(lines_view(r@) =~= cell_lines(self@, cell@, w as int, header));
            r
        } else if w == 0 {
            let mut r: Vec<Vec<char>> = Vec::new();
            r.push(cv);
            assert(lines_view(r@) =~= cell_lines(self@, cell@, w as int, header));
            r
        } else {
            let none: Vec<char> = Vec::new();
            assert(none@ =~= Seq::<char>::empty());
            let wrapped = lipgloss::wrap_chars(&cv, w as i64, &none);
            crate::text::split_chars(&wrapped, '\n')
        }
    }

    /// Column `k`'s width inside its margins, its full width, and its
    /// alignment.
    fn column_geometry(&self, widths: &Vec<usize>, k: usize) -> (r: (usize, usize, Align))
        requires
            2 * self.margin <= usize::MAX,
        ensures
            r.0 == inner_width(self@, iv(widths@), k as int),
            r.1 == (if k < widths.len() { widths@[k as int] as int } else { 0 }),
            r.2 == align_of(self@, k as int),
    {
        let pad = self.x_padding();
        proof {
            if k < widths.len() {
                assert(iv(widths@)[k as int] == widths@[k as int]);
            }
        }
        let w = if k < widths.len() {
            if widths[k] > pad {
                widths[k] - pad
            } else {
                0
            }
        } else {
            0
        };
        let full = if k < widths.len() {
            widths[k]
        } else {
            0
        };
        let align = if k < self.aligns.len() {
            self.aligns[k]
        } else {
            Align::Left
        };
        (w, full, align)
    }

    /// Line `i` of a cell, padded, framed by its margins and cut to the
    /// column's width.
    fn cell_line(&self, lines: &Vec<Vec<char>>, i: usize, w: usize, full: usize, align: Align) -> (r: Vec<char>)
        ensures
            r@ == truncate_spec(
                spaces(self.margin as int) + pad_to_spec(line_of(lines_view(lines@), i as int), w as int, align)
                    + spaces(self.margin as int),
                full as int,
                Seq::empty(),
            ),
    {
        let content: Vec<char> = if i < lines.len() {
            proof {
                assert(lines_view(lines@)[i as int] == lines@[i as int]@);
            }
            let mut c: Vec<char> = Vec::new();
            extend_chars(&mut c, &lines[i]);
            c
        } else {
            Vec::new()
        };
        assert(content@ =~= line_of(lines_view(lines@), i as int));
        let sp = repeat_char(' ', self.margin);
        let none: Vec<char> = Vec::new();
        assert(none@ =~= Seq::<char>::empty());
        let padded = pad_to_chars(&content, w, align);
        let mut cell_text: Vec<char> = Vec::new();
        extend_chars(&mut cell_text, &sp);
        extend_chars(&mut cell_text, &padded);
        extend_chars(&mut cell_text, &sp);
        crate::deps::ansi::truncate_chars(&cell_text, full, &none)
    }

    /// A row laid out into its lines.
    fn render_row(&self, row: &Vec<String>, widths: &Vec<usize>, header: bool) -> (r: Vec<Vec<char>>)
        requires
            2 * self.margin <= usize::MAX,
        ensures
            lines_view(r@) == render_row_spec(self@, row_view(row@), iv(widths@), header),
    {
        let ghost t = self@;
        let ghost rv = row_view(row@);
        let ghost wv = iv(widths@);
        let ghost cls = Seq::new(rv.len(), |j: int| cell_lines(t, rv[j], inner_width(t, wv, j), header));
        let pad = self.x_padding();
        let mut cells: Vec<Vec<Vec<char>>> = Vec::new();
        let mut height: usize = 1;
        let mut j: usize = 0;
        while j < row.len()
            invariant
                j <= row.len(),
                t == self@,
                rv == row_view(row@),
                wv == iv(widths@),
                pad == 2 * t.margin,
                cls == Seq::new(rv.len(), |j: int| cell_lines(t, rv[j], inner_width(t, wv, j), header)),
                cells.len() == j,
                forall|k: int| 0 <= k < j ==> lines_view(#[trigger] cells@[k]@) == cls[k],
                height == row_height(cls, j as int),
            decreases row.len() - j,
        {
            let w = if j < widths.len() {
                if widths[j] > pad {
                    widths[j] - pad
                } else {
                    0
                }
            } else {
                0
            };
            proof {
                if j < widths.len() {
                    assert(wv[j as int] == widths@[j as int]);
                }
                assert(rv[j as int] == row@[j as int]@);
            }
            let lines = self.cell_lines(&row[j], w, header);
            if lines.len() > height {
                height = lines.len();
            }
            proof {
                assert(lines_view(lines@).len() == lines.len());
            }
            cells.push(lines);
            j += 1;
        }
        let mut out: Vec<Vec<char>> = Vec::new();
        let mut i: usize = 0;
        while i < height
            invariant
                i <= height,
                height == row_height(cls, rv.len() as int),
                t == self@,
                rv == row_view(row@),
                wv == iv(widths@),
                pad == 2 * t.margin,
                cells.len() == rv.len(),
                forall|k: int| 0 <= k < rv.len() ==> lines_view(#[trigger] cells@[k]@) == cls[k],
                cls == Seq::new(rv.len(), |j: int| cell_lines(t, rv[j], inner_width(t, wv, j), header)),
                lines_view(out@) == render_row_spec(t, rv, wv, header).take(i as int),
            decreases height - i,
        {
            let mut line: Vec<char> = Vec::new();
            let mut k: usize = 0;
            while k < cells.len()
                invariant
                    k <= cells.len(),
                    i < height,
                    t == self@,
                    rv == row_view(row@),
                    wv == iv(widths@),
                    pad == 2 * t.margin,
                    cells.len() == rv.len(),
                    forall|q: int| 0 <= q < rv.len() ==> lines_view(#[trigger] cells@[q]@) == cls[q],
                    cls == Seq::new(rv.len(), |j: int| cell_lines(t, rv[j], inner_width(t, wv, j), header)),
                    line@ == row_line(t, cls, wv, i as int, k as int),
                decreases cells.len() - k,
            {
                if k > 0 {
                    let left = chars_of(self.border.left.as_str());
                    extend_chars(&mut line, &left);
                }
                let (w, full, align) = self.column_geometry(widths, k);
                let cut = self.cell_line(&cells[k], i, w, full, align);
                assert(lines_view(cells@[k as int]@) == cls[k as int]);
                extend_chars(&mut line, &cut);
                k += 1;
            }
            let ghost before = lines_view(out@);
            assert(render_row_spec(t, rv, wv, header)[i as int] == line@);
            out.push(line);
            assert(lines_view(out@) =~= before.push(line@));
            i += 1;
            assert(lines_view(out@) =~= render_row_spec(t, rv, wv, header).take(i as int));
        }
        assert(render_row_spec(t, rv, wv, header).take(i as int) =~= render_row_spec(t, rv, wv, header));
        out
    }
}

impl Table {
    /// The rule under the header.
    fn rule(&self, widths: &Vec<usize>) -> (r: Vec<char>)
        ensures
            r@ == rule_spec(self@, iv(widths@), widths.len() as int),
    {
        let top = chars_of(self.border.top.as_str());
        let middle = chars_of(self.border.middle.as_str());
        let mut out: Vec<char> = Vec::new();
        let mut j: usize = 0;
        while j < widths.len()
            invariant
                j <= widths.len(),
                top@ == self@.top,
                middle@ == self@.middle,
                out@ == rule_spec(self@, iv(widths@), j as int),
            decreases widths.len() - j,
        {
            assert(iv(widths@)[j as int] == widths@[j as int]);
            let seg = repeat_chars(&top, widths[j]);
            extend_chars(&mut out, &seg);
            if j + 1 < widths.len() {
                extend_chars(&mut out, &middle);
            }
            j += 1;
        }
        out
    }

    /// Draws the table: the header's lines and its rule, then each row's
    /// lines, every line cut to the width when one was asked for.
    pub fn render(&self) -> (r: String)
        requires
            fits(self@),
        ensures
            r@ == render_spec(self@),
    {
        let ghost t = self@;
        let cols = self.column_count();
        if cols == 0 || (self.headers.len() == 0 && self.rows.len() == 0) {
            return String::new();
        }
        let widths = self.widths();
        let ghost wv = widths_spec(t).map_values(|w: nat| w as int);
        assert(iv(widths@) =~= wv);
        let mut out: Vec<Vec<char>> = Vec::new();
        let ghost head: Seq<Seq<char>> = if t.headers.len() > 0 {
            render_row_spec(t, resize(t.headers, cols as int), wv, true).push(rule_spec(t, wv, wv.len() as int))
        } else {
            Seq::empty()
        };
        if self.headers.len() > 0 {
            let header = resize_row(&self.headers, cols);
            let hl = self.render_row(&header, &widths, true);
            let rule = self.rule(&widths);
            out = hl;
            out.push(rule);
        }
        assert(lines_view(out@) =~= head);
        let mut i: usize = 0;
        while i < self.rows.len()
            invariant
                i <= self.rows.len(),
                t == self@,
                cols == column_count(t),
                fits(t),
                wv == iv(widths@),
                lines_view(out@) == head + body_lines(t, wv, i as int),
            decreases self.rows.len() - i,
        {
            let r = resize_row(&self.rows[i], cols);
            assert(row_view(self.rows@[i as int]@) == t.rows[i as int]);
            let rl = self.render_row(&r, &widths, false);
            let ghost before = lines_view(out@);
            let mut k: usize = 0;
            while k < rl.len()
                invariant
                    k <= rl.len(),
                    lines_view(out@) == before + lines_view(rl@).take(k as int),
                decreases rl.len() - k,
            {
                let mut l: Vec<char> = Vec::new();
                extend_chars(&mut l, &rl[k]);
                let ghost b2 = lines_view(out@);
                out.push(l);
                assert(lines_view(out@) =~= b2.push(rl@[k as int]@));
                k += 1;
                assert(lines_view(out@) =~= before + lines_view(rl@).take(k as int));
            }
            assert(lines_view(rl@).take(k as int) =~= lines_view(rl@));
            i += 1;
            assert(lines_view(out@) =~= head + body_lines(t, wv, i as int));
        }
        let mut nl: Vec<char> = Vec::new();
        nl.push('\n');
        assert(nl@ =~= seq!['\n']);
        let joined = crate::text::join_chars(&out, &nl);
        assert(lines_view(out@) == out@.map_values(|p: Vec<char>| p@));
        if self.width == 0 {
            return string_of(&joined);
        }
        let parts = crate::text::split_chars(&joined, '\n');
        let ghost pv = parts@.map_values(|p: Vec<char>| p@);
        let none: Vec<char> = Vec::new();
        assert(none@ =~= Seq::<char>::empty());
        let mut cut: Vec<Vec<char>> = Vec::new();
        let mut k: usize = 0;
        while k < parts.len()
            invariant
                k <= parts.len(),
                pv == parts@.map_values(|p: Vec<char>| p@),
                none@ == Seq::<char>::empty(),
                lines_view(cut@) == pv.map_values(|l: Seq<char>| truncate_spec(l, t.width, Seq::empty())).take(k as int),
                t == self@,
            decreases parts.len() - k,
        {
            assert(pv[k as int] == parts@[k as int]@);
            let c = crate::deps::ansi::truncate_chars(&parts[k], self.width, &none);
            let ghost b = lines_view(cut@);
            cut.push(c);
            assert(lines_view(cut@) =~= b.push(c@));
            k += 1;
            assert(lines_view(cut@) =~= pv.map_values(|l: Seq<char>| truncate_spec(l, t.width, Seq::empty())).take(k as int));
        }
        assert(pv.map_values(|l: Seq<char>| truncate_spec(l, t.width, Seq::empty())).take(k as int) =~= pv.map_values(|l: Seq<char>| truncate_spec(l, t.width, Seq::empty())));
        assert(lines_view(cut@) == cut@.map_values(|p: Vec<char>| p@));
        let j2 = crate::text::join_chars(&cut, &nl);
        string_of(&j2)
    }
}

proof fn lemma_expand_fills(ws: Seq<nat>, bt: int, target: int)
    requires
        ws.len() > 0,
        sum(ws) + bt <= target,
    ensures
        sum(expand(ws, bt, target)) + bt == target,
        expand(ws, bt, target).len() == ws.len(),
    decreases target - sum(ws) - bt,
{
    if sum(ws) + bt < target {
        let k = first_min(ws, 0, 0, usize::MAX as int);
        lemma_first_min(ws, 0, 0, usize::MAX as int);
        lemma_sum_update(ws, k, ws[k] + 1);
        lemma_expand_fills(ws.update(k, ws[k] + 1), bt, target);
    }
}

proof fn lemma_first_min_least(ws: Seq<nat>, j: int, idx: int, narrowest: int)
    requires
        0 <= j <= ws.len(),
        0 <= idx < ws.len(),
        forall|i: int| 0 <= i < ws.len() ==> ws[i] < usize::MAX,
        forall|i: int| 0 <= i < j ==> narrowest <= ws[i],
        (j == 0 && narrowest == usize::MAX) || narrowest == ws[idx],
    ensures
        forall|i: int| 0 <= i < ws.len() ==> ws[first_min(ws, j, idx, narrowest)] <= #[trigger] ws[i],
    decreases ws.len() - j,
{
    if j < ws.len() {
        if ws[j] < narrowest {
            lemma_first_min_least(ws, j + 1, j, ws[j] as int);
        } else {
            lemma_first_min_least(ws, j + 1, idx, narrowest);
        }
    }
}

proof fn lemma_expand_even(ws: Seq<nat>, w0: Seq<nat>, bt: int, target: int)
    requires
        ws.len() == w0.len(),
        ws.len() > 0,
        0 <= bt,
        target <= usize::MAX,
        forall|i: int| 0 <= i < ws.len() ==> ws[i] >= w0[i],
        forall|i: int, j: int| 0 <= i < ws.len() && 0 <= j < ws.len() && ws[j] > w0[j] ==> ws[j] <= ws[i] + 1,
    ensures
        ({
            let r = expand(ws, bt, target);
            &&& r.len() == ws.len()
            &&& forall|i: int| 0 <= i < r.len() ==> r[i] >= w0[i]
            &&& forall|i: int, j: int| 0 <= i < r.len() && 0 <= j < r.len() && r[j] > w0[j] ==> r[j] <= r[i] + 1
        }),
    decreases target - sum(ws) - bt,
{
    if sum(ws) + bt < target {
        let k = first_min(ws, 0, 0, usize::MAX as int);
        lemma_first_min(ws, 0, 0, usize::MAX as int);
        lemma_sum_bound(ws);
        lemma_first_min_least(ws, 0, 0, usize::MAX as int);
        lemma_sum_update(ws, k, ws[k] + 1);
        let next = ws.update(k, ws[k] + 1);
        assert forall|i: int, j: int| 0 <= i < next.len() && 0 <= j < next.len() && next[j] > w0[j] implies next[j]
            <= next[i] + 1 by {
            if j == k {
                assert(ws[k] <= ws[i]);
            } else {
                assert(next[j] == ws[j]);
                if ws[j] == w0[j] {
                    assert(false);
                }
            }
        }
        lemma_expand_even(next, w0, bt, target);
    }
}

/// When a table's columns at their natural widths fit its target, each
/// column keeps at least its natural width, and the extra width is spread
/// evenly: a widened column is at most one column wider than any other.
pub proof fn lemma_widths_spread_evenly(t: TableView)
    requires
        column_count(t) > 0,
        target_width(t) <= usize::MAX,
        sum(natural_widths(t)) + border_total(column_count(t)) <= target_width(t),
    ensures
        ({
            let w = widths_spec(t);
            let n = natural_widths(t);
            &&& w.len() == n.len()
            &&& forall|j: int| 0 <= j < w.len() ==> w[j] >= n[j]
            &&& forall|i: int, j: int| 0 <= i < w.len() && 0 <= j < w.len() && w[j] > n[j] ==> w[j] <= w[i] + 1
        }),
{
    let n = natural_widths(t);
    lemma_expand_even(n, n, border_total(column_count(t)), target_width(t));
}

/// A table whose columns, at their natural widths, are narrower than the
/// target is widened to fill the target exactly; a wider one is never
/// widened, only narrowed.
pub proof fn lemma_widths_meet_target(t: TableView)
    requires
        column_count(t) > 0,
    ensures
        widths_spec(t).len() == column_count(t),
        sum(natural_widths(t)) + border_total(column_count(t)) <= target_width(t) ==> sum(widths_spec(t))
            + border_total(column_count(t)) == target_width(t),
        sum(natural_widths(t)) + border_total(column_count(t)) > target_width(t) ==> sum(widths_spec(t))
            <= sum(natural_widths(t)),
{
    let cols = column_count(t);
    let target = target_width(t);
    let bt = border_total(cols);
    let w0 = natural_widths(t);
    let fl = floors_spec(t);
    let meds = medians(t);
    if sum(w0) + bt <= target {
        lemma_expand_fills(w0, bt, target);
    } else {
        let a1 = shrink_biggest(w0, true, true, bt, target, fl);
        lemma_shrink_biggest_sum(w0, true, true, bt, target, fl);
        let a2 = shrink_to_median(a1, true, bt, target, fl, meds);
        lemma_shrink_to_median_sum(a1, true, bt, target, fl, meds);
        let a = shrink_biggest(a2, false, true, bt, target, fl);
        lemma_shrink_biggest_sum(a2, false, true, bt, target, fl);
        lemma_shrink_len(w0, true, true, bt, target, fl);
        lemma_shrink_med_len(a1, true, bt, target, fl, meds);
        lemma_shrink_len(a2, false, true, bt, target, fl);
        if sum(a) + bt > target {
            let b1 = shrink_biggest(a, true, false, bt, target, fl);
            lemma_shrink_biggest_sum(a, true, false, bt, target, fl);
            let b2 = shrink_to_median(b1, false, bt, target, fl, meds);
            lemma_shrink_to_median_sum(b1, false, bt, target, fl, meds);
            lemma_shrink_biggest_sum(b2, false, false, bt, target, fl);
            lemma_shrink_len(a, true, false, bt, target, fl);
            lemma_shrink_med_len(b1, false, bt, target, fl, meds);
            lemma_shrink_len(b2, false, false, bt, target, fl);
        }
    }
}

proof fn lemma_shrink_len(ws: Seq<nat>, vbo: bool, uf: bool, bt: int, target: int, fl: Seq<int>)
    ensures
        shrink_biggest(ws, vbo, uf, bt, target, fl).len() == ws.len(),
    decreases sum(ws),
{
    if sum(ws) + bt > target {
        let k = pick_big(ws, vbo, uf, target, fl, 0, -1, -1);
        lemma_pick_big(ws, vbo, uf, target, fl, 0, -1, -1);
        if k >= 0 && ws[k] != 0 {
            lemma_sum_update(ws, k, (ws[k] - 1) as nat);
            lemma_shrink_len(ws.update(k, (ws[k] - 1) as nat), vbo, uf, bt, target, fl);
        }
    }
}

proof fn lemma_shrink_med_len(ws: Seq<nat>, uf: bool, bt: int, target: int, fl: Seq<int>, meds: Seq<int>)
    ensures
        shrink_to_median(ws, uf, bt, target, fl, meds).len() == ws.len(),
    decreases sum(ws),
{
    if sum(ws) + bt > target {
        let k = pick_med(ws, uf, fl, meds, 0, -1, -1);
        lemma_pick_med(ws, uf, fl, meds, 0, -1, -1);
        if k > 0 && ws[k] != 0 {
            lemma_sum_update(ws, k, (ws[k] - 1) as nat);
            lemma_shrink_med_len(ws.update(k, (ws[k] - 1) as nat), uf, bt, target, fl, meds);
        }
    }
}

} // verus!

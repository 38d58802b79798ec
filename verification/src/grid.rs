//! A grid of characters parsed from text, with a qualifying-cell walk.
//!
//! `Grid::new` splits its input into lines and trims the surrounding
//! whitespace of each, so indented text blocks parse to their bare rows.
//! `paperolls` walks the grid in row-major order and lists every roll
//! with fewer than four rolls among its neighbours.

use vstd::prelude::*;
use vstd::string::StrSliceExecFns;

use crate::ROLL_CHAR;
use crate::model::{
    count_upto, grid_width, is_marker_at, marker_num, neighbor_markers, qualifies,
    qualifying_count, rectangular, row_count_upto, valid_pos,
};
use crate::rows::rows_view;

verus! {

/// A character that line trimming removes at either end of a row: the
/// ASCII whitespace characters.
pub open spec fn is_trim_char(c: char) -> bool {
    c == ' ' || c == '\t' || c == '\r' || c == '\n' || c == '\u{b}' || c == '\u{c}'
}

/// The number of leading trimmable characters of `s`.
pub open spec fn ws_prefix_len(s: Seq<char>) -> int
    decreases s.len(),
{
    if s.len() > 0 && is_trim_char(s[0]) {
        1 + ws_prefix_len(s.drop_first())
    } else {
        0
    }
}

/// The number of trailing trimmable characters of `s`.
pub open spec fn ws_suffix_len(s: Seq<char>) -> int
    decreases s.len(),
{
    if s.len() > 0 && is_trim_char(s.last()) {
        1 + ws_suffix_len(s.drop_last())
    } else {
        0
    }
}

/// `s` with its leading and trailing trimmable characters removed.
pub open spec fn trim_spec(s: Seq<char>) -> Seq<char> {
    if ws_prefix_len(s) == s.len() {
        Seq::empty()
    } else {
        s.subrange(ws_prefix_len(s), s.len() - ws_suffix_len(s))
    }
}

/// The index of the first line feed of `s`, or its length when none.
pub open spec fn first_nl(s: Seq<char>) -> int
    decreases s.len(),
{
    if s.len() == 0 {
        0
    } else if s[0] == '\n' {
        0
    } else {
        1 + first_nl(s.drop_first())
    }
}

/// The segments of `s` between its line feeds: one more segment than
/// there are line feeds, in order.
pub open spec fn split_lines(s: Seq<char>) -> Seq<Seq<char>>
    decreases s.len(),
{
    let i = first_nl(s);
    if 0 <= i < s.len() {
        seq![s.take(i)] + split_lines(s.skip(i + 1))
    } else {
        seq![s]
    }
}

/// The rows a text parses to: its line segments, without the empty
/// segment a final line feed leaves behind, each trimmed of surrounding
/// whitespace.
pub open spec fn parse_grid(s: Seq<char>) -> Seq<Seq<char>> {
    if s.len() == 0 {
        Seq::empty()
    } else {
        let segs = split_lines(s);
        let kept = if segs.last().len() == 0 {
            segs.drop_last()
        } else {
            segs
        };
        trim_all(kept)
    }
}

/// Each row trimmed of its surrounding whitespace.
pub open spec fn trim_all(rows: Seq<Seq<char>>) -> Seq<Seq<char>> {
    rows.map_values(|l: Seq<char>| trim_spec(l))
}

proof fn lemma_ws_prefix_props(s: Seq<char>)
    ensures
        0 <= ws_prefix_len(s) <= s.len(),
        forall|j: int| 0 <= j < ws_prefix_len(s) ==> is_trim_char(#[trigger] s[j]),
        ws_prefix_len(s) < s.len() ==> !is_trim_char(s[ws_prefix_len(s)]),
    decreases s.len(),
{
    if s.len() > 0 && is_trim_char(s[0]) {
        let t = s.drop_first();
        lemma_ws_prefix_props(t);
        assert forall|j: int| 0 <= j < ws_prefix_len(s) implies is_trim_char(#[trigger] s[j]) by {
            if j > 0 {
                assert(t[j - 1] == s[j]);
            }
        }
        if ws_prefix_len(s) < s.len() {
            assert(t[ws_prefix_len(s) - 1] == s[ws_prefix_len(s)]);
        }
    }
}

proof fn lemma_ws_suffix_props(s: Seq<char>)
    ensures
        0 <= ws_suffix_len(s) <= s.len(),
        forall|j: int| s.len() - ws_suffix_len(s) <= j < s.len() ==> is_trim_char(#[trigger] s[j]),
        ws_suffix_len(s) < s.len() ==> !is_trim_char(s[s.len() - ws_suffix_len(s) - 1]),
    decreases s.len(),
{
    if s.len() > 0 && is_trim_char(s.last()) {
        let t = s.drop_last();
        lemma_ws_suffix_props(t);
        assert forall|j: int| s.len() - ws_suffix_len(s) <= j < s.len() implies is_trim_char(
            #[trigger] s[j],
        ) by {
            if j < s.len() - 1 {
                assert(t[j] == s[j]);
            }
        }
        if ws_suffix_len(s) < s.len() {
            assert(t[s.len() - ws_suffix_len(s) - 1] == s[s.len() - ws_suffix_len(s) - 1]);
        }
    }
}

proof fn lemma_first_nl_props(s: Seq<char>)
    ensures
        0 <= first_nl(s) <= s.len(),
        first_nl(s) < s.len() ==> s[first_nl(s)] == '\n',
        forall|j: int| 0 <= j < first_nl(s) ==> #[trigger] s[j] != '\n',
    decreases s.len(),
{
    if s.len() > 0 && s[0] != '\n' {
        let t = s.drop_first();
        lemma_first_nl_props(t);
        assert forall|j: int| 0 <= j < first_nl(s) implies #[trigger] s[j] != '\n' by {
            if j > 0 {
                assert(t[j - 1] == s[j]);
            }
        }
        if first_nl(s) < s.len() {
            assert(t[first_nl(s) - 1] == s[first_nl(s)]);
        }
    }
}

/// Whether `c` is removed by line trimming.
fn is_trim_char_exec(c: char) -> (r: bool)
    ensures
        r == is_trim_char(c),
{
    c == ' ' || c == '\t' || c == '\r' || c == '\n' || c == '\u{b}' || c == '\u{c}'
}

/// Removes the leading and trailing whitespace of one row of characters.
fn trim_chars(v: &Vec<char>) -> (r: Vec<char>)
    ensures
        r@ == trim_spec(v@),
{
    let ghost s = v@;
    proof {
        lemma_ws_prefix_props(s);
        lemma_ws_suffix_props(s);
    }
    let n = v.len();
    let mut start: usize = 0;
    while start < n && is_trim_char_exec(v[start])
        invariant
            start <= n,
            n == s.len(),
            s == v@,
            forall|j: int| 0 <= j < start ==> is_trim_char(#[trigger] s[j]),
        decreases n - start,
    {
        start = start + 1;
    }
    proof {
        let p = ws_prefix_len(s);
        if start < p {
            assert(is_trim_char(s[start as int]));
            assert(false);
        }
        if p < start {
            assert(is_trim_char(s[p]));
            assert(false);
        }
        assert(start == p);
    }
    if start == n {
        let empty: Vec<char> = Vec::new();
        proof {
            assert(empty@ =~= trim_spec(s));
        }
        return empty;
    }
    let mut end: usize = n;
    while end > start && is_trim_char_exec(v[end - 1])
        invariant
            start <= end <= n,
            n == s.len(),
            s == v@,
            start == ws_prefix_len(s),
            start < n,
            forall|j: int| end <= j < n ==> is_trim_char(#[trigger] s[j]),
        decreases end,
    {
        end = end - 1;
    }
    proof {
        let q = s.len() - ws_suffix_len(s);
        assert(!is_trim_char(s[start as int]));
        if ws_suffix_len(s) == s.len() {
            assert(is_trim_char(s[start as int]));
            assert(false);
        }
        if end < q {
            assert(is_trim_char(s[q - 1]));
            assert(q - 1 < n);
            assert(end <= q - 1);
            assert(false);
        }
        if q < end {
            assert(is_trim_char(s[end - 1]));
            assert(false);
        }
        assert(end == q);
    }
    let mut out: Vec<char> = Vec::new();
    let mut k = start;
    while k < end
        invariant
            start <= k <= end <= n,
            n == s.len(),
            s == v@,
            out@ == s.subrange(start as int, k as int),
        decreases end - k,
    {
        out.push(v[k]);
        proof {
            assert(out@ =~= s.subrange(start as int, k + 1));
        }
        k = k + 1;
    }
    proof {
        assert(out@ == trim_spec(s));
    }
    out
}

/// The characters of `input` from `from` up to `to`.
fn collect_chars(input: &str, from: usize, to: usize) -> (r: Vec<char>)
    requires
        from <= to <= input@.len(),
    ensures
        r@ == input@.subrange(from as int, to as int),
{
    let mut out: Vec<char> = Vec::new();
    let mut k = from;
    while k < to
        invariant
            from <= k <= to,
            to <= input@.len(),
            out@ == input@.subrange(from as int, k as int),
        decreases to - k,
    {
        out.push(input.get_char(k));
        proof {
            assert(out@ =~= input@.subrange(from as int, k + 1));
        }
        k = k + 1;
    }
    out
}

/// The qualifying cells of row `r` among columns `0 .. c_end`, as
/// `(row, column, cell)` triples in column order.
pub open spec fn roll_list_row(g: Seq<Seq<char>>, r: int, c_end: int) -> Seq<(usize, usize, char)>
    decreases c_end,
{
    if c_end <= 0 {
        Seq::empty()
    } else {
        roll_list_row(g, r, c_end - 1) + (if qualifies(g, ROLL_CHAR, r, c_end - 1) {
            seq![(r as usize, (c_end - 1) as usize, g[r][c_end - 1])]
        } else {
            Seq::<(usize, usize, char)>::empty()
        })
    }
}

/// The qualifying cells of rows `0 .. r_end`, in row-major order.
pub open spec fn roll_list_upto(g: Seq<Seq<char>>, r_end: int) -> Seq<(usize, usize, char)>
    decreases r_end,
{
    if r_end <= 0 {
        Seq::empty()
    } else {
        roll_list_upto(g, r_end - 1) + roll_list_row(g, r_end - 1, g[r_end - 1].len() as int)
    }
}

/// Every qualifying cell of the grid, in row-major order: each roll with
/// fewer than four rolls among its neighbours, as `(row, column, cell)`.
pub open spec fn roll_list(g: Seq<Seq<char>>) -> Seq<(usize, usize, char)> {
    roll_list_upto(g, g.len() as int)
}

proof fn lemma_roll_list_row_len(g: Seq<Seq<char>>, r: int, c_end: int)
    ensures
        roll_list_row(g, r, c_end).len() == row_count_upto(g, ROLL_CHAR, r, c_end),
    decreases c_end,
{
    if c_end > 0 {
        lemma_roll_list_row_len(g, r, c_end - 1);
    }
}

proof fn lemma_roll_list_upto_len(g: Seq<Seq<char>>, r_end: int)
    ensures
        roll_list_upto(g, r_end).len() == count_upto(g, ROLL_CHAR, r_end),
    decreases r_end,
{
    if r_end > 0 {
        lemma_roll_list_upto_len(g, r_end - 1);
        lemma_roll_list_row_len(g, r_end - 1, g[r_end - 1].len() as int);
    }
}

/// The qualifying-cell walk lists exactly as many rolls as the model
/// counts.
pub proof fn lemma_roll_list_len(g: Seq<Seq<char>>)
    ensures
        roll_list(g).len() == qualifying_count(g, ROLL_CHAR),
{
    lemma_roll_list_upto_len(g, g.len() as int);
}

/// Whether the cell at `(row, col)` holds the roll marker; `false` off
/// the grid.
fn is_roll_at(cells: &Vec<Vec<char>>, row: usize, col: usize) -> (r: bool)
    ensures
        r == is_marker_at(rows_view(cells@), ROLL_CHAR, row as int, col as int),
{
    if row < cells.len() {
        let line = &cells[row];
        if col < line.len() {
            line[col] == ROLL_CHAR
        } else {
            false
        }
    } else {
        false
    }
}

/// How many of the neighbours of `(row, col)` hold the roll marker.
fn count_roll_neighbors(cells: &Vec<Vec<char>>, row: usize, col: usize) -> (n: u32)
    requires
        row < cells@.len(),
        col < cells@[row as int]@.len(),
    ensures
        n == neighbor_markers(rows_view(cells@), ROLL_CHAR, row as int, col as int),
{
    let ghost g = rows_view(cells@);
    let ghost ri = row as int;
    let ghost ci = col as int;
    let height = cells.len();
    let own_len = cells[row].len();
    proof {
        assert(forall|r: int, c: int|
            marker_num(g, ROLL_CHAR, r, c) == 1 || marker_num(g, ROLL_CHAR, r, c) == 0);
    }
    let mut n: u32 = 0;
    if row > 0 {
        if col > 0 {
            if is_roll_at(cells, row - 1, col - 1) {
                n = n + 1;
            }
        }
        if is_roll_at(cells, row - 1, col) {
            n = n + 1;
        }
        if is_roll_at(cells, row - 1, col + 1) {
            n = n + 1;
        }
    }
    assert(n == marker_num(g, ROLL_CHAR, ri - 1, ci - 1) + marker_num(g, ROLL_CHAR, ri - 1, ci)
        + marker_num(g, ROLL_CHAR, ri - 1, ci + 1));
    if col > 0 {
        if is_roll_at(cells, row, col - 1) {
            n = n + 1;
        }
    }
    if is_roll_at(cells, row, col + 1) {
        n = n + 1;
    }
    if row + 1 < height {
        if col > 0 {
            if is_roll_at(cells, row + 1, col - 1) {
                n = n + 1;
            }
        }
        if is_roll_at(cells, row + 1, col) {
            n = n + 1;
        }
        if is_roll_at(cells, row + 1, col + 1) {
            n = n + 1;
        }
    } else {
        proof {
            assert(forall|c: int| !#[trigger] valid_pos(g, ri + 1, c));
        }
    }
    assert(n == neighbor_markers(g, ROLL_CHAR, ri, ci));
    n
}

/// A grid of characters, one vector per row.
pub struct Grid {
    cells: Vec<Vec<char>>,
}

impl View for Grid {
    type V = Seq<Seq<char>>;

    closed spec fn view(&self) -> Seq<Seq<char>> {
        rows_view(self.cells@)
    }
}

impl Grid {
    /// Parses a grid from text: one row per line, each row trimmed of
    /// surrounding whitespace, so indented text blocks parse to their
    /// bare rows.
    pub fn new(input: &str) -> (g: Grid)
        ensures
            g@ == parse_grid(input@),
    {
        let ghost s = input@;
        let n = input.unicode_len();
        let mut cells: Vec<Vec<char>> = Vec::new();
        if n == 0 {
            let g = Grid { cells };
            proof {
                assert(g@ =~~= parse_grid(s));
            }
            return g;
        }
        let mut i: usize = 0;
        let ghost mut done: Seq<Seq<char>> = Seq::empty();
        proof {
            assert(s.skip(0) =~= s);
            assert(done + split_lines(s) =~~= split_lines(s));
            assert(rows_view(cells@) =~~= trim_all(done));
        }
        loop
            invariant_except_break
                split_lines(s) == done + split_lines(s.skip(i as int)),
                rows_view(cells@) == trim_all(done),
            invariant
                i <= n,
                n == s.len(),
                s == input@,
                s.len() > 0,
            ensures
                rows_view(cells@) == parse_grid(s),
            decreases n - i,
        {
            let mut j = i;
            while j < n && input.get_char(j) != '\n'
                invariant
                    i <= j <= n,
                    n == s.len(),
                    s == input@,
                    forall|k: int| i <= k < j ==> #[trigger] s[k] != '\n',
                decreases n - j,
            {
                j = j + 1;
            }
            let ghost si = s.skip(i as int);
            proof {
                lemma_first_nl_props(si);
                assert(forall|k: int| 0 <= k < si.len() ==> #[trigger] si[k] == s[i + k]);
            }
            if j < n {
                proof {
                    let f = first_nl(si);
                    assert(s[j as int] == '\n');
                    if f < j - i {
                        assert(si[f] == '\n');
                        assert(s[i + f] != '\n');
                        assert(false);
                    }
                    if f > j - i {
                        assert(si[j - i] != '\n');
                        assert(si[j - i] == s[j as int]);
                        assert(false);
                    }
                    assert(f == j - i);
                    assert(si.take(f) =~= s.subrange(i as int, j as int));
                    assert(si.skip(f + 1) =~= s.skip(j + 1));
                    assert(split_lines(si) == seq![s.subrange(i as int, j as int)] + split_lines(
                        s.skip(j + 1),
                    ));
                }
                let line = collect_chars(input, i, j);
                let trimmed = trim_chars(&line);
                let ghost prev_cells = cells@;
                cells.push(trimmed);
                proof {
                    let seg = s.subrange(i as int, j as int);
                    let prev_done = done;
                    done = done.push(seg);
                    assert(prev_done + (seq![seg] + split_lines(s.skip(j + 1))) =~~= done
                        + split_lines(s.skip(j + 1)));
                    assert(trimmed@ == trim_spec(seg));
                    assert(rows_view(prev_cells).len() == prev_cells.len());
                    assert(trim_all(prev_done).len() == prev_done.len());
                    assert(cells@.len() == prev_cells.len() + 1);
                    assert(rows_view(cells@).len() == cells@.len());
                    assert(trim_all(done).len() == done.len());
                    assert forall|k: int| 0 <= k < done.len() implies rows_view(cells@)[k]
                        == trim_all(done)[k] by {
                        assert(trim_all(done)[k] == trim_spec(done[k]));
                        if k < prev_done.len() {
                            assert(cells@[k] == prev_cells[k]);
                            assert(rows_view(cells@)[k] == cells@[k]@);
                            assert(rows_view(prev_cells)[k] == prev_cells[k]@);
                            assert(rows_view(prev_cells)[k] == trim_all(prev_done)[k]);
                            assert(trim_all(prev_done)[k] == trim_spec(prev_done[k]));
                            assert(done[k] == prev_done[k]);
                        } else {
                            assert(k == prev_done.len());
                            assert(cells@[k] == trimmed);
                            assert(rows_view(cells@)[k] == trimmed@);
                            assert(done[k] == seg);
                        }
                    }
                    assert(rows_view(cells@) =~= trim_all(done));
                }
                i = j + 1;
            } else {
                proof {
                    let f = first_nl(si);
                    if f < si.len() {
                        assert(si[f] == '\n');
                        assert(s[i + f] != '\n');
                        assert(false);
                    }
                    assert(split_lines(si) == seq![si]);
                    assert(si =~= s.subrange(i as int, n as int));
                }
                if i < n {
                    let line = collect_chars(input, i, n);
                    let trimmed = trim_chars(&line);
                    let ghost prev_cells = cells@;
                    cells.push(trimmed);
                    proof {
                        let segs = done.push(si);
                        assert(done + seq![si] =~~= segs);
                        assert(split_lines(s) == segs);
                        assert(segs.last() == si);
                        assert(si.len() > 0);
                        assert(trimmed@ == trim_spec(si));
                        assert(rows_view(prev_cells).len() == prev_cells.len());
                        assert(trim_all(done).len() == done.len());
                        assert(prev_cells.len() == done.len());
                        assert(cells@.len() == prev_cells.len() + 1);
                        assert(rows_view(cells@).len() == cells@.len());
                        assert(trim_all(segs).len() == segs.len());
                        assert forall|k: int| 0 <= k < segs.len() implies rows_view(cells@)[k]
                            == trim_all(segs)[k] by {
                            assert(trim_all(segs)[k] == trim_spec(segs[k]));
                            if k < done.len() {
                                assert(segs[k] == done[k]);
                                assert(cells@[k] == prev_cells[k]);
                                assert(rows_view(cells@)[k] == cells@[k]@);
                                assert(rows_view(prev_cells)[k] == prev_cells[k]@);
                                assert(rows_view(prev_cells)[k] == trim_all(done)[k]);
                                assert(trim_all(done)[k] == trim_spec(done[k]));
                            } else {
                                assert(cells@[k] == trimmed);
                                assert(rows_view(cells@)[k] == trimmed@);
                                assert(segs[k] == si);
                            }
                        }
                        assert(rows_view(cells@) =~= trim_all(segs));
                        assert(rows_view(cells@) == parse_grid(s));
                    }
                } else {
                    proof {
                        assert(si.len() == 0);
                        let segs = done.push(si);
                        assert(done + seq![si] =~~= segs);
                        assert(split_lines(s) == segs);
                        assert(segs.last().len() == 0);
                        assert(segs.drop_last() =~= done);
                        assert(rows_view(cells@) == trim_all(done));
                        assert(rows_view(cells@) == parse_grid(s));
                    }
                }
                break ;
            }
        }
        Grid { cells }
    }

    /// The number of columns: the length of the first row, 0 when the
    /// grid has no rows.
    pub fn width(&self) -> (w: usize)
        ensures
            w == grid_width(self@),
    {
        if self.cells.len() == 0 {
            0
        } else {
            self.cells[0].len()
        }
    }

    /// The number of rows.
    pub fn height(&self) -> (h: usize)
        ensures
            h == self@.len(),
    {
        self.cells.len()
    }

    /// The paper rolls of the grid that have fewer than four rolls among
    /// their neighbours, in row-major order, each as `(row, column, cell)`.
    /// The grid must be rectangular, as a well-formed input parses to.
    pub fn paperolls(&self) -> (r: Vec<(usize, usize, char)>)
        requires
            rectangular(self@),
        ensures
            r@ == roll_list(self@),
    {
        let ghost g = self@;
        let mut result: Vec<(usize, usize, char)> = Vec::new();
        let mut row: usize = 0;
        while row < self.cells.len()
            invariant
                row <= self.cells@.len(),
                g == rows_view(self.cells@),
                result@ == roll_list_upto(g, row as int),
            decreases self.cells@.len() - row,
        {
            let line_len = self.cells[row].len();
            assert(line_len == g[row as int].len());
            let mut col: usize = 0;
            while col < line_len
                invariant
                    row < self.cells@.len(),
                    col <= line_len,
                    line_len == g[row as int].len(),
                    g == rows_view(self.cells@),
                    result@ == roll_list_upto(g, row as int) + roll_list_row(
                        g,
                        row as int,
                        col as int,
                    ),
                decreases line_len - col,
            {
                let ghost ri = row as int;
                let ghost ci = col as int;
                let ghost prev = result@;
                let c = self.cells[row][col];
                assert(c == g[ri][ci]);
                if c == ROLL_CHAR {
                    let n = count_roll_neighbors(&self.cells, row, col);
                    if n < 4 {
                        proof {
                            assert(qualifies(g, ROLL_CHAR, ri, ci));
                        }
                        result.push((row, col, c));
                        proof {
                            assert(result@ =~= prev + seq![(row, col, g[ri][ci])]);
                        }
                    } else {
                        proof {
                            assert(!qualifies(g, ROLL_CHAR, ri, ci));
                            assert(result@ =~= prev + Seq::<(usize, usize, char)>::empty());
                        }
                    }
                } else {
                    proof {
                        assert(!qualifies(g, ROLL_CHAR, ri, ci));
                        assert(result@ =~= prev + Seq::<(usize, usize, char)>::empty());
                    }
                }
                proof {
                    assert(roll_list_row(g, ri, ci + 1) == roll_list_row(g, ri, ci) + (
                    if qualifies(g, ROLL_CHAR, ri, ci) {
                        seq![(ri as usize, ci as usize, g[ri][ci])]
                    } else {
                        Seq::<(usize, usize, char)>::empty()
                    }));
                    assert(result@ =~= roll_list_upto(g, ri) + roll_list_row(g, ri, ci + 1));
                }
                col = col + 1;
            }
            proof {
                assert(roll_list_row(g, row as int, line_len as int) == roll_list_row(
                    g,
                    row as int,
                    g[row as int].len() as int,
                ));
                assert(result@ == roll_list_upto(g, row as int + 1));
            }
            row = row + 1;
        }
        result
    }

    /// The cell at `(row, col)`, or `None` off the grid.
    pub fn get(&self, row: usize, col: usize) -> (r: Option<char>)
        ensures
            r == (if valid_pos(self@, row as int, col as int) {
                Some(self@[row as int][col as int])
            } else {
                None::<char>
            }),
    {
        if row < self.cells.len() {
            let line = &self.cells[row];
            if col < line.len() {
                Some(line[col])
            } else {
                None
            }
        } else {
            None
        }
    }
}

} // verus!

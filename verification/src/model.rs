//! The counting model shared by every implementation in this crate.
//!
//! A grid is a sequence of rows; rows may in general differ in length, and
//! a position is valid when it lies inside its own row.  A cell qualifies
//! when it holds the marker and fewer than four of its up-to-eight
//! neighbours do.  The spec functions here define that predicate and the
//! number of qualifying cells; the executable counters in the sibling
//! modules are all specified against them.

use vstd::prelude::*;

verus! {

/// Position `(r, c)` lies inside the grid (inside its own row).
pub open spec fn valid_pos<T>(g: Seq<Seq<T>>, r: int, c: int) -> bool {
    0 <= r < g.len() && 0 <= c < g[r].len()
}

/// Position `(r, c)` is valid and holds the marker `m`.
pub open spec fn is_marker_at<T>(g: Seq<Seq<T>>, m: T, r: int, c: int) -> bool {
    valid_pos(g, r, c) && g[r][c] == m
}

/// 1 when `(r, c)` holds the marker, else 0.
pub open spec fn marker_num<T>(g: Seq<Seq<T>>, m: T, r: int, c: int) -> int {
    if is_marker_at(g, m, r, c) {
        1
    } else {
        0
    }
}

/// How many of the up-to-eight neighbours of `(r, c)` hold the marker.
/// Off-grid neighbour positions contribute nothing, so edge and corner
/// cells naturally see fewer candidates; there is no wraparound.
pub open spec fn neighbor_markers<T>(g: Seq<Seq<T>>, m: T, r: int, c: int) -> int {
    marker_num(g, m, r - 1, c - 1) + marker_num(g, m, r - 1, c) + marker_num(g, m, r - 1, c + 1)
        + marker_num(g, m, r, c - 1) + marker_num(g, m, r, c + 1) + marker_num(g, m, r + 1, c - 1)
        + marker_num(g, m, r + 1, c) + marker_num(g, m, r + 1, c + 1)
}

/// The cell `(r, c)` holds the marker and fewer than 4 of its neighbours do.
pub open spec fn qualifies<T>(g: Seq<Seq<T>>, m: T, r: int, c: int) -> bool {
    is_marker_at(g, m, r, c) && neighbor_markers(g, m, r, c) < 4
}

/// Qualifying cells of row `r` among columns `0 .. c_end`.
pub open spec fn row_count_upto<T>(g: Seq<Seq<T>>, m: T, r: int, c_end: int) -> int
    decreases c_end,
{
    if c_end <= 0 {
        0
    } else {
        row_count_upto(g, m, r, c_end - 1) + if qualifies(g, m, r, c_end - 1) {
            1int
        } else {
            0int
        }
    }
}

/// Qualifying cells of the whole row `r`.
pub open spec fn row_count<T>(g: Seq<Seq<T>>, m: T, r: int) -> int {
    row_count_upto(g, m, r, g[r].len() as int)
}

/// Qualifying cells among rows `0 .. r_end`.
pub open spec fn count_upto<T>(g: Seq<Seq<T>>, m: T, r_end: int) -> int
    decreases r_end,
{
    if r_end <= 0 {
        0
    } else {
        count_upto(g, m, r_end - 1) + row_count(g, m, r_end - 1)
    }
}

/// Qualifying cells of the whole grid: the number this crate computes.
pub open spec fn qualifying_count<T>(g: Seq<Seq<T>>, m: T) -> int {
    count_upto(g, m, g.len() as int)
}

/// Every row of the grid has the width of the first row.
pub open spec fn rectangular<T>(g: Seq<Seq<T>>) -> bool {
    forall|r: int| 0 <= r < g.len() ==> #[trigger] g[r].len() == grid_width(g)
}

/// The width of a grid: the length of its first row, or 0 when empty.
pub open spec fn grid_width<T>(g: Seq<Seq<T>>) -> int {
    if g.len() == 0 {
        0
    } else {
        g[0].len() as int
    }
}

/// The cell at `(r, c)` as a one-element sequence, or empty off grid.
pub open spec fn cell_seq<T>(g: Seq<Seq<T>>, r: int, c: int) -> Seq<T> {
    if valid_pos(g, r, c) {
        seq![g[r][c]]
    } else {
        Seq::empty()
    }
}

/// The neighbours of `(r, c)` that lie on the grid, in row-major order.
pub open spec fn neighbor_cells<T>(g: Seq<Seq<T>>, r: int, c: int) -> Seq<T> {
    cell_seq(g, r - 1, c - 1) + cell_seq(g, r - 1, c) + cell_seq(g, r - 1, c + 1) + cell_seq(
        g,
        r,
        c - 1,
    ) + cell_seq(g, r, c + 1) + cell_seq(g, r + 1, c - 1) + cell_seq(g, r + 1, c) + cell_seq(
        g,
        r + 1,
        c + 1,
    )
}

/// Occurrences of the marker among the first `i` elements of `s`.
pub open spec fn marker_count_upto<T>(s: Seq<T>, m: T, i: int) -> int
    decreases i,
{
    if i <= 0 {
        0
    } else {
        marker_count_upto(s, m, i - 1) + if 0 <= i - 1 < s.len() && s[i - 1] == m {
            1int
        } else {
            0int
        }
    }
}

/// Occurrences of the marker in the whole sequence.
pub open spec fn marker_count<T>(s: Seq<T>, m: T) -> int {
    marker_count_upto(s, m, s.len() as int)
}

pub proof fn lemma_row_count_upto_bounds<T>(g: Seq<Seq<T>>, m: T, r: int, c_end: int)
    ensures
        0 <= row_count_upto(g, m, r, c_end),
        c_end >= 0 ==> row_count_upto(g, m, r, c_end) <= c_end,
    decreases c_end,
{
    if c_end > 0 {
        lemma_row_count_upto_bounds(g, m, r, c_end - 1);
    }
}

pub proof fn lemma_row_count_upto_mono<T>(g: Seq<Seq<T>>, m: T, r: int, c1: int, c2: int)
    requires
        c1 <= c2,
    ensures
        row_count_upto(g, m, r, c1) <= row_count_upto(g, m, r, c2),
    decreases c2 - c1,
{
    if c1 < c2 {
        lemma_row_count_upto_mono(g, m, r, c1, c2 - 1);
        lemma_row_count_upto_bounds(g, m, r, c2 - 1);
    }
}

pub proof fn lemma_count_upto_nonneg<T>(g: Seq<Seq<T>>, m: T, r_end: int)
    ensures
        0 <= count_upto(g, m, r_end),
    decreases r_end,
{
    if r_end > 0 {
        lemma_count_upto_nonneg(g, m, r_end - 1);
        lemma_row_count_upto_bounds(g, m, r_end - 1, g[r_end - 1].len() as int);
    }
}

pub proof fn lemma_count_upto_mono<T>(g: Seq<Seq<T>>, m: T, r1: int, r2: int)
    requires
        r1 <= r2,
    ensures
        count_upto(g, m, r1) <= count_upto(g, m, r2),
    decreases r2 - r1,
{
    if r1 < r2 {
        lemma_count_upto_mono(g, m, r1, r2 - 1);
        lemma_row_count_upto_bounds(g, m, r2 - 1, g[r2 - 1].len() as int);
    }
}

/// A partial count never exceeds the count of the whole grid.
pub proof fn lemma_partial_count_le_total<T>(g: Seq<Seq<T>>, m: T, r: int, c: int)
    requires
        0 <= r < g.len(),
        0 <= c <= g[r].len(),
    ensures
        0 <= count_upto(g, m, r) + row_count_upto(g, m, r, c) <= qualifying_count(g, m),
{
    lemma_count_upto_nonneg(g, m, r);
    lemma_row_count_upto_bounds(g, m, r, c);
    lemma_row_count_upto_mono(g, m, r, c, g[r].len() as int);
    assert(count_upto(g, m, r + 1) == count_upto(g, m, r) + row_count(g, m, r));
    lemma_count_upto_mono(g, m, r + 1, g.len() as int);
}

/// In a grid whose first `r_end` rows all have width `w`, the partial
/// count is at most the number of cells in those rows.
pub proof fn lemma_count_upto_le_cells<T>(g: Seq<Seq<T>>, m: T, r_end: int, w: int)
    requires
        0 <= r_end,
        0 <= w,
        forall|r: int| 0 <= r < r_end ==> #[trigger] g[r].len() == w,
    ensures
        count_upto(g, m, r_end) <= r_end * w,
    decreases r_end,
{
    if r_end > 0 {
        lemma_count_upto_le_cells(g, m, r_end - 1, w);
        lemma_row_count_upto_bounds(g, m, r_end - 1, g[r_end - 1].len() as int);
        assert((r_end - 1) * w + w == r_end * w) by (nonlinear_arith);
    }
}

/// Marker occurrences add up over concatenation.
pub proof fn lemma_marker_count_concat<T>(a: Seq<T>, b: Seq<T>, m: T)
    ensures
        marker_count(a + b, m) == marker_count(a, m) + marker_count(b, m),
{
    lemma_marker_count_prefix(a, b, m, a.len() as int);
    lemma_marker_count_concat_from(a, b, m, b.len() as int);
}

proof fn lemma_marker_count_prefix<T>(a: Seq<T>, b: Seq<T>, m: T, i: int)
    requires
        i <= a.len(),
    ensures
        marker_count_upto(a + b, m, i) == marker_count_upto(a, m, i),
    decreases i,
{
    if i > 0 {
        lemma_marker_count_prefix(a, b, m, i - 1);
        assert((a + b)[i - 1] == a[i - 1]);
    }
}

proof fn lemma_marker_count_concat_from<T>(a: Seq<T>, b: Seq<T>, m: T, j: int)
    requires
        0 <= j <= b.len(),
    ensures
        marker_count_upto(a + b, m, a.len() + j) == marker_count_upto(a, m, a.len() as int)
            + marker_count_upto(b, m, j),
    decreases j,
{
    if j > 0 {
        lemma_marker_count_concat_from(a, b, m, j - 1);
        assert((a + b)[a.len() + j - 1] == b[j - 1]);
    } else {
        lemma_marker_count_prefix(a, b, m, a.len() as int);
    }
}

proof fn lemma_no_markers_row_zero<T>(g: Seq<Seq<T>>, m: T, r: int, c_end: int)
    requires
        forall|rr: int, cc: int| valid_pos(g, rr, cc) ==> #[trigger] g[rr][cc] != m,
    ensures
        row_count_upto(g, m, r, c_end) == 0,
    decreases c_end,
{
    if c_end > 0 {
        lemma_no_markers_row_zero(g, m, r, c_end - 1);
        if qualifies(g, m, r, c_end - 1) {
            assert(g[r][c_end - 1] != m);
        }
    }
}

proof fn lemma_no_markers_upto_zero<T>(g: Seq<Seq<T>>, m: T, r_end: int)
    requires
        forall|rr: int, cc: int| valid_pos(g, rr, cc) ==> #[trigger] g[rr][cc] != m,
    ensures
        count_upto(g, m, r_end) == 0,
    decreases r_end,
{
    if r_end > 0 {
        lemma_no_markers_upto_zero(g, m, r_end - 1);
        lemma_no_markers_row_zero(g, m, r_end - 1, g[r_end - 1].len() as int);
    }
}

/// A grid with no marker anywhere has no qualifying cell: the count is 0.
pub proof fn lemma_no_markers_count_zero<T>(g: Seq<Seq<T>>, m: T)
    requires
        forall|rr: int, cc: int| valid_pos(g, rr, cc) ==> #[trigger] g[rr][cc] != m,
    ensures
        qualifying_count(g, m) == 0,
{
    lemma_no_markers_upto_zero(g, m, g.len() as int);
}

/// In a rectangular grid whose every cell holds the marker, an interior
/// cell — one row and one column away from every edge — has exactly
/// eight marker neighbours, and so does not qualify.
pub proof fn lemma_interior_all_markers<T>(g: Seq<Seq<T>>, m: T, r: int, c: int)
    requires
        rectangular(g),
        forall|rr: int, cc: int| valid_pos(g, rr, cc) ==> #[trigger] g[rr][cc] == m,
        1 <= r < g.len() - 1,
        1 <= c < grid_width(g) - 1,
    ensures
        neighbor_markers(g, m, r, c) == 8,
        !qualifies(g, m, r, c),
{
    assert(g[r - 1].len() == grid_width(g));
    assert(g[r].len() == grid_width(g));
    assert(g[r + 1].len() == grid_width(g));
    assert(valid_pos(g, r - 1, c - 1) && g[r - 1][c - 1] == m);
    assert(valid_pos(g, r - 1, c) && g[r - 1][c] == m);
    assert(valid_pos(g, r - 1, c + 1) && g[r - 1][c + 1] == m);
    assert(valid_pos(g, r, c - 1) && g[r][c - 1] == m);
    assert(valid_pos(g, r, c + 1) && g[r][c + 1] == m);
    assert(valid_pos(g, r + 1, c - 1) && g[r + 1][c - 1] == m);
    assert(valid_pos(g, r + 1, c) && g[r + 1][c] == m);
    assert(valid_pos(g, r + 1, c + 1) && g[r + 1][c + 1] == m);
}

proof fn lemma_row_count_upto_all_qualify<T>(g: Seq<Seq<T>>, m: T, r: int, c_end: int)
    requires
        0 <= c_end,
        forall|c: int| 0 <= c < c_end ==> #[trigger] qualifies(g, m, r, c),
    ensures
        row_count_upto(g, m, r, c_end) == c_end,
    decreases c_end,
{
    if c_end > 0 {
        lemma_row_count_upto_all_qualify(g, m, r, c_end - 1);
    }
}

proof fn lemma_count_upto_all_qualify<T>(g: Seq<Seq<T>>, m: T, r_end: int, w: int)
    requires
        0 <= r_end,
        0 <= w,
        forall|r: int| 0 <= r < r_end ==> #[trigger] g[r].len() == w,
        forall|r: int, c: int| 0 <= r < r_end && 0 <= c < w ==> #[trigger] qualifies(g, m, r, c),
    ensures
        count_upto(g, m, r_end) == r_end * w,
    decreases r_end,
{
    if r_end > 0 {
        lemma_count_upto_all_qualify(g, m, r_end - 1, w);
        lemma_row_count_upto_all_qualify(g, m, r_end - 1, w);
        assert(g[r_end - 1].len() == w);
        assert((r_end - 1) * w + w == r_end * w) by (nonlinear_arith);
    } else {
        assert(r_end * w == 0) by (nonlinear_arith)
            requires
                r_end == 0,
        ;
    }
}

/// In a rectangular grid of at most two rows and two columns whose every
/// cell holds the marker, every cell has at most three marker neighbours,
/// so every cell qualifies and the count is the whole cell count.
pub proof fn lemma_small_all_markers<T>(g: Seq<Seq<T>>, m: T)
    requires
        rectangular(g),
        forall|rr: int, cc: int| valid_pos(g, rr, cc) ==> #[trigger] g[rr][cc] == m,
        g.len() <= 2,
        grid_width(g) <= 2,
    ensures
        forall|r: int, c: int| valid_pos(g, r, c) ==> neighbor_markers(g, m, r, c) <= 3,
        forall|r: int, c: int| valid_pos(g, r, c) ==> #[trigger] qualifies(g, m, r, c),
        qualifying_count(g, m) == g.len() * grid_width(g),
{
    let w = grid_width(g);
    assert forall|r: int, c: int| valid_pos(g, r, c) implies neighbor_markers(g, m, r, c)
        <= 3 by {
        assert(g[r].len() == w);
        if 0 <= r - 1 < g.len() {
            assert(g[r - 1].len() == w);
        }
        if 0 <= r + 1 < g.len() {
            assert(g[r + 1].len() == w);
        }
    }
    assert forall|r: int, c: int| valid_pos(g, r, c) implies #[trigger] qualifies(
        g,
        m,
        r,
        c,
    ) by {
        assert(neighbor_markers(g, m, r, c) <= 3);
        assert(g[r][c] == m);
    }
    assert forall|r: int, c: int| 0 <= r < g.len() && 0 <= c < w implies #[trigger] qualifies(
        g,
        m,
        r,
        c,
    ) by {
        assert(g[r].len() == w);
        assert(valid_pos(g, r, c));
    }
    lemma_count_upto_all_qualify(g, m, g.len() as int, w);
}

/// Two runs over the same grid count the same cells: the result is a
/// function of the grid and the marker alone, so repeating the pipeline
/// on one input repeats its result.
pub proof fn lemma_count_deterministic<T>(g1: Seq<Seq<T>>, g2: Seq<Seq<T>>, m: T)
    requires
        g1 == g2,
    ensures
        qualifying_count(g1, m) == qualifying_count(g2, m),
{
}

/// In a grid of one single row, no neighbour above or below is ever
/// read: a cell sees at most its two row neighbours.
pub proof fn lemma_single_row_neighbors<T>(g: Seq<Seq<T>>, m: T, c: int)
    requires
        g.len() == 1,
    ensures
        neighbor_markers(g, m, 0, c) == marker_num(g, m, 0, c - 1) + marker_num(g, m, 0, c + 1),
        neighbor_markers(g, m, 0, c) <= 2,
{
}

/// In a grid of single-cell rows — one column — no neighbour to either
/// side is ever read: a cell sees at most the cells directly above and
/// below.
pub proof fn lemma_single_column_neighbors<T>(g: Seq<Seq<T>>, m: T, r: int)
    requires
        forall|rr: int| 0 <= rr < g.len() ==> #[trigger] g[rr].len() <= 1,
    ensures
        neighbor_markers(g, m, r, 0) == marker_num(g, m, r - 1, 0) + marker_num(g, m, r + 1, 0),
        neighbor_markers(g, m, r, 0) <= 2,
{
    if 0 <= r - 1 < g.len() {
        assert(g[r - 1].len() <= 1);
    }
    if 0 <= r < g.len() {
        assert(g[r].len() <= 1);
    }
    if 0 <= r + 1 < g.len() {
        assert(g[r + 1].len() <= 1);
    }
}

/// Counting the marker in the one-cell sequence of `(r, c)` is exactly
/// `marker_num`.
pub proof fn lemma_cell_seq_marker_count<T>(g: Seq<Seq<T>>, m: T, r: int, c: int)
    ensures
        marker_count(cell_seq(g, r, c), m) == marker_num(g, m, r, c),
{
    if valid_pos(g, r, c) {
        let s = cell_seq(g, r, c);
        assert(s.len() == 1);
        assert(s[0] == g[r][c]);
        assert(marker_count_upto(s, m, 0) == 0);
        assert(marker_count_upto(s, m, 1) == if g[r][c] == m {
            1int
        } else {
            0int
        });
    }
}

/// The marker occurrences among the neighbour cells of `(r, c)` are the
/// neighbour count of the model.
pub proof fn lemma_neighbor_cells_marker_count<T>(g: Seq<Seq<T>>, m: T, r: int, c: int)
    ensures
        marker_count(neighbor_cells(g, r, c), m) == neighbor_markers(g, m, r, c),
{
    let s1 = cell_seq(g, r - 1, c - 1);
    let s2 = cell_seq(g, r - 1, c);
    let s3 = cell_seq(g, r - 1, c + 1);
    let s4 = cell_seq(g, r, c - 1);
    let s5 = cell_seq(g, r, c + 1);
    let s6 = cell_seq(g, r + 1, c - 1);
    let s7 = cell_seq(g, r + 1, c);
    let s8 = cell_seq(g, r + 1, c + 1);
    lemma_cell_seq_marker_count(g, m, r - 1, c - 1);
    lemma_cell_seq_marker_count(g, m, r - 1, c);
    lemma_cell_seq_marker_count(g, m, r - 1, c + 1);
    lemma_cell_seq_marker_count(g, m, r, c - 1);
    lemma_cell_seq_marker_count(g, m, r, c + 1);
    lemma_cell_seq_marker_count(g, m, r + 1, c - 1);
    lemma_cell_seq_marker_count(g, m, r + 1, c);
    lemma_cell_seq_marker_count(g, m, r + 1, c + 1);
    lemma_marker_count_concat(s1, s2, m);
    lemma_marker_count_concat(s1 + s2, s3, m);
    lemma_marker_count_concat(s1 + s2 + s3, s4, m);
    lemma_marker_count_concat(s1 + s2 + s3 + s4, s5, m);
    lemma_marker_count_concat(s1 + s2 + s3 + s4 + s5, s6, m);
    lemma_marker_count_concat(s1 + s2 + s3 + s4 + s5 + s6, s7, m);
    lemma_marker_count_concat(s1 + s2 + s3 + s4 + s5 + s6 + s7, s8, m);
}

} // verus!

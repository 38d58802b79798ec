//! Counting over an owned grid of byte rows, with no separate column bound.
//!
//! The rows may differ in length; a neighbour is looked up inside its own
//! row.  `find_all_neighbors` gathers the neighbouring cells of a position
//! and `count_rolls_with_few_neighbors` counts the rolls that have fewer
//! than four rolls among them.

use vstd::prelude::*;

use crate::ROLL;
use crate::model::{
    cell_seq, count_upto, lemma_neighbor_cells_marker_count, lemma_partial_count_le_total,
    marker_count, marker_count_upto, neighbor_cells, neighbor_markers, qualifies,
    qualifying_count, row_count, row_count_upto, valid_pos,
};

verus! {

/// The rows of a grid of vectors, as the sequences the model speaks
/// about.
pub open spec fn rows_view<T>(lines: Seq<Vec<T>>) -> Seq<Seq<T>> {
    lines.map_values(|line: Vec<T>| line@)
}

/// Appends to `dst` the cells of row `row` that neighbour column
/// `char_index`: the cell to its left, the cell itself when `include_self`
/// holds, and the cell to its right, each only when it lies inside the row.
fn append_row_neighbors(
    dst: &mut Vec<u8>,
    lines: &Vec<Vec<u8>>,
    row: usize,
    char_index: usize,
    include_self: bool,
)
    requires
        row < lines@.len(),
    ensures
        final(dst)@ == old(dst)@ + cell_seq(rows_view(lines@), row as int, char_index - 1) + (
        if include_self {
            cell_seq(rows_view(lines@), row as int, char_index as int)
        } else {
            Seq::<u8>::empty()
        }) + cell_seq(rows_view(lines@), row as int, char_index + 1),
{
    let ghost g = rows_view(lines@);
    let line = &lines[row];
    assert(g[row as int] == line@);
    if char_index > 0 {
        let j = char_index - 1;
        if j < line.len() {
            dst.push(line[j]);
        }
    }
    if include_self && char_index < line.len() {
        dst.push(line[char_index]);
    }
    if char_index < line.len() {
        let j = char_index + 1;
        if j < line.len() {
            dst.push(line[j]);
        }
    }
    proof {
        assert(!(char_index < line@.len()) ==> !valid_pos(g, row as int, char_index + 1));
        assert(dst@ =~= old(dst)@ + cell_seq(g, row as int, char_index - 1) + (if include_self {
            cell_seq(g, row as int, char_index as int)
        } else {
            Seq::<u8>::empty()
        }) + cell_seq(g, row as int, char_index + 1));
    }
}

/// The neighbouring cells of position `(line_index, char_index)`, in
/// row-major order: up to three from the row above, up to two besides the
/// cell in its own row, and up to three from the row below.  Positions off
/// the grid are skipped, so the result holds at most eight bytes.
pub fn find_all_neighbors(lines: &Vec<Vec<u8>>, line_index: usize, char_index: usize) -> (r: Vec<
    u8,
>)
    ensures
        r@ == neighbor_cells(rows_view(lines@), line_index as int, char_index as int),
{
    let ghost g = rows_view(lines@);
    let ghost li = line_index as int;
    let ghost ci = char_index as int;
    let mut neighbors: Vec<u8> = Vec::new();
    if line_index > 0 && line_index - 1 < lines.len() {
        append_row_neighbors(&mut neighbors, lines, line_index - 1, char_index, true);
    } else {
        proof {
            assert(forall|c: int| !#[trigger] valid_pos(g, li - 1, c));
        }
    }
    if line_index < lines.len() {
        append_row_neighbors(&mut neighbors, lines, line_index, char_index, false);
    } else {
        proof {
            assert(forall|c: int| !#[trigger] valid_pos(g, li, c));
        }
    }
    if line_index < lines.len() {
        let next = line_index + 1;
        if next < lines.len() {
            append_row_neighbors(&mut neighbors, lines, next, char_index, true);
        } else {
            proof {
                assert(forall|c: int| !#[trigger] valid_pos(g, li + 1, c));
            }
        }
    } else {
        proof {
            assert(forall|c: int| !#[trigger] valid_pos(g, li + 1, c));
        }
    }
    proof {
        assert(neighbors@ =~= neighbor_cells(g, li, ci));
    }
    neighbors
}

/// Occurrences of the roll marker in `v`.
fn count_markers_in(v: &Vec<u8>) -> (n: usize)
    ensures
        n == marker_count(v@, ROLL),
{
    let mut n: usize = 0;
    let mut i: usize = 0;
    while i < v.len()
        invariant
            i <= v@.len(),
            n <= i,
            n == marker_count_upto(v@, ROLL, i as int),
        decreases v@.len() - i,
    {
        if v[i] == ROLL {
            n = n + 1;
        }
        i = i + 1;
    }
    n
}

/// Counts the rolls of the grid that have fewer than four rolls among
/// their neighbours.  The grid is taken row by row; rows may differ in
/// length.
pub fn count_rolls_with_few_neighbors(lines: Vec<Vec<u8>>) -> (count: usize)
    requires
        qualifying_count(rows_view(lines@), ROLL) <= usize::MAX,
    ensures
        count == qualifying_count(rows_view(lines@), ROLL),
{
    let ghost g = rows_view(lines@);
    let mut count: usize = 0;
    let mut line_index: usize = 0;
    while line_index < lines.len()
        invariant
            line_index <= lines@.len(),
            g == rows_view(lines@),
            qualifying_count(g, ROLL) <= usize::MAX,
            count == count_upto(g, ROLL, line_index as int),
        decreases lines@.len() - line_index,
    {
        let line_len = lines[line_index].len();
        assert(line_len == g[line_index as int].len());
        let mut char_index: usize = 0;
        while char_index < line_len
            invariant
                line_index < lines@.len(),
                char_index <= line_len,
                line_len == g[line_index as int].len(),
                g == rows_view(lines@),
                qualifying_count(g, ROLL) <= usize::MAX,
                count == count_upto(g, ROLL, line_index as int) + row_count_upto(
                    g,
                    ROLL,
                    line_index as int,
                    char_index as int,
                ),
            decreases line_len - char_index,
        {
            let ghost li = line_index as int;
            let ghost ci = char_index as int;
            let ch = lines[line_index][char_index];
            assert(ch == g[li][ci]);
            if ch == ROLL {
                let neighbors = find_all_neighbors(&lines, line_index, char_index);
                let n = count_markers_in(&neighbors);
                proof {
                    lemma_neighbor_cells_marker_count(g, ROLL, li, ci);
                    assert(n == neighbor_markers(g, ROLL, li, ci));
                }
                if n < 4 {
                    proof {
                        assert(qualifies(g, ROLL, li, ci));
                        lemma_partial_count_le_total(g, ROLL, li, ci + 1);
                    }
                    count = count + 1;
                } else {
                    proof {
                        assert(!qualifies(g, ROLL, li, ci));
                    }
                }
            } else {
                proof {
                    assert(!qualifies(g, ROLL, li, ci));
                }
            }
            char_index = char_index + 1;
        }
        proof {
            assert(row_count_upto(g, ROLL, line_index as int, line_len as int) == row_count(
                g,
                ROLL,
                line_index as int,
            ));
            assert(count == count_upto(g, ROLL, line_index as int + 1));
        }
        line_index = line_index + 1;
    }
    count
}

} // verus!

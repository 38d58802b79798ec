//! Counting over byte rows with an explicit column bound.
//!
//! Here the neighbour positions of a cell are first bounded by a given
//! column count and then looked up inside each row.  On a rectangular
//! grid whose rows all have `columns` cells this visits exactly the
//! neighbours of the shared model, which is what the counter's contract
//! states.

use vstd::prelude::*;

use crate::ROLL;
use crate::model::{
    cell_seq, count_upto, lemma_neighbor_cells_marker_count, lemma_partial_count_le_total,
    marker_count, marker_count_upto, neighbor_cells, neighbor_markers, qualifies,
    qualifying_count, row_count, row_count_upto, valid_pos,
};
use crate::rows::rows_view;

verus! {

/// The columns neighbouring `char_index`, bounded by `columns`: the
/// column to its left, the column itself when `include_self` holds, and
/// the column to its right when it is still below `columns`.
pub open spec fn neighbor_indices_spec(char_index: usize, include_self: bool, columns: usize) -> Seq<
    usize,
> {
    (if char_index > 0 {
        seq![(char_index - 1) as usize]
    } else {
        Seq::<usize>::empty()
    }) + (if include_self {
        seq![char_index]
    } else {
        Seq::<usize>::empty()
    }) + (if char_index + 1 < columns {
        seq![(char_index + 1) as usize]
    } else {
        Seq::<usize>::empty()
    })
}

/// The bytes of `line` at the positions of `idxs` from `i` on, keeping
/// only positions that lie inside the line, in order.
pub open spec fn items_at_from(line: Seq<u8>, idxs: Seq<usize>, i: int) -> Seq<u8>
    decreases idxs.len() - i,
{
    if i < 0 || i >= idxs.len() {
        Seq::empty()
    } else {
        (if idxs[i] < line.len() {
            seq![line[idxs[i] as int]]
        } else {
            Seq::<u8>::empty()
        }) + items_at_from(line, idxs, i + 1)
    }
}

/// The bytes of `line` at the positions of `idxs` that lie inside it.
pub open spec fn items_at(line: Seq<u8>, idxs: Seq<usize>) -> Seq<u8> {
    items_at_from(line, idxs, 0)
}

/// The neighbour bytes of `(line_index, char_index)`: the bounded
/// neighbour columns looked up in the row above, the row itself (without
/// the cell) and the row below.
pub open spec fn bounded_neighbors(
    g: Seq<Seq<u8>>,
    columns: usize,
    line_index: usize,
    char_index: usize,
) -> Seq<u8> {
    (if line_index > 0 {
        items_at(g[line_index - 1], neighbor_indices_spec(char_index, true, columns))
    } else {
        Seq::<u8>::empty()
    }) + items_at(g[line_index as int], neighbor_indices_spec(char_index, false, columns)) + (
    if line_index + 1 < g.len() {
        items_at(g[line_index + 1], neighbor_indices_spec(char_index, true, columns))
    } else {
        Seq::<u8>::empty()
    })
}

/// The columns neighbouring `char_index`, bounded by `columns`.
pub fn neighbor_indices(char_index: usize, include_self: bool, columns: usize) -> (r: Vec<usize>)
    ensures
        r@ == neighbor_indices_spec(char_index, include_self, columns),
{
    let mut indices: Vec<usize> = Vec::new();
    if char_index > 0 {
        indices.push(char_index - 1);
    }
    if include_self {
        indices.push(char_index);
    }
    if char_index < columns {
        let next = char_index + 1;
        if next < columns {
            indices.push(next);
        }
    }
    proof {
        assert(indices@ =~= neighbor_indices_spec(char_index, include_self, columns));
    }
    indices
}

/// The bytes of `line` at the given positions, skipping positions past
/// the end of the line.
pub fn get_item(line: &Vec<u8>, indices: Vec<usize>) -> (r: Vec<u8>)
    ensures
        r@ == items_at(line@, indices@),
{
    let mut result: Vec<u8> = Vec::new();
    let mut i: usize = 0;
    while i < indices.len()
        invariant
            i <= indices@.len(),
            items_at(line@, indices@) == result@ + items_at_from(line@, indices@, i as int),
        decreases indices@.len() - i,
    {
        let ghost prev = result@;
        let ghost ii = i as int;
        let ghost head = (if indices@[ii] < line@.len() {
            seq![line@[indices@[ii] as int]]
        } else {
            Seq::<u8>::empty()
        });
        let index = indices[i];
        if index < line.len() {
            result.push(line[index]);
        }
        proof {
            assert(items_at_from(line@, indices@, ii) == head + items_at_from(
                line@,
                indices@,
                ii + 1,
            ));
            assert(result@ =~= prev + head);
            assert(prev + (head + items_at_from(line@, indices@, ii + 1)) =~= (prev + head)
                + items_at_from(line@, indices@, ii + 1));
        }
        i = i + 1;
    }
    proof {
        assert(items_at_from(line@, indices@, indices@.len() as int) =~= Seq::<u8>::empty());
        assert(result@ + Seq::<u8>::empty() =~= result@);
    }
    result
}

/// The neighbour bytes of position `(line_index, char_index)`: up to
/// three from the row above, up to two besides the cell in its own row,
/// and up to three from the row below, each bounded by `columns` and by
/// its row's length.
pub fn find_all_neighbors(
    lines: &Vec<Vec<u8>>,
    columns: usize,
    line_index: usize,
    char_index: usize,
) -> (r: Vec<u8>)
    requires
        line_index < lines@.len(),
    ensures
        r@ == bounded_neighbors(rows_view(lines@), columns, line_index, char_index),
{
    let ghost g = rows_view(lines@);
    let mut neighbors: Vec<u8> = Vec::new();
    if line_index > 0 {
        let previous_line = &lines[line_index - 1];
        assert(previous_line@ == g[line_index - 1]);
        let mut part = get_item(previous_line, neighbor_indices(char_index, true, columns));
        neighbors.append(&mut part);
    }
    let current_line = &lines[line_index];
    assert(current_line@ == g[line_index as int]);
    let mut part = get_item(current_line, neighbor_indices(char_index, false, columns));
    neighbors.append(&mut part);
    let line_count = lines.len();
    if line_index + 1 < line_count {
        let next_line = &lines[line_index + 1];
        assert(next_line@ == g[line_index + 1]);
        let mut part = get_item(next_line, neighbor_indices(char_index, true, columns));
        neighbors.append(&mut part);
    }
    proof {
        assert(neighbors@ =~= bounded_neighbors(g, columns, line_index, char_index));
    }
    neighbors
}

proof fn lemma_items_at_from_shift(line: Seq<u8>, a: Seq<usize>, b: Seq<usize>, j: int)
    requires
        0 <= j <= b.len(),
    ensures
        items_at_from(line, a + b, a.len() + j) == items_at_from(line, b, j),
    decreases b.len() - j,
{
    if j < b.len() {
        assert((a + b)[a.len() + j] == b[j]);
        lemma_items_at_from_shift(line, a, b, j + 1);
    }
}

proof fn lemma_items_at_from_concat(line: Seq<u8>, a: Seq<usize>, b: Seq<usize>, i: int)
    requires
        0 <= i <= a.len(),
    ensures
        items_at_from(line, a + b, i) == items_at_from(line, a, i) + items_at_from(line, b, 0),
    decreases a.len() - i,
{
    if i == a.len() {
        lemma_items_at_from_shift(line, a, b, 0);
        assert(items_at_from(line, a, i) =~= Seq::<u8>::empty());
        assert(Seq::<u8>::empty() + items_at_from(line, b, 0) =~= items_at_from(line, b, 0));
    } else {
        assert((a + b)[i] == a[i]);
        lemma_items_at_from_concat(line, a, b, i + 1);
        let head = (if a[i] < line.len() {
            seq![line[a[i] as int]]
        } else {
            Seq::<u8>::empty()
        });
        assert(head + (items_at_from(line, a, i + 1) + items_at_from(line, b, 0)) =~= (head
            + items_at_from(line, a, i + 1)) + items_at_from(line, b, 0));
    }
}

/// `items_at` distributes over concatenation of the index lists.
proof fn lemma_items_at_concat(line: Seq<u8>, a: Seq<usize>, b: Seq<usize>)
    ensures
        items_at(line, a + b) == items_at(line, a) + items_at(line, b),
{
    lemma_items_at_from_concat(line, a, b, 0);
}

proof fn lemma_items_at_singleton(line: Seq<u8>, j: usize)
    ensures
        items_at(line, seq![j]) == (if j < line.len() {
            seq![line[j as int]]
        } else {
            Seq::<u8>::empty()
        }),
{
    let s = seq![j];
    assert(items_at_from(line, s, 1) =~= Seq::<u8>::empty());
    assert(items_at(line, s) =~= (if j < line.len() {
        seq![line[j as int]]
    } else {
        Seq::<u8>::empty()
    }));
}

/// On a row of exactly `columns` cells, looking up the bounded neighbour
/// columns of `char_index < columns` yields exactly the model's
/// neighbouring cells of that row.
proof fn lemma_items_at_row_neighbors(
    g: Seq<Seq<u8>>,
    columns: usize,
    row: int,
    char_index: usize,
    include_self: bool,
)
    requires
        0 <= row < g.len(),
        g[row].len() == columns,
        char_index < columns,
    ensures
        items_at(g[row], neighbor_indices_spec(char_index, include_self, columns)) == cell_seq(
            g,
            row,
            char_index - 1,
        ) + (if include_self {
            cell_seq(g, row, char_index as int)
        } else {
            Seq::<u8>::empty()
        }) + cell_seq(g, row, char_index + 1),
{
    let line = g[row];
    let left_part = (if char_index > 0 {
        seq![(char_index - 1) as usize]
    } else {
        Seq::<usize>::empty()
    });
    let self_part = (if include_self {
        seq![char_index]
    } else {
        Seq::<usize>::empty()
    });
    let right_part = (if char_index + 1 < columns {
        seq![(char_index + 1) as usize]
    } else {
        Seq::<usize>::empty()
    });
    lemma_items_at_concat(line, left_part + self_part, right_part);
    lemma_items_at_concat(line, left_part, self_part);
    if char_index > 0 {
        lemma_items_at_singleton(line, (char_index - 1) as usize);
    } else {
        assert(items_at(line, Seq::<usize>::empty()) =~= Seq::<u8>::empty());
    }
    if include_self {
        lemma_items_at_singleton(line, char_index);
    } else {
        assert(items_at(line, Seq::<usize>::empty()) =~= Seq::<u8>::empty());
    }
    if char_index + 1 < columns {
        lemma_items_at_singleton(line, (char_index + 1) as usize);
    } else {
        assert(items_at(line, Seq::<usize>::empty()) =~= Seq::<u8>::empty());
    }
    assert(items_at(line, neighbor_indices_spec(char_index, include_self, columns)) =~= cell_seq(
        g,
        row,
        char_index - 1,
    ) + (if include_self {
        cell_seq(g, row, char_index as int)
    } else {
        Seq::<u8>::empty()
    }) + cell_seq(g, row, char_index + 1));
}

/// On a rectangular grid of `columns`-cell rows, the bounded neighbour
/// lookup of a valid position gathers exactly the model's neighbouring
/// cells.
proof fn lemma_bounded_neighbors_are_neighbor_cells(
    g: Seq<Seq<u8>>,
    columns: usize,
    line_index: usize,
    char_index: usize,
)
    requires
        line_index < g.len(),
        forall|r: int| 0 <= r < g.len() ==> #[trigger] g[r].len() == columns,
        char_index < columns,
    ensures
        bounded_neighbors(g, columns, line_index, char_index) == neighbor_cells(
            g,
            line_index as int,
            char_index as int,
        ),
{
    let li = line_index as int;
    let ci = char_index as int;
    if line_index > 0 {
        assert(g[li - 1].len() == columns);
        lemma_items_at_row_neighbors(g, columns, li - 1, char_index, true);
    } else {
        assert(forall|c: int| !#[trigger] valid_pos(g, li - 1, c));
    }
    assert(g[li].len() == columns);
    lemma_items_at_row_neighbors(g, columns, li, char_index, false);
    if line_index + 1 < g.len() {
        assert(g[li + 1].len() == columns);
        lemma_items_at_row_neighbors(g, columns, li + 1, char_index, true);
    } else {
        assert(forall|c: int| !#[trigger] valid_pos(g, li + 1, c));
    }
    assert(bounded_neighbors(g, columns, line_index, char_index) =~= neighbor_cells(g, li, ci));
}

/// Occurrences of the roll marker in `v`.
fn count_markers_in(v: &Vec<u8>) -> (n: usize)
    ensures
        n == marker_count(v@, ROLL),
{
    let mut n: usize = 0;
    let mut i: usize = 0;
    while i < v.len()
        invariant
            i <= v@.len(),
            n <= i,
            n == marker_count_upto(v@, ROLL, i as int),
        decreases v@.len() - i,
    {
        if v[i] == ROLL {
            n = n + 1;
        }
        i = i + 1;
    }
    n
}

/// Counts the rolls of a rectangular grid of `columns`-cell rows that
/// have fewer than four rolls among their neighbours.
pub fn count_rolls_with_few_neighbors(lines: Vec<Vec<u8>>, columns: usize) -> (count: usize)
    requires
        forall|r: int| 0 <= r < lines@.len() ==> #[trigger] rows_view(lines@)[r].len() == columns,
        qualifying_count(rows_view(lines@), ROLL) <= usize::MAX,
    ensures
        count == qualifying_count(rows_view(lines@), ROLL),
{
    let ghost g = rows_view(lines@);
    let mut count: usize = 0;
    let mut line_index: usize = 0;
    while line_index < lines.len()
        invariant
            line_index <= lines@.len(),
            g == rows_view(lines@),
            forall|r: int| 0 <= r < g.len() ==> #[trigger] g[r].len() == columns,
            qualifying_count(g, ROLL) <= usize::MAX,
            count == count_upto(g, ROLL, line_index as int),
        decreases lines@.len() - line_index,
    {
        let line_len = lines[line_index].len();
        assert(line_len == g[line_index as int].len());
        let mut char_index: usize = 0;
        while char_index < line_len
            invariant
                line_index < lines@.len(),
                char_index <= line_len,
                line_len == g[line_index as int].len(),
                line_len == columns,
                g == rows_view(lines@),
                forall|r: int| 0 <= r < g.len() ==> #[trigger] g[r].len() == columns,
                qualifying_count(g, ROLL) <= usize::MAX,
                count == count_upto(g, ROLL, line_index as int) + row_count_upto(
                    g,
                    ROLL,
                    line_index as int,
                    char_index as int,
                ),
            decreases line_len - char_index,
        {
            let ghost li = line_index as int;
            let ghost ci = char_index as int;
            let ch = lines[line_index][char_index];
            assert(ch == g[li][ci]);
            if ch == ROLL {
                let neighbors = find_all_neighbors(&lines, columns, line_index, char_index);
                let n = count_markers_in(&neighbors);
                proof {
                    lemma_bounded_neighbors_are_neighbor_cells(g, columns, line_index, char_index);
                    lemma_neighbor_cells_marker_count(g, ROLL, li, ci);
                    assert(n == neighbor_markers(g, ROLL, li, ci));
                }
                if n < 4 {
                    proof {
                        assert(qualifies(g, ROLL, li, ci));
                        lemma_partial_count_le_total(g, ROLL, li, ci + 1);
                    }
                    count = count + 1;
                } else {
                    proof {
                        assert(!qualifies(g, ROLL, li, ci));
                    }
                }
            } else {
                proof {
                    assert(!qualifies(g, ROLL, li, ci));
                }
            }
            char_index = char_index + 1;
        }
        proof {
            assert(row_count_upto(g, ROLL, line_index as int, line_len as int) == row_count(
                g,
                ROLL,
                line_index as int,
            ));
            assert(count == count_upto(g, ROLL, line_index as int + 1));
        }
        line_index = line_index + 1;
    }
    count
}

} // verus!

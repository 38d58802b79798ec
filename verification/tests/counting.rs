use paper_rolls::columns;
use paper_rolls::rows;

#[test]
fn test_1() {
    let neighbors = rows::count_rolls_with_few_neighbors(vec![
        "...".as_bytes().to_vec(),
        "...".as_bytes().to_vec(),
        "...".as_bytes().to_vec(),
    ]);
    assert_eq!(neighbors, 0);
}

#[test]
fn test_2() {
    let neighbors = rows::count_rolls_with_few_neighbors(vec![
        "@..".as_bytes().to_vec(),
        "...".as_bytes().to_vec(),
        "..@".as_bytes().to_vec(),
    ]);
    assert_eq!(neighbors, 2);
}

#[test]
fn test_3() {
    let neighbors = rows::count_rolls_with_few_neighbors(vec![
        "@..".as_bytes().to_vec(),
        "@@@".as_bytes().to_vec(),
        "@@.".as_bytes().to_vec(),
    ]);
    assert_eq!(neighbors, 3);
}

#[test]
fn main_test_1() {
    let neighbors = columns::count_rolls_with_few_neighbors(
        vec![
            "...".as_bytes().to_vec(),
            "...".as_bytes().to_vec(),
            "...".as_bytes().to_vec(),
        ],
        3,
    );
    assert_eq!(neighbors, 0);
}

#[test]
fn main_test_2() {
    let neighbors = columns::count_rolls_with_few_neighbors(
        vec![
            "@..".as_bytes().to_vec(),
            "...".as_bytes().to_vec(),
            "..@".as_bytes().to_vec(),
        ],
        3,
    );
    assert_eq!(neighbors, 2);
}

#[test]
fn main_test_3() {
    let neighbors = columns::count_rolls_with_few_neighbors(
        vec![
            "@..".as_bytes().to_vec(),
            "@@@".as_bytes().to_vec(),
            "@@.".as_bytes().to_vec(),
        ],
        3,
    );
    assert_eq!(neighbors, 3);
}

// A grid with no roll anywhere counts zero, whatever its size.
#[test]
fn no_rolls_counts_zero() {
    let neighbors = rows::count_rolls_with_few_neighbors(vec![
        ".....".as_bytes().to_vec(),
        ".....".as_bytes().to_vec(),
    ]);
    assert_eq!(neighbors, 0);
    let neighbors = rows::count_rolls_with_few_neighbors(vec![".".as_bytes().to_vec()]);
    assert_eq!(neighbors, 0);
}

// In a small all-roll grid every cell has at most three neighbours, so
// every cell counts.
#[test]
fn small_full_grids_count_every_cell() {
    let neighbors = rows::count_rolls_with_few_neighbors(vec!["@".as_bytes().to_vec()]);
    assert_eq!(neighbors, 1);
    let neighbors = rows::count_rolls_with_few_neighbors(vec![
        "@@".as_bytes().to_vec(),
        "@@".as_bytes().to_vec(),
    ]);
    assert_eq!(neighbors, 4);
}

// In a 3x3 all-roll grid the corners see three rolls and count, while
// edge and centre cells see five or eight and do not.
#[test]
fn full_three_by_three_counts_corners() {
    let neighbors = rows::count_rolls_with_few_neighbors(vec![
        "@@@".as_bytes().to_vec(),
        "@@@".as_bytes().to_vec(),
        "@@@".as_bytes().to_vec(),
    ]);
    assert_eq!(neighbors, 4);
}

// One-row and one-column grids: off-grid neighbour offsets are skipped,
// a cell sees at most two rolls, so every roll counts.
#[test]
fn single_row_and_column_grids() {
    let neighbors = rows::count_rolls_with_few_neighbors(vec!["@@@@@".as_bytes().to_vec()]);
    assert_eq!(neighbors, 5);
    let neighbors = rows::count_rolls_with_few_neighbors(vec![
        "@".as_bytes().to_vec(),
        "@".as_bytes().to_vec(),
        "@".as_bytes().to_vec(),
        "@".as_bytes().to_vec(),
    ]);
    assert_eq!(neighbors, 4);
    let neighbors = columns::count_rolls_with_few_neighbors(vec!["@@@@@".as_bytes().to_vec()], 5);
    assert_eq!(neighbors, 5);
}

// Running the same count twice on the same grid gives the same result.
#[test]
fn repeated_runs_agree() {
    let lines = vec![
        "@.@".as_bytes().to_vec(),
        ".@.".as_bytes().to_vec(),
        "@.@".as_bytes().to_vec(),
    ];
    let first = rows::count_rolls_with_few_neighbors(lines.clone());
    let second = rows::count_rolls_with_few_neighbors(lines);
    assert_eq!(first, second);
    assert_eq!(first, 4);
}

// The two row counters agree on a rectangular grid.
#[test]
fn row_and_column_counters_agree() {
    let lines = vec![
        "@@..@".as_bytes().to_vec(),
        ".@@@.".as_bytes().to_vec(),
        "@.@.@".as_bytes().to_vec(),
    ];
    let a = rows::count_rolls_with_few_neighbors(lines.clone());
    let b = columns::count_rolls_with_few_neighbors(lines, 5);
    assert_eq!(a, b);
}

// The helper that gathers neighbour bytes keeps the row-major order and
// skips off-grid positions.
#[test]
fn neighbor_helpers() {
    let lines = vec![
        "abc".as_bytes().to_vec(),
        "def".as_bytes().to_vec(),
        "ghi".as_bytes().to_vec(),
    ];
    assert_eq!(rows::find_all_neighbors(&lines, 1, 1), b"abcdfghi".to_vec());
    assert_eq!(rows::find_all_neighbors(&lines, 0, 0), b"bde".to_vec());
    assert_eq!(rows::find_all_neighbors(&lines, 2, 2), b"efh".to_vec());
    assert_eq!(
        columns::find_all_neighbors(&lines, 3, 1, 1),
        b"abcdfghi".to_vec()
    );
    assert_eq!(columns::find_all_neighbors(&lines, 3, 0, 2), b"bef".to_vec());
}

// The bounded index helper: left neighbour, the cell itself on demand,
// right neighbour only below the bound.
#[test]
fn neighbor_index_bounds() {
    assert_eq!(columns::neighbor_indices(0, false, 3), vec![1]);
    assert_eq!(columns::neighbor_indices(1, true, 3), vec![0, 1, 2]);
    assert_eq!(columns::neighbor_indices(2, false, 3), vec![1]);
    assert_eq!(columns::neighbor_indices(2, true, 3), vec![1, 2]);
}

// Index lookups skip positions past the end of the line.
#[test]
fn get_item_skips_out_of_range() {
    let line = b"xyz".to_vec();
    assert_eq!(columns::get_item(&line, vec![0, 2, 5]), b"xz".to_vec());
    assert_eq!(columns::get_item(&line, vec![]), Vec::<u8>::new());
}

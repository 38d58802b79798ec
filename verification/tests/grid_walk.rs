use paper_rolls::grid::Grid;

fn grid() -> Grid {
    Grid::new(
        r#"..@@.@@@@.
        @@@.@.@.@@
        @@@@@.@.@@
        @.@@@@..@.
        @@.@@@@.@@
        .@@@@@@@.@
        .@.@.@.@@@
        @.@@@.@@@@
        .@@@@@@@@.
        @.@.@@@.@."#,
    )
}

#[test]
fn test_grid() {
    let g = grid();

    assert_eq!(g.height(), 10);
    assert_eq!(g.width(), 10);

    assert_eq!(g.get(0, 0), Some('.'));
    assert_eq!(g.get(0, 2), Some('@'));
    assert_eq!(g.get(1, 0), Some('@'));
    assert_eq!(g.get(1, 3), Some('.'));
    assert_eq!(g.get(1, 4), Some('@'));
    assert_eq!(g.get(9, 9), Some('.'));
    assert_eq!(g.get(10, 0), None);
}

#[test]
fn test_iterator() {
    let g = grid();

    for &(x, y, c) in g.paperolls().iter() {
        println!("({x}, {y}) = {c}");
    }

    assert_eq!(g.paperolls().len(), 13);
}

#[test]
fn test_input_final() {
    let g = Grid::new("@@..@.@\n.@@@..@\n@.@.@@.\n.@@..@@\n@@.@.@.\n");
    let paperrolls = g.paperolls().len();
    println!("Paperolls = {paperrolls}");
}

// Parsing trims the surrounding whitespace of every line and drops the
// empty rest a final line feed leaves.
#[test]
fn parsing_trims_and_splits() {
    let g = Grid::new("  .@.  \n\t@@@\n.@.\n");
    assert_eq!(g.height(), 3);
    assert_eq!(g.width(), 3);
    assert_eq!(g.get(0, 1), Some('@'));
    assert_eq!(g.get(1, 0), Some('@'));

    let empty = Grid::new("");
    assert_eq!(empty.height(), 0);
    assert_eq!(empty.width(), 0);
    assert_eq!(empty.get(0, 0), None);
}

// The walk lists qualifying rolls in row-major order with their
// coordinates and cell.
#[test]
fn walk_lists_qualifying_rolls_in_order() {
    let g = Grid::new("@..\n...\n..@");
    assert_eq!(g.paperolls(), vec![(0, 0, '@'), (2, 2, '@')]);

    let g = Grid::new("@..\n@@@\n@@.");
    assert_eq!(g.paperolls().len(), 3);

    let g = Grid::new("...\n...\n...");
    assert_eq!(g.paperolls(), vec![]);
}

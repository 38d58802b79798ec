use paper_rolls::pipeline::{
    count_flat, kernel, launch_shape, pack_kernel_args, parse_dimensions, KernelArgs,
    PipelineError,
};
use paper_rolls::rows;

// The loader reads the width off the first line feed and checks that the
// rows tile the buffer exactly.
#[test]
fn dimensions_of_well_formed_grids() {
    assert_eq!(parse_dimensions(&b"@..\n...\n..@\n".to_vec()), Ok((3, 3)));
    assert_eq!(parse_dimensions(&b"\n".to_vec()), Ok((0, 1)));
    assert_eq!(parse_dimensions(&b"@@\n@@\n".to_vec()), Ok((2, 2)));
}

// A buffer with no line feed is malformed.
#[test]
fn dimensions_without_newline_are_malformed() {
    assert_eq!(
        parse_dimensions(&b"@..".to_vec()),
        Err(PipelineError::MalformedGrid)
    );
    assert_eq!(
        parse_dimensions(&Vec::new()),
        Err(PipelineError::MalformedGrid)
    );
}

// A missing final line feed or an uneven line width is malformed.
#[test]
fn dimensions_of_uneven_grids_are_malformed() {
    assert_eq!(
        parse_dimensions(&b"@..\n...\n..@".to_vec()),
        Err(PipelineError::MalformedGrid)
    );
    assert_eq!(
        parse_dimensions(&b"@..\n....\n".to_vec()),
        Err(PipelineError::MalformedGrid)
    );
}

// Scenario A through the flat pipeline: a grid of empty cells counts 0.
#[test]
fn flat_count_no_rolls() {
    assert_eq!(count_flat(&b"...\n...\n...\n".to_vec(), 3, 3), 0);
}

// Scenario B: two isolated rolls, no neighbours, both count.
#[test]
fn flat_count_isolated_rolls() {
    assert_eq!(count_flat(&b"@..\n...\n..@\n".to_vec(), 3, 3), 2);
}

// Scenario C: six rolls, three of them with fewer than four neighbours.
#[test]
fn flat_count_crowded_rolls() {
    assert_eq!(count_flat(&b"@..\n@@@\n@@.\n".to_vec(), 3, 3), 3);
}

// The flat evaluation agrees with the row-by-row counter on the same
// grid, and the loader's dimensions feed it correctly.
#[test]
fn flat_count_matches_row_count() {
    let flat = b"@@..@\n.@@@.\n@.@.@\n".to_vec();
    let (width, height) = parse_dimensions(&flat).unwrap();
    let by_rows = rows::count_rolls_with_few_neighbors(vec![
        b"@@..@".to_vec(),
        b".@@@.".to_vec(),
        b"@.@.@".to_vec(),
    ]);
    assert_eq!(count_flat(&flat, width, height) as usize, by_rows);
}

// Running the flat pipeline twice on the same buffer repeats the result.
#[test]
fn flat_count_is_repeatable() {
    let flat = b"@.@\n.@.\n@.@\n".to_vec();
    assert_eq!(count_flat(&flat, 3, 3), count_flat(&flat, 3, 3));
    assert_eq!(count_flat(&flat, 3, 3), 4);
}

// One kernel call per cell: threads past the grid edge return without
// effect, a qualifying cell adds one to the counter.
#[test]
fn kernel_per_cell_behavior() {
    let flat = b"@..\n...\n..@\n".to_vec();
    let mut output: u32 = 0;
    kernel(&flat, &mut output, 3, 3, 0, 0);
    assert_eq!(output, 1);
    kernel(&flat, &mut output, 3, 3, 1, 1);
    assert_eq!(output, 1);
    kernel(&flat, &mut output, 3, 3, 7, 7);
    assert_eq!(output, 1);
    kernel(&flat, &mut output, 3, 3, 2, 2);
    assert_eq!(output, 2);
}

// The workgroup grid covers every cell with 16x16 tiles, one deep.
#[test]
fn launch_shape_covers_the_grid() {
    let shape = launch_shape(1024, 1024);
    assert_eq!(
        (shape.wg_count_x, shape.wg_count_y, shape.wg_count_z),
        (64, 64, 1)
    );
    assert_eq!((shape.wg_dim_x, shape.wg_dim_y, shape.wg_dim_z), (16, 16, 1));

    let shape = launch_shape(17, 16);
    assert_eq!((shape.wg_count_x, shape.wg_count_y), (2, 1));

    let shape = launch_shape(1, 1);
    assert_eq!((shape.wg_count_x, shape.wg_count_y), (1, 1));

    let shape = launch_shape(0, 0);
    assert_eq!((shape.wg_count_x, shape.wg_count_y), (0, 0));
}

// The packed argument block: both device addresses and both extents,
// little-endian, in declared order, 24 bytes with no padding.
#[test]
fn packed_arguments_layout() {
    let block = pack_kernel_args(&KernelArgs {
        input_ptr: 0x1122_3344_5566_7788,
        output_ptr: 0x99aa_bbcc_ddee_ff00,
        width: 0x0102_0304,
        height: 0x0a0b_0c0d,
    });
    assert_eq!(block.len(), 24);
    assert_eq!(
        block,
        vec![
            0x88, 0x77, 0x66, 0x55, 0x44, 0x33, 0x22, 0x11, 0x00, 0xff, 0xee, 0xdd, 0xcc, 0xbb,
            0xaa, 0x99, 0x04, 0x03, 0x02, 0x01, 0x0d, 0x0c, 0x0b, 0x0a,
        ]
    );
}

//! The host side of the device pipeline, on a flat newline-delimited grid.
//!
//! A grid file is a flat byte buffer: `height` rows of `width` cells, each
//! row closed by a line-feed byte.  `parse_dimensions` recovers `width` and
//! `height` from the buffer and rejects anything that does not tile it
//! exactly.  `kernel` is the per-cell computation the device runs once per
//! launched thread; `count_flat` evaluates it over every cell, which is
//! also the single-threaded reference the device result must agree with.
//! `launch_shape` computes the workgroup grid that covers the cells, and
//! `pack_kernel_args` serializes the kernel arguments into the packed
//! block of the device calling convention.

use vstd::arithmetic::div_mod::lemma_fundamental_div_mod;
use vstd::prelude::*;

use crate::ROLL;
use crate::model::{
    count_upto, is_marker_at, lemma_count_upto_le_cells, lemma_partial_count_le_total,
    marker_num, neighbor_markers, qualifies, qualifying_count, row_count, row_count_upto,
    valid_pos,
};

verus! {

/// The byte that closes each row of a grid file.
pub const NEWLINE: u8 = 10;

/// The fixed edge of a workgroup tile: each workgroup covers a 16x16 patch
/// of cells.
pub const WG_SIZE: u32 = 16;

/// Why a pipeline stage failed.  The grid loader reports `MalformedGrid`;
/// the remaining variants name the device-runtime stage whose status was
/// not success, and are raised by the unverified runtime glue.
#[derive(Clone, Copy, Debug, PartialEq, Eq, Structural)]
pub enum PipelineError {
    MalformedGrid,
    DeviceInit,
    DeviceNotFound,
    OutOfDeviceMemory,
    ModuleLoad,
    KernelNotFound,
    Transfer,
    Launch,
    Synchronize,
}

/// The rows described by a flat buffer of `height` rows of `width` cells,
/// each row followed by one terminator byte.
pub open spec fn flat_rows(buf: Seq<u8>, width: int, height: int) -> Seq<Seq<u8>> {
    Seq::new(
        height as nat,
        |y: int| Seq::new(width as nat, |x: int| buf[y * (width + 1) + x]),
    )
}

/// `w` is the index of the first line feed in `s`.
pub open spec fn is_first_newline(s: Seq<u8>, w: int) -> bool {
    0 <= w < s.len() && s[w] == NEWLINE && (forall|j: int| 0 <= j < w ==> s[j] != NEWLINE)
}

/// The dimensions `w` x `h` tile the buffer `s` exactly: `w` is the first
/// line-feed index, and `h` rows of `w + 1` bytes make up all of `s`.
pub open spec fn well_formed_dims(s: Seq<u8>, w: int, h: int) -> bool {
    is_first_newline(s, w) && h == (s.len() as int) / (w + 1) && (w + 1) * h == s.len()
}

/// Reads the grid dimensions off a flat grid buffer: the width is the
/// index of the first line feed, the height is the number of rows of
/// `width + 1` bytes.  Returns `MalformedGrid` when the buffer holds no
/// line feed or the dimensions do not tile it exactly (an uneven line
/// width, or a missing final line feed).
pub fn parse_dimensions(input: &Vec<u8>) -> (r: Result<(u32, u32), PipelineError>)
    requires
        input@.len() <= u32::MAX,
    ensures
        match r {
            Ok(dims) => well_formed_dims(input@, dims.0 as int, dims.1 as int),
            Err(e) => e == PipelineError::MalformedGrid && (forall|w: int, h: int|
                !well_formed_dims(input@, w, h)),
        },
{
    let ghost s = input@;
    let n = input.len();
    let mut w: usize = 0;
    while w < n && input[w] != NEWLINE
        invariant
            w <= n,
            n == s.len(),
            s == input@,
            forall|j: int| 0 <= j < w ==> s[j] != NEWLINE,
        decreases n - w,
    {
        w = w + 1;
    }
    if w == n {
        proof {
            assert forall|wx: int, h: int| !well_formed_dims(s, wx, h) by {
                if is_first_newline(s, wx) {
                    assert(s[wx] != NEWLINE);
                }
            }
        }
        return Err(PipelineError::MalformedGrid);
    }
    assert(is_first_newline(s, w as int));
    let denom = w + 1;
    let h = n / denom;
    proof {
        lemma_fundamental_div_mod(n as int, denom as int);
        assert(0 <= (n as int) % (denom as int) && (n as int) % (denom as int) < (denom as int))
            by (nonlinear_arith)
            requires
                denom > 0,
        ;
        assert(h as int <= denom as int * (h as int)) by (nonlinear_arith)
            requires
                denom >= 1,
                h >= 0,
        ;
    }
    if denom * h == n {
        Ok((w as u32, h as u32))
    } else {
        proof {
            assert forall|wx: int, hx: int| !well_formed_dims(s, wx, hx) by {
                if is_first_newline(s, wx) {
                    if wx < w {
                        assert(s[wx] != NEWLINE);
                    } else if wx > w {
                        assert(s[w as int] == NEWLINE);
                    }
                    assert(wx == w);
                }
            }
        }
        Err(PipelineError::MalformedGrid)
    }
}

/// Reads whether the cell at column `x` of row `y` holds the roll marker.
fn flat_cell_is_roll(input: &Vec<u8>, width: u32, height: u32, x: u32, y: u32) -> (r: bool)
    requires
        input@.len() == (width + 1) * height,
        x < width,
        y < height,
    ensures
        r == is_marker_at(
            flat_rows(input@, width as int, height as int),
            ROLL,
            y as int,
            x as int,
        ),
{
    let ghost g = flat_rows(input@, width as int, height as int);
    proof {
        assert((y + 1) * ((width + 1) as int) <= height * ((width + 1) as int))
            by (nonlinear_arith)
            requires
                y < height,
        ;
        assert(y * ((width + 1) as int) + (width + 1) == (y + 1) * ((width + 1) as int))
            by (nonlinear_arith);
        assert(g[y as int][x as int] == input@[y * ((width + 1) as int) + x]);
    }
    let n = input.len();
    assert(width + 1 <= n) by {
        assert((width + 1) * 1 <= (width + 1) * height) by (nonlinear_arith)
            requires
                height >= 1,
        ;
    }
    let w1 = (width as usize) + 1;
    let idx = (y as usize) * w1 + (x as usize);
    input[idx] == ROLL
}

/// The per-cell computation of the device kernel, one launched thread per
/// call: threads addressed past the grid edge return without effect; a
/// cell holding a roll with fewer than four rolls among its neighbours
/// adds one to the shared output counter.
pub fn kernel(input: &Vec<u8>, output: &mut u32, width: u32, height: u32, x: u32, y: u32)
    requires
        input@.len() == (width + 1) * height,
        *old(output) < u32::MAX,
    ensures
        *final(output) == *old(output) + (if qualifies(
            flat_rows(input@, width as int, height as int),
            ROLL,
            y as int,
            x as int,
        ) {
            1int
        } else {
            0int
        }),
{
    let ghost g = flat_rows(input@, width as int, height as int);
    proof {
        assert(g.len() == height);
        assert(forall|r: int| 0 <= r < height ==> #[trigger] g[r].len() == width);
    }
    if x >= width || y >= height {
        proof {
            assert(!valid_pos(g, y as int, x as int));
        }
        return ;
    }
    if !flat_cell_is_roll(input, width, height, x, y) {
        return ;
    }
    let ghost xi = x as int;
    let ghost yi = y as int;
    let mut set_neighbors: u32 = 0;
    proof {
        assert(forall|r: int, c: int|
            marker_num(g, ROLL, r, c) == 1 || marker_num(g, ROLL, r, c) == 0);
    }
    if x > 0 {
        if y > 0 {
            if flat_cell_is_roll(input, width, height, x - 1, y - 1) {
                set_neighbors = set_neighbors + 1;
            }
        }
        assert(set_neighbors == marker_num(g, ROLL, yi - 1, xi - 1));
        if flat_cell_is_roll(input, width, height, x - 1, y) {
            set_neighbors = set_neighbors + 1;
        }
        if y + 1 < height {
            if flat_cell_is_roll(input, width, height, x - 1, y + 1) {
                set_neighbors = set_neighbors + 1;
            }
        }
    }
    assert(set_neighbors == marker_num(g, ROLL, yi - 1, xi - 1) + marker_num(g, ROLL, yi, xi - 1)
        + marker_num(g, ROLL, yi + 1, xi - 1));
    if y > 0 {
        if flat_cell_is_roll(input, width, height, x, y - 1) {
            set_neighbors = set_neighbors + 1;
        }
    }
    if y + 1 < height {
        if flat_cell_is_roll(input, width, height, x, y + 1) {
            set_neighbors = set_neighbors + 1;
        }
    }
    if x + 1 < width {
        if y > 0 {
            if flat_cell_is_roll(input, width, height, x + 1, y - 1) {
                set_neighbors = set_neighbors + 1;
            }
        }
        if flat_cell_is_roll(input, width, height, x + 1, y) {
            set_neighbors = set_neighbors + 1;
        }
        if y + 1 < height {
            if flat_cell_is_roll(input, width, height, x + 1, y + 1) {
                set_neighbors = set_neighbors + 1;
            }
        }
    }
    assert(set_neighbors == neighbor_markers(g, ROLL, yi, xi));
    if set_neighbors < 4 {
        *output = *output + 1;
    }
}

/// Evaluates the kernel over every cell of the grid, row by row: the
/// single-threaded reference for the device launch, which runs the same
/// per-cell computation once per thread and accumulates into the same
/// counter.
pub fn count_flat(input: &Vec<u8>, width: u32, height: u32) -> (count: u32)
    requires
        input@.len() == (width + 1) * height,
        input@.len() <= u32::MAX,
    ensures
        count == qualifying_count(flat_rows(input@, width as int, height as int), ROLL),
{
    let ghost g = flat_rows(input@, width as int, height as int);
    proof {
        assert(g.len() == height);
        assert(forall|r: int| 0 <= r < height ==> #[trigger] g[r].len() == width);
        lemma_count_upto_le_cells(g, ROLL, height as int, width as int);
        if height > 0 {
            assert((height as int) * (width as int) == (width + 1) * height - height)
                by (nonlinear_arith);
        }
        assert(qualifying_count(g, ROLL) < u32::MAX);
    }
    let mut count: u32 = 0;
    let mut y: u32 = 0;
    while y < height
        invariant
            y <= height,
            g == flat_rows(input@, width as int, height as int),
            input@.len() == (width + 1) * height,
            g.len() == height,
            forall|r: int| 0 <= r < height ==> #[trigger] g[r].len() == width,
            qualifying_count(g, ROLL) < u32::MAX,
            count == count_upto(g, ROLL, y as int),
        decreases height - y,
    {
        let mut x: u32 = 0;
        while x < width
            invariant
                y < height,
                x <= width,
                g == flat_rows(input@, width as int, height as int),
                input@.len() == (width + 1) * height,
                g.len() == height,
                forall|r: int| 0 <= r < height ==> #[trigger] g[r].len() == width,
                qualifying_count(g, ROLL) < u32::MAX,
                count == count_upto(g, ROLL, y as int) + row_count_upto(g, ROLL, y as int, x as int),
            decreases width - x,
        {
            proof {
                lemma_partial_count_le_total(g, ROLL, y as int, x as int);
            }
            kernel(input, &mut count, width, height, x, y);
            x = x + 1;
        }
        proof {
            assert(row_count_upto(g, ROLL, y as int, width as int) == row_count(g, ROLL, y as int));
            assert(count == count_upto(g, ROLL, y as int + 1));
        }
        y = y + 1;
    }
    count
}

/// How many workgroups of `WG_SIZE` threads cover `n` cells along one
/// axis: the quotient, rounded up.
pub open spec fn groups_needed(n: int) -> int {
    if n % (WG_SIZE as int) == 0 {
        n / (WG_SIZE as int)
    } else {
        n / (WG_SIZE as int) + 1
    }
}

/// The workgroup grid of one launch: how many workgroups along each axis,
/// and the threads each workgroup holds along each axis.
pub struct LaunchShape {
    pub wg_count_x: u32,
    pub wg_count_y: u32,
    pub wg_count_z: u32,
    pub wg_dim_x: u32,
    pub wg_dim_y: u32,
    pub wg_dim_z: u32,
}

/// One axis of the workgroup count: cells divided by the tile edge,
/// rounded up.
fn groups_for(n: u32) -> (r: u32)
    ensures
        r == groups_needed(n as int),
        r * WG_SIZE >= n,
        n > 0 ==> (r - 1) * WG_SIZE < n,
{
    let q = n / WG_SIZE;
    let rem = n % WG_SIZE;
    proof {
        assert(n == (WG_SIZE as int) * (n as int / (WG_SIZE as int)) + (n as int) % (
        WG_SIZE as int)) by {
            lemma_fundamental_div_mod(n as int, WG_SIZE as int);
        }
    }
    if rem != 0 {
        q + 1
    } else {
        q
    }
}

/// Computes the workgroup grid that covers a `width` x `height` cell
/// grid: enough `WG_SIZE` x `WG_SIZE` workgroups along each axis to reach
/// every cell, one workgroup deep.  The last workgroups along each axis
/// may overhang the grid; the kernel itself rejects threads addressed
/// past the edge.
pub fn launch_shape(width: u32, height: u32) -> (r: LaunchShape)
    ensures
        r.wg_count_x == groups_needed(width as int),
        r.wg_count_y == groups_needed(height as int),
        r.wg_count_z == 1,
        r.wg_dim_x == WG_SIZE,
        r.wg_dim_y == WG_SIZE,
        r.wg_dim_z == 1,
        r.wg_count_x * r.wg_dim_x >= width,
        r.wg_count_y * r.wg_dim_y >= height,
        width > 0 ==> (r.wg_count_x - 1) * r.wg_dim_x < width,
        height > 0 ==> (r.wg_count_y - 1) * r.wg_dim_y < height,
{
    LaunchShape {
        wg_count_x: groups_for(width),
        wg_count_y: groups_for(height),
        wg_count_z: 1,
        wg_dim_x: WG_SIZE,
        wg_dim_y: WG_SIZE,
        wg_dim_z: 1,
    }
}

/// Device/host parity: a flat terminator-delimited buffer and a row
/// representation that agree cell for cell describe the same grid, so
/// what the device pipeline accumulates over the buffer equals a
/// straightforward row-by-row evaluation of the same predicate.
pub proof fn lemma_device_host_parity(buf: Seq<u8>, g: Seq<Seq<u8>>, width: int, height: int)
    requires
        0 <= width,
        g.len() == height,
        forall|r: int| 0 <= r < height ==> #[trigger] g[r].len() == width,
        forall|y: int, x: int| 0 <= y < height && 0 <= x < width ==> buf[y * (width + 1) + x]
            == #[trigger] g[y][x],
    ensures
        qualifying_count(flat_rows(buf, width, height), ROLL) == qualifying_count(g, ROLL),
{
    assert(flat_rows(buf, width, height) =~~= g);
}

/// The kernel arguments, in the order the device kernel declares them:
/// the device addresses of the input and output buffers, then the grid
/// width and height.  Device addresses are plain 64-bit values here; the
/// runtime glue converts its buffer handles to and from them.
pub struct KernelArgs {
    pub input_ptr: u64,
    pub output_ptr: u64,
    pub width: u32,
    pub height: u32,
}

/// The little-endian bytes of a 64-bit value, lowest first.
pub open spec fn u64_le_bytes(v: u64) -> Seq<u8> {
    seq![
        (v & 0xff) as u8,
        ((v >> 8) & 0xff) as u8,
        ((v >> 16) & 0xff) as u8,
        ((v >> 24) & 0xff) as u8,
        ((v >> 32) & 0xff) as u8,
        ((v >> 40) & 0xff) as u8,
        ((v >> 48) & 0xff) as u8,
        ((v >> 56) & 0xff) as u8,
    ]
}

/// The little-endian bytes of a 32-bit value, lowest first.
pub open spec fn u32_le_bytes(v: u32) -> Seq<u8> {
    seq![(v & 0xff) as u8, ((v >> 8) & 0xff) as u8, ((v >> 16) & 0xff) as u8, ((v >> 24)
        & 0xff) as u8]
}

/// The packed argument block of one launch: both device addresses and the
/// two 32-bit extents, little-endian, in declared order.  Eight-byte
/// fields first and four-byte fields last, so the layout carries no
/// padding and its size is exactly 24 bytes.
pub open spec fn kernel_args_bytes(a: KernelArgs) -> Seq<u8> {
    u64_le_bytes(a.input_ptr) + u64_le_bytes(a.output_ptr) + u32_le_bytes(a.width) + u32_le_bytes(
        a.height,
    )
}

fn push_u64_le(dst: &mut Vec<u8>, v: u64)
    ensures
        final(dst)@ == old(dst)@ + u64_le_bytes(v),
{
    dst.push((v & 0xff) as u8);
    dst.push(((v >> 8) & 0xff) as u8);
    dst.push(((v >> 16) & 0xff) as u8);
    dst.push(((v >> 24) & 0xff) as u8);
    dst.push(((v >> 32) & 0xff) as u8);
    dst.push(((v >> 40) & 0xff) as u8);
    dst.push(((v >> 48) & 0xff) as u8);
    dst.push(((v >> 56) & 0xff) as u8);
    proof {
        assert(dst@ =~= old(dst)@ + u64_le_bytes(v));
    }
}

fn push_u32_le(dst: &mut Vec<u8>, v: u32)
    ensures
        final(dst)@ == old(dst)@ + u32_le_bytes(v),
{
    dst.push((v & 0xff) as u8);
    dst.push(((v >> 8) & 0xff) as u8);
    dst.push(((v >> 16) & 0xff) as u8);
    dst.push(((v >> 24) & 0xff) as u8);
    proof {
        assert(dst@ =~= old(dst)@ + u32_le_bytes(v));
    }
}

/// Serializes the kernel arguments into the packed block handed to the
/// launch: the byte layout the device kernel reads positionally, with no
/// check across that boundary, so field order and sizes here are the one
/// place host and device must agree.
pub fn pack_kernel_args(args: &KernelArgs) -> (r: Vec<u8>)
    ensures
        r@ == kernel_args_bytes(*args),
        r@.len() == 24,
{
    let mut block: Vec<u8> = Vec::new();
    push_u64_le(&mut block, args.input_ptr);
    push_u64_le(&mut block, args.output_ptr);
    push_u32_le(&mut block, args.width);
    push_u32_le(&mut block, args.height);
    proof {
        assert(block@ =~= kernel_args_bytes(*args));
    }
    block
}

} // verus!

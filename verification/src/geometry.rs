//! Pointer-to-cell coordinate mapping for the input layer: turns a pixel
//! position into the grid cell under it, or reports that the position lies
//! outside the grid. The pixel space has y growing upward while the grid's row
//! index grows downward from the top row, so the mapping inverts the vertical
//! axis.

use vstd::prelude::*;

use vstd::arithmetic::div_mod::{
    lemma_div_pos_is_pos, lemma_fundamental_div_mod_converse, lemma_multiply_divide_lt,
};

use crate::minefield::in_grid;

verus! {

/// Whether a pointer position lies inside the grid's pixel box.
/// `(origin_x, origin_y)` is the bottom-left pixel of the grid; the box
/// extends `width * cell_size` pixels to the right and `height * cell_size`
/// pixels up, half-open on both axes.
pub open spec fn in_pixel_box(
    px: int,
    py: int,
    origin_x: int,
    origin_y: int,
    cell_size: int,
    width: int,
    height: int,
) -> bool {
    &&& origin_x <= px < origin_x + width * cell_size
    &&& origin_y <= py < origin_y + height * cell_size
}

/// The cell under a pointer position, or nothing outside the grid's box.
/// Row 0 is the top row of the grid, so the row index grows opposite to the
/// pixel y axis.
pub open spec fn spec_pixel_to_cell(
    px: int,
    py: int,
    origin_x: int,
    origin_y: int,
    cell_size: int,
    width: int,
    height: int,
) -> Option<(int, int)> {
    if in_pixel_box(px, py, origin_x, origin_y, cell_size, width, height) {
        Some(((height - 1 - (py - origin_y) / cell_size), (px - origin_x) / cell_size))
    } else {
        None
    }
}

/// Maps a pointer position to the grid cell under it: a coordinate inside the
/// grid's pixel box lands on a valid `(row, col)`, one outside yields nothing.
/// This mapping has no failure mode besides "outside"; it is the designated
/// guard that keeps out-of-bounds coordinates away from the mutation
/// operations.
pub fn pixel_to_cell(
    px: i64,
    py: i64,
    origin_x: i64,
    origin_y: i64,
    cell_size: i64,
    width: usize,
    height: usize,
) -> (r: Option<(usize, usize)>)
    requires
        1 <= cell_size,
        1 <= width,
        1 <= height,
        width * cell_size <= i64::MAX,
        height * cell_size <= i64::MAX,
        origin_x + width * cell_size <= i64::MAX,
        origin_y + height * cell_size <= i64::MAX,
    ensures
        r is Some <==> in_pixel_box(
            px as int,
            py as int,
            origin_x as int,
            origin_y as int,
            cell_size as int,
            width as int,
            height as int,
        ),
        r matches Some((row, col)) ==> {
            &&& in_grid(width as int, height as int, row as int, col as int)
            &&& Some((row as int, col as int)) == spec_pixel_to_cell(
                px as int,
                py as int,
                origin_x as int,
                origin_y as int,
                cell_size as int,
                width as int,
                height as int,
            )
        },
{
    proof {
        assert(width <= width * (cell_size as int) && height <= height * (cell_size as int))
            by (nonlinear_arith)
            requires
                1 <= cell_size,
                0 <= width,
                0 <= height,
        ;
    }
    let w_ext: i64 = (width as i64) * cell_size;
    let h_ext: i64 = (height as i64) * cell_size;
    let limit_x: i64 = origin_x + w_ext;
    let limit_y: i64 = origin_y + h_ext;
    if px < origin_x || px >= limit_x || py < origin_y || py >= limit_y {
        return None;
    }
    let dx: u64 = (px - origin_x) as u64;
    let dy: u64 = (py - origin_y) as u64;
    let cs: u64 = cell_size as u64;
    let col64: u64 = dx / cs;
    let qy: u64 = dy / cs;
    proof {
        lemma_div_pos_is_pos(dx as int, cell_size as int);
        lemma_div_pos_is_pos(dy as int, cell_size as int);
        assert((cell_size as int) * (width as int) == (width as int) * (cell_size as int))
            by (nonlinear_arith);
        assert((cell_size as int) * (height as int) == (height as int) * (cell_size as int))
            by (nonlinear_arith);
        lemma_multiply_divide_lt(dx as int, cell_size as int, width as int);
        lemma_multiply_divide_lt(dy as int, cell_size as int, height as int);
    }
    let row64: u64 = (height as u64) - 1 - qy;
    Some((row64 as usize, col64 as usize))
}

/// The round trip: the pointer position at the top-left pixel of cell
/// `(row, col)` maps back to `(row, col)`. In the y-up pixel space that pixel
/// sits at `origin_x + col * cell_size` horizontally and one below
/// `origin_y + (height - row) * cell_size` vertically.
pub proof fn lemma_pixel_to_cell_round_trip(
    origin_x: int,
    origin_y: int,
    cell_size: int,
    width: int,
    height: int,
    row: int,
    col: int,
)
    requires
        1 <= cell_size,
        in_grid(width, height, row, col),
    ensures
        spec_pixel_to_cell(
            origin_x + col * cell_size,
            origin_y + (height - row) * cell_size - 1,
            origin_x,
            origin_y,
            cell_size,
            width,
            height,
        ) == Some((row, col)),
{
    let px = origin_x + col * cell_size;
    let py = origin_y + (height - row) * cell_size - 1;
    assert(0 <= col * cell_size) by (nonlinear_arith)
        requires
            0 <= col,
            1 <= cell_size,
    ;
    assert(col * cell_size < width * cell_size) by (nonlinear_arith)
        requires
            col < width,
            1 <= cell_size,
    ;
    assert(cell_size <= (height - row) * cell_size) by (nonlinear_arith)
        requires
            1 <= height - row,
            1 <= cell_size,
    ;
    assert((height - row) * cell_size <= height * cell_size) by (nonlinear_arith)
        requires
            0 <= row,
            1 <= cell_size,
    ;
    assert(in_pixel_box(px, py, origin_x, origin_y, cell_size, width, height));
    assert(col * cell_size == col * cell_size + 0);
    lemma_fundamental_div_mod_converse(col * cell_size, cell_size, col, 0);
    assert((height - row) * cell_size - 1 == (height - row - 1) * cell_size + (cell_size - 1))
        by (nonlinear_arith);
    lemma_fundamental_div_mod_converse(
        (height - row) * cell_size - 1,
        cell_size,
        height - row - 1,
        cell_size - 1,
    );
}

} // verus!

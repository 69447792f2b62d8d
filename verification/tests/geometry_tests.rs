use mines_rs::geometry::pixel_to_cell;

// The shipped board geometry: 16-pixel tiles, a 30 by 16 grid whose
// bottom-left corner sits at pixel (8, 8) in a y-up pixel space.
const ORIGIN_X: i64 = 8;
const ORIGIN_Y: i64 = 8;
const CELL: i64 = 16;
const WIDTH: usize = 30;
const HEIGHT: usize = 16;

fn map(px: i64, py: i64) -> Option<(usize, usize)> {
    pixel_to_cell(px, py, ORIGIN_X, ORIGIN_Y, CELL, WIDTH, HEIGHT)
}

#[test]
fn outside_positions_map_to_none() {
    // left of, right of, below, above the grid box
    assert_eq!(map(ORIGIN_X - 1, ORIGIN_Y + 5), None);
    assert_eq!(map(ORIGIN_X + 30 * 16, ORIGIN_Y + 5), None);
    assert_eq!(map(ORIGIN_X + 5, ORIGIN_Y - 1), None);
    assert_eq!(map(ORIGIN_X + 5, ORIGIN_Y + 16 * 16), None);
    assert_eq!(map(i64::MIN / 4, i64::MAX / 4), None);
}

#[test]
fn boundary_pixels_map_to_corner_cells() {
    // bottom-left pixel of the box: bottom row, first column
    assert_eq!(map(ORIGIN_X, ORIGIN_Y), Some((HEIGHT - 1, 0)));
    // top-right pixel of the box: top row, last column
    assert_eq!(
        map(ORIGIN_X + 30 * 16 - 1, ORIGIN_Y + 16 * 16 - 1),
        Some((0, WIDTH - 1))
    );
}

#[test]
fn interior_position_maps_to_its_cell() {
    // 3 cells right of the origin, 2 cells up from the bottom, mid-cell
    let px = ORIGIN_X + 3 * CELL + 7;
    let py = ORIGIN_Y + 2 * CELL + 9;
    assert_eq!(map(px, py), Some((HEIGHT - 1 - 2, 3)));
}

#[test]
fn top_left_pixel_of_each_cell_round_trips() {
    for row in [0usize, 1, 7, HEIGHT - 1] {
        for col in [0usize, 1, 15, WIDTH - 1] {
            let px = ORIGIN_X + (col as i64) * CELL;
            let py = ORIGIN_Y + (HEIGHT as i64 - row as i64) * CELL - 1;
            assert_eq!(map(px, py), Some((row, col)), "cell ({row},{col})");
        }
    }
}

#[test]
fn negative_origin_is_handled() {
    assert_eq!(pixel_to_cell(-5, -9, -10, -10, 5, 4, 4), Some((4 - 1 - 0, 1)));
    assert_eq!(pixel_to_cell(-11, -9, -10, -10, 5, 4, 4), None);
}

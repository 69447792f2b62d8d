use mines_rs::cell::CellContent;
use mines_rs::minefield::Minefield;

// The fixed-seed scenario: an 8 by 8 board with 10 mines, seed 42, against a
// recorded expected grid. In the counts table a mine cell is written 255.
#[test]
fn fixed_seed_grid_matches_recorded_layout() {
    let g = Minefield::generate(8, 8, 10, 42).unwrap();
    let mut mines: Vec<(usize, usize)> = Vec::new();
    let mut counts: Vec<u8> = Vec::new();
    for row in 0..8 {
        for col in 0..8 {
            match g.content_at(row, col) {
                CellContent::Mine => {
                    mines.push((row, col));
                    counts.push(255);
                }
                CellContent::Empty { count } => counts.push(count),
            }
        }
    }
    let expected_mines: Vec<(usize, usize)> = vec![
        (0, 0),
        (0, 2),
        (1, 0),
        (1, 7),
        (3, 3),
        (4, 0),
        (4, 2),
        (5, 7),
        (6, 6),
        (7, 4),
    ];
    let expected_counts: Vec<u8> = vec![
        255, 3, 255, 1, 0, 0, 1, 1, //
        255, 3, 1, 1, 0, 0, 1, 255, //
        1, 1, 1, 1, 1, 0, 1, 1, //
        1, 2, 2, 255, 1, 0, 0, 0, //
        255, 2, 255, 2, 1, 0, 1, 1, //
        1, 2, 1, 1, 0, 1, 2, 255, //
        0, 0, 0, 1, 1, 2, 255, 2, //
        0, 0, 0, 1, 255, 2, 1, 1, //
    ];
    assert_eq!(mines, expected_mines);
    assert_eq!(counts, expected_counts);
}

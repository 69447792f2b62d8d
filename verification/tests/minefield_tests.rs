use mines_rs::cell::{CellContent, DisplayState};
use mines_rs::minefield::{Minefield, MinefieldError};

fn is_mine(g: &Minefield, row: usize, col: usize) -> bool {
    matches!(g.content_at(row, col), CellContent::Mine)
}

fn count_of(g: &Minefield, row: usize, col: usize) -> u8 {
    match g.content_at(row, col) {
        CellContent::Empty { count } => count,
        CellContent::Mine => panic!("expected a non-mine cell"),
    }
}

#[test]
fn generate_rejects_too_many_mines() {
    assert_eq!(
        Minefield::generate(2, 2, 4, 0).err(),
        Some(MinefieldError::InvalidConfiguration)
    );
    assert_eq!(
        Minefield::generate(2, 2, 5, 7).err(),
        Some(MinefieldError::InvalidConfiguration)
    );
    assert_eq!(
        Minefield::generate(0, 8, 0, 0).err(),
        Some(MinefieldError::InvalidConfiguration)
    );
    assert_eq!(
        Minefield::generate(8, 0, 0, 0).err(),
        Some(MinefieldError::InvalidConfiguration)
    );
}

#[test]
fn generate_accepts_full_but_one() {
    let g = Minefield::generate(3, 3, 8, 11).unwrap();
    let mut mines = 0;
    for row in 0..3 {
        for col in 0..3 {
            if is_mine(&g, row, col) {
                mines += 1;
            }
        }
    }
    assert_eq!(mines, 8);
}

#[test]
fn generated_mine_total_is_exact() {
    for seed in [0u64, 1, 2, 42, 1234567] {
        let g = Minefield::generate(8, 8, 10, seed).unwrap();
        let mut mines = 0;
        for row in 0..8 {
            for col in 0..8 {
                if is_mine(&g, row, col) {
                    mines += 1;
                }
            }
        }
        assert_eq!(mines, 10, "seed {seed}");
    }
}

#[test]
fn generated_counts_match_recount() {
    for seed in [3u64, 99, 2026] {
        let g = Minefield::generate(10, 6, 13, seed).unwrap();
        for row in 0..6 {
            for col in 0..10 {
                if is_mine(&g, row, col) {
                    continue;
                }
                let mut expected = 0u8;
                for dr in -1i64..=1 {
                    for dc in -1i64..=1 {
                        if dr == 0 && dc == 0 {
                            continue;
                        }
                        let r = row as i64 + dr;
                        let c = col as i64 + dc;
                        if r >= 0 && r < 6 && c >= 0 && c < 10 && is_mine(&g, r as usize, c as usize)
                        {
                            expected += 1;
                        }
                    }
                }
                assert_eq!(count_of(&g, row, col), expected, "seed {seed} at ({row},{col})");
            }
        }
    }
}

#[test]
fn generated_grid_starts_covered_and_unflagged() {
    let g = Minefield::generate(8, 8, 10, 5).unwrap();
    for row in 0..8 {
        for col in 0..8 {
            assert!(g.is_hidden(row, col));
            assert!(!g.is_flagged(row, col));
            assert_eq!(g.cell_display_state(row, col), DisplayState::Hidden);
        }
    }
}

#[test]
fn getters_report_configuration() {
    let g = Minefield::generate(10, 6, 13, 3).unwrap();
    assert_eq!(g.width(), 10);
    assert_eq!(g.height(), 6);
    assert_eq!(g.mine_count(), 13);
}

#[test]
fn zero_mines_grid_is_all_zero_counts() {
    let g = Minefield::generate(2, 2, 0, 9).unwrap();
    for row in 0..2 {
        for col in 0..2 {
            assert_eq!(g.content_at(row, col), CellContent::Empty { count: 0 });
        }
    }
}

#[test]
fn reveal_leaves_other_cells_hidden() {
    let mut g = Minefield::generate(2, 2, 0, 9).unwrap();
    g.reveal_cell(0, 0).unwrap();
    assert!(!g.is_hidden(0, 0));
    assert!(g.is_hidden(0, 1));
    assert!(g.is_hidden(1, 0));
    assert!(g.is_hidden(1, 1));
    assert_eq!(
        g.cell_display_state(0, 0),
        DisplayState::Content(CellContent::Empty { count: 0 })
    );
    assert_eq!(g.cell_display_state(0, 1), DisplayState::Hidden);
}

#[test]
fn reveal_is_idempotent() {
    let mut g = Minefield::generate(4, 3, 5, 21).unwrap();
    g.reveal_cell(2, 3).unwrap();
    let after_once: Vec<DisplayState> = snapshot(&g);
    let hidden_once = g.is_hidden(2, 3);
    g.reveal_cell(2, 3).unwrap();
    assert_eq!(hidden_once, false);
    assert_eq!(g.is_hidden(2, 3), false);
    assert_eq!(snapshot(&g), after_once);
}

#[test]
fn reveal_ignores_flag_and_mine_state() {
    let mut g = Minefield::generate(3, 3, 8, 11).unwrap();
    // one free cell among nine; reveal a flagged cell and a mine cell
    g.toggle_flag(1, 1).unwrap();
    g.reveal_cell(1, 1).unwrap();
    assert!(!g.is_hidden(1, 1));
    assert!(g.is_flagged(1, 1));
}

#[test]
fn reveal_out_of_bounds_is_rejected() {
    let mut g = Minefield::generate(2, 2, 1, 0).unwrap();
    assert_eq!(g.reveal_cell(2, 0).err(), Some(MinefieldError::IndexOutOfBounds));
    assert_eq!(g.reveal_cell(0, 2).err(), Some(MinefieldError::IndexOutOfBounds));
    for row in 0..2 {
        for col in 0..2 {
            assert!(g.is_hidden(row, col));
        }
    }
}

#[test]
fn toggle_flag_is_an_involution() {
    let mut g = Minefield::generate(4, 3, 5, 21).unwrap();
    let before: Vec<DisplayState> = snapshot(&g);
    assert!(!g.is_flagged(1, 2));
    g.toggle_flag(1, 2).unwrap();
    assert!(g.is_flagged(1, 2));
    g.toggle_flag(1, 2).unwrap();
    assert!(!g.is_flagged(1, 2));
    assert_eq!(snapshot(&g), before);
}

#[test]
fn toggle_flag_works_on_revealed_cells() {
    let mut g = Minefield::generate(2, 2, 0, 4).unwrap();
    g.reveal_cell(1, 1).unwrap();
    g.toggle_flag(1, 1).unwrap();
    assert!(g.is_flagged(1, 1));
    assert!(!g.is_hidden(1, 1));
}

#[test]
fn toggle_flag_out_of_bounds_is_rejected() {
    let mut g = Minefield::generate(2, 2, 1, 0).unwrap();
    assert_eq!(g.toggle_flag(5, 5).err(), Some(MinefieldError::IndexOutOfBounds));
    for row in 0..2 {
        for col in 0..2 {
            assert!(!g.is_flagged(row, col));
        }
    }
}

#[test]
fn flag_masks_hidden_in_display() {
    let mut g = Minefield::generate(2, 2, 1, 0).unwrap();
    g.toggle_flag(0, 0).unwrap();
    assert!(g.is_hidden(0, 0));
    assert!(g.is_flagged(0, 0));
    assert_eq!(g.cell_display_state(0, 0), DisplayState::Flag);
}

#[test]
fn display_priority_and_sprite_indices() {
    let mut g = Minefield::generate(2, 2, 0, 4).unwrap();
    assert_eq!(g.cell_display_state(0, 0).sprite_index(), 9);
    g.toggle_flag(0, 0).unwrap();
    assert_eq!(g.cell_display_state(0, 0).sprite_index(), 10);
    g.reveal_cell(0, 1).unwrap();
    assert_eq!(g.cell_display_state(0, 1).sprite_index(), 0);
    assert_eq!(DisplayState::Flag.sprite_index(), 10);
    assert_eq!(DisplayState::Hidden.sprite_index(), 9);
    assert_eq!(DisplayState::Content(CellContent::Mine).sprite_index(), 11);
    for count in 0u8..=8 {
        assert_eq!(
            DisplayState::Content(CellContent::Empty { count }).sprite_index(),
            count as usize
        );
    }
}

fn snapshot(g: &Minefield) -> Vec<DisplayState> {
    let mut out = Vec::new();
    for row in 0..g.height() {
        for col in 0..g.width() {
            out.push(g.cell_display_state(row, col));
        }
    }
    out
}

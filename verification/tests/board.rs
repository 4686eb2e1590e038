//! Tests of the hexagonal table, the bounds predicate, and the board model.

use hexsweeper::hexgrid::PointyHexGrid;
use hexsweeper::events::OnUndoTile;
use hexsweeper::model::{BoardError, GameBoard};
use hexsweeper::table::HexagonalTable;

fn cell(x: i32, y: i32) -> PointyHexGrid {
    PointyHexGrid { x, y }
}

#[test]
fn hex_number_of_cells_in_bounds() {
    // The hex-number law on concrete sizes: a board with n hexagons per
    // side accepts exactly 3n^2 - 3n + 1 cells.
    for n in 1usize..=4 {
        let board = GameBoard::new(n, &Vec::new()).unwrap();
        let bound = 2 * n as i32 - 1;
        let mut count = 0usize;
        for y in 0..bound {
            for x in 0..bound {
                if !board.is_out_of_bound(cell(x, y)) {
                    count += 1;
                }
            }
        }
        assert_eq!(count, 3 * n * n - 3 * n + 1);
    }
}

#[test]
fn table_stores_and_bounds() {
    let mut table: HexagonalTable<u32> = HexagonalTable::new(2, 0);
    assert_eq!(table.hexagons_per_side(), 2);
    assert_eq!(table.hexagons_bound(), 3);
    assert!(table.is_out_of_bound((0, 0)));
    assert!(!table.is_out_of_bound((1, 0)));
    assert!(!table.is_out_of_bound((1, 1)));
    assert!(table.is_out_of_bound((2, 2)));
    assert!(table.is_out_of_bound((-1, 1)));
    assert!(table.is_out_of_bound((3, 1)));

    assert!(table.set((1, 0), 7));
    assert!(!table.set((0, 0), 9));
    assert_eq!(table.get((1, 0)), Some(&7));
    assert_eq!(table.get((1, 1)), Some(&0));
    assert_eq!(table.get((0, 0)), None);
}

#[test]
fn table_get_mut_edits_in_place() {
    let mut table: HexagonalTable<u32> = HexagonalTable::new(2, 1);
    if let Some(v) = table.get_mut((1, 1)) {
        *v += 41;
    }
    assert_eq!(table.get((1, 1)), Some(&42));
    assert_eq!(table.get((1, 0)), Some(&1));
    assert!(table.get_mut((0, 0)).is_none());
}

#[test]
fn distinct_cells_never_alias() {
    // Two distinct valid cells write to distinct storage slots.
    let mut table: HexagonalTable<u32> = HexagonalTable::new(2, 0);
    let mut valid: Vec<(i32, i32)> = Vec::new();
    for y in 0..3 {
        for x in 0..3 {
            if !table.is_out_of_bound((x, y)) {
                valid.push((x, y));
            }
        }
    }
    for (i, &c) in valid.iter().enumerate() {
        table.set(c, i as u32);
    }
    for (i, &c) in valid.iter().enumerate() {
        assert_eq!(table.get(c), Some(&(i as u32)));
    }
}

#[test]
fn new_rejects_zero_size() {
    assert_eq!(GameBoard::new(0, &Vec::new()).unwrap_err(), BoardError::InvalidSize);
}

#[test]
fn new_places_mines_in_bounds_only() {
    let mines = vec![cell(2, 1), cell(9, 9)];
    let board = GameBoard::new(2, &mines).unwrap();
    assert_eq!(board.tiles_per_side(), 2);
    assert!(board.get(cell(2, 1)).unwrap().is_mine());
    assert!(!board.get(cell(1, 1)).unwrap().is_mine());
    assert_eq!(board.count_mines(), 1);
}

#[test]
fn get_is_none_exactly_out_of_bounds() {
    let board = GameBoard::new(2, &Vec::new()).unwrap();
    assert!(board.get(cell(0, 0)).is_none());
    assert!(board.get(cell(-1, 0)).is_none());
    assert!(board.get(cell(1, 3)).is_none());
    assert!(board.get(cell(1, 0)).is_some());
    let t = board.get(cell(1, 1)).unwrap();
    assert!(!t.is_open() && !t.is_flag() && !t.is_mine());
}

#[test]
fn load_reads_the_documented_format() {
    let text = b"2\n.OM\n...\nM..";
    let board = GameBoard::load(text).unwrap();
    assert_eq!(board.tiles_per_side(), 2);
    // (0, 0) is padding; its '.' is ignored and the slot stays blank.
    assert!(board.get(cell(0, 0)).is_none());
    assert!(board.get(cell(1, 0)).unwrap().is_open());
    assert!(board.get(cell(2, 0)).unwrap().is_mine());
    assert!(!board.get(cell(1, 1)).unwrap().is_open());
    assert!(board.get(cell(0, 2)).unwrap().is_mine());
    assert_eq!(board.count_mines(), 2);
    assert_eq!(board.count_open_tile(), 1);
    assert_eq!(board.count_flagged_mines(), 0);
    assert_eq!(board.count_remaining_mines(), 2);
}

#[test]
fn load_ignores_padding_letters() {
    // The corners outside the diamond may hold anything.
    let board = GameBoard::load(b"2\nX..\n...\n..X").unwrap();
    assert_eq!(board.count_mines(), 0);
}

#[test]
fn load_rejects_bad_descriptions() {
    assert_eq!(GameBoard::load(b"").unwrap_err(), BoardError::MalformedBoard);
    assert_eq!(GameBoard::load(b"abc").unwrap_err(), BoardError::MalformedBoard);
    assert_eq!(GameBoard::load(b"0").unwrap_err(), BoardError::InvalidSize);
    // a foreign letter on a playable cell
    assert_eq!(GameBoard::load(b"2\n...\n..X\n...").unwrap_err(), BoardError::MalformedBoard);
    // a missing row
    assert_eq!(GameBoard::load(b"2\n...\n...").unwrap_err(), BoardError::MalformedBoard);
    // a short row
    assert_eq!(GameBoard::load(b"2\n...\n..\n...").unwrap_err(), BoardError::MalformedBoard);
}

#[test]
fn adjacent_mines_sum_the_six_neighbors() {
    // Mines at (2, 0) and (0, 2); count around (1, 1), which neighbors both.
    let board = GameBoard::load(b"2\n..M\n...\nM..").unwrap();
    assert_eq!(board.count_adjacent_mines(cell(1, 1)), Some(2));
    assert_eq!(board.count_adjacent_mines(cell(1, 0)), Some(1));
    assert_eq!(board.count_adjacent_mines(cell(2, 2)), None);
    // Out-of-bounds neighbors contribute nothing.
    let single = GameBoard::new(1, &Vec::new()).unwrap();
    assert_eq!(single.count_adjacent_mines(cell(0, 0)), Some(0));
}

#[test]
fn open_and_flag_mutate_and_record() {
    let mut board = GameBoard::new(2, &vec![cell(2, 1)]).unwrap();
    assert!(board.try_open(cell(1, 1)).is_ok());
    assert!(board.get(cell(1, 1)).unwrap().is_open());
    // opening again, or opening out of bounds, is a no-op
    assert!(board.try_open(cell(1, 1)).is_err());
    assert!(board.try_open(cell(0, 0)).is_err());
    // a flagged tile cannot be opened, an open tile cannot be flagged
    assert!(board.try_flag(cell(1, 1)).is_err());
    assert!(board.try_flag(cell(2, 1)).is_ok());
    assert!(board.try_open(cell(2, 1)).is_err());
    assert_eq!(board.count_flagged_mines(), 1);
    assert_eq!(board.count_remaining_mines(), 0);
    assert_eq!(board.count_open_tile(), 1);
}

#[test]
fn undo_reverses_the_latest_move() {
    let mut board = GameBoard::new(2, &Vec::new()).unwrap();
    assert!(board.undo().is_none());
    board.try_open(cell(1, 0)).unwrap();
    board.try_flag(cell(1, 1)).unwrap();
    match board.undo() {
        Some(OnUndoTile::UnFlag { target }) => assert_eq!(target, cell(1, 1)),
        other => panic!("unexpected reversal: {:?}", other),
    }
    assert!(!board.get(cell(1, 1)).unwrap().is_flag());
    match board.undo() {
        Some(OnUndoTile::UnOpen { target }) => assert_eq!(target, cell(1, 0)),
        other => panic!("unexpected reversal: {:?}", other),
    }
    assert!(!board.get(cell(1, 0)).unwrap().is_open());
    assert!(board.undo().is_none());
}

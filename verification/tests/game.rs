//! Scenario tests of the move/outcome state machine, and round-trip tests
//! of nearest-cell snapping driven by floating-point coordinates.

use hexsweeper::events::{OnGameOver, OnMoveTile, OnUndoTile};
use hexsweeper::hexgrid::{snap_rounded_axial, PointyHexGrid};
use hexsweeper::model::GameBoard;
use hexsweeper::rule::{Rule, StageRule};
use hexsweeper::session::{GameEvent, GameScene, GameSession};

fn cell(x: i32, y: i32) -> PointyHexGrid {
    PointyHexGrid { x, y }
}

/// The floating-point half of cursor snapping: cell to Cartesian center,
/// Cartesian to axial, rounding and error comparison; the exact integer
/// repair is the library's.
fn nearest_cell_from_cartesian(px: f32, py: f32) -> PointyHexGrid {
    let q = (3.0_f32.sqrt() * px - py) / 3.0;
    let r = 2.0 / 3.0 * py;
    let s = -q - r;
    let (q_round, r_round, s_round) = (q.round(), r.round(), s.round());
    let (q_diff, r_diff, s_diff) =
        ((q_round - q).abs(), (r_round - r).abs(), (s_round - s).abs());
    snap_rounded_axial(
        q_round as i32,
        r_round as i32,
        s_round as i32,
        q_diff > r_diff,
        q_diff > s_diff,
        r_diff > s_diff,
    )
}

fn cell_to_cartesian(c: PointyHexGrid) -> (f32, f32) {
    (3.0_f32.sqrt() * 0.5 * (2 * c.x + c.y) as f32, 1.5 * c.y as f32)
}

#[test]
fn snapping_a_cell_center_returns_the_cell() {
    // Round trip: the Cartesian center of every valid cell of a
    // three-per-side board snaps back to exactly that cell.
    for y in -5i32..=5 {
        for x in -5i32..=5 {
            let c = cell(x, y);
            let (px, py) = cell_to_cartesian(c);
            assert_eq!(nearest_cell_from_cartesian(px, py), c);
        }
    }
}

#[test]
fn snapping_is_idempotent_near_centers() {
    // A point close to a center snaps to that center, and re-snapping the
    // snapped cell's own center changes nothing further.
    for y in -3i32..=3 {
        for x in -3i32..=3 {
            let c = cell(x, y);
            let (px, py) = cell_to_cartesian(c);
            let first = nearest_cell_from_cartesian(px + 0.05, py - 0.05);
            assert_eq!(first, c);
            let (cx, cy) = cell_to_cartesian(first);
            assert_eq!(nearest_cell_from_cartesian(cx, cy), first);
        }
    }
}

#[test]
fn opening_the_single_safe_cell_keeps_the_round_going() {
    // A one-per-side board has the single valid cell (0, 0) and no mines.
    let board = GameBoard::new(1, &Vec::new()).unwrap();
    let mut game = GameSession::new(board);
    let evs = game.try_open(cell(0, 0));
    assert_eq!(evs, vec![GameEvent::Moved(OnMoveTile::Open { target: cell(0, 0) })]);
    assert_eq!(game.board().count_adjacent_mines(cell(0, 0)), Some(0));
    // Clearing is only checked when a flag is placed; merely opening, even
    // with zero mines remaining, does not clear the round.
    assert_eq!(game.scene(), GameScene::InGame);
}

#[test]
fn opening_twice_is_idempotent() {
    let board = GameBoard::load(b"2\n...\n..M\n...").unwrap();
    let mut game = GameSession::new(board);
    let evs = game.try_open(cell(1, 1));
    assert_eq!(evs.len(), 1);
    let history = game.board().move_stack.len();
    // The second open is silently absorbed: no event, no history growth.
    let evs = game.try_open(cell(1, 1));
    assert_eq!(evs, Vec::new());
    assert_eq!(game.board().move_stack.len(), history);
    assert_eq!(game.scene(), GameScene::InGame);
}

#[test]
fn undo_restores_an_opened_tile() {
    let board = GameBoard::load(b"2\n...\n..M\n...").unwrap();
    let mut game = GameSession::new(board);
    game.try_open(cell(1, 1));
    let history = game.board().move_stack.len();
    let evs = game.try_undo();
    assert_eq!(evs, vec![GameEvent::Undone(OnUndoTile::UnOpen { target: cell(1, 1) })]);
    assert!(!game.board().get(cell(1, 1)).unwrap().is_open());
    assert_eq!(game.board().move_stack.len(), history - 1);
}

#[test]
fn opening_a_mine_loses_and_blocks_undo() {
    // A two-per-side board loaded from text, with its mine at (2, 1).
    let board = GameBoard::load(b"2\n...\n..M\n...").unwrap();
    let mut game = GameSession::new(board);
    let evs = game.try_open(cell(2, 1));
    assert_eq!(
        evs,
        vec![
            GameEvent::Moved(OnMoveTile::Open { target: cell(2, 1) }),
            GameEvent::Over(OnGameOver::Open { target: cell(2, 1) }),
        ]
    );
    assert_eq!(game.scene(), GameScene::Over);
    // Once the round is over, undo is rejected: no event, nothing changes.
    let evs = game.try_undo();
    assert_eq!(evs, Vec::new());
    assert!(game.board().get(cell(2, 1)).unwrap().is_open());
    assert_eq!(game.scene(), GameScene::Over);
}

#[test]
fn flagging_the_last_mine_clears_the_round() {
    // One mine; flagging it brings the remaining count to zero.
    let board = GameBoard::load(b"2\n...\n..M\n...").unwrap();
    let mut game = GameSession::new(board);
    let evs = game.try_flag(cell(2, 1));
    assert_eq!(
        evs,
        vec![GameEvent::Moved(OnMoveTile::Flag { target: cell(2, 1) }), GameEvent::Clear]
    );
    assert_eq!(game.board().count_remaining_mines(), 0);
    assert_eq!(game.scene(), GameScene::Clear);
}

#[test]
fn flagging_a_safe_tile_loses_immediately() {
    let board = GameBoard::load(b"2\n...\n..M\n...").unwrap();
    let mut game = GameSession::new(board);
    let evs = game.try_flag(cell(1, 1));
    assert_eq!(
        evs,
        vec![
            GameEvent::Moved(OnMoveTile::Flag { target: cell(1, 1) }),
            GameEvent::Over(OnGameOver::Flag { target: cell(1, 1) }),
        ]
    );
    assert_eq!(game.scene(), GameScene::Over);
}

#[test]
fn out_of_bounds_intents_are_silently_absorbed() {
    let board = GameBoard::new(2, &Vec::new()).unwrap();
    let mut game = GameSession::new(board);
    assert_eq!(game.try_open(cell(0, 0)), Vec::new());
    assert_eq!(game.try_flag(cell(9, 9)), Vec::new());
    assert_eq!(game.scene(), GameScene::InGame);
    assert_eq!(game.board().move_stack.len(), 0);
}

#[test]
fn retry_starts_a_fresh_round_only_after_the_end() {
    let board = GameBoard::load(b"2\n...\n..M\n...").unwrap();
    let mut game = GameSession::new(board);
    // while in progress, retry is rejected
    let fresh = GameBoard::new(2, &Vec::new()).unwrap();
    assert!(!game.retry(fresh));
    game.try_open(cell(2, 1));
    assert_eq!(game.scene(), GameScene::Over);
    let fresh = GameBoard::load(b"2\n...\n..M\n...").unwrap();
    assert!(game.retry(fresh));
    assert_eq!(game.scene(), GameScene::InGame);
    assert_eq!(game.board().move_stack.len(), 0);
    assert!(!game.board().get(cell(2, 1)).unwrap().is_open());
}

#[test]
fn stage_rules_have_a_vanilla_default() {
    let stage = StageRule::default();
    assert_eq!(stage.rule, Rule::Vanilla);
    assert_eq!(stage.hex_per_side, 0);
    let stage = StageRule { hex_per_side: 3, rule: Rule::Chunk };
    assert_eq!(stage.hex_per_side, 3);
}

#[test]
fn default_cell_and_tile_are_blank() {
    let c = PointyHexGrid::default();
    assert_eq!(c, cell(0, 0));
    let t = hexsweeper::model::TileState::default();
    assert!(!t.is_open() && !t.is_flag() && !t.is_mine());
}

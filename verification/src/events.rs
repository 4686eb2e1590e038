//! Player intents and derived events.
//!
//! Intents flow from a controller into the state machine; derived events
//! flow out toward view and audio collaborators. `OnMoveTile` doubles as the
//! entry type of the board's move history, so that undo can reverse exactly
//! the move that was applied.

use vstd::prelude::*;
use crate::hexgrid::PointyHexGrid;

verus! {

/// Intent: try to open the tile at `target`.
#[derive(Debug, Clone, Copy, PartialEq, Eq, Structural)]
pub struct OnTryOpenTile {
    pub target: PointyHexGrid,
}

/// Intent: try to flag the tile at `target`.
#[derive(Debug, Clone, Copy, PartialEq, Eq, Structural)]
pub struct OnTryFlagTile {
    pub target: PointyHexGrid,
}

/// Intent: undo the most recent move of the round.
#[derive(Debug, Clone, Copy, PartialEq, Eq, Structural)]
pub struct OnTryUndo;

/// Intent: start a new round once the current one is over.
#[derive(Debug, Clone, Copy, PartialEq, Eq, Structural)]
pub struct OnRetry;

/// A move that was applied to the board; also a move-history entry.
#[derive(Debug, Clone, Copy, PartialEq, Eq, Structural)]
pub enum OnMoveTile {
    Open { target: PointyHexGrid },
    Flag { target: PointyHexGrid },
}

/// The exact reversal of an undone move.
#[derive(Debug, Clone, Copy, PartialEq, Eq, Structural)]
pub enum OnUndoTile {
    UnOpen { target: PointyHexGrid },
    UnFlag { target: PointyHexGrid },
}

/// The round was lost: a mine was opened, or a safe tile was flagged.
#[derive(Debug, Clone, Copy, PartialEq, Eq, Structural)]
pub enum OnGameOver {
    Open { target: PointyHexGrid },
    Flag { target: PointyHexGrid },
}

/// The round was cleared: every mine is flagged and no safe tile is.
#[derive(Debug, Clone, Copy, PartialEq, Eq, Structural)]
pub struct OnGameClear;

} // verus!

//! Core engine for a hexagonal-grid minesweeper: axial coordinate math,
//! bounded hexagonal addressing, the board model with its move history,
//! and the move/outcome state machine that applies player intents.

pub mod addressing;
pub mod events;
pub mod hexgrid;
pub mod model;
pub mod reader;
pub mod rule;
pub mod session;
pub mod table;

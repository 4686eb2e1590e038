//! The move/outcome state machine: the sole writer of the board. It applies
//! player intents (try-open, try-flag, try-undo, retry), derives the round's
//! outcome, and returns the derived events of each intent in order, for
//! view and audio collaborators to react to.

use vstd::prelude::*;
use crate::addressing::{cell_in_bounds, lemma_cell_index_bounds};
use crate::events::{OnGameOver, OnMoveTile, OnUndoTile};
use crate::hexgrid::PointyHexGrid;
use crate::model::{GameBoard, TileState};

verus! {

/// Phase of the current round.
#[derive(Debug, Clone, Copy, PartialEq, Eq, Structural)]
pub enum GameScene {
    /// The round was lost.
    Over,
    /// The round was cleared.
    Clear,
    /// The round is in progress.
    InGame,
}

/// A derived event, emitted toward view and audio collaborators.
#[derive(Debug, Clone, Copy, PartialEq, Eq, Structural)]
pub enum GameEvent {
    /// A move was applied to the board.
    Moved(OnMoveTile),
    /// A move was reversed.
    Undone(OnUndoTile),
    /// The round was lost: a mine opened, or a safe tile flagged.
    Over(OnGameOver),
    /// The round was cleared: every mine flagged, no safe tile flagged.
    Clear,
}

/// The state machine: the exclusive owner of the game board and the phase
/// of the current round.
pub struct GameSession {
    pub board: GameBoard,
    pub scene: GameScene,
}

impl GameSession {
    /// Internal consistency: the owned board is well formed.
    pub open spec fn wf(self) -> bool {
        self.board.wf()
    }

    /// Transition relation of a try-open intent. From any phase but
    /// in-progress, and on a cell where no move applies, nothing happens
    /// and nothing is emitted. Otherwise the tile is opened and the move
    /// emitted; when the opened tile is a mine, the round is lost and the
    /// loss emitted after the move.
    pub open spec fn open_step(
        pre: GameSession,
        post: GameSession,
        c: PointyHexGrid,
        evs: Seq<GameEvent>,
    ) -> bool {
        if pre.scene != GameScene::InGame || !pre.board.move_applies(c) {
            post == pre && evs == Seq::<GameEvent>::empty()
        } else {
            &&& post.board.opened_from(pre.board, c)
            &&& (if pre.board.tile(c).is_mine {
                &&& post.scene == GameScene::Over
                &&& evs == seq![
                    GameEvent::Moved(OnMoveTile::Open { target: c }),
                    GameEvent::Over(OnGameOver::Open { target: c }),
                ]
            } else {
                &&& post.scene == GameScene::InGame
                &&& evs == seq![GameEvent::Moved(OnMoveTile::Open { target: c })]
            })
        }
    }

    /// Transition relation of a try-flag intent. From any phase but
    /// in-progress, and on a cell where no move applies, nothing happens.
    /// Otherwise the tile is flagged and the move emitted; flagging a safe
    /// tile loses the round; and when no unflagged mine remains afterwards,
    /// the round is cleared, which is checked last.
    pub open spec fn flag_step(
        pre: GameSession,
        post: GameSession,
        c: PointyHexGrid,
        evs: Seq<GameEvent>,
    ) -> bool {
        if pre.scene != GameScene::InGame || !pre.board.move_applies(c) {
            post == pre && evs == Seq::<GameEvent>::empty()
        } else {
            let mine = pre.board.tile(c).is_mine;
            let cleared = post.board.spec_count_remaining_mines() == 0;
            &&& post.board.flagged_from(pre.board, c)
            &&& post.scene == (if cleared {
                GameScene::Clear
            } else if !mine {
                GameScene::Over
            } else {
                GameScene::InGame
            })
            &&& evs == seq![GameEvent::Moved(OnMoveTile::Flag { target: c })] + (if !mine {
                seq![GameEvent::Over(OnGameOver::Flag { target: c })]
            } else {
                Seq::<GameEvent>::empty()
            }) + (if cleared {
                seq![GameEvent::Clear]
            } else {
                Seq::<GameEvent>::empty()
            })
        }
    }

    /// Transition relation of a try-undo intent: permitted only while the
    /// round is in progress and the history is nonempty; the most recent
    /// move is then reversed and its reversal emitted.
    pub open spec fn undo_step(pre: GameSession, post: GameSession, evs: Seq<GameEvent>) -> bool {
        if pre.scene != GameScene::InGame || pre.board.move_stack@.len() == 0 {
            post == pre && evs == Seq::<GameEvent>::empty()
        } else {
            &&& post.board.undone_from(pre.board)
            &&& post.scene == GameScene::InGame
            &&& evs == seq![
                GameEvent::Undone(GameBoard::reversal_of(pre.board.move_stack@.last())),
            ]
        }
    }

    /// Transition relation of a retry intent: only once the round is over
    /// (lost or cleared), the board is replaced by the fresh one, the
    /// history discarded, and a new round begins.
    pub open spec fn retry_step(
        pre: GameSession,
        post: GameSession,
        fresh: GameBoard,
        applied: bool,
    ) -> bool {
        if pre.scene == GameScene::InGame {
            post == pre && !applied
        } else {
            &&& applied
            &&& post.scene == GameScene::InGame
            &&& post.board.tiles_per_side == fresh.tiles_per_side
            &&& post.board.board@ == fresh.board@
            &&& post.board.move_stack@ == Seq::<OnMoveTile>::empty()
        }
    }

    /// Start a session on `board`, in progress.
    pub fn new(board: GameBoard) -> (s: GameSession)
        requires
            board.wf(),
        ensures
            s.wf(),
            s.board == board,
            s.scene == GameScene::InGame,
    {
        GameSession { board, scene: GameScene::InGame }
    }

    /// Read-only view of the owned board, for queries.
    pub fn board(&self) -> (b: &GameBoard)
        ensures
            *b == self.board,
    {
        &self.board
    }

    /// The phase of the current round.
    pub fn scene(&self) -> (s: GameScene)
        ensures
            s == self.scene,
    {
        self.scene
    }

    /// Apply a try-open intent; the returned events are exactly those the
    /// transition derives, in order.
    pub fn try_open(&mut self, target: PointyHexGrid) -> (evs: Vec<GameEvent>)
        requires
            old(self).wf(),
        ensures
            final(self).wf(),
            GameSession::open_step(*old(self), *final(self), target, evs@),
    {
        let mut evs: Vec<GameEvent> = Vec::new();
        match self.scene {
            GameScene::InGame => {},
            _ => {
                return evs;
            },
        }
        let mine = match self.board.get(target) {
            Some(t) => t.is_mine(),
            None => false,
        };
        match self.board.try_open(target) {
            Ok(_) => {
                evs.push(GameEvent::Moved(OnMoveTile::Open { target }));
                if mine {
                    self.scene = GameScene::Over;
                    evs.push(GameEvent::Over(OnGameOver::Open { target }));
                    proof {
                        assert(evs@ =~= seq![
                            GameEvent::Moved(OnMoveTile::Open { target }),
                            GameEvent::Over(OnGameOver::Open { target }),
                        ]);
                    }
                } else {
                    proof {
                        assert(evs@ =~= seq![GameEvent::Moved(OnMoveTile::Open { target })]);
                    }
                }
                evs
            },
            Err(_) => evs,
        }
    }

    /// Apply a try-flag intent; the returned events are exactly those the
    /// transition derives, in order.
    pub fn try_flag(&mut self, target: PointyHexGrid) -> (evs: Vec<GameEvent>)
        requires
            old(self).wf(),
        ensures
            final(self).wf(),
            GameSession::flag_step(*old(self), *final(self), target, evs@),
    {
        let mut evs: Vec<GameEvent> = Vec::new();
        match self.scene {
            GameScene::InGame => {},
            _ => {
                return evs;
            },
        }
        let mine = match self.board.get(target) {
            Some(t) => t.is_mine(),
            None => false,
        };
        match self.board.try_flag(target) {
            Ok(_) => {
                evs.push(GameEvent::Moved(OnMoveTile::Flag { target }));
                if !mine {
                    self.scene = GameScene::Over;
                    evs.push(GameEvent::Over(OnGameOver::Flag { target }));
                }
                if self.board.count_remaining_mines() == 0 {
                    self.scene = GameScene::Clear;
                    evs.push(GameEvent::Clear);
                }
                proof {
                    let head = seq![GameEvent::Moved(OnMoveTile::Flag { target })];
                    let lost = if !mine {
                        seq![GameEvent::Over(OnGameOver::Flag { target })]
                    } else {
                        Seq::<GameEvent>::empty()
                    };
                    let done = if self.board.spec_count_remaining_mines() == 0 {
                        seq![GameEvent::Clear]
                    } else {
                        Seq::<GameEvent>::empty()
                    };
                    assert(evs@ =~= head + lost + done);
                }
                evs
            },
            Err(_) => evs,
        }
    }

    /// Apply a try-undo intent; the returned events are exactly those the
    /// transition derives.
    pub fn try_undo(&mut self) -> (evs: Vec<GameEvent>)
        requires
            old(self).wf(),
        ensures
            final(self).wf(),
            GameSession::undo_step(*old(self), *final(self), evs@),
    {
        let mut evs: Vec<GameEvent> = Vec::new();
        match self.scene {
            GameScene::InGame => {},
            _ => {
                return evs;
            },
        }
        match self.board.undo() {
            Some(reversed) => {
                evs.push(GameEvent::Undone(reversed));
                proof {
                    assert(evs@ =~= seq![
                        GameEvent::Undone(
                            GameBoard::reversal_of(old(self).board.move_stack@.last()),
                        ),
                    ]);
                }
                evs
            },
            None => evs,
        }
    }

    /// Apply a retry intent with a freshly built or reloaded board; returns
    /// whether the retry applied.
    pub fn retry(&mut self, fresh: GameBoard) -> (applied: bool)
        requires
            old(self).wf(),
            fresh.wf(),
        ensures
            final(self).wf(),
            GameSession::retry_step(*old(self), *final(self), fresh, applied),
    {
        match self.scene {
            GameScene::InGame => false,
            _ => {
                self.board = fresh;
                self.board.move_stack = Vec::new();
                self.scene = GameScene::InGame;
                proof {
                    let n = self.board.side();
                    assert forall|x: int, y: int|
                        0 <= x < self.board.bound() && 0 <= y < self.board.bound()
                            && !cell_in_bounds(n, x, y) implies #[trigger] self.board.tile_at(x, y)
                        == TileState::blank() by {
                        assert(self.board.tile_at(x, y) == fresh.tile_at(x, y));
                    }
                    assert forall|x: int, y: int| cell_in_bounds(n, x, y) implies !(
                    #[trigger] self.board.tile_at(x, y).is_open && self.board.tile_at(
                        x,
                        y,
                    ).is_flag) by {
                        assert(self.board.tile_at(x, y) == fresh.tile_at(x, y));
                    }
                }
                true
            },
        }
    }
}

/// Opening a cell twice in a row is idempotent: after a successful open of
/// `c`, a second try-open of `c` changes nothing, emits no event — in
/// particular no duplicate move event — and leaves the move history as it
/// was.
pub proof fn lemma_open_twice_is_noop(
    s0: GameSession,
    s1: GameSession,
    s2: GameSession,
    c: PointyHexGrid,
    evs1: Seq<GameEvent>,
    evs2: Seq<GameEvent>,
)
    requires
        s0.wf(),
        s0.scene == GameScene::InGame,
        s0.board.move_applies(c),
        GameSession::open_step(s0, s1, c, evs1),
        GameSession::open_step(s1, s2, c, evs2),
    ensures
        s2 == s1,
        evs2 == Seq::<GameEvent>::empty(),
        s2.board.move_stack@ == s1.board.move_stack@,
{
    lemma_cell_index_bounds(s0.board.side(), c.x as int, c.y as int);
    assert(s1.board.tile(c).is_open);
    assert(!s1.board.move_applies(c));
}

/// Undo exactly reverses an open: after successfully opening the safe cell
/// `c`, a try-undo closes `c` again, shrinks the history by exactly the one
/// entry, and returns board and history to their previous value.
pub proof fn lemma_undo_reverses_open(
    s0: GameSession,
    s1: GameSession,
    s2: GameSession,
    c: PointyHexGrid,
    evs1: Seq<GameEvent>,
    evs2: Seq<GameEvent>,
)
    requires
        s0.wf(),
        s0.scene == GameScene::InGame,
        s0.board.move_applies(c),
        !s0.board.tile(c).is_mine,
        GameSession::open_step(s0, s1, c, evs1),
        GameSession::undo_step(s1, s2, evs2),
    ensures
        !s2.board.tile(c).is_open,
        s2.board.move_stack@.len() == s1.board.move_stack@.len() - 1,
        s2.board.board@ == s0.board.board@,
        s2.board.move_stack@ == s0.board.move_stack@,
        s2.board.tiles_per_side == s0.board.tiles_per_side,
        s2.scene == GameScene::InGame,
        evs2 == seq![GameEvent::Undone(OnUndoTile::UnOpen { target: c })],
{
    let n = s0.board.side();
    lemma_cell_index_bounds(n, c.x as int, c.y as int);
    let t0 = s0.board.tile(c);
    let t1 = TileState { is_open: true, ..t0 };
    assert(s1.board.move_stack@.last() == OnMoveTile::Open { target: c });
    assert(s1.board.tile(c) == t1);
    assert(TileState { is_open: false, ..t1 } == t0);
    assert(s2.board.board@ =~= s0.board.board@);
    assert(s2.board.move_stack@ =~= s0.board.move_stack@);
}

} // verus!

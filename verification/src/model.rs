//! The board model: per-tile state, aggregate queries, and the move history
//! that enables single-step undo.

use vstd::prelude::*;
use crate::addressing;
use crate::addressing::{
    cell_in_bounds, cell_index, lemma_cell_index_bounds, lemma_cell_index_injective,
};
use crate::events::{OnMoveTile, OnUndoTile};
use crate::hexgrid::PointyHexGrid;
use crate::reader;

verus! {

/// State of one tile of the board.
#[derive(Debug, Clone, Copy, PartialEq, Eq, Structural)]
pub struct TileState {
    pub is_open: bool,
    pub is_flag: bool,
    pub is_mine: bool,
}

impl TileState {
    /// A freshly created tile: unrevealed, unflagged, not a mine.
    pub open spec fn blank() -> TileState {
        TileState { is_open: false, is_flag: false, is_mine: false }
    }

    /// Whether the tile has been opened.
    pub fn is_open(&self) -> (r: bool)
        ensures
            r == self.is_open,
    {
        self.is_open
    }

    /// Whether the tile carries a flag.
    pub fn is_flag(&self) -> (r: bool)
        ensures
            r == self.is_flag,
    {
        self.is_flag
    }

    /// Whether the tile hides a mine.
    pub fn is_mine(&self) -> (r: bool)
        ensures
            r == self.is_mine,
    {
        self.is_mine
    }
}

impl Default for TileState {
    /// A freshly created tile.
    fn default() -> (t: Self)
        ensures
            t == TileState::blank(),
    {
        TileState { is_open: false, is_flag: false, is_mine: false }
    }
}

/// Errors of board construction and loading.
#[derive(Debug, Clone, Copy, PartialEq, Eq, Structural)]
pub enum BoardError {
    /// The requested side count is zero, or too large for the machine.
    InvalidSize,
    /// The textual board description does not follow the load format.
    MalformedBoard,
}

/// Witness of a move that was applied.
#[derive(Debug, Clone, Copy, PartialEq, Eq, Structural)]
pub struct Opened;

/// Witness of a flag that was placed.
#[derive(Debug, Clone, Copy, PartialEq, Eq, Structural)]
pub struct Flagged;

/// A move attempt that could not apply; silently absorbed, not an error.
#[derive(Debug, Clone, Copy, PartialEq, Eq, Structural)]
pub struct NoOp;

/// Appending one element extends the prefixes a sequence membership test
/// can see by exactly that element.
proof fn lemma_seq_take_succ_contains<A>(s: Seq<A>, k: int, e: A)
    requires
        0 <= k < s.len(),
    ensures
        s.take(k + 1).contains(e) <==> (s.take(k).contains(e) || s[k] == e),
{
    if s.take(k).contains(e) {
        let i = choose|i: int| 0 <= i < s.take(k).len() && #[trigger] s.take(k)[i] == e;
        assert(s.take(k + 1)[i] == e);
    }
    if s[k] == e {
        assert(s.take(k + 1)[k] == e);
    }
    if s.take(k + 1).contains(e) {
        let i = choose|i: int| 0 <= i < s.take(k + 1).len() && #[trigger] s.take(k + 1)[i] == e;
        if i < k {
            assert(s.take(k)[i] == e);
        }
    }
}

/// Number of tiles satisfying `p` in a tile sequence.
pub open spec fn count_tiles(s: Seq<TileState>, p: spec_fn(TileState) -> bool) -> int
    decreases s.len(),
{
    if s.len() == 0 {
        0
    } else {
        count_tiles(s.drop_last(), p) + if p(s.last()) {
            1int
        } else {
            0int
        }
    }
}

proof fn lemma_count_tiles_le_len(s: Seq<TileState>, p: spec_fn(TileState) -> bool)
    ensures
        0 <= count_tiles(s, p) <= s.len(),
    decreases s.len(),
{
    if s.len() > 0 {
        lemma_count_tiles_le_len(s.drop_last(), p);
    }
}

proof fn lemma_count_tiles_take_succ(s: Seq<TileState>, p: spec_fn(TileState) -> bool, i: int)
    requires
        0 <= i < s.len(),
    ensures
        count_tiles(s.take(i + 1), p) == count_tiles(s.take(i), p) + if p(s[i]) {
            1int
        } else {
            0int
        },
{
    assert(s.take(i + 1).drop_last() =~= s.take(i));
    assert(s.take(i + 1).last() == s[i]);
}

/// Pointwise implication between tile predicates carries over to the counts.
proof fn lemma_count_tiles_subset(
    s: Seq<TileState>,
    p: spec_fn(TileState) -> bool,
    q: spec_fn(TileState) -> bool,
)
    requires
        forall|t: TileState| #[trigger] p(t) ==> q(t),
    ensures
        count_tiles(s, p) <= count_tiles(s, q),
    decreases s.len(),
{
    if s.len() > 0 {
        lemma_count_tiles_subset(s.drop_last(), p, q);
    }
}

/// Whether a byte is one of the load format's three tile letters.
pub open spec fn valid_tile_byte(b: u8) -> bool {
    b == 46 || b == 79 || b == 77
}

/// The tile a load-format letter denotes: `.` an unrevealed safe tile,
/// `O` an opened safe tile, `M` an unrevealed mine.
pub open spec fn tile_of_byte(b: u8) -> TileState {
    if b == 46 {
        TileState { is_open: false, is_flag: false, is_mine: false }
    } else if b == 79 {
        TileState { is_open: true, is_flag: false, is_mine: false }
    } else {
        TileState { is_open: false, is_flag: false, is_mine: true }
    }
}

/// The side count a board description announces in its first token.
pub open spec fn load_side(s: Seq<u8>) -> Option<int> {
    if reader::spec_tokens(s).len() == 0 {
        None
    } else {
        reader::spec_parse_usize(reader::spec_tokens(s)[0])
    }
}

/// The description carries a token for each of the `2n - 1` grid rows.
pub open spec fn load_rows_present(s: Seq<u8>, n: int) -> bool {
    reader::spec_tokens(s).len() >= 1 + addressing::hex_bound(n)
}

/// Every row token is exactly `2n - 1` characters wide.
pub open spec fn load_rows_sized(s: Seq<u8>, n: int) -> bool {
    forall|y: int|
        0 <= y < addressing::hex_bound(n) ==> (#[trigger] reader::spec_tokens(s)[1
            + y]).len() == addressing::hex_bound(n)
}

/// Every character standing on a playable cell is a tile letter; what
/// stands on padding cells is ignored.
pub open spec fn load_cells_valid(s: Seq<u8>, n: int) -> bool {
    forall|x: int, y: int|
        cell_in_bounds(n, x, y) ==> valid_tile_byte(
            #[trigger] reader::spec_tokens(s)[1 + y][x],
        )
}

/// The description announces a zero side count, or one too large for the
/// machine.
pub open spec fn load_invalid_size(s: Seq<u8>) -> bool {
    match load_side(s) {
        Some(n) => n == 0 || oversize(n),
        None => false,
    }
}

/// The description's side count is usable but its grid is not: rows are
/// missing or missized, or a playable cell holds a foreign character. A
/// missing or unreadable side count is malformed too.
pub open spec fn load_malformed(s: Seq<u8>) -> bool {
    match load_side(s) {
        Some(n) => 1 <= n && !oversize(n) && !(load_rows_present(s, n) && load_rows_sized(s, n)
            && load_cells_valid(s, n)),
        None => true,
    }
}

/// The description loads: a usable side count and a complete, well-lettered
/// grid.
pub open spec fn load_ok(s: Seq<u8>) -> bool {
    match load_side(s) {
        Some(n) => 1 <= n && !oversize(n) && load_rows_present(s, n) && load_rows_sized(s, n)
            && load_cells_valid(s, n),
        None => false,
    }
}

/// The tile a loaded board holds at slot `(x, y)`: the denoted tile on
/// playable cells, a blank tile on padding.
pub open spec fn load_tile(s: Seq<u8>, n: int, x: int, y: int) -> TileState {
    if cell_in_bounds(n, x, y) {
        tile_of_byte(reader::spec_tokens(s)[1 + y][x])
    } else {
        TileState::blank()
    }
}

/// Whether a board with `n` hexagons per side is too large for the machine:
/// its storage width must fit the cell coordinates and its storage area must
/// be addressable.
pub open spec fn oversize(n: int) -> bool {
    ||| addressing::hex_bound(n) > i32::MAX as int
    ||| addressing::hex_bound(n) * addressing::hex_bound(n) > usize::MAX as int
}

/// The authoritative game state: the side count, the flat tile storage, and
/// the history of applied moves.
#[derive(Debug)]
pub struct GameBoard {
    pub tiles_per_side: usize,
    pub board: Vec<TileState>,
    pub move_stack: Vec<OnMoveTile>,
}

impl GameBoard {
    /// The side count, as a mathematical integer.
    pub open spec fn side(self) -> int {
        self.tiles_per_side as int
    }

    /// Width of the square storage grid.
    pub open spec fn bound(self) -> int {
        addressing::hex_bound(self.side())
    }

    /// Whether `c` is a playable cell of this board.
    pub open spec fn in_bounds(self, c: PointyHexGrid) -> bool {
        cell_in_bounds(self.side(), c.x as int, c.y as int)
    }

    /// The tile stored at slot `(x, y)`.
    pub open spec fn tile_at(self, x: int, y: int) -> TileState {
        self.board@[cell_index(self.side(), x, y)]
    }

    /// The tile stored at cell `c`.
    pub open spec fn tile(self, c: PointyHexGrid) -> TileState {
        self.tile_at(c.x as int, c.y as int)
    }

    /// A move-history entry still corresponds to an effect that is visible
    /// on the board and has not been undone.
    pub open spec fn entry_live(self, m: OnMoveTile) -> bool {
        match m {
            OnMoveTile::Open { target } => self.in_bounds(target) && self.tile(target).is_open,
            OnMoveTile::Flag { target } => self.in_bounds(target) && self.tile(target).is_flag,
        }
    }

    /// Internal consistency of the board:
    /// the side count is positive and fits the machine; the storage covers
    /// the square grid; padding slots outside the hexagonal field stay
    /// blank; no tile is both open and flagged; and the move history holds
    /// pairwise-distinct entries whose effects are all still on the board.
    pub open spec fn wf(self) -> bool {
        &&& 1 <= self.side()
        &&& !oversize(self.side())
        &&& self.board@.len() == self.bound() * self.bound()
        &&& forall|x: int, y: int|
            0 <= x < self.bound() && 0 <= y < self.bound() && !cell_in_bounds(self.side(), x, y)
                ==> #[trigger] self.tile_at(x, y) == TileState::blank()
        &&& forall|x: int, y: int|
            cell_in_bounds(self.side(), x, y) ==> !(#[trigger] self.tile_at(x, y).is_open
                && self.tile_at(x, y).is_flag)
        &&& forall|i: int|
            0 <= i < self.move_stack@.len() ==> self.entry_live(#[trigger] self.move_stack@[i])
        &&& forall|i: int, j: int|
            0 <= i < j < self.move_stack@.len() ==> #[trigger] self.move_stack@[i]
                != #[trigger] self.move_stack@[j]
    }

    /// Number of opened tiles.
    pub open spec fn spec_count_open(self) -> int {
        count_tiles(self.board@, |t: TileState| t.is_open)
    }

    /// Number of mines.
    pub open spec fn spec_count_mines(self) -> int {
        count_tiles(self.board@, |t: TileState| t.is_mine)
    }

    /// Number of flagged mines.
    pub open spec fn spec_count_flagged_mines(self) -> int {
        count_tiles(self.board@, |t: TileState| t.is_mine && t.is_flag)
    }

    /// Number of mines not yet flagged.
    pub open spec fn spec_count_remaining_mines(self) -> int {
        self.spec_count_mines() - self.spec_count_flagged_mines()
    }

    /// The side count the board was created with.
    pub fn tiles_per_side(&self) -> (n: usize)
        ensures
            n == self.side(),
    {
        self.tiles_per_side
    }

    /// Check whether `c` lies outside the hexagonal playing field. This is
    /// the single bounds check every accessor routes through.
    pub fn is_out_of_bound(&self, c: PointyHexGrid) -> (r: bool)
        requires
            self.wf(),
        ensures
            r == !self.in_bounds(c),
    {
        let b = 2 * (self.tiles_per_side as i64) - 1;
        let side = self.tiles_per_side as i64;
        let x = c.x as i64;
        let y = c.y as i64;
        x < 0 || y < 0 || x >= b || y >= b || x + y < side - 1 || x + y > 3 * (side - 1)
    }

    /// Row-major storage position of an in-bounds cell.
    fn index_of(&self, c: PointyHexGrid) -> (i: usize)
        requires
            self.wf(),
            self.in_bounds(c),
        ensures
            i == cell_index(self.side(), c.x as int, c.y as int),
            i < self.board@.len(),
    {
        proof {
            lemma_cell_index_bounds(self.side(), c.x as int, c.y as int);
        }
        let b = 2 * self.tiles_per_side - 1;
        (c.y as usize) * b + (c.x as usize)
    }

    /// Read the tile at `c`; `None` exactly when `c` is out of bounds.
    pub fn get(&self, c: PointyHexGrid) -> (r: Option<&TileState>)
        requires
            self.wf(),
        ensures
            match r {
                Some(t) => self.in_bounds(c) && *t == self.tile(c),
                None => !self.in_bounds(c),
            },
    {
        if self.is_out_of_bound(c) {
            None
        } else {
            let i = self.index_of(c);
            Some(&self.board[i])
        }
    }

    /// `1` when `(x, y)` is a playable cell hiding a mine, else `0`.
    pub open spec fn spec_mine_indicator(self, x: int, y: int) -> int {
        if cell_in_bounds(self.side(), x, y) && self.tile_at(x, y).is_mine {
            1int
        } else {
            0int
        }
    }

    /// Number of mines among the six axial neighbors of `c`, out-of-bounds
    /// neighbors contributing nothing.
    pub open spec fn spec_adjacent_mines(self, c: PointyHexGrid) -> int {
        let x = c.x as int;
        let y = c.y as int;
        self.spec_mine_indicator(x + 1, y) + self.spec_mine_indicator(x, y + 1)
            + self.spec_mine_indicator(x - 1, y + 1) + self.spec_mine_indicator(x - 1, y)
            + self.spec_mine_indicator(x, y - 1) + self.spec_mine_indicator(x + 1, y - 1)
    }

    fn mine_indicator(&self, x: i32, y: i32) -> (r: usize)
        requires
            self.wf(),
        ensures
            r == self.spec_mine_indicator(x as int, y as int),
    {
        match self.get(PointyHexGrid { x, y }) {
            Some(t) => if t.is_mine {
                1
            } else {
                0
            },
            None => 0,
        }
    }

    /// Sum the mines over the six axial neighbors of `c`; `None` exactly
    /// when `c` itself is out of bounds.
    pub fn count_adjacent_mines(&self, c: PointyHexGrid) -> (r: Option<usize>)
        requires
            self.wf(),
        ensures
            self.in_bounds(c) ==> (r matches Some(m) && m == self.spec_adjacent_mines(c)),
            !self.in_bounds(c) ==> r is None,
    {
        if self.is_out_of_bound(c) {
            None
        } else {
            let mut count: usize = 0;
            count = count + self.mine_indicator(c.x + 1, c.y);
            count = count + self.mine_indicator(c.x, c.y + 1);
            count = count + self.mine_indicator(c.x - 1, c.y + 1);
            count = count + self.mine_indicator(c.x - 1, c.y);
            count = count + self.mine_indicator(c.x, c.y - 1);
            count = count + self.mine_indicator(c.x + 1, c.y - 1);
            Some(count)
        }
    }

    fn count_matching(&self, which: u8) -> (r: usize)
        requires
            self.wf(),
            which == 0 || which == 1 || which == 2,
        ensures
            which == 0 ==> r == self.spec_count_open(),
            which == 1 ==> r == self.spec_count_mines(),
            which == 2 ==> r == self.spec_count_flagged_mines(),
    {
        let ghost p: spec_fn(TileState) -> bool = if which == 0 {
            |t: TileState| t.is_open
        } else if which == 1 {
            |t: TileState| t.is_mine
        } else {
            |t: TileState| t.is_mine && t.is_flag
        };
        let mut count: usize = 0;
        let mut i: usize = 0;
        proof {
            lemma_count_tiles_le_len(self.board@, p);
        }
        while i < self.board.len()
            invariant
                i <= self.board@.len(),
                count == count_tiles(self.board@.take(i as int), p),
                count <= i,
                p == (if which == 0 {
                    |t: TileState| t.is_open
                } else if which == 1 {
                    |t: TileState| t.is_mine
                } else {
                    |t: TileState| t.is_mine && t.is_flag
                }),
                which == 0 || which == 1 || which == 2,
            decreases self.board@.len() - i,
        {
            let t = self.board[i];
            let matched = if which == 0 {
                t.is_open
            } else if which == 1 {
                t.is_mine
            } else {
                t.is_mine && t.is_flag
            };
            proof {
                lemma_count_tiles_take_succ(self.board@, p, i as int);
            }
            if matched {
                count = count + 1;
            }
            i = i + 1;
        }
        proof {
            assert(self.board@.take(self.board@.len() as int) =~= self.board@);
        }
        count
    }

    /// Number of opened tiles, by a full scan.
    pub fn count_open_tile(&self) -> (r: usize)
        requires
            self.wf(),
        ensures
            r == self.spec_count_open(),
    {
        self.count_matching(0)
    }

    /// Number of mines on the board, by a full scan.
    pub fn count_mines(&self) -> (r: usize)
        requires
            self.wf(),
        ensures
            r == self.spec_count_mines(),
    {
        self.count_matching(1)
    }

    /// Number of mines that carry a flag, by a full scan.
    pub fn count_flagged_mines(&self) -> (r: usize)
        requires
            self.wf(),
        ensures
            r == self.spec_count_flagged_mines(),
    {
        self.count_matching(2)
    }

    /// Number of mines not yet flagged; zero is the cleared condition.
    pub fn count_remaining_mines(&self) -> (r: usize)
        requires
            self.wf(),
        ensures
            r == self.spec_count_remaining_mines(),
    {
        proof {
            lemma_count_tiles_subset(
                self.board@,
                |t: TileState| t.is_mine && t.is_flag,
                |t: TileState| t.is_mine,
            );
        }
        self.count_mines() - self.count_flagged_mines()
    }

    /// Plant a mine at `c` during construction; out-of-bounds placements
    /// are ignored. Only callable while the history is still empty.
    fn set_mine(&mut self, c: PointyHexGrid)
        requires
            old(self).wf(),
            old(self).move_stack@.len() == 0,
        ensures
            final(self).wf(),
            final(self).tiles_per_side == old(self).tiles_per_side,
            final(self).move_stack@ == old(self).move_stack@,
            old(self).in_bounds(c) ==> final(self).board@ == old(self).board@.update(
                cell_index(old(self).side(), c.x as int, c.y as int),
                TileState { is_mine: true, ..old(self).tile(c) },
            ),
            !old(self).in_bounds(c) ==> final(self).board@ == old(self).board@,
    {
        if self.is_out_of_bound(c) {
            return ;
        }
        let i = self.index_of(c);
        let t = self.board[i];
        self.board[i] = TileState { is_open: t.is_open, is_flag: t.is_flag, is_mine: true };
        proof {
            let n = old(self).side();
            let cx = c.x as int;
            let cy = c.y as int;
            let ci = cell_index(n, cx, cy);
            lemma_cell_index_bounds(n, cx, cy);
            assert forall|x: int, y: int|
                0 <= x < self.bound() && 0 <= y < self.bound() && cell_index(n, x, y) != ci implies
                #[trigger] self.tile_at(x, y) == old(self).tile_at(x, y) by {
                lemma_cell_index_bounds(n, x, y);
            }
            assert forall|x: int, y: int|
                0 <= x < self.bound() && 0 <= y < self.bound() && !cell_in_bounds(n, x, y) implies
                #[trigger] self.tile_at(x, y) == TileState::blank() by {
                if cell_index(n, x, y) == ci {
                    lemma_cell_index_injective(n, x, y, cx, cy);
                }
            }
            assert forall|x: int, y: int| cell_in_bounds(n, x, y) implies !(#[trigger] self.tile_at(
                x,
                y,
            ).is_open && self.tile_at(x, y).is_flag) by {
                lemma_cell_index_bounds(n, x, y);
                assert(!(old(self).tile(c).is_open && old(self).tile(c).is_flag));
            }
        }
    }

    /// Create a board of `tiles_per_side` hexagons per side, every tile
    /// unrevealed and unflagged, with a mine under each in-bounds cell of
    /// `mines`; out-of-bounds placements are ignored. `InvalidSize` exactly
    /// when the side count is zero or too large for the machine.
    pub fn new(tiles_per_side: usize, mines: &Vec<PointyHexGrid>) -> (r: Result<
        GameBoard,
        BoardError,
    >)
        ensures
            (r is Err) <==> (tiles_per_side == 0 || oversize(tiles_per_side as int)),
            r matches Err(e) ==> e == BoardError::InvalidSize,
            r matches Ok(b) ==> ({
                &&& b.wf()
                &&& b.side() == tiles_per_side
                &&& b.move_stack@.len() == 0
                &&& forall|x: int, y: int|
                    cell_in_bounds(b.side(), x, y) ==> #[trigger] b.tile_at(x, y) == (TileState {
                        is_open: false,
                        is_flag: false,
                        is_mine: mines@.contains(PointyHexGrid { x: x as i32, y: y as i32 }),
                    })
            }),
    {
        if tiles_per_side == 0 {
            return Err(BoardError::InvalidSize);
        }
        let b128: u128 = 2 * (tiles_per_side as u128) - 1;
        if b128 > i32::MAX as u128 {
            return Err(BoardError::InvalidSize);
        }
        proof {
            assert(b128 * b128 <= 0x4000_0000_0000_0000) by (nonlinear_arith)
                requires
                    b128 <= 0x7fff_ffff,
            ;
        }
        if b128 * b128 > usize::MAX as u128 {
            return Err(BoardError::InvalidSize);
        }
        let bound = b128 as usize;
        let total = bound * bound;
        let mut board: Vec<TileState> = Vec::new();
        let mut i: usize = 0;
        while i < total
            invariant
                i <= total,
                board@.len() == i,
                forall|j: int| 0 <= j < i ==> board@[j] == TileState::blank(),
            decreases total - i,
        {
            board.push(TileState { is_open: false, is_flag: false, is_mine: false });
            i = i + 1;
        }
        let mut gb = GameBoard { tiles_per_side, board, move_stack: Vec::new() };
        proof {
            assert forall|x: int, y: int|
                0 <= x < gb.bound() && 0 <= y < gb.bound() implies #[trigger] gb.tile_at(x, y)
                == TileState::blank() by {
                lemma_cell_index_bounds(gb.side(), x, y);
            }
        }
        let ghost n = gb.side();
        let mut k: usize = 0;
        while k < mines.len()
            invariant
                k <= mines@.len(),
                gb.wf(),
                gb.side() == n,
                n == tiles_per_side as int,
                1 <= n,
                gb.move_stack@.len() == 0,
                forall|x: int, y: int|
                    cell_in_bounds(n, x, y) ==> #[trigger] gb.tile_at(x, y) == (TileState {
                        is_open: false,
                        is_flag: false,
                        is_mine: mines@.take(k as int).contains(
                            PointyHexGrid { x: x as i32, y: y as i32 },
                        ),
                    }),
            decreases mines@.len() - k,
        {
            let c = mines[k];
            let ghost prev = gb;
            gb.set_mine(c);
            proof {
                let cx = c.x as int;
                let cy = c.y as int;
                assert forall|x: int, y: int| cell_in_bounds(n, x, y) implies #[trigger] gb.tile_at(
                    x,
                    y,
                ) == (TileState {
                    is_open: false,
                    is_flag: false,
                    is_mine: mines@.take(k + 1).contains(
                        PointyHexGrid { x: x as i32, y: y as i32 },
                    ),
                }) by {
                    let cell = PointyHexGrid { x: x as i32, y: y as i32 };
                    lemma_seq_take_succ_contains(mines@, k as int, cell);
                    lemma_cell_index_bounds(n, x, y);
                    assert(prev.tile_at(x, y) == (TileState {
                        is_open: false,
                        is_flag: false,
                        is_mine: mines@.take(k as int).contains(cell),
                    }));
                    if prev.in_bounds(c) {
                        lemma_cell_index_bounds(n, cx, cy);
                        if cell_index(n, x, y) == cell_index(n, cx, cy) {
                            lemma_cell_index_injective(n, x, y, cx, cy);
                            assert(cell == c);
                        } else {
                            assert(gb.tile_at(x, y) == prev.tile_at(x, y));
                            assert(cell != c);
                        }
                    } else {
                        assert(cell != c);
                    }
                }
            }
            k = k + 1;
        }
        proof {
            assert(mines@.take(mines@.len() as int) =~= mines@);
        }
        Ok(gb)
    }

    /// Parse a textual board description into a board with an empty move
    /// history. The format: a `tiles_per_side` token, then `2n - 1` row
    /// tokens of `2n - 1` characters each over the alphabet `.` `O` `M`;
    /// characters on padding cells are ignored. `InvalidSize` exactly when
    /// the announced side count is zero or too large for the machine;
    /// `MalformedBoard` exactly when the side count is unreadable or the
    /// grid is incomplete, missized, or holds a foreign character on a
    /// playable cell.
    pub fn load(text: &[u8]) -> (r: Result<GameBoard, BoardError>)
        ensures
            (r is Ok) <==> load_ok(text@),
            (r matches Err(e) && e == BoardError::InvalidSize) <==> load_invalid_size(text@),
            (r matches Err(e) && e == BoardError::MalformedBoard) <==> load_malformed(text@),
            r matches Ok(b) ==> ({
                &&& b.wf()
                &&& load_side(text@) == Some(b.side())
                &&& b.move_stack@.len() == 0
                &&& forall|x: int, y: int|
                    0 <= x < b.bound() && 0 <= y < b.bound() ==> #[trigger] b.tile_at(x, y)
                        == load_tile(text@, b.side(), x, y)
            }),
    {
        let ghost s = text@;
        let toks = reader::split_tokens(text);
        let ghost stoks = reader::spec_tokens(s);
        if toks.len() == 0 {
            return Err(BoardError::MalformedBoard);
        }
        proof {
            assert(stoks[0] == toks@[0]@);
        }
        let n = match reader::parse_usize(toks[0].as_slice()) {
            None => {
                proof {
                    assert(load_side(s) is None);
                }
                return Err(BoardError::MalformedBoard);
            },
            Some(v) => v,
        };
        proof {
            assert(load_side(s) == Some(n as int));
        }
        if n == 0 {
            return Err(BoardError::InvalidSize);
        }
        let b128: u128 = 2 * (n as u128) - 1;
        if b128 > i32::MAX as u128 {
            return Err(BoardError::InvalidSize);
        }
        proof {
            assert(b128 * b128 <= 0x4000_0000_0000_0000) by (nonlinear_arith)
                requires
                    b128 <= 0x7fff_ffff,
            ;
        }
        if b128 * b128 > usize::MAX as u128 {
            return Err(BoardError::InvalidSize);
        }
        let bound = b128 as usize;
        let ghost side = n as int;
        if toks.len() - 1 < bound {
            return Err(BoardError::MalformedBoard);
        }
        let mut y: usize = 0;
        while y < bound
            invariant
                s == text@,
                stoks == reader::spec_tokens(s),
                toks@.map_values(|t: Vec<u8>| t@) == stoks,
                y <= bound,
                side >= 1,
                load_side(s) == Some(side),
                !oversize(side),
                bound == addressing::hex_bound(side),
                bound <= 0x7fff_ffff,
                1 + bound <= toks@.len(),
                forall|y2: int| 0 <= y2 < y ==> (#[trigger] stoks[1 + y2]).len() == bound,
            decreases bound - y,
        {
            if toks[1 + y].len() != bound {
                proof {
                    assert(stoks[1 + y as int] == toks@[1 + y as int]@);
                    assert(!load_rows_sized(s, side));
                }
                return Err(BoardError::MalformedBoard);
            }
            proof {
                assert(stoks[1 + y as int] == toks@[1 + y as int]@);
            }
            y = y + 1;
        }
        let total = bound * bound;
        let mut board: Vec<TileState> = Vec::new();
        let mut y: usize = 0;
        while y < bound
            invariant
                s == text@,
                stoks == reader::spec_tokens(s),
                toks@.map_values(|t: Vec<u8>| t@) == stoks,
                y <= bound,
                side >= 1,
                n as int == side,
                load_side(s) == Some(side),
                !oversize(side),
                bound == addressing::hex_bound(side),
                bound <= 0x7fff_ffff,
                bound * bound <= usize::MAX,
                1 + bound <= toks@.len(),
                forall|y2: int| 0 <= y2 < bound ==> (#[trigger] stoks[1 + y2]).len() == bound,
                board@.len() == y * bound,
                forall|x2: int, y2: int|
                    0 <= x2 < bound && 0 <= y2 < y ==> #[trigger] board@[cell_index(side, x2, y2)]
                        == load_tile(s, side, x2, y2),
                forall|x2: int, y2: int|
                    cell_in_bounds(side, x2, y2) && y2 < y ==> valid_tile_byte(
                        #[trigger] stoks[1 + y2][x2],
                    ),
            decreases bound - y,
        {
            let mut x: usize = 0;
            proof {
                assert(y * bound + bound <= bound * bound) by (nonlinear_arith)
                    requires
                        0 <= y < bound,
                ;
                assert(y * bound >= 0) by (nonlinear_arith)
                    requires
                        0 <= y,
                        0 <= bound,
                ;
            }
            while x < bound
                invariant
                    s == text@,
                    stoks == reader::spec_tokens(s),
                    toks@.map_values(|t: Vec<u8>| t@) == stoks,
                    x <= bound,
                    y < bound,
                    side >= 1,
                    n as int == side,
                    load_side(s) == Some(side),
                    !oversize(side),
                    bound == addressing::hex_bound(side),
                    bound <= 0x7fff_ffff,
                    bound * bound <= usize::MAX,
                    0 <= y * bound && y * bound + bound <= bound * bound,
                    1 + bound <= toks@.len(),
                    forall|y2: int| 0 <= y2 < bound ==> (#[trigger] stoks[1 + y2]).len() == bound,
                    board@.len() == y * bound + x,
                    forall|x2: int, y2: int|
                        0 <= x2 < bound && 0 <= y2 < y ==> #[trigger] board@[cell_index(
                            side,
                            x2,
                            y2,
                        )] == load_tile(s, side, x2, y2),
                    forall|x2: int| 0 <= x2 < x ==> #[trigger] board@[cell_index(side, x2, y as int)]
                        == load_tile(s, side, x2, y as int),
                    forall|x2: int, y2: int|
                        cell_in_bounds(side, x2, y2) && y2 < y ==> valid_tile_byte(
                            #[trigger] stoks[1 + y2][x2],
                        ),
                    forall|x2: int|
                        cell_in_bounds(side, x2, y as int) && x2 < x ==> valid_tile_byte(
                            #[trigger] stoks[1 + y as int][x2],
                        ),
                decreases bound - x,
            {
                let in_field: bool = x + y >= n - 1 && x + y <= 3 * (n - 1);
                proof {
                    assert(in_field == cell_in_bounds(side, x as int, y as int));
                }
                let tile: TileState;
                if in_field {
                    let row = &toks[1 + y];
                    proof {
                        assert(row@ == stoks[1 + y as int]);
                    }
                    let ch = row[x];
                    if ch == 46 {
                        tile = TileState { is_open: false, is_flag: false, is_mine: false };
                    } else if ch == 79 {
                        tile = TileState { is_open: true, is_flag: false, is_mine: false };
                    } else if ch == 77 {
                        tile = TileState { is_open: false, is_flag: false, is_mine: true };
                    } else {
                        proof {
                            assert(!valid_tile_byte(stoks[1 + y as int][x as int]));
                        }
                        return Err(BoardError::MalformedBoard);
                    }
                    proof {
                        assert(tile == tile_of_byte(stoks[1 + y as int][x as int]));
                    }
                } else {
                    tile = TileState { is_open: false, is_flag: false, is_mine: false };
                }
                board.push(tile);
                proof {
                    assert forall|x2: int, y2: int|
                        0 <= x2 < bound && 0 <= y2 < y implies cell_index(side, x2, y2) < y
                        * bound by {
                        assert(y2 * bound + x2 < y * bound) by (nonlinear_arith)
                            requires
                                0 <= x2 < bound,
                                0 <= y2,
                                y2 < y,
                        ;
                    }
                }
                x = x + 1;
            }
            proof {
                assert((y + 1) * bound == y * bound + bound) by (nonlinear_arith);
            }
            y = y + 1;
        }
        let gb = GameBoard { tiles_per_side: n, board, move_stack: Vec::new() };
        proof {
            assert(gb.board@.len() == gb.bound() * gb.bound());
            assert forall|x: int, y2: int|
                0 <= x < gb.bound() && 0 <= y2 < gb.bound() implies #[trigger] gb.tile_at(x, y2)
                == load_tile(s, side, x, y2) by {
                lemma_cell_index_bounds(side, x, y2);
            }
        }
        Ok(gb)
    }

    /// Whether a move (open or flag) can apply at `c`: the cell is in
    /// bounds, not already open, and not already flagged.
    pub open spec fn move_applies(self, c: PointyHexGrid) -> bool {
        self.in_bounds(c) && !self.tile(c).is_open && !self.tile(c).is_flag
    }

    /// `self` is `prev` with the tile at `c` opened and the move recorded.
    pub open spec fn opened_from(self, prev: GameBoard, c: PointyHexGrid) -> bool {
        &&& self.tiles_per_side == prev.tiles_per_side
        &&& self.board@ == prev.board@.update(
            cell_index(prev.side(), c.x as int, c.y as int),
            TileState { is_open: true, ..prev.tile(c) },
        )
        &&& self.move_stack@ == prev.move_stack@.push(OnMoveTile::Open { target: c })
    }

    /// `self` is `prev` with the tile at `c` flagged and the move recorded.
    pub open spec fn flagged_from(self, prev: GameBoard, c: PointyHexGrid) -> bool {
        &&& self.tiles_per_side == prev.tiles_per_side
        &&& self.board@ == prev.board@.update(
            cell_index(prev.side(), c.x as int, c.y as int),
            TileState { is_flag: true, ..prev.tile(c) },
        )
        &&& self.move_stack@ == prev.move_stack@.push(OnMoveTile::Flag { target: c })
    }

    /// The reversal that undoing a recorded move reports.
    pub open spec fn reversal_of(m: OnMoveTile) -> OnUndoTile {
        match m {
            OnMoveTile::Open { target } => OnUndoTile::UnOpen { target },
            OnMoveTile::Flag { target } => OnUndoTile::UnFlag { target },
        }
    }

    /// `self` is `prev` with its most recent move popped and its effect
    /// exactly reversed on the board.
    pub open spec fn undone_from(self, prev: GameBoard) -> bool {
        &&& prev.move_stack@.len() > 0
        &&& self.tiles_per_side == prev.tiles_per_side
        &&& self.move_stack@ == prev.move_stack@.drop_last()
        &&& (match prev.move_stack@.last() {
            OnMoveTile::Open { target } => self.board@ == prev.board@.update(
                cell_index(prev.side(), target.x as int, target.y as int),
                TileState { is_open: false, ..prev.tile(target) },
            ),
            OnMoveTile::Flag { target } => self.board@ == prev.board@.update(
                cell_index(prev.side(), target.x as int, target.y as int),
                TileState { is_flag: false, ..prev.tile(target) },
            ),
        })
    }

    /// Open the tile at `c` and record the move; a no-op (with the board
    /// left untouched) exactly when the cell is out of bounds, already open,
    /// or flagged.
    pub fn try_open(&mut self, c: PointyHexGrid) -> (r: Result<Opened, NoOp>)
        requires
            old(self).wf(),
        ensures
            final(self).wf(),
            old(self).move_applies(c) ==> r is Ok && final(self).opened_from(*old(self), c),
            !old(self).move_applies(c) ==> r is Err && *final(self) == *old(self),
    {
        if self.is_out_of_bound(c) {
            return Err(NoOp);
        }
        let i = self.index_of(c);
        let t = self.board[i];
        if t.is_open || t.is_flag {
            return Err(NoOp);
        }
        self.board[i] = TileState { is_open: true, is_flag: t.is_flag, is_mine: t.is_mine };
        self.move_stack.push(OnMoveTile::Open { target: c });
        proof {
            lemma_move_preserves_wf(*old(self), *self, c, OnMoveTile::Open { target: c });
        }
        Ok(Opened)
    }

    /// Flag the tile at `c` and record the move; a no-op (with the board
    /// left untouched) exactly when the cell is out of bounds, already open,
    /// or already flagged.
    pub fn try_flag(&mut self, c: PointyHexGrid) -> (r: Result<Flagged, NoOp>)
        requires
            old(self).wf(),
        ensures
            final(self).wf(),
            old(self).move_applies(c) ==> r is Ok && final(self).flagged_from(*old(self), c),
            !old(self).move_applies(c) ==> r is Err && *final(self) == *old(self),
    {
        if self.is_out_of_bound(c) {
            return Err(NoOp);
        }
        let i = self.index_of(c);
        let t = self.board[i];
        if t.is_open || t.is_flag {
            return Err(NoOp);
        }
        self.board[i] = TileState { is_open: t.is_open, is_flag: true, is_mine: t.is_mine };
        self.move_stack.push(OnMoveTile::Flag { target: c });
        proof {
            lemma_move_preserves_wf(*old(self), *self, c, OnMoveTile::Flag { target: c });
        }
        Ok(Flagged)
    }

    /// Pop the most recent move and exactly reverse its effect, returning
    /// the reversal; `None` (with the board left untouched) exactly when
    /// the history is empty.
    pub fn undo(&mut self) -> (r: Option<OnUndoTile>)
        requires
            old(self).wf(),
        ensures
            final(self).wf(),
            old(self).move_stack@.len() > 0 ==> r == Some(
                GameBoard::reversal_of(old(self).move_stack@.last()),
            ) && final(self).undone_from(*old(self)),
            old(self).move_stack@.len() == 0 ==> r is None && *final(self) == *old(self),
    {
        let len = self.move_stack.len();
        if len == 0 {
            return None;
        }
        let m = self.move_stack[len - 1];
        proof {
            assert(old(self).entry_live(old(self).move_stack@.last()));
        }
        match m {
            OnMoveTile::Open { target } => {
                let i = self.index_of(target);
                let t = self.board[i];
                self.move_stack.pop();
                self.board[i] = TileState { is_open: false, is_flag: t.is_flag, is_mine: t.is_mine };
                proof {
                    lemma_undo_preserves_wf(*old(self), *self);
                }
                Some(OnUndoTile::UnOpen { target })
            },
            OnMoveTile::Flag { target } => {
                let i = self.index_of(target);
                let t = self.board[i];
                self.move_stack.pop();
                self.board[i] = TileState { is_open: t.is_open, is_flag: false, is_mine: t.is_mine };
                proof {
                    lemma_undo_preserves_wf(*old(self), *self);
                }
                Some(OnUndoTile::UnFlag { target })
            },
        }
    }
}

/// A successfully applied move keeps the board well formed: the touched
/// cell is a playable one, its other tile bits are untouched, and the new
/// history entry is live and distinct from every earlier one.
proof fn lemma_move_preserves_wf(prev: GameBoard, post: GameBoard, c: PointyHexGrid, m: OnMoveTile)
    requires
        prev.wf(),
        prev.move_applies(c),
        m == (OnMoveTile::Open { target: c }) || m == (OnMoveTile::Flag { target: c }),
        post.tiles_per_side == prev.tiles_per_side,
        post.move_stack@ == prev.move_stack@.push(m),
        m == (OnMoveTile::Open { target: c }) ==> post.board@ == prev.board@.update(
            cell_index(prev.side(), c.x as int, c.y as int),
            TileState { is_open: true, ..prev.tile(c) },
        ),
        m == (OnMoveTile::Flag { target: c }) ==> post.board@ == prev.board@.update(
            cell_index(prev.side(), c.x as int, c.y as int),
            TileState { is_flag: true, ..prev.tile(c) },
        ),
    ensures
        post.wf(),
{
    let n = prev.side();
    let cx = c.x as int;
    let cy = c.y as int;
    let ci = cell_index(n, cx, cy);
    lemma_cell_index_bounds(n, cx, cy);
    assert forall|x: int, y: int|
        0 <= x < post.bound() && 0 <= y < post.bound() && cell_index(n, x, y) != ci implies
        #[trigger] post.tile_at(x, y) == prev.tile_at(x, y) by {
        lemma_cell_index_bounds(n, x, y);
    }
    assert forall|x: int, y: int|
        0 <= x < post.bound() && 0 <= y < post.bound() && !cell_in_bounds(n, x, y) implies
        #[trigger] post.tile_at(x, y) == TileState::blank() by {
        if cell_index(n, x, y) == ci {
            lemma_cell_index_injective(n, x, y, cx, cy);
        }
    }
    assert forall|x: int, y: int| cell_in_bounds(n, x, y) implies !(#[trigger] post.tile_at(
        x,
        y,
    ).is_open && post.tile_at(x, y).is_flag) by {
        if cell_index(n, x, y) == ci {
            lemma_cell_index_injective(n, x, y, cx, cy);
        }
    }
    assert forall|i: int| 0 <= i < post.move_stack@.len() implies post.entry_live(
        #[trigger] post.move_stack@[i],
    ) by {
        if i < prev.move_stack@.len() {
            let e = prev.move_stack@[i];
            assert(prev.entry_live(e));
            let t = match e {
                OnMoveTile::Open { target } => target,
                OnMoveTile::Flag { target } => target,
            };
            if t != c && cell_index(n, t.x as int, t.y as int) == ci {
                lemma_cell_index_injective(n, t.x as int, t.y as int, cx, cy);
            }
        }
    }
    assert forall|i: int, j: int| 0 <= i < j < post.move_stack@.len() implies
        #[trigger] post.move_stack@[i] != #[trigger] post.move_stack@[j] by {
        if j == prev.move_stack@.len() {
            assert(prev.entry_live(prev.move_stack@[i]));
        }
    }
}

/// Reversing the most recent move keeps the board well formed: the entry
/// being popped is the only live record of its effect, so clearing that one
/// bit leaves every remaining entry live.
proof fn lemma_undo_preserves_wf(prev: GameBoard, post: GameBoard)
    requires
        prev.wf(),
        prev.move_stack@.len() > 0,
        post.undone_from(prev),
    ensures
        post.wf(),
{
    let n = prev.side();
    let last = prev.move_stack@.last();
    let c = match last {
        OnMoveTile::Open { target } => target,
        OnMoveTile::Flag { target } => target,
    };
    let cx = c.x as int;
    let cy = c.y as int;
    let ci = cell_index(n, cx, cy);
    assert(prev.entry_live(last));
    lemma_cell_index_bounds(n, cx, cy);
    assert forall|x: int, y: int|
        0 <= x < post.bound() && 0 <= y < post.bound() && cell_index(n, x, y) != ci implies
        #[trigger] post.tile_at(x, y) == prev.tile_at(x, y) by {
        lemma_cell_index_bounds(n, x, y);
    }
    assert forall|x: int, y: int|
        0 <= x < post.bound() && 0 <= y < post.bound() && !cell_in_bounds(n, x, y) implies
        #[trigger] post.tile_at(x, y) == TileState::blank() by {
        if cell_index(n, x, y) == ci {
            lemma_cell_index_injective(n, x, y, cx, cy);
        }
    }
    assert forall|x: int, y: int| cell_in_bounds(n, x, y) implies !(#[trigger] post.tile_at(
        x,
        y,
    ).is_open && post.tile_at(x, y).is_flag) by {
        if cell_index(n, x, y) == ci {
            lemma_cell_index_injective(n, x, y, cx, cy);
        }
    }
    assert forall|i: int| 0 <= i < post.move_stack@.len() implies post.entry_live(
        #[trigger] post.move_stack@[i],
    ) by {
        let e = prev.move_stack@[i];
        assert(post.move_stack@[i] == e);
        assert(prev.entry_live(e));
        assert(e != last);
        let t = match e {
            OnMoveTile::Open { target } => target,
            OnMoveTile::Flag { target } => target,
        };
        if t == c {
            // The popped entry and `e` target the same cell, so they must
            // be an open record and a flag record; but a tile is never both
            // open and flagged.
            assert(prev.tile(c).is_open && prev.tile(c).is_flag);
            assert(false);
        } else {
            if cell_index(n, t.x as int, t.y as int) == ci {
                lemma_cell_index_injective(n, t.x as int, t.y as int, cx, cy);
            }
        }
    }
}

} // verus!

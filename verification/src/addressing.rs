//! Addressing of the hexagonal playing field inside its square storage grid.
//!
//! A board with `n` hexagons per side stores its tiles in a flat, row-major
//! square buffer of width `2n - 1`. A storage slot `(x, y)` is a playable
//! cell exactly when it also lies in the diamond-clipped band
//! `n - 1 <= x + y <= 3(n - 1)`; the slots outside that band are padding.
//! These spec functions are the single source of truth for the bound, the
//! bounds predicate and the index formula; every container routes through
//! them so that read and write paths can never diverge.

use vstd::prelude::*;

verus! {

/// Width of the square storage grid for a board with `n` hexagons per side.
pub open spec fn hex_bound(n: int) -> int {
    2 * n - 1
}

/// Whether storage slot `(x, y)` is a playable cell of a board with `n`
/// hexagons per side: inside the square grid, and inside the diamond band.
pub open spec fn cell_in_bounds(n: int, x: int, y: int) -> bool {
    &&& 0 <= x < hex_bound(n)
    &&& 0 <= y < hex_bound(n)
    &&& n - 1 <= x + y <= 3 * (n - 1)
}

/// Row-major position of slot `(x, y)` in the flat storage buffer.
pub open spec fn cell_index(n: int, x: int, y: int) -> int {
    y * hex_bound(n) + x
}

/// Every slot of the square grid has its index inside the buffer.
pub proof fn lemma_cell_index_bounds(n: int, x: int, y: int)
    requires
        1 <= n,
        0 <= x < hex_bound(n),
        0 <= y < hex_bound(n),
    ensures
        0 <= y * hex_bound(n),
        0 <= cell_index(n, x, y) < hex_bound(n) * hex_bound(n),
{
    let b = hex_bound(n);
    assert(0 <= y * b && y * b + b <= b * b) by (nonlinear_arith)
        requires
            0 <= y,
            y < b,
            1 <= b,
    ;
}

/// Distinct slots of the square grid never alias in the flat buffer.
pub proof fn lemma_cell_index_injective(n: int, x1: int, y1: int, x2: int, y2: int)
    requires
        1 <= n,
        0 <= x1 < hex_bound(n),
        0 <= y1 < hex_bound(n),
        0 <= x2 < hex_bound(n),
        0 <= y2 < hex_bound(n),
        cell_index(n, x1, y1) == cell_index(n, x2, y2),
    ensures
        x1 == x2,
        y1 == y2,
{
    let b = hex_bound(n);
    assert(y1 == y2 && x1 == x2) by (nonlinear_arith)
        requires
            0 <= x1 < b,
            0 <= y1 < b,
            0 <= x2 < b,
            0 <= y2 < b,
            y1 * b + x1 == y2 * b + x2,
    ;
}

/// Number of playable cells among the first `xl` slots of storage row `y`.
pub open spec fn row_cell_count(n: int, y: int, xl: int) -> int
    decreases xl,
{
    if xl <= 0 {
        0
    } else {
        row_cell_count(n, y, xl - 1) + if cell_in_bounds(n, xl - 1, y) {
            1int
        } else {
            0int
        }
    }
}

/// Number of playable cells in the first `yl` full rows of the storage grid.
pub open spec fn grid_cell_count(n: int, yl: int) -> int
    decreases yl,
{
    if yl <= 0 {
        0
    } else {
        grid_cell_count(n, yl - 1) + row_cell_count(n, yl - 1, hex_bound(n))
    }
}

/// Number of playable cells in the whole storage grid of a board with `n`
/// hexagons per side.
pub open spec fn valid_cell_count(n: int) -> int {
    grid_cell_count(n, hex_bound(n))
}

proof fn lemma_row_count_prefix(n: int, y: int, xl: int)
    requires
        1 <= n,
        0 <= y < hex_bound(n),
        0 <= xl <= hex_bound(n),
    ensures
        row_cell_count(n, y, xl) == {
            let lo = if n - 1 - y >= 0 {
                n - 1 - y
            } else {
                0
            };
            let hi = if 3 * (n - 1) - y <= hex_bound(n) - 1 {
                3 * (n - 1) - y
            } else {
                hex_bound(n) - 1
            };
            if xl <= lo {
                0
            } else if xl <= hi + 1 {
                xl - lo
            } else {
                hi + 1 - lo
            }
        },
    decreases xl,
{
    if xl > 0 {
        lemma_row_count_prefix(n, y, xl - 1);
    }
}

/// A full storage row `y` holds `n + y` playable cells in the upper half of
/// the grid and `3n - 2 - y` in the lower half.
proof fn lemma_row_count(n: int, y: int)
    requires
        1 <= n,
        0 <= y < hex_bound(n),
    ensures
        row_cell_count(n, y, hex_bound(n)) == if y <= n - 1 {
            n + y
        } else {
            3 * n - 2 - y
        },
{
    lemma_row_count_prefix(n, y, hex_bound(n));
}

proof fn lemma_grid_count_low(n: int, yl: int)
    requires
        1 <= n,
        0 <= yl <= n,
    ensures
        2 * grid_cell_count(n, yl) == yl * (2 * n + yl - 1),
    decreases yl,
{
    if yl > 0 {
        lemma_grid_count_low(n, yl - 1);
        lemma_row_count(n, yl - 1);
        assert(grid_cell_count(n, yl) == grid_cell_count(n, yl - 1) + row_cell_count(n, yl - 1,
            hex_bound(n)));
        assert(row_cell_count(n, yl - 1, hex_bound(n)) == n + yl - 1);
        assert(2 * grid_cell_count(n, yl - 1) == (yl - 1) * (2 * n + (yl - 1) - 1));
        assert((yl - 1) * (2 * n + (yl - 1) - 1) + 2 * (n + yl - 1) == yl * (2 * n + yl - 1))
            by (nonlinear_arith);
    } else {
        assert(yl * (2 * n + yl - 1) == 0) by (nonlinear_arith)
            requires
                yl == 0,
        ;
    }
}

proof fn lemma_grid_count_high(n: int, yl: int)
    requires
        1 <= n,
        n <= yl <= 2 * n - 1,
    ensures
        2 * grid_cell_count(n, yl) == n * (3 * n - 1) + 2 * (yl - n) * (3 * n - 2) - yl * yl + yl
            + n * n - n,
    decreases yl,
{
    if yl == n {
        lemma_grid_count_low(n, n);
        assert(n * (2 * n + n - 1) == n * (3 * n - 1) + 2 * (yl - n) * (3 * n - 2) - yl * yl + yl
            + n * n - n) by (nonlinear_arith)
            requires
                yl == n,
        ;
    } else {
        lemma_grid_count_high(n, yl - 1);
        lemma_row_count(n, yl - 1);
        assert(grid_cell_count(n, yl) == grid_cell_count(n, yl - 1) + row_cell_count(n, yl - 1,
            hex_bound(n)));
        assert(row_cell_count(n, yl - 1, hex_bound(n)) == 3 * n - 2 - (yl - 1));
        assert(2 * grid_cell_count(n, yl - 1) == n * (3 * n - 1) + 2 * ((yl - 1) - n) * (3 * n
            - 2) - (yl - 1) * (yl - 1) + (yl - 1) + n * n - n);
        assert(n * (3 * n - 1) + 2 * ((yl - 1) - n) * (3 * n - 2) - (yl - 1) * (yl - 1) + (yl
            - 1) + n * n - n + 2 * (3 * n - 2 - (yl - 1)) == n * (3 * n - 1) + 2 * (yl - n) * (3
            * n - 2) - yl * yl + yl + n * n - n) by (nonlinear_arith);
    }
}

/// The hex-number law: a board with `n >= 1` hexagons per side has exactly
/// `3n^2 - 3n + 1` playable cells, the rest of its square storage grid being
/// padding that the bounds predicate rejects.
pub proof fn lemma_valid_cell_count(n: int)
    requires
        1 <= n,
    ensures
        valid_cell_count(n) == 3 * n * n - 3 * n + 1,
{
    lemma_grid_count_high(n, 2 * n - 1);
    assert(n * (3 * n - 1) + 2 * (2 * n - 1 - n) * (3 * n - 2) - (2 * n - 1) * (2 * n - 1) + (2
        * n - 1) + n * n - n == 2 * (3 * n * n - 3 * n + 1)) by (nonlinear_arith);
}

} // verus!

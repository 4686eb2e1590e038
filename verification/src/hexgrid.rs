//! Axial coordinates for a pointy-top hexagonal grid, and the integer half of
//! snapping an arbitrary axial point to its nearest grid cell.
//!
//! Snapping starts from the cube coordinates `(q, r, s)` of a point, with
//! `s = -q - r`. A host rounds each of the three to the nearest integer and
//! compares the absolute rounding errors; those rounded integers and error
//! comparisons are plain values, and everything after that point is exact
//! integer arithmetic, done here: the component whose error is largest is
//! recomputed from the other two so that `q + r + s == 0` holds again.

use vstd::prelude::*;

verus! {

/// One discrete cell of the grid, addressed by integer axial coordinates
/// `(x, y)`; the implied third cube coordinate is `-x - y`.
#[derive(Debug, Clone, Copy, PartialEq, Eq, Hash, Structural)]
pub struct PointyHexGrid {
    pub x: i32,
    pub y: i32,
}

impl Default for PointyHexGrid {
    /// The origin cell.
    fn default() -> (cell: Self)
        ensures
            cell == (PointyHexGrid { x: 0, y: 0 }),
    {
        PointyHexGrid { x: 0, y: 0 }
    }
}

/// The repair step of nearest-cell snapping, as a function of the rounded
/// cube components and of the strict comparisons between rounding errors:
/// if `q`'s error exceeds both others, `q` is recomputed from `r` and `s`;
/// otherwise if `r`'s error exceeds `s`'s, `r` is recomputed; otherwise `s`
/// (which the axial result discards) would be the one recomputed, so the
/// rounded `q` and `r` stand as they are.
pub open spec fn spec_snap_rounded(
    q: int,
    r: int,
    s: int,
    q_err_gt_r_err: bool,
    q_err_gt_s_err: bool,
    r_err_gt_s_err: bool,
) -> (int, int) {
    if q_err_gt_r_err && q_err_gt_s_err {
        (-r - s, r)
    } else if r_err_gt_s_err {
        (q, -q - s)
    } else {
        (q, r)
    }
}

/// Snap independently rounded cube coordinates back onto the grid.
///
/// `q_round`, `r_round` and `s_round` are the three cube components of an
/// axial point, each rounded to the nearest integer, and the three flags are
/// the strict comparisons between their absolute rounding errors. The cell
/// returned restores the cube constraint by recomputing the component that
/// rounding moved furthest, exactly as `spec_snap_rounded` states.
pub fn snap_rounded_axial(
    q_round: i32,
    r_round: i32,
    s_round: i32,
    q_err_gt_r_err: bool,
    q_err_gt_s_err: bool,
    r_err_gt_s_err: bool,
) -> (cell: PointyHexGrid)
    requires
        -0x3fff_ffff <= q_round <= 0x3fff_ffff,
        -0x3fff_ffff <= r_round <= 0x3fff_ffff,
        -0x3fff_ffff <= s_round <= 0x3fff_ffff,
    ensures
        (cell.x as int, cell.y as int) == spec_snap_rounded(
            q_round as int,
            r_round as int,
            s_round as int,
            q_err_gt_r_err,
            q_err_gt_s_err,
            r_err_gt_s_err,
        ),
{
    if q_err_gt_r_err && q_err_gt_s_err {
        PointyHexGrid { x: -r_round - s_round, y: r_round }
    } else if r_err_gt_s_err {
        PointyHexGrid { x: q_round, y: -q_round - s_round }
    } else {
        PointyHexGrid { x: q_round, y: r_round }
    }
}

/// Round-trip law of the snap: when the rounded cube components already
/// satisfy the cube constraint `q + r + s == 0` — as they do whenever the
/// point being snapped is exactly the center of a grid cell, where every
/// rounding error is zero — the snap returns the cell `(q, r)` unchanged,
/// whichever error comparisons are presented to it.
pub proof fn lemma_snap_cell_center(
    q: int,
    r: int,
    s: int,
    q_err_gt_r_err: bool,
    q_err_gt_s_err: bool,
    r_err_gt_s_err: bool,
)
    requires
        q + r + s == 0,
    ensures
        spec_snap_rounded(q, r, s, q_err_gt_r_err, q_err_gt_s_err, r_err_gt_s_err) == (q, r),
{
}

} // verus!

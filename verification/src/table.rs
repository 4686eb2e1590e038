//! Generic flat storage for a hexagonal field: one value per slot of the
//! square grid, with every access routed through the bounds predicate of
//! `addressing`, so that padding slots can never be read or written.

use vstd::prelude::*;
use crate::addressing;
use crate::addressing::{cell_in_bounds, cell_index, lemma_cell_index_bounds};

verus! {

/// Hexagonal table storage: a square, row-major buffer of `hex_bound^2`
/// values, of which only the diamond-clipped hexagonal field is addressable.
pub struct HexagonalTable<T> {
    pub hex_per_side: usize,
    pub hex_bound: usize,
    pub buf: Vec<T>,
}

impl<T> HexagonalTable<T> where T: Copy {
    /// Internal consistency of the table: the stored bound matches the side
    /// count, and the buffer covers the whole square grid.
    pub open spec fn wf(self) -> bool {
        &&& 1 <= self.hex_per_side
        &&& self.hex_bound == addressing::hex_bound(self.hex_per_side as int)
        &&& self.buf@.len() == self.hex_bound * self.hex_bound
        &&& self.hex_bound * self.hex_bound <= usize::MAX
    }

    /// The side count the table was created with.
    pub open spec fn spec_hexagons_per_side(self) -> int {
        self.hex_per_side as int
    }

    /// The value stored at slot `(x, y)`.
    pub open spec fn spec_at(self, x: int, y: int) -> T {
        self.buf@[cell_index(self.hex_per_side as int, x, y)]
    }

    /// Create a table with every slot holding `fill`.
    ///
    /// The side count must be positive, and small enough that the square
    /// buffer fits in a `usize`-indexed allocation.
    pub fn new(hex_per_side: usize, fill: T) -> (table: Self)
        requires
            1 <= hex_per_side,
            (2 * hex_per_side - 1) * (2 * hex_per_side - 1) <= usize::MAX,
        ensures
            table.wf(),
            table.spec_hexagons_per_side() == hex_per_side,
            forall|x: int, y: int|
                0 <= x < addressing::hex_bound(hex_per_side as int) && 0 <= y
                    < addressing::hex_bound(hex_per_side as int) ==> table.spec_at(x, y) == fill,
    {
        let ghost b = 2 * hex_per_side as int - 1;
        proof {
            assert(b + 1 <= b * b || b == 1) by (nonlinear_arith)
                requires
                    b >= 1,
            ;
        }
        let hex_bound = 2 * hex_per_side - 1;
        let total = hex_bound * hex_bound;
        let mut buf: Vec<T> = Vec::new();
        let mut i: usize = 0;
        while i < total
            invariant
                i <= total,
                buf@.len() == i,
                forall|j: int| 0 <= j < i ==> buf@[j] == fill,
            decreases total - i,
        {
            buf.push(fill);
            i = i + 1;
        }
        let table = Self { hex_per_side, hex_bound, buf };
        proof {
            assert forall|x: int, y: int|
                0 <= x < addressing::hex_bound(hex_per_side as int) && 0 <= y
                    < addressing::hex_bound(hex_per_side as int) implies table.spec_at(x, y)
                == fill by {
                lemma_cell_index_bounds(hex_per_side as int, x, y);
            }
        }
        table
    }

    /// Number of hexagons per side.
    pub fn hexagons_per_side(&self) -> (n: usize)
        ensures
            n == self.spec_hexagons_per_side(),
    {
        self.hex_per_side
    }

    /// Width of the square storage grid.
    pub fn hexagons_bound(&self) -> (b: usize)
        requires
            self.wf(),
        ensures
            b == addressing::hex_bound(self.spec_hexagons_per_side()),
    {
        self.hex_bound
    }

    /// Check whether `(x, y)` lies outside the hexagonal field.
    pub fn is_out_of_bound(&self, hex: (i32, i32)) -> (r: bool)
        requires
            self.wf(),
        ensures
            r == !cell_in_bounds(self.spec_hexagons_per_side(), hex.0 as int, hex.1 as int),
    {
        proof {
            assert(self.hex_bound <= 0xffff_ffff) by (nonlinear_arith)
                requires
                    self.hex_bound * self.hex_bound <= usize::MAX,
                    usize::MAX <= 0xffff_ffff_ffff_ffff,
            ;
        }
        let b = self.hex_bound as i64;
        let side = self.hex_per_side as i64;
        let x = hex.0 as i64;
        let y = hex.1 as i64;
        x < 0 || y < 0 || x >= b || y >= b || x + y < side - 1 || x + y > 3 * (side - 1)
    }

    /// Read the value at `(x, y)`; `None` exactly when the slot is out of
    /// the hexagonal field.
    pub fn get(&self, hex: (i32, i32)) -> (r: Option<&T>)
        requires
            self.wf(),
        ensures
            match r {
                Some(v) => cell_in_bounds(self.spec_hexagons_per_side(), hex.0 as int, hex.1 as int)
                    && *v == self.spec_at(hex.0 as int, hex.1 as int),
                None => !cell_in_bounds(self.spec_hexagons_per_side(), hex.0 as int, hex.1 as int),
            },
    {
        if self.is_out_of_bound(hex) {
            None
        } else {
            proof {
                lemma_cell_index_bounds(self.hex_per_side as int, hex.0 as int, hex.1 as int);
            }
            Some(&self.buf[(hex.1 as usize) * self.hex_bound + (hex.0 as usize)])
        }
    }

    /// Mutable access to the value at `(x, y)`; `None` exactly when the
    /// slot is out of the hexagonal field, and then nothing changes.
    pub fn get_mut(&mut self, hex: (i32, i32)) -> (r: Option<&mut T>)
        requires
            old(self).wf(),
        ensures
            final(self).wf(),
            final(self).hex_per_side == old(self).hex_per_side,
            final(self).hex_bound == old(self).hex_bound,
            match r {
                Some(v) => cell_in_bounds(
                    old(self).spec_hexagons_per_side(),
                    hex.0 as int,
                    hex.1 as int,
                ) && *v == old(self).buf@[cell_index(
                    old(self).spec_hexagons_per_side(),
                    hex.0 as int,
                    hex.1 as int,
                )] && final(self).buf@ == old(self).buf@.update(
                    cell_index(old(self).spec_hexagons_per_side(), hex.0 as int, hex.1 as int),
                    *final(v),
                ),
                None => !cell_in_bounds(
                    old(self).spec_hexagons_per_side(),
                    hex.0 as int,
                    hex.1 as int,
                ) && final(self).buf@ == old(self).buf@,
            },
    {
        if self.is_out_of_bound(hex) {
            None
        } else {
            proof {
                lemma_cell_index_bounds(self.hex_per_side as int, hex.0 as int, hex.1 as int);
            }
            Some(&mut self.buf[(hex.1 as usize) * self.hex_bound + (hex.0 as usize)])
        }
    }

    /// Write `value` at `(x, y)`; returns whether the slot was inside the
    /// hexagonal field and therefore written.
    pub fn set(&mut self, hex: (i32, i32), value: T) -> (r: bool)
        requires
            old(self).wf(),
        ensures
            final(self).wf(),
            final(self).hex_per_side == old(self).hex_per_side,
            final(self).hex_bound == old(self).hex_bound,
            r == cell_in_bounds(old(self).spec_hexagons_per_side(), hex.0 as int, hex.1 as int),
            r ==> final(self).buf@ == old(self).buf@.update(
                cell_index(old(self).spec_hexagons_per_side(), hex.0 as int, hex.1 as int),
                value,
            ),
            !r ==> final(self).buf@ == old(self).buf@,
    {
        if self.is_out_of_bound(hex) {
            false
        } else {
            proof {
                lemma_cell_index_bounds(self.hex_per_side as int, hex.0 as int, hex.1 as int);
            }
            self.buf[(hex.1 as usize) * self.hex_bound + (hex.0 as usize)] = value;
            true
        }
    }
}

} // verus!

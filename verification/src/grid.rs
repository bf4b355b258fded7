//! The occupancy grid: a fixed 8 by 8 square of cells, each either solid
//! or empty, constructed once and read-only thereafter.

use vstd::prelude::*;

use crate::fixed::FP_SCALE;

verus! {

/// Cells per side of the square grid.
pub const GRID_SIDE: i64 = 8;

/// Total number of cells.
pub const GRID_CELLS: usize = 64;

/// World units per cell side.
pub const CELL_WORLD: i64 = 64;

/// One cell side in fixed point.
pub const CELL_FP: i64 = CELL_WORLD * FP_SCALE;

/// Grid coordinate containing a fixed-point world position: the floor of
/// the position over the cell size.
pub open spec fn cell_of(pos: int) -> int {
    pos / (CELL_FP as int)
}

/// The occupancy grid, indexed linearly by `row * GRID_SIDE + column`.
pub struct GridMap {
    pub cells: Vec<bool>,
}

impl GridMap {
    pub open spec fn wf(&self) -> bool {
        self.cells@.len() == GRID_CELLS
    }

    /// Whether the cell at (column, row) registers as a wall. Lookups fail
    /// closed: coordinates outside the grid are non-solid. The linear index
    /// must additionally be strictly positive, so cell (0, 0) never
    /// registers as a wall; this corner exemption is a deliberate part of
    /// the boundary rule.
    pub open spec fn solid_at(&self, col: int, row: int) -> bool {
        &&& 0 <= col < GRID_SIDE
        &&& 0 <= row < GRID_SIDE
        &&& row * GRID_SIDE + col > 0
        &&& self.cells@[row * GRID_SIDE + col]
    }

    /// Accepts exactly a layout with one occupancy value per cell.
    pub fn new(cells: Vec<bool>) -> (r: Option<GridMap>)
        ensures
            match r {
                Some(m) => m.wf() && m.cells@ == cells@,
                None => cells@.len() != GRID_CELLS,
            },
    {
        if cells.len() == GRID_CELLS {
            Some(GridMap { cells })
        } else {
            None
        }
    }

    /// The boundary-checked wall query used by movement and ray marching.
    pub fn is_solid(&self, col: i64, row: i64) -> (b: bool)
        requires
            self.wf(),
        ensures
            b == self.solid_at(col as int, row as int),
    {
        if 0 <= col && col < GRID_SIDE && 0 <= row && row < GRID_SIDE {
            let idx = row * GRID_SIDE + col;
            if idx > 0 {
                self.cells[idx as usize]
            } else {
                false
            }
        } else {
            false
        }
    }

    /// The raw occupancy of an in-range cell, without the boundary rule;
    /// the front end reads this to draw the map panel.
    pub fn occupied(&self, col: i64, row: i64) -> (b: bool)
        requires
            self.wf(),
            0 <= col < GRID_SIDE,
            0 <= row < GRID_SIDE,
        ensures
            b == self.cells@[row * GRID_SIDE + col],
    {
        self.cells[(row * GRID_SIDE + col) as usize]
    }
}

/// Grid coordinate of a fixed-point world position, defined for positions
/// on either side of the origin.
pub fn cell_floor(pos: i64) -> (r: i64)
    requires
        -0x4000_0000_0000_0000 <= pos <= 0x4000_0000_0000_0000,
    ensures
        r == cell_of(pos as int),
{
    let d: u64 = CELL_FP as u64;
    if pos >= 0 {
        ((pos as u64) / d) as i64
    } else {
        let n: u64 = (-pos) as u64;
        let q: u64 = (n + d - 1) / d;
        proof {
            lemma_neg_ceil_div(n as int, d as int);
        }
        -(q as i64)
    }
}

/// The cell coordinate is monotone in the position.
pub proof fn lemma_cell_of_mono(p1: int, p2: int)
    requires
        p1 <= p2,
    ensures
        cell_of(p1) <= cell_of(p2),
{
    vstd::arithmetic::div_mod::lemma_div_is_ordered(p1, p2, CELL_FP as int);
}

/// A position on an exact cell boundary maps to that cell.
pub proof fn lemma_cell_of_exact(k: int)
    ensures
        cell_of(k * CELL_FP) == k,
{
    vstd::arithmetic::div_mod::lemma_div_multiples_vanish(k, CELL_FP as int);
    assert(k * (CELL_FP as int) == (CELL_FP as int) * k) by (nonlinear_arith);
}

/// A position within a cell's half-open extent maps to that cell.
pub proof fn lemma_cell_of_range(pos: int, k: int)
    requires
        k * CELL_FP <= pos < (k + 1) * CELL_FP,
    ensures
        cell_of(pos) == k,
{
    assert((k + 1) * (CELL_FP as int) == k * (CELL_FP as int) + CELL_FP) by (nonlinear_arith);
    vstd::arithmetic::div_mod::lemma_fundamental_div_mod_converse(
        pos,
        CELL_FP as int,
        k,
        pos - k * CELL_FP,
    );
}

/// Every position lies within the extent of its own cell.
pub proof fn lemma_cell_of_extent(pos: int)
    ensures
        cell_of(pos) * CELL_FP <= pos < (cell_of(pos) + 1) * CELL_FP,
{
    let d = CELL_FP as int;
    let q = pos / d;
    vstd::arithmetic::div_mod::lemma_fundamental_div_mod(pos, d);
    assert(0 <= pos % d < d) by {
        vstd::arithmetic::div_mod::lemma_mod_division_less_than_divisor(pos, d);
    }
    assert(d * q == q * d) by (nonlinear_arith);
    assert((q + 1) * d == q * d + d) by (nonlinear_arith);
}

/// Floor division of a negative value expressed through a ceiling division
/// of its magnitude: -((n + d - 1) / d) == (-n) / d for n >= 0, d > 0.
proof fn lemma_neg_ceil_div(n: int, d: int)
    requires
        n >= 0,
        d > 0,
    ensures
        -((n + d - 1) / d) == (-n) / d,
{
    let q = n / d;
    let r = n % d;
    vstd::arithmetic::div_mod::lemma_fundamental_div_mod(n, d);
    if r == 0 {
        assert(n + d - 1 == q * d + (d - 1));
        vstd::arithmetic::div_mod::lemma_fundamental_div_mod_converse(n + d - 1, d, q, d - 1);
        assert(-n == (-q) * d + 0) by (nonlinear_arith)
            requires n == q * d + 0,
        ;
        vstd::arithmetic::div_mod::lemma_fundamental_div_mod_converse(-n, d, -q, 0);
    } else {
        assert(n + d - 1 == (q + 1) * d + (r - 1)) by (nonlinear_arith)
            requires n == q * d + r,
        ;
        vstd::arithmetic::div_mod::lemma_fundamental_div_mod_converse(n + d - 1, d, q + 1, r - 1);
        assert(-n == (-(q + 1)) * d + (d - r)) by (nonlinear_arith)
            requires n == q * d + r,
        ;
        vstd::arithmetic::div_mod::lemma_fundamental_div_mod_converse(-n, d, -(q + 1), d - r);
    }
}

} // verus!

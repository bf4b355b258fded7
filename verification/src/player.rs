//! The player: position, facing angle, direction vector, and
//! collision-aware movement with wall-sliding.

use vstd::prelude::*;

use crate::angle::{wrap1, wrap_angle, ANG_FULL};
use crate::fixed::{tdiv, tdiv_i64, FP_SCALE};
use crate::grid::{cell_floor, cell_of, GridMap};
use crate::trig::{cos_fixed, cos_of, sin_fixed, sin_of, TrigTable};

verus! {

/// Scale of the direction vector: `direction == (cos, sin) * DIR_SCALE`.
pub const DIR_SCALE: i64 = 5;

/// Look-ahead margin, in fixed point, used by the collision checks.
pub const WALL_MARGIN_FP: i64 = 15 * FP_SCALE;

/// Largest position magnitude movement accepts; far outside any grid, but
/// keeps all movement arithmetic exact.
pub const MOVE_LIMIT: i64 = 0x100_0000_0000;

/// Largest movement speed accepted, in fixed point (four world units per
/// unit of direction).
pub const SPEED_LIMIT: i64 = 4 * FP_SCALE;

/// An RGBA colour, a rendering-only attribute.
#[derive(Clone, Copy, PartialEq, Eq, Structural, Debug)]
pub struct Rgba {
    pub r: u8,
    pub g: u8,
    pub b: u8,
    pub a: u8,
}

pub struct Player {
    pub x_pos: i64,
    pub y_pos: i64,
    pub delta_x: i64,
    pub delta_y: i64,
    pub angle: i64,
    pub size: i64,
    pub color: Rgba,
}

/// The look-ahead offset on one axis: a fixed margin in the direction of
/// travel on that axis.
pub open spec fn look_offset(delta: int) -> int {
    if delta < 0 {
        -WALL_MARGIN_FP as int
    } else {
        WALL_MARGIN_FP as int
    }
}

/// One frame's displacement on one axis: the direction component scaled by
/// the movement speed.
pub open spec fn step_of(delta: int, speed: int) -> int {
    tdiv(delta * speed, FP_SCALE as int)
}

impl Player {
    /// The direction vector is always consistent with the facing angle,
    /// relative to the one sine table the session uses.
    pub open spec fn wf(&self, t: TrigTable) -> bool {
        &&& 0 <= self.angle <= ANG_FULL
        &&& self.delta_x == DIR_SCALE * cos_of(t, self.angle as int)
        &&& self.delta_y == DIR_SCALE * sin_of(t, self.angle as int)
    }

    pub fn new(t: &TrigTable, x_pos: i64, y_pos: i64, angle: i64, size: i64, color: Rgba) -> (p:
        Player)
        requires
            t.wf(),
            0 <= angle <= ANG_FULL,
        ensures
            p.wf(*t),
            p.x_pos == x_pos,
            p.y_pos == y_pos,
            p.angle == angle,
            p.size == size,
            p.color == color,
    {
        let delta_x = DIR_SCALE * cos_fixed(t, angle);
        let delta_y = DIR_SCALE * sin_fixed(t, angle);
        Player { x_pos, y_pos, delta_x, delta_y, angle, size, color }
    }

    /// Adds the increment to the facing angle, wraps by one conditional
    /// add/subtract of a full turn, and recomputes the direction vector.
    pub fn turn(&mut self, t: &TrigTable, delta: i64)
        requires
            old(self).wf(*t),
            t.wf(),
            -ANG_FULL <= delta <= ANG_FULL,
        ensures
            final(self).wf(*t),
            final(self).angle == wrap1(old(self).angle + delta),
            final(self).x_pos == old(self).x_pos,
            final(self).y_pos == old(self).y_pos,
            final(self).size == old(self).size,
            final(self).color == old(self).color,
    {
        let a = wrap_angle(self.angle + delta);
        self.angle = a;
        self.delta_x = DIR_SCALE * cos_fixed(t, a);
        self.delta_y = DIR_SCALE * sin_fixed(t, a);
    }

    /// Moves one frame forward with axis-separated collision: the X
    /// component is applied only if the cell one margin ahead along X (in
    /// the current row) is non-solid, the Y component only if the cell one
    /// margin ahead along Y (in the current column) is non-solid. Blocking
    /// one axis leaves motion on the other intact (wall-sliding).
    pub fn move_forward(&mut self, map: &GridMap, speed: i64)
        requires
            old(self).wf_move(),
            map.wf(),
            0 <= speed <= SPEED_LIMIT,
        ensures
            final(self).x_pos == (if !map.solid_at(
                cell_of(old(self).x_pos + look_offset(old(self).delta_x as int)),
                cell_of(old(self).y_pos as int),
            ) {
                old(self).x_pos + step_of(old(self).delta_x as int, speed as int)
            } else {
                old(self).x_pos as int
            }),
            final(self).y_pos == (if !map.solid_at(
                cell_of(old(self).x_pos as int),
                cell_of(old(self).y_pos + look_offset(old(self).delta_y as int)),
            ) {
                old(self).y_pos + step_of(old(self).delta_y as int, speed as int)
            } else {
                old(self).y_pos as int
            }),
            final(self).delta_x == old(self).delta_x,
            final(self).delta_y == old(self).delta_y,
            final(self).angle == old(self).angle,
            final(self).size == old(self).size,
            final(self).color == old(self).color,
    {
        let x_off: i64 = if self.delta_x < 0 { -WALL_MARGIN_FP } else { WALL_MARGIN_FP };
        let y_off: i64 = if self.delta_y < 0 { -WALL_MARGIN_FP } else { WALL_MARGIN_FP };
        let col_now = cell_floor(self.x_pos);
        let row_now = cell_floor(self.y_pos);
        let col_ahead = cell_floor(self.x_pos + x_off);
        let row_ahead = cell_floor(self.y_pos + y_off);
        proof {
            crate::fixed::lemma_mul_bound(
                self.delta_x as int,
                speed as int,
                DIR_SCALE * FP_SCALE,
                SPEED_LIMIT as int,
            );
            crate::fixed::lemma_mul_bound(
                self.delta_y as int,
                speed as int,
                DIR_SCALE * FP_SCALE,
                SPEED_LIMIT as int,
            );
            crate::fixed::lemma_tdiv_le(
                self.delta_x * speed,
                FP_SCALE as int,
                DIR_SCALE * SPEED_LIMIT,
            );
            crate::fixed::lemma_tdiv_le(
                self.delta_y * speed,
                FP_SCALE as int,
                DIR_SCALE * SPEED_LIMIT,
            );
        }
        if !map.is_solid(col_ahead, row_now) {
            self.x_pos = self.x_pos + tdiv_i64(self.delta_x * speed, FP_SCALE);
        }
        if !map.is_solid(col_now, row_ahead) {
            self.y_pos = self.y_pos + tdiv_i64(self.delta_y * speed, FP_SCALE);
        }
    }

    /// Moves one frame backward: the same look-ahead margins as forward
    /// motion, but probed and applied against the direction of travel.
    pub fn move_backward(&mut self, map: &GridMap, speed: i64)
        requires
            old(self).wf_move(),
            map.wf(),
            0 <= speed <= SPEED_LIMIT,
        ensures
            final(self).x_pos == (if !map.solid_at(
                cell_of(old(self).x_pos - look_offset(old(self).delta_x as int)),
                cell_of(old(self).y_pos as int),
            ) {
                old(self).x_pos - step_of(old(self).delta_x as int, speed as int)
            } else {
                old(self).x_pos as int
            }),
            final(self).y_pos == (if !map.solid_at(
                cell_of(old(self).x_pos as int),
                cell_of(old(self).y_pos - look_offset(old(self).delta_y as int)),
            ) {
                old(self).y_pos - step_of(old(self).delta_y as int, speed as int)
            } else {
                old(self).y_pos as int
            }),
            final(self).delta_x == old(self).delta_x,
            final(self).delta_y == old(self).delta_y,
            final(self).angle == old(self).angle,
            final(self).size == old(self).size,
            final(self).color == old(self).color,
    {
        let x_off: i64 = if self.delta_x < 0 { -WALL_MARGIN_FP } else { WALL_MARGIN_FP };
        let y_off: i64 = if self.delta_y < 0 { -WALL_MARGIN_FP } else { WALL_MARGIN_FP };
        let col_now = cell_floor(self.x_pos);
        let row_now = cell_floor(self.y_pos);
        let col_behind = cell_floor(self.x_pos - x_off);
        let row_behind = cell_floor(self.y_pos - y_off);
        proof {
            crate::fixed::lemma_mul_bound(
                self.delta_x as int,
                speed as int,
                DIR_SCALE * FP_SCALE,
                SPEED_LIMIT as int,
            );
            crate::fixed::lemma_mul_bound(
                self.delta_y as int,
                speed as int,
                DIR_SCALE * FP_SCALE,
                SPEED_LIMIT as int,
            );
            crate::fixed::lemma_tdiv_le(
                self.delta_x * speed,
                FP_SCALE as int,
                DIR_SCALE * SPEED_LIMIT,
            );
            crate::fixed::lemma_tdiv_le(
                self.delta_y * speed,
                FP_SCALE as int,
                DIR_SCALE * SPEED_LIMIT,
            );
        }
        if !map.is_solid(col_behind, row_now) {
            self.x_pos = self.x_pos - tdiv_i64(self.delta_x * speed, FP_SCALE);
        }
        if !map.is_solid(col_now, row_behind) {
            self.y_pos = self.y_pos - tdiv_i64(self.delta_y * speed, FP_SCALE);
        }
    }

    /// Bounds under which one movement step stays exact: the position well
    /// inside the representable range and a direction vector in range.
    pub open spec fn wf_move(&self) -> bool {
        &&& -MOVE_LIMIT <= self.x_pos <= MOVE_LIMIT
        &&& -MOVE_LIMIT <= self.y_pos <= MOVE_LIMIT
        &&& -DIR_SCALE * FP_SCALE <= self.delta_x <= DIR_SCALE * FP_SCALE
        &&& -DIR_SCALE * FP_SCALE <= self.delta_y <= DIR_SCALE * FP_SCALE
    }
}

/// Turning by an increment and then back by the same increment restores
/// the facing angle exactly, and with it the direction vector, in either
/// order, for any facing angle strictly inside the wrapped range.
pub proof fn lemma_turn_round_trip(a: int, d: int)
    requires
        0 < a < ANG_FULL,
        0 <= d <= ANG_FULL,
    ensures
        wrap1(wrap1(a - d) + d) == a,
        wrap1(wrap1(a + d) - d) == a,
{
}

} // verus!

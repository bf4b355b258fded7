//! The projector: turns one ray result into a drawable vertical wall
//! slice, clamped to the viewport.

use vstd::prelude::*;

use crate::fixed::{tdiv, FP_SCALE};
use crate::grid::CELL_WORLD;
use crate::player::Rgba;
use crate::ray::{Orientation, RayResult, DIST_SENTINEL};

verus! {

/// Screen-space parameters of the projected view.
pub struct ScreenConfig {
    /// Height of the viewport in pixels; also the clamp for slice heights.
    pub viewport_height: i64,
    /// Calibration constant multiplying the cell size in the height
    /// formula.
    pub projection_constant: i64,
    /// Width of one vertical slice in pixels.
    pub slice_width: i64,
    /// Horizontal pixel offset of the projected view.
    pub x_offset: i64,
}

impl ScreenConfig {
    pub open spec fn wf(&self) -> bool {
        &&& 0 < self.viewport_height <= 0x10_0000
        &&& 0 < self.projection_constant <= 0x10_0000
        &&& 0 < self.slice_width <= 0x1000
        &&& 0 <= self.x_offset <= 0x10_0000
    }
}

/// One vertical strip of the projected view.
pub struct WallSlice {
    pub x_position: i64,
    pub top_y: i64,
    pub height: i64,
    pub color: Rgba,
}

/// Slice height in pixels: inverse in the corrected distance, clamped to
/// the viewport height. A degenerate (non-positive) distance produces the
/// fully clamped height rather than a division by zero.
pub open spec fn slice_height(cfg: ScreenConfig, dist: int) -> int {
    if dist <= 0 {
        cfg.viewport_height as int
    } else {
        let h = tdiv(CELL_WORLD * cfg.projection_constant * FP_SCALE, dist);
        if h > cfg.viewport_height {
            cfg.viewport_height as int
        } else {
            h
        }
    }
}

/// The two shades of the projected walls, keyed on which grid-line family
/// produced the hit.
pub open spec fn shade_of(o: Orientation) -> Rgba {
    match o {
        Orientation::VerticalFace => Rgba { r: 200, g: 0, b: 0, a: 255 },
        Orientation::HorizontalFace => Rgba { r: 175, g: 0, b: 0, a: 255 },
    }
}

/// Projects one ray result to its wall slice: height inverse in the
/// corrected distance and clamped, slice vertically centred, horizontal
/// position from the ray index. The height never exceeds the configured
/// viewport height, for every distance from the sentinel down to and
/// below zero.
pub fn project(r: &RayResult, ray_index: usize, cfg: &ScreenConfig) -> (s: WallSlice)
    requires
        cfg.wf(),
        ray_index <= 0x10_0000,
        -DIST_SENTINEL <= r.distance <= DIST_SENTINEL,
    ensures
        s.height == slice_height(*cfg, r.distance as int),
        0 <= s.height <= cfg.viewport_height,
        s.top_y == cfg.viewport_height / 2 - s.height / 2,
        s.x_position == ray_index * cfg.slice_width + cfg.x_offset,
        s.color == shade_of(r.orientation),
{
    proof {
        crate::fixed::lemma_mul_bound(
            CELL_WORLD as int,
            cfg.projection_constant as int,
            CELL_WORLD as int,
            0x10_0000,
        );
        crate::fixed::lemma_mul_bound(
            CELL_WORLD * cfg.projection_constant as int,
            FP_SCALE as int,
            CELL_WORLD * 0x10_0000,
            FP_SCALE as int,
        );
        assert(CELL_WORLD * (cfg.projection_constant as int) * (FP_SCALE as int) > 0)
            by (nonlinear_arith)
            requires
                CELL_WORLD as int > 0,
                cfg.projection_constant as int > 0,
                FP_SCALE as int > 0,
        ;
        crate::fixed::lemma_mul_bound(
            ray_index as int,
            cfg.slice_width as int,
            0x10_0000,
            0x1000,
        );
    }
    let num: i64 = CELL_WORLD * cfg.projection_constant * FP_SCALE;
    let height: i64 = if r.distance <= 0 {
        cfg.viewport_height
    } else {
        let h: i64 = ((num as u64) / (r.distance as u64)) as i64;
        proof {
            vstd::arithmetic::div_mod::lemma_div_pos_is_pos(num as int, r.distance as int);
            vstd::arithmetic::div_mod::lemma_div_nonincreasing(num as int, r.distance as int);
            assert(h == tdiv(num as int, r.distance as int));
        }
        if h > cfg.viewport_height {
            cfg.viewport_height
        } else {
            h
        }
    };
    let top_y: i64 = ((cfg.viewport_height as u64) / 2) as i64 - ((height as u64) / 2) as i64;
    let x_position: i64 = (ray_index as i64) * cfg.slice_width + cfg.x_offset;
    let color = match r.orientation {
        Orientation::VerticalFace => Rgba { r: 200, g: 0, b: 0, a: 255 },
        Orientation::HorizontalFace => Rgba { r: 175, g: 0, b: 0, a: 255 },
    };
    WallSlice { x_position, top_y, height, color }
}

} // verus!

//! The ray caster: for a fan of rays around the player's facing angle,
//! find the nearest wall intersection by marching against the horizontal
//! and against the vertical grid lines, pick the closer candidate, and
//! correct the radial distance to a perpendicular one.

use vstd::prelude::*;

use crate::angle::{wrap1, wrap_angle, ANG_FULL, ANG_HALF, ANG_QUARTER, ANG_THREE_QUARTER};
use crate::fixed::{lemma_mul_bound, lemma_tdiv_le, tdiv, tdiv_i64, FP_SCALE};
use crate::geom::{dist_fp, distance};
use crate::grid::{
    cell_floor, cell_of, lemma_cell_of_exact, lemma_cell_of_extent, lemma_cell_of_mono,
    lemma_cell_of_range, GridMap, CELL_FP, CELL_WORLD, GRID_SIDE,
};
use crate::player::Player;
use crate::trig::{cos_fixed, cos_of, sin_fixed, sin_of, TrigTable};

verus! {

/// Distance reported for a ray that found no wall within its step budget:
/// a value far beyond any real hit, which the projector clamps.
pub const DIST_SENTINEL: i64 = 1_000_000 * FP_SCALE;

/// Largest position magnitude the caster accepts, comfortably containing
/// the whole grid.
pub const POS_LIMIT: i64 = 16 * CELL_FP;

/// Which grid-line family produced a hit; used only for shading.
#[derive(Clone, Copy, PartialEq, Eq, Structural, Debug)]
pub enum Orientation {
    /// The hit lies on a horizontal grid line (a row boundary).
    HorizontalFace,
    /// The hit lies on a vertical grid line (a column boundary).
    VerticalFace,
}

/// One cast ray: its angle, the nearest wall intersection, the corrected
/// perpendicular distance, and the family of the hit.
pub struct RayResult {
    pub angle: i64,
    pub hit_x: i64,
    pub hit_y: i64,
    pub distance: i64,
    pub orientation: Orientation,
}

/// Angles with no vertical component: the horizontal-line search is
/// skipped there.
pub open spec fn row_axis(a: int) -> bool {
    a == 0 || a == ANG_HALF || a == ANG_FULL
}

/// Angles with no horizontal component: the vertical-line search is
/// skipped there.
pub open spec fn col_axis(a: int) -> bool {
    a == ANG_QUARTER || a == ANG_THREE_QUARTER
}

/// Slope term of the horizontal-line search: -cos/sin in Q16.
pub open spec fn arc_of(t: TrigTable, a: int) -> int {
    tdiv(-cos_of(t, a) * FP_SCALE, sin_of(t, a))
}

/// Slope term of the vertical-line search: -sin/cos in Q16.
pub open spec fn ntan_of(t: TrigTable, a: int) -> int {
    tdiv(-sin_of(t, a) * FP_SCALE, cos_of(t, a))
}

/// March along grid lines: probe the cell containing the current point;
/// stop on a registered wall, otherwise advance one full cell step, for at
/// most `fuel` probes.
pub open spec fn march(m: GridMap, x: int, y: int, xo: int, yo: int, fuel: nat) -> Option<
    (int, int),
>
    decreases fuel,
{
    if fuel == 0 {
        None
    } else if m.solid_at(cell_of(x), cell_of(y)) {
        Some((x, y))
    } else {
        march(m, x + xo, y + yo, xo, yo, (fuel - 1) as nat)
    }
}

/// Candidate of the horizontal-line search: starting from the row boundary
/// just below (or above) the player, step one row at a time.
pub open spec fn row_hit(m: GridMap, t: TrigTable, px: int, py: int, a: int) -> Option<
    (int, int),
> {
    if row_axis(a) {
        None
    } else {
        let arc = arc_of(t, a);
        let ry = if a < ANG_HALF {
            (cell_of(py) + 1) * CELL_FP
        } else {
            cell_of(py) * CELL_FP - 1
        };
        let rx = px + tdiv((py - ry) * arc, FP_SCALE as int);
        let yo = if a < ANG_HALF {
            CELL_FP as int
        } else {
            -CELL_FP as int
        };
        let xo = if a < ANG_HALF {
            -(CELL_WORLD * arc)
        } else {
            CELL_WORLD * arc
        };
        march(m, rx, ry, xo, yo, GRID_SIDE as nat)
    }
}

/// Candidate of the vertical-line search: starting from the column
/// boundary just right (or left) of the player, step one column at a time.
pub open spec fn col_hit(m: GridMap, t: TrigTable, px: int, py: int, a: int) -> Option<
    (int, int),
> {
    if col_axis(a) {
        None
    } else {
        let nt = ntan_of(t, a);
        let left = ANG_QUARTER < a < ANG_THREE_QUARTER;
        let rx = if left {
            cell_of(px) * CELL_FP - 1
        } else {
            (cell_of(px) + 1) * CELL_FP
        };
        let ry = py + tdiv((px - rx) * nt, FP_SCALE as int);
        let xo = if left {
            -CELL_FP as int
        } else {
            CELL_FP as int
        };
        let yo = if left {
            CELL_WORLD * nt
        } else {
            -(CELL_WORLD * nt)
        };
        march(m, rx, ry, xo, yo, GRID_SIDE as nat)
    }
}

/// Radial distance of a search outcome: the Euclidean distance to the hit,
/// or the sentinel if the search found nothing.
pub open spec fn hit_dist(px: int, py: int, h: Option<(int, int)>) -> int {
    match h {
        Some(p) => dist_fp(px, py, p.0, p.1),
        None => DIST_SENTINEL as int,
    }
}

/// Whether the horizontal-line candidate wins the selection: it keeps the
/// result on a tie.
pub open spec fn row_better(m: GridMap, t: TrigTable, px: int, py: int, a: int) -> bool {
    hit_dist(px, py, row_hit(m, t, px, py, a)) <= hit_dist(px, py, col_hit(m, t, px, py, a))
}

/// Selected hit point; the player's own position when neither search found
/// a wall.
pub open spec fn sel_point(m: GridMap, t: TrigTable, px: int, py: int, a: int) -> (int, int) {
    if row_better(m, t, px, py, a) {
        match row_hit(m, t, px, py, a) {
            Some(p) => p,
            None => (px, py),
        }
    } else {
        match col_hit(m, t, px, py, a) {
            Some(p) => p,
            None => (px, py),
        }
    }
}

/// Selected radial distance: the smaller of the two candidates.
pub open spec fn sel_raw(m: GridMap, t: TrigTable, px: int, py: int, a: int) -> int {
    if row_better(m, t, px, py, a) {
        hit_dist(px, py, row_hit(m, t, px, py, a))
    } else {
        hit_dist(px, py, col_hit(m, t, px, py, a))
    }
}

/// Shading family of the selected hit.
pub open spec fn sel_orient(m: GridMap, t: TrigTable, px: int, py: int, a: int) -> Orientation {
    if row_better(m, t, px, py, a) {
        Orientation::HorizontalFace
    } else {
        Orientation::VerticalFace
    }
}

/// Fisheye correction: scale a radial distance by the cosine of the delta
/// angle, turning it into the perpendicular distance from the projection
/// plane.
pub open spec fn corrected(t: TrigTable, raw: int, delta: int) -> int {
    tdiv(raw * cos_of(t, delta), FP_SCALE as int)
}

/// The corrected distance of the selected hit for a ray at angle `a` cast
/// by a player facing `facing`; the delta angle is wrapped by one pass.
pub open spec fn ray_dist(
    m: GridMap,
    t: TrigTable,
    px: int,
    py: int,
    a: int,
    facing: int,
) -> int {
    corrected(t, sel_raw(m, t, px, py, a), wrap1(facing - a))
}

/// Full characterisation of one cast ray.
pub open spec fn ray_matches(
    r: RayResult,
    m: GridMap,
    t: TrigTable,
    px: int,
    py: int,
    a: int,
    facing: int,
) -> bool {
    &&& r.angle == a
    &&& (r.hit_x as int, r.hit_y as int) == sel_point(m, t, px, py, a)
    &&& r.distance == ray_dist(m, t, px, py, a, facing)
    &&& r.orientation == sel_orient(m, t, px, py, a)
}

/// How one search's exec outcome relates to its spec candidate.
pub open spec fn search_outcome(
    px: int,
    py: int,
    h: Option<(int, int)>,
    hx: int,
    hy: int,
    d: int,
) -> bool {
    &&& d == hit_dist(px, py, h)
    &&& match h {
        Some(p) => (hx, hy) == p,
        None => hx == px && hy == py,
    }
}

/// Runs one marching loop shared by the two searches, relating the exec
/// state to the `march` spec.
#[verifier::rlimit(30)]
fn march_loop(map: &GridMap, px: i64, py: i64, sx: i64, sy: i64, xo: i64, yo: i64) -> (res: (
    i64,
    i64,
    i64,
))
    requires
        map.wf(),
        -POS_LIMIT <= px <= POS_LIMIT,
        -POS_LIMIT <= py <= POS_LIMIT,
        -0x100_0000_0000_0000 <= sx <= 0x100_0000_0000_0000,
        -0x100_0000_0000_0000 <= sy <= 0x100_0000_0000_0000,
        -0x40_0000_0000 <= xo <= 0x40_0000_0000,
        -0x40_0000_0000 <= yo <= 0x40_0000_0000,
    ensures
        search_outcome(
            px as int,
            py as int,
            march(*map, sx as int, sy as int, xo as int, yo as int, GRID_SIDE as nat),
            res.0 as int,
            res.1 as int,
            res.2 as int,
        ),
        0 <= res.2 <= DIST_SENTINEL,
{
    let mut rx: i64 = sx;
    let mut ry: i64 = sy;
    let mut hx: i64 = px;
    let mut hy: i64 = py;
    let mut dist: i64 = DIST_SENTINEL;
    let mut dof: u64 = 0;
    while dof < 8
        invariant
            map.wf(),
            -POS_LIMIT <= px <= POS_LIMIT,
            -POS_LIMIT <= py <= POS_LIMIT,
            -0x100_0000_0000_0000 <= sx <= 0x100_0000_0000_0000,
            -0x100_0000_0000_0000 <= sy <= 0x100_0000_0000_0000,
            -0x40_0000_0000 <= xo <= 0x40_0000_0000,
            -0x40_0000_0000 <= yo <= 0x40_0000_0000,
            dof <= 8,
            dist == DIST_SENTINEL ==> {
                &&& rx as int == sx + dof * (xo as int)
                &&& ry as int == sy + dof * (yo as int)
                &&& hx == px
                &&& hy == py
                &&& march(*map, rx as int, ry as int, xo as int, yo as int, (8 - dof) as nat)
                    == march(*map, sx as int, sy as int, xo as int, yo as int, GRID_SIDE as nat)
            },
            dist != DIST_SENTINEL ==> {
                &&& dof == 8
                &&& march(*map, sx as int, sy as int, xo as int, yo as int, GRID_SIDE as nat)
                    == Some((hx as int, hy as int))
                &&& dist == hit_dist(px as int, py as int, Some((hx as int, hy as int)))
                &&& 0 <= dist < DIST_SENTINEL
            },
        decreases 8 - dof,
    {
        proof {
            lemma_mul_bound(dof as int, xo as int, 8, 0x40_0000_0000);
            lemma_mul_bound(dof as int, yo as int, 8, 0x40_0000_0000);
        }
        let col = cell_floor(rx);
        let row = cell_floor(ry);
        if map.is_solid(col, row) {
            proof {
                lemma_cell_of_extent(rx as int);
                lemma_cell_of_extent(ry as int);
            }
            hx = rx;
            hy = ry;
            dist = distance(px, py, rx, ry);
            proof {
                assert(march(*map, rx as int, ry as int, xo as int, yo as int, (8 - dof) as nat)
                    == Some((rx as int, ry as int)));
            }
            dof = 8;
        } else {
            proof {
                assert(march(*map, rx as int, ry as int, xo as int, yo as int, (8 - dof) as nat)
                    == march(
                    *map,
                    rx + xo,
                    ry + yo,
                    xo as int,
                    yo as int,
                    (8 - (dof + 1)) as nat,
                ));
                assert((dof + 1) * (xo as int) == dof * (xo as int) + xo) by (nonlinear_arith);
                assert((dof + 1) * (yo as int) == dof * (yo as int) + yo) by (nonlinear_arith);
            }
            rx = rx + xo;
            ry = ry + yo;
            dof = dof + 1;
        }
    }
    (hx, hy, dist)
}

/// Horizontal-line search: computes the start point and per-row step from
/// the angle, then marches.
fn row_search(map: &GridMap, t: &TrigTable, px: i64, py: i64, a: i64) -> (res: (i64, i64, i64))
    requires
        map.wf(),
        t.wf(),
        0 <= a <= ANG_FULL,
        -POS_LIMIT <= px <= POS_LIMIT,
        -POS_LIMIT <= py <= POS_LIMIT,
    ensures
        search_outcome(
            px as int,
            py as int,
            row_hit(*map, *t, px as int, py as int, a as int),
            res.0 as int,
            res.1 as int,
            res.2 as int,
        ),
        0 <= res.2 <= DIST_SENTINEL,
{
    if a == 0 || a == ANG_HALF || a == ANG_FULL {
        return (px, py, DIST_SENTINEL);
    }
    let s = sin_fixed(t, a);
    let c = cos_fixed(t, a);
    proof {
        crate::trig::lemma_sin_shape(*t, a as int);
        lemma_mul_bound(-c as int, FP_SCALE as int, FP_SCALE as int, FP_SCALE as int);
        assert(vstd::math::abs((-c * FP_SCALE) as int) <= (FP_SCALE * FP_SCALE) * vstd::math::abs(
            s as int,
        )) by {
            vstd::arithmetic::mul::lemma_mul_inequality(
                1,
                vstd::math::abs(s as int) as int,
                FP_SCALE * FP_SCALE,
            );
        }
        lemma_tdiv_le(-c * FP_SCALE, s as int, FP_SCALE * FP_SCALE);
    }
    let arc = tdiv_i64(-c * FP_SCALE, s);
    let cy = cell_floor(py);
    proof {
        lemma_cell_of_mono(py as int, POS_LIMIT as int);
        lemma_cell_of_mono(-POS_LIMIT as int, py as int);
        lemma_cell_of_exact(16);
        lemma_cell_of_exact(-16);
        lemma_cell_of_extent(py as int);
        lemma_mul_bound(cy as int + 1, CELL_FP as int, 17, CELL_FP as int);
        lemma_mul_bound(cy as int, CELL_FP as int, 16, CELL_FP as int);
        assert((cy as int + 1) * (CELL_FP as int) == cy as int * (CELL_FP as int) + CELL_FP)
            by (nonlinear_arith);
        lemma_mul_bound(CELL_WORLD as int, arc as int, CELL_WORLD as int, FP_SCALE * FP_SCALE);
    }
    let sy: i64 = if a < ANG_HALF {
        (cy + 1) * CELL_FP
    } else {
        cy * CELL_FP - 1
    };
    let yo: i64 = if a < ANG_HALF {
        CELL_FP
    } else {
        -CELL_FP
    };
    let xo: i64 = if a < ANG_HALF {
        -(CELL_WORLD * arc)
    } else {
        CELL_WORLD * arc
    };
    proof {
        lemma_mul_bound((py - sy) as int, arc as int, CELL_FP as int, FP_SCALE * FP_SCALE);
    }
    let sh = tdiv_i64((py - sy) * arc, FP_SCALE);
    let sx = px + sh;
    march_loop(map, px, py, sx, sy, xo, yo)
}

/// Vertical-line search: symmetric to the horizontal one, marching one
/// column at a time.
fn col_search(map: &GridMap, t: &TrigTable, px: i64, py: i64, a: i64) -> (res: (i64, i64, i64))
    requires
        map.wf(),
        t.wf(),
        0 <= a <= ANG_FULL,
        -POS_LIMIT <= px <= POS_LIMIT,
        -POS_LIMIT <= py <= POS_LIMIT,
    ensures
        search_outcome(
            px as int,
            py as int,
            col_hit(*map, *t, px as int, py as int, a as int),
            res.0 as int,
            res.1 as int,
            res.2 as int,
        ),
        0 <= res.2 <= DIST_SENTINEL,
{
    if a == ANG_QUARTER || a == ANG_THREE_QUARTER {
        return (px, py, DIST_SENTINEL);
    }
    let s = sin_fixed(t, a);
    let c = cos_fixed(t, a);
    proof {
        crate::trig::lemma_cos_shape(*t, a as int);
        lemma_mul_bound(-s as int, FP_SCALE as int, FP_SCALE as int, FP_SCALE as int);
        assert(vstd::math::abs((-s * FP_SCALE) as int) <= (FP_SCALE * FP_SCALE) * vstd::math::abs(
            c as int,
        )) by {
            vstd::arithmetic::mul::lemma_mul_inequality(
                1,
                vstd::math::abs(c as int) as int,
                FP_SCALE * FP_SCALE,
            );
        }
        lemma_tdiv_le(-s * FP_SCALE, c as int, FP_SCALE * FP_SCALE);
    }
    let nt = tdiv_i64(-s * FP_SCALE, c);
    let cx = cell_floor(px);
    proof {
        lemma_cell_of_mono(px as int, POS_LIMIT as int);
        lemma_cell_of_mono(-POS_LIMIT as int, px as int);
        lemma_cell_of_exact(16);
        lemma_cell_of_exact(-16);
        lemma_cell_of_extent(px as int);
        lemma_mul_bound(cx as int + 1, CELL_FP as int, 17, CELL_FP as int);
        lemma_mul_bound(cx as int, CELL_FP as int, 16, CELL_FP as int);
        assert((cx as int + 1) * (CELL_FP as int) == cx as int * (CELL_FP as int) + CELL_FP)
            by (nonlinear_arith);
        lemma_mul_bound(CELL_WORLD as int, nt as int, CELL_WORLD as int, FP_SCALE * FP_SCALE);
    }
    let left: bool = ANG_QUARTER < a && a < ANG_THREE_QUARTER;
    let sx: i64 = if left {
        cx * CELL_FP - 1
    } else {
        (cx + 1) * CELL_FP
    };
    let xo: i64 = if left {
        -CELL_FP
    } else {
        CELL_FP
    };
    let yo: i64 = if left {
        CELL_WORLD * nt
    } else {
        -(CELL_WORLD * nt)
    };
    proof {
        lemma_mul_bound((px - sx) as int, nt as int, CELL_FP as int, FP_SCALE * FP_SCALE);
    }
    let sh = tdiv_i64((px - sx) * nt, FP_SCALE);
    let sy = py + sh;
    march_loop(map, px, py, sx, sy, xo, yo)
}

/// Casts one ray: runs both searches, keeps the strictly smaller candidate
/// (the horizontal one on a tie), and applies the fisheye correction
/// against the player's facing angle.
pub fn cast_ray(map: &GridMap, t: &TrigTable, px: i64, py: i64, a: i64, facing: i64) -> (r:
    RayResult)
    requires
        map.wf(),
        t.wf(),
        0 <= a <= ANG_FULL,
        0 <= facing <= ANG_FULL,
        -POS_LIMIT <= px <= POS_LIMIT,
        -POS_LIMIT <= py <= POS_LIMIT,
    ensures
        ray_matches(r, *map, *t, px as int, py as int, a as int, facing as int),
{
    let (hx, hy, dh) = row_search(map, t, px, py, a);
    let (vx, vy, dv) = col_search(map, t, px, py, a);
    let sx: i64;
    let sy: i64;
    let raw: i64;
    let orient: Orientation;
    if dh <= dv {
        sx = hx;
        sy = hy;
        raw = dh;
        orient = Orientation::HorizontalFace;
    } else {
        sx = vx;
        sy = vy;
        raw = dv;
        orient = Orientation::VerticalFace;
    }
    let d = wrap_angle(facing - a);
    let cf = cos_fixed(t, d);
    proof {
        lemma_mul_bound(raw as int, cf as int, DIST_SENTINEL as int, FP_SCALE as int);
        lemma_tdiv_le(raw * cf, FP_SCALE as int, DIST_SENTINEL as int);
    }
    let dist = tdiv_i64(raw * cf, FP_SCALE);
    RayResult { angle: a, hit_x: sx, hit_y: sy, distance: dist, orientation: orient }
}

/// Angle of the `i`-th ray of a fan: the starting angle is the facing
/// angle minus half the fan, and each ray advances by one step, every
/// angle wrapped by a single pass.
pub open spec fn fan_angle(facing: int, step: int, count: int, i: nat) -> int
    decreases i,
{
    if i == 0 {
        wrap1(facing - (count / 2) * step)
    } else {
        wrap1(fan_angle(facing, step, count, (i - 1) as nat) + step)
    }
}

/// Every fan angle stays within the wrapped range.
pub proof fn lemma_fan_angle_range(facing: int, step: int, count: int, i: nat)
    requires
        0 <= facing <= ANG_FULL,
        0 <= step <= ANG_FULL,
        0 <= count,
        count * step <= ANG_FULL,
    ensures
        0 <= fan_angle(facing, step, count, i) <= ANG_FULL,
    decreases i,
{
    if i == 0 {
        vstd::arithmetic::div_mod::lemma_div_is_ordered(0, count, 2);
        vstd::arithmetic::div_mod::lemma_div_nonincreasing(count, 2);
        vstd::arithmetic::mul::lemma_mul_inequality(count / 2, count, step);
        assert((count / 2) * step >= 0) by (nonlinear_arith)
            requires
                count / 2 >= 0,
                step >= 0,
        ;
    } else {
        lemma_fan_angle_range(facing, step, count, (i - 1) as nat);
    }
}

/// Casts the whole fan: `ray_count` rays in ascending angular order,
/// starting half a fan below the player's facing angle.
pub fn cast_fan(player: &Player, map: &GridMap, t: &TrigTable, ray_count: usize, step: i64) -> (v:
    Vec<RayResult>)
    requires
        map.wf(),
        t.wf(),
        0 <= player.angle <= ANG_FULL,
        -POS_LIMIT <= player.x_pos <= POS_LIMIT,
        -POS_LIMIT <= player.y_pos <= POS_LIMIT,
        0 <= step <= ANG_FULL,
        ray_count <= 3600,
        ray_count * step <= ANG_FULL,
    ensures
        v.len() == ray_count,
        forall|i: int|
            0 <= i < ray_count as int ==> ray_matches(
                #[trigger] v@[i],
                *map,
                *t,
                player.x_pos as int,
                player.y_pos as int,
                fan_angle(player.angle as int, step as int, ray_count as int, i as nat),
                player.angle as int,
            ),
{
    let facing = player.angle;
    let px = player.x_pos;
    let py = player.y_pos;
    let half = ray_count / 2;
    proof {
        vstd::arithmetic::div_mod::lemma_div_is_ordered(0, ray_count as int, 2);
        vstd::arithmetic::div_mod::lemma_div_nonincreasing(ray_count as int, 2);
        vstd::arithmetic::mul::lemma_mul_inequality(
            (ray_count / 2) as int,
            ray_count as int,
            step as int,
        );
        assert((ray_count / 2) as int * (step as int) >= 0) by (nonlinear_arith)
            requires
                (ray_count / 2) as int >= 0,
                step as int >= 0,
        ;
    }
    let mut ra = wrap_angle(facing - (half as i64) * step);
    let mut v: Vec<RayResult> = Vec::new();
    let mut i: usize = 0;
    while i < ray_count
        invariant
            map.wf(),
            t.wf(),
            0 <= facing <= ANG_FULL,
            facing == player.angle,
            px == player.x_pos,
            py == player.y_pos,
            -POS_LIMIT <= px <= POS_LIMIT,
            -POS_LIMIT <= py <= POS_LIMIT,
            0 <= step <= ANG_FULL,
            i <= ray_count,
            v.len() == i,
            ra == fan_angle(facing as int, step as int, ray_count as int, i as nat),
            0 <= ra <= ANG_FULL,
            forall|j: int|
                0 <= j < i as int ==> ray_matches(
                    #[trigger] v@[j],
                    *map,
                    *t,
                    px as int,
                    py as int,
                    fan_angle(facing as int, step as int, ray_count as int, j as nat),
                    facing as int,
                ),
        decreases ray_count - i,
    {
        let r = cast_ray(map, t, px, py, ra, facing);
        v.push(r);
        i = i + 1;
        ra = wrap_angle(ra + step);
    }
    v
}

/// A search outcome is never at a negative distance.
pub proof fn lemma_hit_dist_nonneg(px: int, py: int, h: Option<(int, int)>)
    ensures
        hit_dist(px, py, h) >= 0,
{
    match h {
        Some(p) => {
            assert(crate::geom::sq(p.0 - px) >= 0) by (nonlinear_arith);
            assert(crate::geom::sq(p.1 - py) >= 0) by (nonlinear_arith);
            crate::geom::lemma_sqrt_floor_props(
                crate::geom::sq(p.0 - px) + crate::geom::sq(p.1 - py),
            );
        },
        None => {},
    }
}

/// A hit within a bounded offset of the player lies strictly below the
/// sentinel distance.
proof fn lemma_dist_small(px: int, py: int, hx: int, hy: int)
    requires
        -0x1000_0000 <= hx - px <= 0x1000_0000,
        -0x1000_0000 <= hy - py <= 0x1000_0000,
    ensures
        0 <= dist_fp(px, py, hx, hy) < DIST_SENTINEL,
{
    let n = crate::geom::sq(hx - px) + crate::geom::sq(hy - py);
    assert(0 <= crate::geom::sq(hx - px) <= 0x1000_0000 * 0x1000_0000) by (nonlinear_arith)
        requires -0x1000_0000 <= hx - px <= 0x1000_0000,
    ;
    assert(0 <= crate::geom::sq(hy - py) <= 0x1000_0000 * 0x1000_0000) by (nonlinear_arith)
        requires -0x1000_0000 <= hy - py <= 0x1000_0000,
    ;
    crate::geom::lemma_sqrt_floor_props(n);
    let s = crate::geom::sqrt_floor(n);
    assert(s < DIST_SENTINEL) by (nonlinear_arith)
        requires
            s >= 0,
            s * s <= n,
            n <= 2 * 0x1000_0000 * 0x1000_0000,
            DIST_SENTINEL as int == 65536000000,
    ;
}

/// A march can only stop inside the grid: its hit point lies within the
/// grid's world extent.
proof fn lemma_march_in_grid(m: GridMap, x: int, y: int, xo: int, yo: int, fuel: nat)
    ensures
        match march(m, x, y, xo, yo, fuel) {
            Some(p) => 0 <= p.0 < GRID_SIDE * CELL_FP && 0 <= p.1 < GRID_SIDE * CELL_FP,
            None => true,
        },
    decreases fuel,
{
    if fuel > 0 {
        if m.solid_at(cell_of(x), cell_of(y)) {
            lemma_cell_of_extent(x);
            lemma_cell_of_extent(y);
            vstd::arithmetic::mul::lemma_mul_inequality(
                cell_of(x) + 1,
                GRID_SIDE as int,
                CELL_FP as int,
            );
            vstd::arithmetic::mul::lemma_mul_nonnegative(cell_of(x), CELL_FP as int);
            vstd::arithmetic::mul::lemma_mul_inequality(
                cell_of(y) + 1,
                GRID_SIDE as int,
                CELL_FP as int,
            );
            vstd::arithmetic::mul::lemma_mul_nonnegative(cell_of(y), CELL_FP as int);
        } else {
            lemma_march_in_grid(m, x + xo, y + yo, xo, yo, (fuel - 1) as nat);
        }
    }
}

/// The horizontal-line search can only hit inside the grid.
proof fn lemma_row_hit_in_grid(m: GridMap, t: TrigTable, px: int, py: int, a: int)
    ensures
        match row_hit(m, t, px, py, a) {
            Some(p) => 0 <= p.0 < GRID_SIDE * CELL_FP && 0 <= p.1 < GRID_SIDE * CELL_FP,
            None => true,
        },
{
    if !row_axis(a) {
        let arc = arc_of(t, a);
        let ry = if a < ANG_HALF {
            (cell_of(py) + 1) * CELL_FP
        } else {
            cell_of(py) * CELL_FP - 1
        };
        let rx = px + tdiv((py - ry) * arc, FP_SCALE as int);
        let yo = if a < ANG_HALF {
            CELL_FP as int
        } else {
            -CELL_FP as int
        };
        let xo = if a < ANG_HALF {
            -(CELL_WORLD * arc)
        } else {
            CELL_WORLD * arc
        };
        lemma_march_in_grid(m, rx, ry, xo, yo, GRID_SIDE as nat);
    }
}

/// At an angle parallel to the horizontal grid lines the search against
/// them is skipped and contributes no candidate: whenever the other
/// search finds a wall, the selected result comes from that family.
pub proof fn lemma_row_axis_skip(m: GridMap, t: TrigTable, px: int, py: int, a: int)
    requires
        row_axis(a),
    ensures
        row_hit(m, t, px, py, a) == None::<(int, int)>,
        hit_dist(px, py, col_hit(m, t, px, py, a)) < DIST_SENTINEL ==> {
            &&& sel_orient(m, t, px, py, a) == Orientation::VerticalFace
            &&& sel_raw(m, t, px, py, a) == hit_dist(px, py, col_hit(m, t, px, py, a))
        },
{
}

/// At an angle parallel to the vertical grid lines the search against
/// them is skipped and contributes no candidate: the selected result is
/// always the one of the horizontal-line search.
pub proof fn lemma_col_axis_skip(m: GridMap, t: TrigTable, px: int, py: int, a: int)
    requires
        col_axis(a),
        -POS_LIMIT <= px <= POS_LIMIT,
        -POS_LIMIT <= py <= POS_LIMIT,
    ensures
        col_hit(m, t, px, py, a) == None::<(int, int)>,
        sel_orient(m, t, px, py, a) == Orientation::HorizontalFace,
        sel_raw(m, t, px, py, a) == hit_dist(px, py, row_hit(m, t, px, py, a)),
{
    lemma_row_hit_in_grid(m, t, px, py, a);
    match row_hit(m, t, px, py, a) {
        Some(p) => {
            lemma_dist_small(px, py, p.0, p.1);
        },
        None => {},
    }
}

/// Fisheye correction is insensitive to when the delta angle is wrapped:
/// the cosine factor is periodic in a full turn, so wrapping the delta by
/// one pass before the multiply gives the same corrected distance as not
/// wrapping it at all.
pub proof fn lemma_fisheye_wrap(t: TrigTable, raw: int, d: int)
    ensures
        corrected(t, raw, wrap1(d)) == corrected(t, raw, d),
{
    if d < 0 {
        crate::trig::lemma_sin_period(t, d + ANG_QUARTER);
    } else if d > ANG_FULL {
        crate::trig::lemma_sin_period(t, d - ANG_FULL + ANG_QUARTER);
    }
}

/// A player strictly inside a cell whose eight neighbours are all
/// registered walls sees a wall on every ray: whatever the angle, one of
/// the two searches hits a neighbouring cell on its very first probe, so
/// no selected distance reaches the sentinel.
pub proof fn lemma_enclosed_ray_hits(
    m: GridMap,
    t: TrigTable,
    px: int,
    py: int,
    c: int,
    r: int,
    a: int,
)
    requires
        m.wf(),
        t.wf(),
        0 <= a <= ANG_FULL,
        c * CELL_FP < px < (c + 1) * CELL_FP,
        r * CELL_FP < py < (r + 1) * CELL_FP,
        forall|cc: int, rr: int|
            c - 1 <= cc <= c + 1 && r - 1 <= rr <= r + 1 && !(cc == c && rr == r)
                ==> m.solid_at(cc, rr),
    ensures
        0 <= sel_raw(m, t, px, py, a) < DIST_SENTINEL,
{
    let cf = CELL_FP as int;
    let s = sin_of(t, a);
    let co = cos_of(t, a);
    crate::trig::lemma_sin_shape(t, a);
    crate::trig::lemma_cos_shape(t, a);
    lemma_cell_of_range(px, c);
    lemma_cell_of_range(py, r);
    assert(m.solid_at(c - 1, r - 1));
    assert(m.solid_at(c + 1, r + 1));
    assert((c + 1) * cf == c * cf + cf) by (nonlinear_arith);
    assert((c + 2) * cf == c * cf + 2 * cf) by (nonlinear_arith);
    assert((c - 1) * cf == c * cf - cf) by (nonlinear_arith);
    assert((r + 1) * cf == r * cf + cf) by (nonlinear_arith);
    assert((r + 2) * cf == r * cf + 2 * cf) by (nonlinear_arith);
    assert((r - 1) * cf == r * cf - cf) by (nonlinear_arith);
    lemma_hit_dist_nonneg(px, py, row_hit(m, t, px, py, a));
    lemma_hit_dist_nonneg(px, py, col_hit(m, t, px, py, a));
    if row_axis(a) {
        // Only the column search runs; its slope term is exactly zero.
        let nt = ntan_of(t, a);
        assert(s == 0);
        assert(s * FP_SCALE == 0) by (nonlinear_arith)
            requires s == 0,
        ;
        assert(nt == 0) by {
            vstd::arithmetic::div_mod::lemma_div_of0(vstd::math::abs(co) as int);
        }
        let sx = if ANG_QUARTER < a < ANG_THREE_QUARTER {
            c * cf - 1
        } else {
            (c + 1) * cf
        };
        assert((px - sx) * nt == 0) by (nonlinear_arith)
            requires nt == 0,
        ;
        assert(tdiv(0, FP_SCALE as int) == 0) by {
            vstd::arithmetic::div_mod::lemma_div_of0(FP_SCALE as int);
        }
        if a == ANG_HALF {
            lemma_cell_of_range(c * cf - 1, c - 1);
            assert(m.solid_at(c - 1, r));
        } else {
            lemma_cell_of_exact(c + 1);
            assert(m.solid_at(c + 1, r));
        }
        assert(col_hit(m, t, px, py, a) == Some((sx, py)));
        lemma_dist_small(px, py, sx, py);
    } else if col_axis(a) {
        // Only the row search runs; its slope term is exactly zero.
        let arc = arc_of(t, a);
        assert(co == 0);
        assert(co * FP_SCALE == 0) by (nonlinear_arith)
            requires co == 0,
        ;
        assert(arc == 0) by {
            vstd::arithmetic::div_mod::lemma_div_of0(vstd::math::abs(s) as int);
        }
        let sy = if a < ANG_HALF {
            (r + 1) * cf
        } else {
            r * cf - 1
        };
        assert((py - sy) * arc == 0) by (nonlinear_arith)
            requires arc == 0,
        ;
        assert(tdiv(0, FP_SCALE as int) == 0) by {
            vstd::arithmetic::div_mod::lemma_div_of0(FP_SCALE as int);
        }
        if a == ANG_QUARTER {
            lemma_cell_of_exact(r + 1);
            assert(m.solid_at(c, r + 1));
        } else {
            lemma_cell_of_range(r * cf - 1, r - 1);
            assert(m.solid_at(c, r - 1));
        }
        assert(row_hit(m, t, px, py, a) == Some((px, sy)));
        lemma_dist_small(px, py, px, sy);
    } else if vstd::math::abs(co) <= vstd::math::abs(s) {
        // The row search's slope is at most one cell per step, so its
        // first probe lands in one of the three neighbours of the
        // adjacent row.
        let arc = arc_of(t, a);
        crate::fixed::lemma_tdiv_ratio_le(-co, s, FP_SCALE as int);
        assert(-co * FP_SCALE == (-co) * (FP_SCALE as int)) by (nonlinear_arith);
        let sy = if a < ANG_HALF {
            (r + 1) * cf
        } else {
            r * cf - 1
        };
        let t1 = py - sy;
        assert(-cf <= t1 <= cf);
        crate::fixed::lemma_mul_bound(t1, arc, cf, FP_SCALE as int);
        crate::fixed::lemma_tdiv_le(t1 * arc, FP_SCALE as int, cf);
        let sh = tdiv(t1 * arc, FP_SCALE as int);
        let sx = px + sh;
        lemma_cell_of_mono((c - 1) * cf, sx);
        lemma_cell_of_exact(c - 1);
        lemma_cell_of_range((c + 2) * cf - 1, c + 1);
        lemma_cell_of_mono(sx, (c + 2) * cf - 1);
        let dc = cell_of(sx) - c;
        assert(-1 <= dc <= 1);
        if a < ANG_HALF {
            lemma_cell_of_exact(r + 1);
            assert(m.solid_at(c + dc, r + 1));
        } else {
            lemma_cell_of_range(r * cf - 1, r - 1);
            assert(m.solid_at(c + dc, r - 1));
        }
        assert(row_hit(m, t, px, py, a) == Some((sx, sy)));
        lemma_dist_small(px, py, sx, sy);
    } else {
        // The column search's slope is at most one cell per step, so its
        // first probe lands in one of the three neighbours of the
        // adjacent column.
        let nt = ntan_of(t, a);
        crate::fixed::lemma_tdiv_ratio_le(-s, co, FP_SCALE as int);
        assert(-s * FP_SCALE == (-s) * (FP_SCALE as int)) by (nonlinear_arith);
        let left = ANG_QUARTER < a < ANG_THREE_QUARTER;
        let sx = if left {
            c * cf - 1
        } else {
            (c + 1) * cf
        };
        let t1 = px - sx;
        assert(-cf <= t1 <= cf);
        crate::fixed::lemma_mul_bound(t1, nt, cf, FP_SCALE as int);
        crate::fixed::lemma_tdiv_le(t1 * nt, FP_SCALE as int, cf);
        let sh = tdiv(t1 * nt, FP_SCALE as int);
        let sy = py + sh;
        lemma_cell_of_mono((r - 1) * cf, sy);
        lemma_cell_of_exact(r - 1);
        lemma_cell_of_range((r + 2) * cf - 1, r + 1);
        lemma_cell_of_mono(sy, (r + 2) * cf - 1);
        let dr = cell_of(sy) - r;
        assert(-1 <= dr <= 1);
        if left {
            lemma_cell_of_range(c * cf - 1, c - 1);
            assert(m.solid_at(c - 1, r + dr));
        } else {
            lemma_cell_of_exact(c + 1);
            assert(m.solid_at(c + 1, r + dr));
        }
        assert(col_hit(m, t, px, py, a) == Some((sx, sy)));
        lemma_dist_small(px, py, sx, sy);
    }
}

/// Every ray of a fan cast from inside a fully enclosed cell carries a
/// finite corrected distance: the enclosing walls guarantee a hit within
/// the step budget, and the fisheye factor only shrinks the magnitude.
pub proof fn lemma_enclosed_fan_finite(
    m: GridMap,
    t: TrigTable,
    px: int,
    py: int,
    c: int,
    r: int,
    facing: int,
    step: int,
    count: int,
    i: nat,
)
    requires
        m.wf(),
        t.wf(),
        0 <= facing <= ANG_FULL,
        0 <= step <= ANG_FULL,
        0 <= count,
        count * step <= ANG_FULL,
        c * CELL_FP < px < (c + 1) * CELL_FP,
        r * CELL_FP < py < (r + 1) * CELL_FP,
        forall|cc: int, rr: int|
            c - 1 <= cc <= c + 1 && r - 1 <= rr <= r + 1 && !(cc == c && rr == r)
                ==> m.solid_at(cc, rr),
    ensures
        -DIST_SENTINEL < ray_dist(
            m,
            t,
            px,
            py,
            fan_angle(facing, step, count, i),
            facing,
        ) < DIST_SENTINEL,
{
    let a = fan_angle(facing, step, count, i);
    lemma_fan_angle_range(facing, step, count, i);
    lemma_enclosed_ray_hits(m, t, px, py, c, r, a);
    let raw = sel_raw(m, t, px, py, a);
    let d = wrap1(facing - a);
    crate::trig::lemma_cos_shape(t, d);
    crate::fixed::lemma_mul_bound(raw, cos_of(t, d), DIST_SENTINEL - 1, FP_SCALE as int);
    crate::fixed::lemma_tdiv_le(raw * cos_of(t, d), FP_SCALE as int, DIST_SENTINEL - 1);
}

} // verus!

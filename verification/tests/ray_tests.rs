use raymond_caster::fixed::FP_SCALE;
use raymond_caster::grid::GridMap;
use raymond_caster::player::{Player, Rgba};
use raymond_caster::ray::{cast_fan, cast_ray, Orientation, DIST_SENTINEL};
use raymond_caster::trig::TrigTable;

fn sine_table() -> TrigTable {
    let mut v: Vec<i64> = Vec::new();
    for i in 0..360 {
        let rad = (i as f64) * std::f64::consts::PI / 180.0;
        v.push((rad.sin() * 65536.0).round() as i64);
    }
    v[0] = 0;
    v[90] = 65536;
    v[180] = 0;
    v[270] = -65536;
    TrigTable::new(v).expect("table must validate")
}

fn demo_map() -> GridMap {
    let layout: [u8; 64] = [
        1, 1, 1, 1, 1, 1, 1, 1,
        1, 0, 1, 0, 0, 0, 0, 1,
        1, 0, 1, 0, 0, 0, 0, 1,
        1, 0, 1, 0, 0, 0, 0, 1,
        1, 0, 0, 0, 0, 0, 0, 1,
        1, 0, 0, 0, 0, 1, 0, 1,
        1, 0, 0, 0, 0, 0, 0, 1,
        1, 1, 1, 1, 1, 1, 1, 1,
    ];
    GridMap::new(layout.iter().map(|&v| v == 1).collect()).unwrap()
}

fn player_at(t: &TrigTable, x: i64, y: i64, angle: i64) -> Player {
    Player::new(t, x, y, angle, 10, Rgba { r: 255, g: 255, b: 0, a: 255 })
}

#[test]
fn axis_aligned_east_comes_from_vertical_family() {
    // A ray at exactly 0 degrees: the horizontal-line search is skipped,
    // and the hit comes from the vertical-line (column) search.
    let t = sine_table();
    let map = demo_map();
    let r = cast_ray(&map, &t, 300 * FP_SCALE, 300 * FP_SCALE, 0, 0);
    assert_eq!(r.orientation, Orientation::VerticalFace);
    assert_eq!(r.hit_x, 448 * FP_SCALE);
    assert_eq!(r.hit_y, 300 * FP_SCALE);
    assert_eq!(r.distance, 148 * FP_SCALE);
}

#[test]
fn axis_aligned_south_comes_from_horizontal_family() {
    // A ray at exactly 90 degrees: the vertical-line search is skipped,
    // and the hit comes from the horizontal-line (row) search.
    let t = sine_table();
    let map = demo_map();
    let r = cast_ray(&map, &t, 300 * FP_SCALE, 300 * FP_SCALE, 90, 90);
    assert_eq!(r.orientation, Orientation::HorizontalFace);
    assert_eq!(r.hit_x, 300 * FP_SCALE);
    assert_eq!(r.hit_y, 448 * FP_SCALE);
    assert_eq!(r.distance, 148 * FP_SCALE);
}

#[test]
fn axis_aligned_west_comes_from_vertical_family() {
    let t = sine_table();
    let map = demo_map();
    let r = cast_ray(&map, &t, 300 * FP_SCALE, 300 * FP_SCALE, 180, 180);
    assert_eq!(r.orientation, Orientation::VerticalFace);
    assert_eq!(r.hit_x, 64 * FP_SCALE - 1);
    assert_eq!(r.hit_y, 300 * FP_SCALE);
    assert_eq!(r.distance, 236 * FP_SCALE + 1);
}

#[test]
fn axis_aligned_north_comes_from_horizontal_family() {
    let t = sine_table();
    let map = demo_map();
    let r = cast_ray(&map, &t, 300 * FP_SCALE, 300 * FP_SCALE, 270, 270);
    assert_eq!(r.orientation, Orientation::HorizontalFace);
    assert_eq!(r.hit_x, 300 * FP_SCALE);
    assert_eq!(r.hit_y, 64 * FP_SCALE - 1);
    assert_eq!(r.distance, 236 * FP_SCALE + 1);
}

#[test]
fn fan_demo_scenario() {
    // 8x8 border-walled map, player at (300, 300) facing 0: every one of
    // the 60 rays finds a hit inside the grid bounds.
    let t = sine_table();
    let map = demo_map();
    let p = player_at(&t, 300 * FP_SCALE, 300 * FP_SCALE, 0);
    let fan = cast_fan(&p, &map, &t, 60, 1);
    assert_eq!(fan.len(), 60);
    for r in fan.iter() {
        assert!(r.distance.abs() < DIST_SENTINEL);
        assert!(0 <= r.hit_x && r.hit_x <= 512 * FP_SCALE);
        assert!(0 <= r.hit_y && r.hit_y <= 512 * FP_SCALE);
    }
}

#[test]
fn fan_corridor_fisheye_flattens_wall() {
    // Down a straight uninterrupted corridor (border walls only) the
    // fisheye correction flattens the facing wall: the two central rays
    // come no farther than the two outermost ones, up to the fixed-point
    // granularity of the computation. Without the correction the outer
    // rays would read about fifteen percent farther.
    let t = sine_table();
    let mut layout = vec![false; 64];
    for i in 0..8 {
        layout[i] = true;
        layout[56 + i] = true;
        layout[8 * i] = true;
        layout[8 * i + 7] = true;
    }
    let map = GridMap::new(layout).unwrap();
    let p = player_at(&t, 300 * FP_SCALE, 300 * FP_SCALE, 0);
    let fan = cast_fan(&p, &map, &t, 60, 1);
    let central = fan[29].distance.max(fan[30].distance);
    let outer = fan[0].distance.min(fan[59].distance);
    let tolerance = FP_SCALE / 256;
    assert!(central <= outer + tolerance);
    assert!(outer < central + central / 8);
}

#[test]
fn fan_angles_ascend_and_wrap() {
    let t = sine_table();
    let map = demo_map();
    let p = player_at(&t, 300 * FP_SCALE, 300 * FP_SCALE, 0);
    let fan = cast_fan(&p, &map, &t, 60, 1);
    assert_eq!(fan[0].angle, 330);
    assert_eq!(fan[29].angle, 359);
    assert_eq!(fan[30].angle, 360);
    assert_eq!(fan[31].angle, 1);
    assert_eq!(fan[59].angle, 29);
    for i in 1..60 {
        let expect = if fan[i - 1].angle + 1 > 360 { fan[i - 1].angle + 1 - 360 } else {
            fan[i - 1].angle + 1
        };
        assert_eq!(fan[i].angle, expect);
    }
}

#[test]
fn fan_near_full_turn_facing() {
    // Facing angles near the wrap seam stay within a single wrap.
    let t = sine_table();
    let map = demo_map();
    let p = player_at(&t, 300 * FP_SCALE, 300 * FP_SCALE, 359);
    let fan = cast_fan(&p, &map, &t, 60, 1);
    assert_eq!(fan[0].angle, 329);
    let q = player_at(&t, 300 * FP_SCALE, 300 * FP_SCALE, 2);
    let fan2 = cast_fan(&q, &map, &t, 60, 1);
    assert_eq!(fan2[0].angle, 332);
}

#[test]
fn enclosed_cell_every_ray_finite() {
    // All cells solid except (2, 2): a player inside sees a wall on every
    // ray of the fan and at every whole-degree angle.
    let t = sine_table();
    let mut cells = vec![true; 64];
    cells[2 * 8 + 2] = false;
    let map = GridMap::new(cells).unwrap();
    let p = player_at(&t, 160 * FP_SCALE, 160 * FP_SCALE, 45);
    let fan = cast_fan(&p, &map, &t, 60, 1);
    assert_eq!(fan.len(), 60);
    for r in fan.iter() {
        assert!(r.distance.abs() < DIST_SENTINEL);
    }
    for a in 0..=360 {
        let r = cast_ray(&map, &t, 160 * FP_SCALE, 160 * FP_SCALE, a, 45);
        assert!(r.distance.abs() < DIST_SENTINEL);
    }
}

#[test]
fn open_map_ray_reports_sentinel() {
    // An empty map gives every search nothing to hit: the radial distance
    // stays at the sentinel and the fisheye factor carries it through.
    let t = sine_table();
    let map = GridMap::new(vec![false; 64]).unwrap();
    let r = cast_ray(&map, &t, 300 * FP_SCALE, 300 * FP_SCALE, 0, 0);
    assert_eq!(r.distance, DIST_SENTINEL);
    assert_eq!(r.hit_x, 300 * FP_SCALE);
    assert_eq!(r.hit_y, 300 * FP_SCALE);
    assert_eq!(r.orientation, Orientation::HorizontalFace);
}

use raymond_caster::fixed::FP_SCALE;
use raymond_caster::geom::distance;
use raymond_caster::grid::{GridMap, CELL_FP};
use raymond_caster::player::{Player, Rgba};
use raymond_caster::project::{project, ScreenConfig, WallSlice};
use raymond_caster::ray::{Orientation, RayResult, DIST_SENTINEL};
use raymond_caster::trig::TrigTable;

fn sine_table() -> TrigTable {
    let mut v: Vec<i64> = Vec::new();
    for i in 0..360 {
        let rad = (i as f64) * std::f64::consts::PI / 180.0;
        v.push((rad.sin() * 65536.0).round() as i64);
    }
    v[0] = 0;
    v[90] = 65536;
    v[180] = 0;
    v[270] = -65536;
    TrigTable::new(v).expect("table must validate")
}

fn yellow() -> Rgba {
    Rgba { r: 255, g: 255, b: 0, a: 255 }
}

fn empty_map() -> GridMap {
    GridMap::new(vec![false; 64]).unwrap()
}

fn screen() -> ScreenConfig {
    ScreenConfig { viewport_height: 320, projection_constant: 320, slice_width: 8, x_offset: 530 }
}

#[test]
fn grid_construction_rejects_wrong_size() {
    assert!(GridMap::new(vec![false; 63]).is_none());
    assert!(GridMap::new(vec![true; 65]).is_none());
    assert!(GridMap::new(vec![true; 64]).is_some());
}

#[test]
fn grid_corner_cell_never_solid() {
    let map = GridMap::new(vec![true; 64]).unwrap();
    assert!(map.occupied(0, 0));
    assert!(!map.is_solid(0, 0));
    assert!(map.is_solid(1, 0));
    assert!(map.is_solid(0, 1));
}

#[test]
fn grid_out_of_range_fails_closed() {
    let map = GridMap::new(vec![true; 64]).unwrap();
    assert!(!map.is_solid(-1, 0));
    assert!(!map.is_solid(8, 3));
    assert!(!map.is_solid(3, -2));
    assert!(!map.is_solid(0, 8));
}

#[test]
fn trig_table_axis_values() {
    let t = sine_table();
    assert_eq!(raymond_caster::trig::sin_fixed(&t, 0), 0);
    assert_eq!(raymond_caster::trig::sin_fixed(&t, 90), FP_SCALE);
    assert_eq!(raymond_caster::trig::sin_fixed(&t, 180), 0);
    assert_eq!(raymond_caster::trig::sin_fixed(&t, 270), -FP_SCALE);
    assert_eq!(raymond_caster::trig::sin_fixed(&t, 360), 0);
    assert_eq!(raymond_caster::trig::cos_fixed(&t, 0), FP_SCALE);
    assert_eq!(raymond_caster::trig::cos_fixed(&t, 90), 0);
    assert_eq!(raymond_caster::trig::cos_fixed(&t, 180), -FP_SCALE);
    assert_eq!(raymond_caster::trig::cos_fixed(&t, 270), 0);
    assert_eq!(raymond_caster::trig::cos_fixed(&t, 360), FP_SCALE);
}

#[test]
fn trig_table_rejects_invalid() {
    assert!(TrigTable::new(vec![0; 360]).is_none());
    assert!(TrigTable::new(vec![0; 359]).is_none());
    let mut v: Vec<i64> = sine_table().sines;
    v[45] = -7;
    assert!(TrigTable::new(v).is_none());
    let mut w: Vec<i64> = sine_table().sines;
    w[10] = 2 * FP_SCALE;
    assert!(TrigTable::new(w).is_none());
}

#[test]
fn turn_round_trip() {
    let t = sine_table();
    let mut p = Player::new(&t, 300 * FP_SCALE, 300 * FP_SCALE, 57, 10, yellow());
    let dx = p.delta_x;
    let dy = p.delta_y;
    p.turn(&t, 3);
    p.turn(&t, -3);
    assert_eq!(p.angle, 57);
    assert_eq!(p.delta_x, dx);
    assert_eq!(p.delta_y, dy);
    p.turn(&t, -3);
    p.turn(&t, 3);
    assert_eq!(p.angle, 57);
    assert_eq!(p.delta_x, dx);
    assert_eq!(p.delta_y, dy);
}

#[test]
fn turn_wraps_at_boundaries() {
    let t = sine_table();
    let mut p = Player::new(&t, 0, 0, 0, 10, yellow());
    p.turn(&t, -3);
    assert_eq!(p.angle, 357);
    let mut q = Player::new(&t, 0, 0, 358, 10, yellow());
    q.turn(&t, 3);
    assert_eq!(q.angle, 1);
}

#[test]
fn player_new_direction_consistent() {
    let t = sine_table();
    let p = Player::new(&t, 0, 0, 0, 10, yellow());
    assert_eq!(p.delta_x, 5 * FP_SCALE);
    assert_eq!(p.delta_y, 0);
    let q = Player::new(&t, 0, 0, 90, 10, yellow());
    assert_eq!(q.delta_x, 0);
    assert_eq!(q.delta_y, 5 * FP_SCALE);
}

#[test]
fn move_forward_free_space() {
    let t = sine_table();
    let map = empty_map();
    let speed: i64 = 26214;
    let mut p = Player::new(&t, 300 * FP_SCALE, 300 * FP_SCALE, 30, 10, yellow());
    let step_x = p.delta_x * speed / FP_SCALE;
    let step_y = p.delta_y * speed / FP_SCALE;
    p.move_forward(&map, speed);
    assert_eq!(p.x_pos, 300 * FP_SCALE + step_x);
    assert_eq!(p.y_pos, 300 * FP_SCALE + step_y);
    p.move_backward(&map, speed);
    assert_eq!(p.x_pos, 300 * FP_SCALE);
    assert_eq!(p.y_pos, 300 * FP_SCALE);
}

#[test]
fn move_wall_slide_keeps_free_axis() {
    // A solid cell due east of the player: motion along X is blocked while
    // motion along Y stays free.
    let t = sine_table();
    let mut cells = vec![false; 64];
    cells[2 * 8 + 3] = true;
    let map = GridMap::new(cells).unwrap();
    let speed: i64 = 26214;
    // Player near the east edge of cell (2, 2), facing 30 degrees down-east.
    let mut p = Player::new(&t, 185 * FP_SCALE, 160 * FP_SCALE, 30, 10, yellow());
    assert!(p.delta_x > 0 && p.delta_y > 0);
    let step_y = p.delta_y * speed / FP_SCALE;
    p.move_forward(&map, speed);
    assert_eq!(p.x_pos, 185 * FP_SCALE);
    assert_eq!(p.y_pos, 160 * FP_SCALE + step_y);
}

#[test]
fn move_forward_blocked_facing_east_exactly() {
    // Facing exactly east against a wall: X blocked, Y component zero.
    let t = sine_table();
    let mut cells = vec![false; 64];
    cells[2 * 8 + 3] = true;
    let map = GridMap::new(cells).unwrap();
    let mut p = Player::new(&t, 185 * FP_SCALE, 160 * FP_SCALE, 0, 10, yellow());
    p.move_forward(&map, 26214);
    assert_eq!(p.x_pos, 185 * FP_SCALE);
    assert_eq!(p.y_pos, 160 * FP_SCALE);
}

#[test]
fn distance_exact_values() {
    assert_eq!(distance(0, 0, 3 * FP_SCALE, 4 * FP_SCALE), 5 * FP_SCALE);
    assert_eq!(distance(0, 0, 1, 1), 1);
    assert_eq!(distance(7, 9, 7, 9), 0);
    assert_eq!(distance(-3 * FP_SCALE, 0, 0, 4 * FP_SCALE), 5 * FP_SCALE);
}

#[test]
fn project_exact_height_and_layout() {
    let cfg = screen();
    let r = RayResult {
        angle: 0,
        hit_x: 0,
        hit_y: 0,
        distance: 128 * FP_SCALE,
        orientation: Orientation::VerticalFace,
    };
    let s: WallSlice = project(&r, 3, &cfg);
    assert_eq!(s.height, 160);
    assert_eq!(s.top_y, 80);
    assert_eq!(s.x_position, 3 * 8 + 530);
    assert_eq!(s.color, Rgba { r: 200, g: 0, b: 0, a: 255 });
}

#[test]
fn project_shades_by_orientation() {
    let cfg = screen();
    let r = RayResult {
        angle: 0,
        hit_x: 0,
        hit_y: 0,
        distance: 128 * FP_SCALE,
        orientation: Orientation::HorizontalFace,
    };
    let s = project(&r, 0, &cfg);
    assert_eq!(s.color, Rgba { r: 175, g: 0, b: 0, a: 255 });
}

#[test]
fn project_clamps_all_distances() {
    // From the sentinel down through zero and below: the height never
    // exceeds the viewport maximum.
    let cfg = screen();
    let samples: Vec<i64> =
        vec![DIST_SENTINEL, 1_000_000_000, 64 * FP_SCALE, CELL_FP, 1000, 1, 0, -5, -DIST_SENTINEL];
    for d in samples {
        let r = RayResult {
            angle: 0,
            hit_x: 0,
            hit_y: 0,
            distance: d,
            orientation: Orientation::VerticalFace,
        };
        let s = project(&r, 0, &cfg);
        assert!(0 <= s.height && s.height <= 320);
        assert_eq!(s.top_y, 160 - s.height / 2);
    }
    let degenerate = RayResult {
        angle: 0,
        hit_x: 0,
        hit_y: 0,
        distance: 0,
        orientation: Orientation::VerticalFace,
    };
    assert_eq!(project(&degenerate, 0, &cfg).height, 320);
    let sentinel = RayResult {
        angle: 0,
        hit_x: 0,
        hit_y: 0,
        distance: DIST_SENTINEL,
        orientation: Orientation::VerticalFace,
    };
    assert_eq!(project(&sentinel, 0, &cfg).height, 0);
}

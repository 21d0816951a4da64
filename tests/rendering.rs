use raycaster::billboard::{
    center_visible, disc_rows, draw_order, project_sprite, texture_slices, visible_columns, SpriteRect,
    DISC_ASPECT, TEXTURE_ASPECT,
};
use raycaster::fixed::{Dir, SCALE};
use raycaster::grid::GridMap;
use raycaster::player::Player;
use raycaster::raycast::{
    cast_ray, column_angle, column_angles, falloff, floor_sample, get_wall_color, shade, texture_column,
    wall_brightness, wall_column_color, wall_span, FloorSample, RayCaster, Rgb, WallSpan, MAX_RAY_DIST, RAY_STEP,
};
use raycaster::sprite::SpriteManager;

fn room(w: usize, h: usize, coins: Vec<(i64, i64)>) -> GridMap {
    let mut rows = Vec::new();
    for y in 0..h {
        let mut row = Vec::new();
        for x in 0..w {
            row.push(if x == 0 || y == 0 || x == w - 1 || y == h - 1 { 1u8 } else { 0u8 });
        }
        rows.push(row);
    }
    GridMap::new(rows, coins).unwrap()
}

fn east() -> Dir {
    Dir::new(SCALE, 0).unwrap()
}

fn south() -> Dir {
    Dir::new(0, SCALE).unwrap()
}

#[test]
fn ray_hits_vertical_face() {
    let g = room(10, 10, Vec::new());
    let hit = cast_ray(&g, 1_500_000, 1_500_000, east());
    assert_eq!(hit.distance, 7_500_000);
    assert_eq!(hit.wall_type, 1);
    assert!(hit.is_vertical);
    assert_eq!(hit.wall_x, 500_000);
}

#[test]
fn ray_hits_horizontal_face() {
    let mut rows = vec![vec![0u8; 5]; 5];
    rows[4][2] = 3;
    let g = GridMap::new(rows, Vec::new()).unwrap();
    let hit = cast_ray(&g, 2_250_000, 1_500_000, south());
    assert_eq!(hit.distance, 2_500_000);
    assert_eq!(hit.wall_type, 3);
    assert!(!hit.is_vertical);
    assert_eq!(hit.wall_x, 250_000);
}

#[test]
fn ray_leaving_grid_reports_default_wall() {
    let g = GridMap::new(vec![vec![0u8; 3]; 3], Vec::new()).unwrap();
    let hit = cast_ray(&g, 1_500_000, 1_500_000, east());
    assert_eq!(hit.distance, 1_500_000);
    assert_eq!(hit.wall_type, 1);
    assert!(!hit.is_vertical);
    assert_eq!(hit.wall_x, 0);
}

#[test]
fn ray_in_empty_grid_stops_at_cap() {
    let g = GridMap::new(vec![vec![0u8; 60]; 60], Vec::new()).unwrap();
    let hit = cast_ray(&g, 30_000_000, 30_000_000, east());
    assert_eq!(hit.distance, MAX_RAY_DIST + RAY_STEP);
    assert_eq!(hit.wall_type, 1);
    let diag = Dir::new(707_106, 707_106).unwrap();
    let hit = cast_ray(&g, 30_500_000, 29_500_000, diag);
    assert!(hit.distance <= MAX_RAY_DIST + RAY_STEP);
}

#[test]
fn wall_height_formula() {
    assert_eq!(wall_span(7_500_000, 768), WallSpan { height: 102, start: 333, end: 435 });
    assert_eq!(wall_span(2_000_000, 768), WallSpan { height: 384, start: 192, end: 576 });
    assert_eq!(wall_span(500_000, 768), WallSpan { height: 768, start: 0, end: 768 });
    assert_eq!(wall_span(0, 768), WallSpan { height: 768, start: 0, end: 768 });
    let mut last = 768;
    for d in (0..30_000_000).step_by(250_000) {
        let s = wall_span(d, 768);
        assert!(s.height <= last);
        last = s.height;
    }
}

#[test]
fn shading_values() {
    assert_eq!(falloff(0, 80), SCALE);
    assert_eq!(falloff(10_000_000, 80), 555_555);
    assert_eq!(wall_brightness(7_500_000, true), 625_000);
    assert_eq!(wall_brightness(7_500_000, false), 437_500);
    assert_eq!(shade(255, 500_000), 127);
    assert_eq!(get_wall_color(1, 7_500_000), Rgb { r: 145, g: 0, b: 0 });
    assert_eq!(get_wall_color(9, 0), Rgb { r: 128, g: 128, b: 128 });
    assert_eq!(wall_column_color(1, 7_500_000, true), Rgb { r: 145, g: 0, b: 0 });
    assert_eq!(wall_column_color(1, 7_500_000, false), Rgb { r: 101, g: 0, b: 0 });
    assert_eq!(wall_column_color(4, 0, false), Rgb { r: 178, g: 178, b: 0 });
    assert_eq!(texture_column(500_000, 64), 32);
    assert_eq!(texture_column(1_000_000, 64), 63);
}

#[test]
fn column_angles_span_the_field_of_view() {
    assert_eq!(column_angle(0, 1_047_198, 0, 4), -523_599);
    assert_eq!(column_angle(0, 1_047_198, 1, 4), -261_800);
    assert_eq!(column_angle(0, 1_047_198, 2, 4), 0);
    let p = Player::new(1_500_000, 1_500_000, 100);
    let a = column_angles(&p, 4);
    assert_eq!(a.len(), 4);
    assert_eq!(a[2], 100);
}

#[test]
fn render_fills_depth_buffer() {
    let g = room(10, 10, Vec::new());
    let p = Player::new(1_500_000, 1_500_000, 0);
    let mut rc = RayCaster::new();
    let cols = rc.render(&p, &g, &vec![east(), south(), east()], 768);
    assert_eq!(rc.z_buffer, vec![7_500_000, 7_500_000, 7_500_000]);
    assert_eq!(cols[0].span, WallSpan { height: 102, start: 333, end: 435 });
    let cols = rc.render(&p, &g, &vec![east()], 768);
    assert_eq!(cols.len(), 1);
    assert_eq!(rc.z_buffer.len(), 1);
}

#[test]
fn floor_sample_values() {
    let s = floor_sample(1_500_000, 1_500_000, east(), 700, 768, 64, 64);
    assert_eq!(s, Some(FloorSample { tex_x: 45, tex_y: 32, brightness: 800_000 }));
    assert_eq!(floor_sample(1_500_000, 1_500_000, east(), 384, 768, 64, 64), None);
    assert_eq!(floor_sample(1_500_000, 1_500_000, east(), 383, 768, 64, 64), None);
}

#[test]
fn sprite_projection() {
    let p = Player::new(1_500_000, 1_500_000, 0);
    let r = project_sprite(&p, east(), 5_500_000, 1_500_000, 1024, 768, SCALE, TEXTURE_ASPECT).unwrap();
    assert_eq!(r, SpriteRect { screen_x: 512, depth: 4_000_000, height: 96, width: 96 });
    let r = project_sprite(&p, east(), 5_500_000, 2_500_000, 1024, 768, SCALE, DISC_ASPECT).unwrap();
    assert_eq!(r, SpriteRect { screen_x: 640, depth: 4_000_000, height: 96, width: 76 });
    assert_eq!(project_sprite(&p, east(), 500_000, 1_500_000, 1024, 768, SCALE, TEXTURE_ASPECT), None);
    assert_eq!(project_sprite(&p, east(), 1_550_000, 1_500_000, 1024, 768, SCALE, TEXTURE_ASPECT), None);
}

#[test]
fn occluded_columns_are_not_painted() {
    let rect = SpriteRect { screen_x: 512, depth: 4_000_000, height: 96, width: 96 };
    let mut z = vec![7_500_000i64; 1024];
    for x in 500..510 {
        z[x] = 1_000_000;
    }
    z[520] = 4_000_000;
    let cols = visible_columns(rect, &z);
    assert_eq!(cols.len(), 96 - 11);
    assert_eq!(cols[0], 464);
    assert_eq!(*cols.last().unwrap(), 559);
    for c in &cols {
        assert!(rect.depth < z[*c as usize]);
    }
    assert!(!cols.contains(&505));
    assert!(!cols.contains(&520));
    assert!(center_visible(rect, &z));
    z[512] = 4_000_000;
    assert!(!center_visible(rect, &z));
}

#[test]
fn disc_rows_of_columns() {
    let rect = SpriteRect { screen_x: 512, depth: 4_000_000, height: 96, width: 76 };
    assert_eq!(disc_rows(rect, 512, 768), Some((336, 432)));
    assert_eq!(disc_rows(rect, 560, 768), Some((384, 385)));
    assert_eq!(disc_rows(rect, 561, 768), None);
}

#[test]
fn draw_order_is_farthest_first() {
    let coins = vec![
        (5_500_000, 1_500_000),
        (3_500_000, 1_500_000),
        (7_500_000, 1_500_000),
        (6_500_000, 1_500_000),
        (20_000_000, 1_500_000),
        (1_500_000, 5_500_000),
    ];
    let g = GridMap::new(vec![vec![0u8; 30]; 30], coins).unwrap();
    let mut sm = SpriteManager::new(&g);
    sm.coins[3].collected = true;
    let p = Player::new(1_500_000, 1_500_000, 0);
    let order = draw_order(&sm, &p);
    assert_eq!(order, vec![(4, 18_500_000), (2, 6_000_000), (0, 4_000_000), (5, 4_000_000), (1, 2_000_000)]);
}

#[test]
fn textured_sprite_slices_skip_occluded_columns() {
    let rect = SpriteRect { screen_x: 512, depth: 4_000_000, height: 96, width: 96 };
    let mut z = vec![7_500_000i64; 1024];
    for x in 500..510 {
        z[x] = 1_000_000;
    }
    z[512] = 4_000_000;
    let slices = texture_slices(rect, &z, 32);
    assert_eq!(slices.len(), 96 - 11);
    assert_eq!(slices[0], (464, 0));
    assert_eq!(*slices.last().unwrap(), (559, 31));
    assert!(slices.contains(&(511, 15)));
    assert!(slices.contains(&(513, 16)));
    for (x, _) in &slices {
        assert!(rect.depth < z[*x as usize]);
    }
    assert!(!slices.iter().any(|s| s.0 == 512 || s.0 == 505));
}

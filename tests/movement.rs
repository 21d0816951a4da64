use raycaster::fixed::{floor_cell, fract_part, Dir, SCALE, TWO_PI};
use raycaster::grid::GridMap;
use raycaster::player::{normalize_angle, scaled_move, MoveIntent, Player};

fn open_room(w: usize, h: usize) -> GridMap {
    let mut rows = Vec::new();
    for y in 0..h {
        let mut row = Vec::new();
        for x in 0..w {
            if x == 0 || y == 0 || x == w - 1 || y == h - 1 {
                row.push(1u8);
            } else {
                row.push(0u8);
            }
        }
        rows.push(row);
    }
    GridMap::new(rows, Vec::new()).unwrap()
}

fn east() -> Dir {
    Dir::new(SCALE, 0).unwrap()
}

const NONE: MoveIntent = MoveIntent { forward: false, backward: false, strafe_left: false, strafe_right: false };

#[test]
fn floor_and_fraction_of_negative_coordinates() {
    assert_eq!(floor_cell(1_500_000), 1);
    assert_eq!(floor_cell(-1), -1);
    assert_eq!(floor_cell(-1_000_000), -1);
    assert_eq!(floor_cell(-1_000_001), -2);
    assert_eq!(fract_part(2_250_000), 250_000);
    assert_eq!(fract_part(-250_000), 750_000);
}

#[test]
fn dir_accepts_only_unit_vectors() {
    assert!(Dir::new(SCALE, 0).is_some());
    assert!(Dir::new(707_106, 707_106).is_some());
    assert!(Dir::new(500_000, 500_000).is_none());
    assert!(Dir::new(SCALE + 1, 0).is_none());
}

#[test]
fn grid_rejects_ragged_rows() {
    assert!(GridMap::new(vec![vec![0, 0], vec![0]], Vec::new()).is_none());
    assert!(GridMap::new(vec![vec![0, 0], vec![1, 0]], Vec::new()).is_some());
}

#[test]
fn grid_walls_outside_and_inside() {
    let g = GridMap::new(vec![vec![0, 2], vec![0, 0]], vec![(500_000, 500_000)]).unwrap();
    assert!(!g.is_wall(500_000, 500_000));
    assert!(g.is_wall(1_500_000, 500_000));
    assert!(g.is_wall(-1, 500_000));
    assert!(g.is_wall(500_000, 2_000_000));
    assert_eq!(g.get_cell(1, 0), 2);
    assert!(g.is_wall_cell(2, 0));
    assert_eq!(g.get_coin_positions(), vec![(500_000, 500_000)]);
}

#[test]
fn heading_normalization_of_large_angles() {
    assert_eq!(normalize_angle(TWO_PI as i128), 0);
    assert_eq!(normalize_angle(-1), TWO_PI - 1);
    assert_eq!(normalize_angle(-(TWO_PI as i128)), 0);
    let big: i128 = 1_000_000_007 * TWO_PI as i128 + 123;
    assert_eq!(normalize_angle(big), 123);
    assert_eq!(normalize_angle(-big), TWO_PI - 123);
    assert_eq!(normalize_angle(i128::MIN + 1), ((i128::MIN + 1).rem_euclid(TWO_PI as i128)) as i64);
}

#[test]
fn heading_stays_in_range_after_rotations() {
    let mut p = Player::new(1_500_000, 1_500_000, 0);
    let mut seed: i64 = 12345;
    for _ in 0..200 {
        seed = seed.wrapping_mul(6364136223846793005).wrapping_add(1442695040888963407);
        let mouse = (seed >> 20) % 5_000_000_000;
        p.turn(16_667, seed & 1 == 0, seed & 2 == 0, mouse);
        assert!(p.angle >= 0 && p.angle < TWO_PI);
    }
}

#[test]
fn turn_adds_mouse_and_keys() {
    let mut p = Player::new(0, 0, 0);
    p.turn(500_000, false, true, 1_000);
    assert_eq!(p.angle, 2_000 + 1_000_000);
    p.turn(500_000, true, false, 0);
    assert_eq!(p.angle, 2_000);
    p.turn(0, false, false, -2_000);
    assert_eq!(p.angle, TWO_PI - 2_000);
}

#[test]
fn diagonal_movement_is_not_faster() {
    let step: i128 = 50_001;
    let straight = scaled_move(MoveIntent { forward: true, ..NONE }, east(), step);
    assert_eq!(straight, (50_001, 0));
    let diag = scaled_move(MoveIntent { forward: true, strafe_right: true, ..NONE }, east(), step);
    assert_eq!(diag, (35_356, 35_356));
    let len2 = diag.0 * diag.0 + diag.1 * diag.1;
    assert!(len2 <= step * step);
    assert!(len2 >= (step - 4) * (step - 4));
    assert_eq!(scaled_move(MoveIntent { forward: true, backward: true, ..NONE }, east(), step), (0, 0));
}

#[test]
fn player_update_moves_by_speed_and_time() {
    let g = open_room(10, 10);
    let mut p = Player::new(1_500_000, 1_500_000, 0);
    p.update(16_667, MoveIntent { forward: true, ..NONE }, east(), &g);
    assert_eq!((p.x, p.y), (1_550_001, 1_500_000));
    p.update(16_667, MoveIntent { strafe_left: true, ..NONE }, east(), &g);
    assert_eq!((p.x, p.y), (1_550_001, 1_449_999));
}

fn wall_column_grid() -> GridMap {
    let mut rows = Vec::new();
    for _ in 0..6 {
        rows.push(vec![0u8, 0, 1, 0, 0, 0]);
    }
    GridMap::new(rows, Vec::new()).unwrap()
}

#[test]
fn blocked_in_x_by_wall_column() {
    let g = wall_column_grid();
    let mut p = Player::new(1_900_000, 1_500_000, 0);
    p.update(66_667, MoveIntent { forward: true, ..NONE }, east(), &g);
    assert_eq!((p.x, p.y), (1_900_000, 1_500_000));
    assert!(p.x < 2_000_000);
}

#[test]
fn slides_along_wall_column() {
    let g = wall_column_grid();
    let mut p = Player::new(1_900_000, 1_500_000, 0);
    p.update(66_667, MoveIntent { forward: true, strafe_right: true, ..NONE }, east(), &g);
    assert_eq!(p.x, 1_900_000);
    assert_eq!(p.y, 1_500_000 + 141_422);
}

#[test]
fn never_walks_into_border() {
    let g = open_room(4, 4);
    let mut p = Player::new(2_500_000, 2_500_000, 0);
    for _ in 0..100 {
        p.update(100_000, MoveIntent { forward: true, ..NONE }, east(), &g);
    }
    assert!(p.x < 3_000_000);
    assert!(!g.is_wall(p.x, p.y));
}

#[test]
fn grid_rejects_oversized_or_far_coins() {
    assert!(GridMap::new(vec![Vec::new(); 1_000_001], Vec::new()).is_none());
    assert!(GridMap::new(vec![Vec::new(); 4097], Vec::new()).is_some());
    assert!(GridMap::new(vec![vec![0u8; 1_000_001]], Vec::new()).is_none());
    assert!(GridMap::new(vec![vec![0u8; 1_000_000]], Vec::new()).is_some());
    assert!(GridMap::new(vec![vec![0u8; 2]], vec![(1_000_000_000_001, 0)]).is_none());
    assert!(GridMap::new(vec![vec![0u8; 2]], vec![(1_000_000_000_000, 0)]).is_some());
}

#[test]
fn empty_grid_is_all_wall() {
    let g = GridMap::new(Vec::new(), Vec::new()).unwrap();
    assert_eq!((g.width, g.height), (0, 0));
    assert!(g.is_wall(0, 0));
}

#[test]
fn huge_frame_times_stay_in_range() {
    let g = open_room(10, 10);
    let mut p = Player::new(1_500_000, 1_500_000, 0);
    p.turn(i64::MAX, false, true, i64::MAX);
    assert!(p.angle >= 0 && p.angle < TWO_PI);
    p.update(i64::MAX, MoveIntent { forward: true, ..NONE }, east(), &g);
    assert_eq!((p.x, p.y), (1_500_000, 1_500_000));
    let big = scaled_move(MoveIntent { forward: true, ..NONE }, east(), 900_000_000_000_000_000_000);
    assert_eq!(big, (900_000_000_000_000_000_000, 0));
}

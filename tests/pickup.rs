use raycaster::fixed::{Dir, SCALE};
use raycaster::game::{Game, PlayKeys};
use raycaster::grid::GridMap;
use raycaster::menu::{Menu, MenuKeys};
use raycaster::player::{MoveIntent, Player, DEFAULT_FOV, DEFAULT_MOVE_SPEED, DEFAULT_ROT_SPEED};
use raycaster::sprite::Coin;
use raycaster::sprite::SpriteManager;

fn room(coins: Vec<(i64, i64)>) -> GridMap {
    let mut rows = Vec::new();
    for y in 0..10 {
        let mut row = Vec::new();
        for x in 0..10 {
            row.push(if x == 0 || y == 0 || x == 9 || y == 9 { 1u8 } else { 0u8 });
        }
        rows.push(row);
    }
    GridMap::new(rows, coins).unwrap()
}

const FORWARD: MoveIntent = MoveIntent { forward: true, backward: false, strafe_left: false, strafe_right: false };

#[test]
fn pickup_returns_a_coin_once() {
    let g = room(vec![(2_000_000, 1_500_000), (2_100_000, 1_500_000)]);
    let mut sm = SpriteManager::new(&g);
    let p = Player::new(1_800_000, 1_500_000, 0);
    assert_eq!(sm.check_collision(&p), Some((2_000_000, 1_500_000)));
    assert_eq!(sm.coins_collected(), 1);
    assert_eq!(sm.check_collision(&p), Some((2_100_000, 1_500_000)));
    for _ in 0..5 {
        assert_eq!(sm.check_collision(&p), None);
    }
    assert_eq!(sm.coins_collected(), 2);
    assert!(sm.coins.iter().all(|c| c.collected));
}

#[test]
fn pickup_radius_is_strict() {
    let g = room(vec![(2_000_000, 1_500_000)]);
    let mut sm = SpriteManager::new(&g);
    assert_eq!(sm.check_collision(&Player::new(1_500_000, 1_500_000, 0)), None);
    assert_eq!(sm.check_collision(&Player::new(1_500_001, 1_500_000, 0)), Some((2_000_000, 1_500_000)));
}

#[test]
fn all_collected_with_no_coins() {
    let g = room(Vec::new());
    let sm = SpriteManager::new(&g);
    assert!(sm.all_coins_collected());
    assert_eq!(sm.total_coins(), 0);
    assert_eq!(sm.coins_collected(), 0);
}

#[test]
fn all_collected_tracks_flags() {
    let g = room(vec![(2_000_000, 2_000_000), (7_000_000, 7_000_000)]);
    let mut sm = SpriteManager::new(&g);
    assert!(!sm.all_coins_collected());
    sm.check_collision(&Player::new(2_000_000, 2_000_000, 0));
    assert!(!sm.all_coins_collected());
    sm.check_collision(&Player::new(7_000_000, 7_000_000, 0));
    assert!(sm.all_coins_collected());
    assert_eq!(sm.total_coins(), 2);
}

#[test]
fn animation_scale_pulses_within_bounds() {
    let g = room(Vec::new());
    let mut sm = SpriteManager::new(&g);
    assert_eq!(sm.animation_phase(), 0);
    sm.update_animation(500_000);
    assert_eq!(sm.animation_time, 500_000);
    assert_eq!(sm.animation_phase(), 1_500_000);
    assert_eq!(sm.get_animation_scale(SCALE), 1_100_000);
    assert_eq!(sm.get_animation_scale(-SCALE), 900_000);
    assert_eq!(sm.get_animation_scale(-15), 999_999);
    sm.animation_time = i64::MAX - 1;
    sm.update_animation(10);
    assert_eq!(sm.animation_time, i64::MAX);
}

#[test]
fn walking_to_the_coin_collects_it_once() {
    let g = room(vec![(5_000_000, 5_000_000)]);
    let mut p = Player::new(1_500_000, 1_500_000, 0);
    let mut sm = SpriteManager::new(&g);
    p.turn(0, false, false, 392_699);
    assert_eq!(p.angle, 785_398);
    let facing = Dir::new(707_106, 707_106).unwrap();
    let mut picked = Vec::new();
    let mut where_picked = (0, 0);
    for _ in 0..200 {
        p.update(16_667, FORWARD, facing, &g);
        if let Some(c) = sm.check_collision(&p) {
            picked.push(c);
            where_picked = (p.x, p.y);
        }
    }
    assert_eq!(picked, vec![(5_000_000, 5_000_000)]);
    assert!(where_picked.0 >= 4_500_000 && where_picked.0 <= 5_500_000);
    assert!(where_picked.1 >= 4_500_000 && where_picked.1 <= 5_500_000);
    assert!(sm.all_coins_collected());
}

#[test]
fn menu_selection() {
    let mut m = Menu::new();
    let none = MenuKeys { up: false, down: false, enter: false, one: false, two: false, three: false };
    assert_eq!(m.update(MenuKeys { up: true, ..none }, 1_000), None);
    assert_eq!(m.selected_level, 0);
    assert_eq!(m.update(MenuKeys { down: true, ..none }, 1_000), None);
    assert_eq!(m.update(MenuKeys { down: true, ..none }, 1_000), None);
    assert_eq!(m.update(MenuKeys { down: true, ..none }, 1_000), None);
    assert_eq!(m.selected_level, 2);
    assert_eq!(m.update(MenuKeys { enter: true, ..none }, 1_000), Some(2));
    assert_eq!(m.update(MenuKeys { two: true, ..none }, 1_000), Some(1));
    assert_eq!(m.title_animation, 6_000);
}

#[test]
fn session_flow() {
    let g = room(vec![(2_000_000, 1_500_000)]);
    let mut game = Game::new(room(Vec::new()));
    assert!(game.in_menu);
    game.start_level(1, g);
    assert!(!game.in_menu);
    assert_eq!(game.current_level, 1);
    let east = Dir::new(SCALE, 0).unwrap();
    let keys = PlayKeys { escape: false, enter: false, restart: false };
    let got = game.update_playing(16_667, FORWARD, east, keys);
    assert_eq!(got, Some((2_000_000, 1_500_000)));
    assert!(game.game_won);
    assert_eq!(game.player.x, 1_550_001);
    game.update_playing(16_667, FORWARD, east, PlayKeys { restart: true, ..keys });
    assert!(!game.game_won);
    assert_eq!(game.sprites.coins, vec![Coin { x: 2_000_000, y: 1_500_000, collected: false }]);
    assert_eq!(
        game.player,
        Player {
            x: 1_500_000,
            y: 1_500_000,
            angle: 0,
            fov: DEFAULT_FOV,
            move_speed: DEFAULT_MOVE_SPEED,
            rot_speed: DEFAULT_ROT_SPEED
        }
    );
    game.update_playing(16_667, FORWARD, east, keys);
    assert!(game.game_won);
    game.update_playing(0, FORWARD, east, PlayKeys { enter: true, ..keys });
    assert!(game.in_menu);
    assert!(!game.game_won);
}

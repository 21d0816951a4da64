//! The session: title screen, play, and the level-completed state, with
//! the per-frame decisions of play.
use vstd::prelude::*;
use crate::fixed::Dir;
use crate::grid::GridMap;
use crate::menu::Menu;
use crate::player::{
    collide, displacement, travel, MoveIntent, Player, DEFAULT_FOV, DEFAULT_MOVE_SPEED, DEFAULT_ROT_SPEED,
};
use crate::raycast::RayCaster;
use crate::sprite::{after_pickup, first_pick, Coin, SpriteManager};

verus! {

/// Where every level starts the player: the centre of cell (1, 1).
pub const START_X: i64 = 1_500_000;

pub const START_Y: i64 = 1_500_000;

/// Keys of the play screen that change the session this frame.
#[derive(Clone, Copy, Debug, PartialEq, Eq)]
pub struct PlayKeys {
    pub escape: bool,
    pub enter: bool,
    pub restart: bool,
}

/// One level in progress, or the title screen in front of it.
pub struct Game {
    pub player: Player,
    pub map: GridMap,
    pub sprites: SpriteManager,
    pub raycaster: RayCaster,
    pub menu: Menu,
    pub current_level: usize,
    pub in_menu: bool,
    pub game_won: bool,
}

/// Whether every coin of a list is collected.
pub open spec fn all_collected(coins: Seq<Coin>) -> bool {
    forall|k: int| 0 <= k < coins.len() ==> (#[trigger] coins[k]).collected
}

impl Game {
    pub open spec fn wf(&self) -> bool {
        &&& self.player.wf()
        &&& self.map.wf()
        &&& self.sprites.wf()
        &&& self.menu.wf()
    }

    /// A fresh player at the start position, facing along +X, with the
    /// default field of view and speeds.
    pub open spec fn fresh_player(p: Player) -> bool {
        p == Player {
            x: START_X,
            y: START_Y,
            angle: 0,
            fov: DEFAULT_FOV,
            move_speed: DEFAULT_MOVE_SPEED,
            rot_speed: DEFAULT_ROT_SPEED,
        }
    }

    /// One uncollected coin at each of the grid's coin positions, in order.
    pub open spec fn fresh_coins(coins: Seq<Coin>, map: &GridMap) -> bool {
        &&& coins.len() == map.coins@.len()
        &&& forall|k: int|
            0 <= k < map.coins@.len() ==> #[trigger] coins[k] == (Coin {
                x: map.coins@[k].0,
                y: map.coins@[k].1,
                collected: false,
            })
    }

    /// The title screen, with the first level loaded from `map`.
    pub fn new(map: GridMap) -> (r: Game)
        requires
            map.wf(),
        ensures
            r.wf(),
            r.map == map,
            r.current_level == 0,
            r.in_menu,
            !r.game_won,
            Self::fresh_player(r.player),
            Self::fresh_coins(r.sprites.coins@, &map),
            r.sprites.animation_time == 0,
    {
        let sprites = SpriteManager::new(&map);
        Game {
            player: Player::new(START_X, START_Y, 0),
            map,
            sprites,
            raycaster: RayCaster::new(),
            menu: Menu::new(),
            current_level: 0,
            in_menu: true,
            game_won: false,
        }
    }

    /// Starts `level` on `map`: fresh coins and a fresh player, leaving the
    /// title screen.
    pub fn start_level(&mut self, level: usize, map: GridMap)
        requires
            old(self).wf(),
            map.wf(),
        ensures
            final(self).wf(),
            final(self).current_level == level,
            final(self).map == map,
            !final(self).in_menu,
            !final(self).game_won,
            Self::fresh_player(final(self).player),
            final(self).sprites.animation_time == 0,
            Self::fresh_coins(final(self).sprites.coins@, &map),
    {
        self.sprites = SpriteManager::new(&map);
        self.map = map;
        self.player = Player::new(START_X, START_Y, 0);
        self.current_level = level;
        self.game_won = false;
        self.in_menu = false;
    }

    /// Starts the current level again on the loaded grid.
    pub fn restart_level(&mut self)
        requires
            old(self).wf(),
        ensures
            final(self).wf(),
            final(self).current_level == old(self).current_level,
            final(self).map == old(self).map,
            !final(self).in_menu,
            !final(self).game_won,
            Self::fresh_player(final(self).player),
            final(self).sprites.animation_time == 0,
            Self::fresh_coins(final(self).sprites.coins@, &old(self).map),
    {
        self.sprites = SpriteManager::new(&self.map);
        self.player = Player::new(START_X, START_Y, 0);
        self.game_won = false;
        self.in_menu = false;
    }

    /// One frame of play, after the caller has turned the player and
    /// computed `facing` from the new heading: move with collision, pick up
    /// at most one coin, mark the level won once every coin is collected,
    /// then apply the session keys (Escape, or Enter once won, returns to the
    /// title screen; R restarts the level), and advance the coin animation.
    /// Returns the position of the coin picked up, if any.
    pub fn update_playing(&mut self, dt: i64, intent: MoveIntent, facing: Dir, keys: PlayKeys) -> (r:
        Option<(i64, i64)>)
        requires
            old(self).wf(),
            facing.wf(),
            0 <= dt,
        ensures
            final(self).wf(),
            final(self).map == old(self).map,
            final(self).current_level == old(self).current_level,
            ({
                let step = travel(old(self).player.move_speed as int, dt as int);
                let d = displacement(intent, facing, step);
                let moved = collide(
                    &old(self).map,
                    old(self).player.x as int,
                    old(self).player.y as int,
                    d.0,
                    d.1,
                );
                let coins = old(self).sprites.coins@;
                let picked = first_pick(coins, moved.0, moved.1);
                let after = after_pickup(coins, moved.0, moved.1);
                let won = old(self).game_won || all_collected(after);
                let to_menu = keys.escape || (won && keys.enter);
                &&& r == (match picked {
                    Some(k) => Some((coins[k].x, coins[k].y)),
                    None => None,
                })
                &&& if keys.restart {
                    &&& !final(self).in_menu
                    &&& !final(self).game_won
                    &&& Self::fresh_player(final(self).player)
                    &&& Self::fresh_coins(final(self).sprites.coins@, &old(self).map)
                } else {
                    &&& final(self).in_menu == (old(self).in_menu || to_menu)
                    &&& final(self).game_won == (won && !to_menu)
                    &&& (final(self).player.x as int, final(self).player.y as int) == moved
                    &&& final(self).player.angle == old(self).player.angle
                    &&& final(self).sprites.coins@ == after
                }
            }),
    {
        self.player.update(dt, intent, facing, &self.map);
        let picked = self.sprites.check_collision(&self.player);
        if self.sprites.all_coins_collected() {
            self.game_won = true;
        }
        if keys.escape {
            self.in_menu = true;
            self.game_won = false;
        }
        if self.game_won && keys.enter {
            self.in_menu = true;
            self.game_won = false;
        }
        if keys.restart {
            self.restart_level();
        }
        self.sprites.update_animation(dt);
        picked
    }
}

} // verus!

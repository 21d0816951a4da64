//! Coins: pickup by proximity, the pulsing animation, and their billboard
//! projection against the depth buffer.
use vstd::prelude::*;
use crate::fixed::{MAX_COORD, SCALE};
use crate::grid::{coord_ok, GridMap};
use crate::player::{div_trunc, normalize_angle, wrap_angle, Player};

verus! {

/// A coin is picked up when the player comes within half a cell.
pub const COLLECTION_DISTANCE: i64 = 500_000;

/// Speed of the pulse: the phase advances three radians per second.
pub const PULSE_RATE: i64 = 3;

/// A coin at a fixed world position. Once collected it stays collected.
#[derive(Clone, Copy, Debug, PartialEq, Eq)]
pub struct Coin {
    pub x: i64,
    pub y: i64,
    pub collected: bool,
}

/// The level's coins in registration order, and the running animation
/// time in microseconds.
pub struct SpriteManager {
    pub coins: Vec<Coin>,
    pub animation_time: i64,
}

/// Squared distance from a coin to the point `(px, py)`.
pub open spec fn dist2(c: Coin, px: int, py: int) -> int {
    (c.x - px) * (c.x - px) + (c.y - py) * (c.y - py)
}

/// A coin that a player at `(px, py)` picks up: not yet collected and
/// strictly closer than `COLLECTION_DISTANCE`.
pub open spec fn can_pick(c: Coin, px: int, py: int) -> bool {
    !c.collected && dist2(c, px, py) < COLLECTION_DISTANCE * COLLECTION_DISTANCE
}

/// Index of the first coin at or after `i` that can be picked up.
pub open spec fn first_pick_from(coins: Seq<Coin>, px: int, py: int, i: int) -> Option<int>
    decreases coins.len() - i,
{
    if i >= coins.len() || i < 0 {
        None
    } else if can_pick(coins[i], px, py) {
        Some(i)
    } else {
        first_pick_from(coins, px, py, i + 1)
    }
}

pub open spec fn first_pick(coins: Seq<Coin>, px: int, py: int) -> Option<int> {
    first_pick_from(coins, px, py, 0)
}

/// The coins after one pickup check: the first coin that can be picked up,
/// if any, is marked collected; nothing else changes.
pub open spec fn after_pickup(coins: Seq<Coin>, px: int, py: int) -> Seq<Coin> {
    match first_pick(coins, px, py) {
        Some(k) => coins.update(k, Coin { collected: true, ..coins[k] }),
        None => coins,
    }
}

/// Number of collected coins.
pub open spec fn count_collected(coins: Seq<Coin>) -> nat
    decreases coins.len(),
{
    if coins.len() == 0 {
        0
    } else {
        count_collected(coins.drop_last()) + if coins.last().collected { 1nat } else { 0nat }
    }
}

proof fn lemma_first_pick_from(coins: Seq<Coin>, px: int, py: int, i: int)
    requires
        0 <= i <= coins.len(),
    ensures
        match first_pick_from(coins, px, py, i) {
            Some(k) => {
                &&& i <= k < coins.len()
                &&& can_pick(coins[k], px, py)
                &&& forall|j: int| i <= j < k ==> !can_pick(#[trigger] coins[j], px, py)
            },
            None => forall|j: int| i <= j < coins.len() ==> !can_pick(#[trigger] coins[j], px, py),
        },
    decreases coins.len() - i,
{
    if i < coins.len() && !can_pick(coins[i], px, py) {
        lemma_first_pick_from(coins, px, py, i + 1);
    }
}

/// Pickup is idempotent once a coin is collected: a collected coin is never
/// the one picked; a pickup keeps every collected coin collected; and a
/// second check at the same position never returns the coin that the first
/// returned.
pub proof fn lemma_pickup_idempotent(coins: Seq<Coin>, px: int, py: int)
    ensures
        forall|j: int|
            0 <= j < coins.len() && (#[trigger] coins[j]).collected ==> first_pick(coins, px, py)
                != Some(j),
        forall|j: int|
            0 <= j < coins.len() && (#[trigger] coins[j]).collected ==> after_pickup(
                coins,
                px,
                py,
            )[j].collected,
        first_pick(coins, px, py) matches Some(k) ==> {
            &&& after_pickup(coins, px, py)[k].collected
            &&& first_pick(after_pickup(coins, px, py), px, py) != Some(k)
        },
{
    lemma_first_pick_from(coins, px, py, 0);
    let next = after_pickup(coins, px, py);
    lemma_first_pick_from(next, px, py, 0);
}

impl SpriteManager {
    pub open spec fn wf(&self) -> bool {
        &&& forall|k: int|
            0 <= k < self.coins@.len() ==> coord_ok(
                ((#[trigger] self.coins@[k]).x, self.coins@[k].y),
            )
        &&& self.animation_time >= 0
    }

    /// One uncollected coin per coin position of the grid, in the grid's
    /// order, and the animation clock at zero.
    pub fn new(map: &GridMap) -> (r: SpriteManager)
        requires
            map.wf(),
        ensures
            r.wf(),
            r.animation_time == 0,
            r.coins@.len() == map.coins@.len(),
            forall|k: int|
                0 <= k < map.coins@.len() ==> #[trigger] r.coins@[k] == (Coin {
                    x: map.coins@[k].0,
                    y: map.coins@[k].1,
                    collected: false,
                }),
    {
        let positions = map.get_coin_positions();
        let mut coins: Vec<Coin> = Vec::new();
        let mut k: usize = 0;
        while k < positions.len()
            invariant
                0 <= k <= positions@.len(),
                positions@ == map.coins@,
                map.wf(),
                coins@.len() == k,
                forall|j: int|
                    0 <= j < k ==> #[trigger] coins@[j] == (Coin {
                        x: map.coins@[j].0,
                        y: map.coins@[j].1,
                        collected: false,
                    }),
            decreases positions@.len() - k,
        {
            let (x, y) = positions[k];
            coins.push(Coin { x, y, collected: false });
            k = k + 1;
        }
        let r = SpriteManager { coins, animation_time: 0 };
        assert forall|k: int| 0 <= k < r.coins@.len() implies coord_ok(
            ((#[trigger] r.coins@[k]).x, r.coins@[k].y),
        ) by {
            assert(coord_ok(map.coins@[k]));
        }
        r
    }

    /// Picks up the first uncollected coin, in registration order, within
    /// `COLLECTION_DISTANCE` of the player, marks it collected and returns
    /// its position. At most one coin is collected per call.
    pub fn check_collision(&mut self, player: &Player) -> (r: Option<(i64, i64)>)
        requires
            old(self).wf(),
            player.wf(),
        ensures
            final(self).wf(),
            final(self).animation_time == old(self).animation_time,
            final(self).coins@ == after_pickup(old(self).coins@, player.x as int, player.y as int),
            r == (match first_pick(old(self).coins@, player.x as int, player.y as int) {
                Some(k) => Some((old(self).coins@[k].x, old(self).coins@[k].y)),
                None => None,
            }),
    {
        let ghost px = player.x as int;
        let ghost py = player.y as int;
        proof {
            lemma_first_pick_from(self.coins@, px, py, 0);
        }
        let mut i: usize = 0;
        while i < self.coins.len()
            invariant
                0 <= i <= self.coins@.len(),
                self.wf(),
                player.wf(),
                px == player.x,
                py == player.y,
                self.coins@ == old(self).coins@,
                self.animation_time == old(self).animation_time,
                first_pick(self.coins@, px, py) == first_pick_from(self.coins@, px, py, i as int),
            decreases self.coins@.len() - i,
        {
            let c = self.coins[i];
            if !c.collected {
                let d2 = coin_dist2(c, player.x, player.y);
                if d2 < (COLLECTION_DISTANCE as i128) * (COLLECTION_DISTANCE as i128) {
                    let ghost before = self.coins@;
                    self.coins.set(i, Coin { x: c.x, y: c.y, collected: true });
                    proof {
                        assert(self.coins@ =~= before.update(
                            i as int,
                            Coin { collected: true, ..before[i as int] },
                        ));
                        assert forall|k: int| 0 <= k < self.coins@.len() implies coord_ok(
                            ((#[trigger] self.coins@[k]).x, self.coins@[k].y),
                        ) by {
                            assert(coord_ok((before[k].x, before[k].y)));
                        }
                    }
                    return Some((c.x, c.y));
                }
            }
            i = i + 1;
        }
        None
    }

    /// True when every coin is collected; true for a level without coins.
    pub fn all_coins_collected(&self) -> (r: bool)
        ensures
            r == forall|k: int| 0 <= k < self.coins@.len() ==> (#[trigger] self.coins@[k]).collected,
    {
        let mut i: usize = 0;
        while i < self.coins.len()
            invariant
                0 <= i <= self.coins@.len(),
                forall|k: int| 0 <= k < i ==> (#[trigger] self.coins@[k]).collected,
            decreases self.coins@.len() - i,
        {
            if !self.coins[i].collected {
                return false;
            }
            i = i + 1;
        }
        true
    }

    /// Number of coins collected so far.
    pub fn coins_collected(&self) -> (r: usize)
        ensures
            r == count_collected(self.coins@),
    {
        let mut n: usize = 0;
        let mut i: usize = 0;
        while i < self.coins.len()
            invariant
                0 <= i <= self.coins@.len(),
                n == count_collected(self.coins@.subrange(0, i as int)),
                n <= i,
            decreases self.coins@.len() - i,
        {
            proof {
                let s = self.coins@.subrange(0, i + 1);
                assert(s.drop_last() =~= self.coins@.subrange(0, i as int));
            }
            if self.coins[i].collected {
                n = n + 1;
            }
            i = i + 1;
        }
        assert(self.coins@.subrange(0, i as int) =~= self.coins@);
        n
    }

    /// Number of coins in the level.
    pub fn total_coins(&self) -> (r: usize)
        ensures
            r == self.coins@.len(),
    {
        self.coins.len()
    }

    /// Advances the animation clock by `dt` microseconds, stopping at the
    /// largest representable time.
    pub fn update_animation(&mut self, dt: i64)
        requires
            old(self).wf(),
            0 <= dt,
        ensures
            final(self).wf(),
            final(self).coins@ == old(self).coins@,
            final(self).animation_time == if old(self).animation_time + dt <= i64::MAX {
                old(self).animation_time + dt
            } else {
                i64::MAX as int
            },
    {
        if self.animation_time <= i64::MAX - dt {
            self.animation_time = self.animation_time + dt;
        } else {
            self.animation_time = i64::MAX;
        }
    }

    /// Phase of the pulse, `3·t` radians normalized into `[0, 2π)`; the
    /// animation scale is computed from its sine.
    pub fn animation_phase(&self) -> (r: i64)
        ensures
            r == wrap_angle(PULSE_RATE * self.animation_time),
    {
        normalize_angle(PULSE_RATE as i128 * self.animation_time as i128)
    }

    /// The pulsing scale `1 + sin(phase) · 0.1`, in fixed point, from the
    /// sine of `animation_phase()`. It stays within `[0.9, 1.1]`.
    pub fn get_animation_scale(&self, sine: i64) -> (r: i64)
        requires
            -SCALE <= sine <= SCALE,
        ensures
            r == SCALE + div_trunc(sine as int, 10),
            900_000 <= r <= 1_100_000,
    {
        let q: i64 = if sine >= 0 { sine / 10 } else { -((-sine) / 10) };
        SCALE + q
    }
}

/// Squared distance from a coin to `(px, py)`.
pub(crate) fn coin_dist2(c: Coin, px: i64, py: i64) -> (r: i128)
    requires
        coord_ok((c.x, c.y)),
        -MAX_COORD <= px <= MAX_COORD,
        -MAX_COORD <= py <= MAX_COORD,
    ensures
        r == dist2(c, px as int, py as int),
        0 <= r <= 8 * MAX_COORD * MAX_COORD,
{
    let dx: i128 = c.x as i128 - px as i128;
    let dy: i128 = c.y as i128 - py as i128;
    assert(0 <= dx * dx <= 4 * MAX_COORD * MAX_COORD) by (nonlinear_arith)
        requires -2 * MAX_COORD <= dx <= 2 * MAX_COORD;
    assert(0 <= dy * dy <= 4 * MAX_COORD * MAX_COORD) by (nonlinear_arith)
        requires -2 * MAX_COORD <= dy <= 2 * MAX_COORD;
    dx * dx + dy * dy
}

} // verus!

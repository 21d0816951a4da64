//! Sprite projection: back-to-front ordering, the camera transform,
//! perspective sizing, and occlusion against the wall pass's depth buffer.
use vstd::prelude::*;
use crate::fixed::{floor_div, Dir, MAX_COORD, SCALE};
use crate::grid::coord_ok;
use crate::player::{ceil_sqrt, ceil_sqrt_exec, div_trunc, is_ceil_sqrt, Player};
use crate::raycast::{MAX_SCREEN, MAX_TEXTURE};
use crate::sprite::{coin_dist2, dist2, Coin, SpriteManager};

verus! {

/// Sprites at a camera depth of 0.1 cells or less are behind the camera.
pub const NEAR_PLANE: i64 = 100_000;

/// Tallest a projected sprite can be, in pixels: a full-size screen at the
/// near plane, at the largest scale.
pub const MAX_SPRITE_HEIGHT: i64 = 1_000_000;

/// Width over height of a textured sprite: 1.0.
pub const TEXTURE_ASPECT: i64 = 1_000_000;

/// Width over height of the fallback disc: 0.8.
pub const DISC_ASPECT: i64 = 800_000;

/// Every uncollected coin goes through the projector; only the projection
/// culls.
pub open spec fn drawable(c: Coin, px: int, py: int) -> bool {
    !c.collected
}

/// Painter's order: farther coins first; at equal distance, registration
/// order.
pub open spec fn draws_before(coins: Seq<Coin>, px: int, py: int, a: int, b: int) -> bool {
    let da = dist2(coins[a], px, py);
    let db = dist2(coins[b], px, py);
    da > db || (da == db && a < b)
}

/// The coins to draw, as indices with their distances (rounded up), farthest
/// first: every drawable coin exactly once, in painter's order.
pub fn draw_order(sprites: &SpriteManager, player: &Player) -> (r: Vec<(usize, i64)>)
    requires
        sprites.wf(),
        player.wf(),
    ensures
        forall|i: int|
            0 <= i < r@.len() ==> {
                let k = (#[trigger] r@[i]).0 as int;
                &&& 0 <= k < sprites.coins@.len()
                &&& drawable(sprites.coins@[k], player.x as int, player.y as int)
                &&& r@[i].1 == ceil_sqrt(dist2(sprites.coins@[k], player.x as int, player.y as int))
            },
        forall|k: int|
            0 <= k < sprites.coins@.len() && drawable(
                #[trigger] sprites.coins@[k],
                player.x as int,
                player.y as int,
            ) ==> exists|i: int| 0 <= i < r@.len() && r@[i].0 == k,
        forall|i: int, j: int|
            0 <= i < j < r@.len() ==> draws_before(
                sprites.coins@,
                player.x as int,
                player.y as int,
                #[trigger] r@[i].0 as int,
                #[trigger] r@[j].0 as int,
            ),
{
    let ghost coins = sprites.coins@;
    let ghost px = player.x as int;
    let ghost py = player.y as int;
    let mut order: Vec<usize> = Vec::new();
    let mut k: usize = 0;
    while k < sprites.coins.len()
        invariant
            0 <= k <= coins.len(),
            coins == sprites.coins@,
            px == player.x,
            py == player.y,
            sprites.wf(),
            player.wf(),
            forall|i: int|
                0 <= i < order@.len() ==> {
                    &&& (#[trigger] order@[i]) < k
                    &&& drawable(coins[order@[i] as int], px, py)
                },
            forall|j: int|
                0 <= j < k && drawable(#[trigger] coins[j], px, py) ==> order@.contains(j as usize),
            forall|a: int, b: int|
                0 <= a < b < order@.len() ==> draws_before(
                    coins,
                    px,
                    py,
                    #[trigger] order@[a] as int,
                    #[trigger] order@[b] as int,
                ),
        decreases coins.len() - k,
    {
        let c = sprites.coins[k];
        assert(coord_ok((c.x, c.y)));
        let dk = coin_dist2(c, player.x, player.y);
        if !c.collected {
            let mut p: usize = 0;
            while p < order.len() && coin_dist2(sprites.coins[order[p]], player.x, player.y) >= dk
                invariant
                    0 <= p <= order@.len(),
                    k < coins.len(),
                    coins == sprites.coins@,
                    sprites.wf(),
                    player.wf(),
                    px == player.x,
                    py == player.y,
                    dk == dist2(coins[k as int], px, py),
                    forall|i: int| 0 <= i < order@.len() ==> (#[trigger] order@[i]) < k,
                    forall|q: int|
                        0 <= q < p ==> dist2(coins[(#[trigger] order@[q]) as int], px, py) >= dk,
                decreases order@.len() - p,
            {
                assert(order@[p as int] < k);
                assert(coord_ok((coins[order@[p as int] as int].x, coins[order@[p as int] as int].y)));
                p = p + 1;
            }
            let ghost old_order = order@;
            proof {
                if p < old_order.len() {
                    assert(coord_ok((coins[old_order[p as int] as int].x, coins[old_order[p as int] as int].y)));
                }
            }
            order.insert(p, k);
            proof {
                assert(order@ == old_order.insert(p as int, k));
                assert forall|a: int, b: int|
                    0 <= a < b < order@.len() implies draws_before(
                        coins,
                        px,
                        py,
                        #[trigger] order@[a] as int,
                        #[trigger] order@[b] as int,
                    ) by {
                    if b < p {
                        assert(order@[a] == old_order[a] && order@[b] == old_order[b]);
                    } else if b == p {
                        assert(order@[a] == old_order[a]);
                    } else if a < p {
                        assert(order@[a] == old_order[a] && order@[b] == old_order[b - 1]);
                    } else if a == p {
                        assert(order@[b] == old_order[b - 1]);
                        if b - 1 > p {
                            assert(draws_before(coins, px, py, old_order[p as int] as int, old_order[b - 1] as int));
                        }
                    } else {
                        assert(order@[a] == old_order[a - 1] && order@[b] == old_order[b - 1]);
                    }
                }
                assert forall|j: int|
                    0 <= j < k + 1 && drawable(#[trigger] coins[j], px, py) implies order@.contains(j as usize) by {
                    if j < k {
                        assert(old_order.contains(j as usize));
                        let w = choose|w: int| 0 <= w < old_order.len() && old_order[w] == j as usize;
                        if w < p {
                            assert(order@[w] == j as usize);
                        } else {
                            assert(order@[w + 1] == j as usize);
                        }
                    } else {
                        assert(order@[p as int] == k);
                    }
                }
            }
        }
        k = k + 1;
    }
    let mut r: Vec<(usize, i64)> = Vec::new();
    let mut i: usize = 0;
    while i < order.len()
        invariant
            0 <= i <= order@.len(),
            coins == sprites.coins@,
            sprites.wf(),
            player.wf(),
            px == player.x,
            py == player.y,
            k == coins.len(),
            forall|q: int|
                0 <= q < order@.len() ==> {
                    &&& (#[trigger] order@[q]) < k
                    &&& drawable(coins[order@[q] as int], px, py)
                },
            r@.len() == i,
            forall|q: int|
                0 <= q < i ==> (#[trigger] r@[q]).0 == order@[q] && r@[q].1 == ceil_sqrt(
                    dist2(coins[order@[q] as int], px, py),
                ),
        decreases order@.len() - i,
    {
        let c = sprites.coins[order[i]];
        assert(coord_ok((c.x, c.y)));
        let d2 = coin_dist2(c, player.x, player.y);
        let d: i64 = if d2 == 0 {
            0
        } else {
            ceil_sqrt_exec(d2)
        };
        proof {
            if d2 == 0 {
                assert(is_ceil_sqrt(0, 0));
                let l = ceil_sqrt(0);
                assert(is_ceil_sqrt(0, l));
                assert(l == 0) by (nonlinear_arith)
                    requires l >= 0, l == 0 || (l - 1) * (l - 1) < 0;
            }
        }
        r.push((order[i], d));
        i = i + 1;
    }
    proof {
        assert forall|kk: int|
            0 <= kk < coins.len() && drawable(#[trigger] coins[kk], px, py) implies exists|q: int|
            0 <= q < r@.len() && r@[q].0 == kk by {
            assert(order@.contains(kk as usize));
            let w = choose|w: int| 0 <= w < order@.len() && order@[w] == kk as usize;
            assert(r@[w].0 == kk);
        }
    }
    r
}

/// A sprite projected to the screen: the column of its centre, its camera
/// depth (fixed point), and its height and width in pixels.
#[derive(Clone, Copy, Debug, PartialEq, Eq)]
pub struct SpriteRect {
    pub screen_x: i64,
    pub depth: i64,
    pub height: i64,
    pub width: i64,
}

/// Camera-space position of a world point seen from `(px, py)` facing `d`:
/// lateral offset `dy·cos - dx·sin` and depth `dx·cos + dy·sin`, rounded
/// down.
pub open spec fn camera_of(px: int, py: int, d: Dir, sx: int, sy: int) -> (int, int) {
    let dx = sx - px;
    let dy = sy - py;
    ((dy * d.c - dx * d.s) / (SCALE as int), (dx * d.c + dy * d.s) / (SCALE as int))
}

/// Perspective projection onto a `w × h` screen. Culled when the depth is
/// at most `NEAR_PLANE` or the sprite lies wholly beyond either screen edge.
/// Otherwise the centre column is `w/2 · (1 + x/depth)`, the height
/// `(h / depth) · 0.5 · scale`, and the width the height times `aspect`.
pub open spec fn project_of(
    px: int,
    py: int,
    d: Dir,
    sx: int,
    sy: int,
    w: int,
    h: int,
    scale: int,
    aspect: int,
) -> Option<SpriteRect> {
    let cam = camera_of(px, py, d, sx, sy);
    let ty = cam.1;
    if ty <= NEAR_PLANE {
        None
    } else {
        let col = (w * (ty + cam.0)) / (2 * ty);
        let ht = (h * scale) / (2 * ty);
        let wd = (ht * aspect) / (SCALE as int);
        if col < -wd || col > w + wd {
            None
        } else {
            Some(SpriteRect { screen_x: col as i64, depth: ty as i64, height: ht as i64, width: wd as i64 })
        }
    }
}

/// Floor division keeps the magnitude of the numerator for a positive
/// divisor.
proof fn lemma_div_magnitude(a: int, b: int)
    requires
        b >= 1,
    ensures
        -(if a >= 0 { a } else { -a }) <= a / b <= (if a >= 0 { a } else { -a }),
{
    assert(-(if a >= 0 { a } else { -a }) <= a / b <= (if a >= 0 { a } else { -a })) by (nonlinear_arith)
        requires b >= 1;
}

/// Projects the coin at `(sx, sy)` for a player facing `d`.
pub fn project_sprite(
    player: &Player,
    d: Dir,
    sx: i64,
    sy: i64,
    w: i64,
    h: i64,
    scale: i64,
    aspect: i64,
) -> (r: Option<SpriteRect>)
    requires
        player.wf(),
        d.wf(),
        coord_ok((sx, sy)),
        1 <= w <= MAX_SCREEN,
        1 <= h <= MAX_SCREEN,
        0 <= scale <= 2 * SCALE,
        0 <= aspect <= SCALE,
    ensures
        r == project_of(
            player.x as int,
            player.y as int,
            d,
            sx as int,
            sy as int,
            w as int,
            h as int,
            scale as int,
            aspect as int,
        ),
        r matches Some(rect) ==> {
            &&& rect.depth > NEAR_PLANE
            &&& 0 <= rect.width <= rect.height <= MAX_SPRITE_HEIGHT
            &&& -MAX_COORD <= rect.screen_x <= MAX_COORD
        },
{
    let dx: i128 = sx as i128 - player.x as i128;
    let dy: i128 = sy as i128 - player.y as i128;
    let c: i128 = d.c as i128;
    let s: i128 = d.s as i128;
    assert(-2 * MAX_COORD * SCALE <= dy * c <= 2 * MAX_COORD * SCALE) by (nonlinear_arith)
        requires -2 * MAX_COORD <= dy <= 2 * MAX_COORD, -SCALE <= c <= SCALE;
    assert(-2 * MAX_COORD * SCALE <= dx * s <= 2 * MAX_COORD * SCALE) by (nonlinear_arith)
        requires -2 * MAX_COORD <= dx <= 2 * MAX_COORD, -SCALE <= s <= SCALE;
    assert(-2 * MAX_COORD * SCALE <= dx * c <= 2 * MAX_COORD * SCALE) by (nonlinear_arith)
        requires -2 * MAX_COORD <= dx <= 2 * MAX_COORD, -SCALE <= c <= SCALE;
    assert(-2 * MAX_COORD * SCALE <= dy * s <= 2 * MAX_COORD * SCALE) by (nonlinear_arith)
        requires -2 * MAX_COORD <= dy <= 2 * MAX_COORD, -SCALE <= s <= SCALE;
    let tx: i128 = floor_div(dy * c - dx * s, SCALE as i128);
    let ty: i128 = floor_div(dx * c + dy * s, SCALE as i128);
    proof {
        lemma_div_magnitude((dy * c - dx * s) as int, SCALE as int);
        lemma_div_magnitude((dx * c + dy * s) as int, SCALE as int);
        assert(-4 * MAX_COORD <= tx <= 4 * MAX_COORD) by (nonlinear_arith)
            requires
                tx == (dy * c - dx * s) as int / (SCALE as int),
                -4 * MAX_COORD * SCALE <= dy * c - dx * s <= 4 * MAX_COORD * SCALE;
        assert(-4 * MAX_COORD <= ty <= 4 * MAX_COORD) by (nonlinear_arith)
            requires
                ty == (dx * c + dy * s) as int / (SCALE as int),
                -4 * MAX_COORD * SCALE <= dx * c + dy * s <= 4 * MAX_COORD * SCALE;
    }
    if ty <= NEAR_PLANE as i128 {
        return None;
    }
    let wi: i128 = w as i128;
    assert(-8 * MAX_COORD * MAX_SCREEN <= wi * (ty + tx) <= 8 * MAX_COORD * MAX_SCREEN) by (nonlinear_arith)
        requires 1 <= wi <= MAX_SCREEN, -8 * MAX_COORD <= ty + tx <= 8 * MAX_COORD;
    let col: i128 = floor_div(wi * (ty + tx), 2 * ty);
    proof {
        lemma_div_magnitude((wi * (ty + tx)) as int, 2 * ty);
    }
    assert(0 <= h * scale <= MAX_SCREEN * 2 * SCALE) by (nonlinear_arith)
        requires 1 <= h <= MAX_SCREEN, 0 <= scale <= 2 * SCALE;
    let ht: i128 = (h as i128 * scale as i128) / (2 * ty);
    assert(0 <= ht <= MAX_SPRITE_HEIGHT) by (nonlinear_arith)
        requires
            ht == (h as i128 * scale as i128) / (2 * ty),
            ty > NEAR_PLANE,
            0 <= h * scale <= MAX_SCREEN * 2 * SCALE;
    assert(0 <= ht * aspect <= MAX_SCREEN * 2 * SCALE * SCALE) by (nonlinear_arith)
        requires 0 <= ht <= MAX_SCREEN * 2 * SCALE, 0 <= aspect <= SCALE;
    let wd: i128 = (ht * aspect as i128) / (SCALE as i128);
    assert(0 <= wd <= ht) by (nonlinear_arith)
        requires wd == (ht * aspect) / (SCALE as int), 0 <= aspect <= SCALE, ht >= 0;
    if col < -wd || col > wi + wd {
        return None;
    }
    Some(SpriteRect { screen_x: col as i64, depth: ty as i64, height: ht as i64, width: wd as i64 })
}

/// First and one-past-last screen columns that a sprite covers.
pub open spec fn column_lo(rect: SpriteRect) -> int {
    rect.screen_x - rect.width / 2
}

pub open spec fn column_hi(rect: SpriteRect) -> int {
    rect.screen_x + rect.width / 2
}

/// A column shows the sprite only where the sprite is nearer than the wall
/// drawn there.
pub open spec fn unoccluded(rect: SpriteRect, z: Seq<i64>, x: int) -> bool {
    0 <= x < z.len() && rect.depth < z[x]
}

/// The columns on which a sprite is painted, left to right: those it
/// covers, on screen, where its depth is less than the depth buffer's. A
/// column where the sprite's depth reaches the buffer's is never listed.
pub fn visible_columns(rect: SpriteRect, z: &Vec<i64>) -> (r: Vec<i64>)
    requires
        z@.len() <= MAX_SCREEN,
        -MAX_COORD <= rect.screen_x <= MAX_COORD,
        0 <= rect.width <= MAX_COORD,
    ensures
        forall|i: int|
            0 <= i < r@.len() ==> {
                &&& column_lo(rect) <= #[trigger] r@[i] < column_hi(rect)
                &&& unoccluded(rect, z@, r@[i] as int)
            },
        forall|i: int, j: int| 0 <= i < j < r@.len() ==> #[trigger] r@[i] < #[trigger] r@[j],
        forall|x: int|
            column_lo(rect) <= x < column_hi(rect) && #[trigger] unoccluded(rect, z@, x) ==> r@.contains(
                x as i64,
            ),
{
    let half: i64 = rect.width / 2;
    let lo0: i64 = rect.screen_x - half;
    let hi0: i64 = rect.screen_x + half;
    let lo: i64 = if lo0 < 0 { 0 } else { lo0 };
    let n: i64 = z.len() as i64;
    let hi: i64 = if hi0 > n { n } else { hi0 };
    let mut r: Vec<i64> = Vec::new();
    let mut x: i64 = lo;
    while x < hi
        invariant
            0 <= lo <= x,
            x <= hi || x == lo,
            lo == (if lo0 < 0 { 0 } else { lo0 }),
            hi == (if hi0 > n { n } else { hi0 }),
            lo0 == column_lo(rect),
            hi0 == column_hi(rect),
            n == z@.len(),
            z@.len() <= MAX_SCREEN,
            forall|i: int|
                0 <= i < r@.len() ==> {
                    &&& column_lo(rect) <= #[trigger] r@[i] < column_hi(rect)
                    &&& unoccluded(rect, z@, r@[i] as int)
                    &&& r@[i] < x
                },
            forall|i: int, j: int| 0 <= i < j < r@.len() ==> #[trigger] r@[i] < #[trigger] r@[j],
            forall|y: int|
                lo <= y < x && #[trigger] unoccluded(rect, z@, y) ==> r@.contains(y as i64),
        decreases hi - x,
    {
        let ghost before = r@;
        assert(column_lo(rect) <= x < column_hi(rect) && 0 <= x < z@.len());
        if rect.depth < z[x as usize] {
            r.push(x);
            proof {
                assert(unoccluded(rect, z@, x as int));
                assert forall|i: int| 0 <= i < r@.len() implies {
                    &&& column_lo(rect) <= #[trigger] r@[i] < column_hi(rect)
                    &&& unoccluded(rect, z@, r@[i] as int)
                    &&& r@[i] < x + 1
                } by {
                    if i < before.len() {
                        assert(r@[i] == before[i]);
                    } else {
                        assert(r@[i] == x);
                    }
                }
                assert forall|y: int| lo <= y < x + 1 && #[trigger] unoccluded(rect, z@, y) implies r@.contains(
                    y as i64,
                ) by {
                    if y < x {
                        let w = choose|w: int| 0 <= w < before.len() && before[w] == y as i64;
                        assert(r@[w] == y as i64);
                    } else {
                        assert(r@[r@.len() - 1] == x);
                    }
                }
            }
        } else {
            proof {
                assert(!unoccluded(rect, z@, x as int));
            }
        }
        x = x + 1;
    }
    r
}

/// Whether a textured sprite is drawn: its centre column is on screen and
/// unoccluded.
pub fn center_visible(rect: SpriteRect, z: &Vec<i64>) -> (r: bool)
    requires
        z@.len() <= MAX_SCREEN,
    ensures
        r == unoccluded(rect, z@, rect.screen_x as int),
{
    rect.screen_x >= 0 && rect.screen_x < z.len() as i64 && rect.depth < z[rect.screen_x as usize]
}

/// Largest `t >= 0` with `t·t <= n`.
pub open spec fn is_floor_sqrt(n: int, t: int) -> bool {
    t >= 0 && t * t <= n && n < (t + 1) * (t + 1)
}

fn floor_sqrt(n: i64) -> (t: i64)
    requires
        0 <= n <= 400_000_000_000_000,
    ensures
        is_floor_sqrt(n as int, t as int),
{
    if n == 0 {
        return 0;
    }
    let l = ceil_sqrt_exec(n as i128);
    assert(l <= 20_000_000) by (nonlinear_arith)
        requires l >= 1, (l - 1) * (l - 1) < n, n <= 400_000_000_000_000;
    assert(0 <= l * l <= 400_000_000_000_000) by (nonlinear_arith)
        requires 1 <= l <= 20_000_000;
    if l * l == n {
        assert(n < (l + 1) * (l + 1)) by (nonlinear_arith)
            requires l * l == n, l >= 1;
        l
    } else {
        assert((l - 1) * (l - 1) <= n && n < l * l) by (nonlinear_arith)
            requires l * l >= n, l * l != n, (l - 1) * (l - 1) < n;
        l - 1
    }
}

proof fn lemma_square_within(a: int, t: int, n: int)
    requires
        is_floor_sqrt(n, t),
    ensures
        (a * a <= n) <==> (-t <= a <= t),
{
    if -t <= a <= t {
        assert(a * a <= t * t) by (nonlinear_arith)
            requires -t <= a <= t;
    } else {
        assert(a * a >= (t + 1) * (t + 1)) by (nonlinear_arith)
            requires a > t || a < -t, t >= 0;
    }
}

/// Rows of the fallback disc: the strip `[(h - height)/2, (h - height)/2 +
/// height)` clipped to the screen, its centre row the strip's midpoint,
/// its radius half the height, its centre column `screen_x`.
pub open spec fn disc_top(rect: SpriteRect, h: int) -> int {
    div_trunc(h - rect.height, 2)
}

pub open spec fn disc_in(rect: SpriteRect, h: int, x: int, y: int) -> bool {
    let top = disc_top(rect, h);
    let bottom = top + rect.height;
    let cy = div_trunc(top + bottom, 2);
    let rad = rect.height / 2;
    &&& top <= y < bottom
    &&& 0 <= y < h
    &&& (x - rect.screen_x) * (x - rect.screen_x) + (y - cy) * (y - cy) <= rad * rad
}

fn half_toward_zero(a: i64) -> (r: i64)
    requires
        -4 * MAX_COORD <= a <= 4 * MAX_COORD,
    ensures
        r == div_trunc(a as int, 2),
{
    if a >= 0 {
        a / 2
    } else {
        -((-a) / 2)
    }
}

/// The rows of column `x` that the fallback disc covers, as a half-open
/// range `[lo, hi)`, or `None` when it covers none.
pub fn disc_rows(rect: SpriteRect, x: i64, h: i64) -> (r: Option<(i64, i64)>)
    requires
        1 <= h <= MAX_SCREEN,
        0 <= rect.height <= MAX_SPRITE_HEIGHT,
        -MAX_COORD <= rect.screen_x <= MAX_COORD,
        -MAX_COORD <= x <= MAX_COORD,
    ensures
        match r {
            Some((lo, hi)) => lo < hi && forall|y: int|
                #![trigger disc_in(rect, h as int, x as int, y)]
                (lo <= y < hi) <==> disc_in(rect, h as int, x as int, y),
            None => forall|y: int| !disc_in(rect, h as int, x as int, y),
        },
{
    let top: i64 = half_toward_zero(h - rect.height);
    let bottom: i64 = top + rect.height;
    let cy: i64 = half_toward_zero(top + bottom);
    let rad: i64 = rect.height / 2;
    let dx: i64 = x - rect.screen_x;
    if dx < -rad || dx > rad {
        proof {
            assert forall|y: int| !disc_in(rect, h as int, x as int, y) by {
                let e = y - cy;
                assert(e * e >= 0) by (nonlinear_arith);
                assert(dx * dx > rad * rad) by (nonlinear_arith)
                    requires dx < -rad || dx > rad, rad >= 0;
                assert((x - rect.screen_x) * (x - rect.screen_x) == dx * dx);
                assert(rect.height / 2 == rad);
            }
        }
        return None;
    }
    assert(0 <= dx * dx <= rad * rad && rad * rad <= 400_000_000_000_000) by (nonlinear_arith)
        requires -rad <= dx <= rad, 0 <= rad <= MAX_SPRITE_HEIGHT;
    let room: i64 = rad * rad - dx * dx;
    let t = floor_sqrt(room);
    assert(t <= rad) by (nonlinear_arith)
        requires t * t <= room, room <= rad * rad, t >= 0, rad >= 0;
    let lo0: i64 = cy - t;
    let hi0: i64 = cy + t + 1;
    let lo1: i64 = if lo0 < top { top } else { lo0 };
    let lo: i64 = if lo1 < 0 { 0 } else { lo1 };
    let hi1: i64 = if hi0 > bottom { bottom } else { hi0 };
    let hi: i64 = if hi1 > h { h } else { hi1 };
    proof {
        assert forall|y: int| #![trigger disc_in(rect, h as int, x as int, y)]
            (lo <= y < hi) <==> disc_in(rect, h as int, x as int, y) by {
            lemma_square_within(y - cy, t as int, room as int);
        }
    }
    if lo < hi {
        Some((lo, hi))
    } else {
        None
    }
}

/// Texel column of a textured sprite at screen column `x`: the offset from
/// the sprite's first column scaled from `width` pixels to `tw` texels,
/// clamped into the texture.
pub open spec fn sprite_texel_of(rect: SpriteRect, x: int, tw: int) -> int {
    let t = if rect.width > 0 { ((x - column_lo(rect)) * tw) / (rect.width as int) } else { 0 };
    if t < 0 { 0 } else if t > tw - 1 { tw - 1 } else { t }
}

/// The slices of a textured sprite to draw: each unoccluded covered column
/// (as `visible_columns` lists them, left to right) with its texel column.
/// A column where the sprite's depth reaches the depth buffer's gets no
/// slice.
pub fn texture_slices(rect: SpriteRect, z: &Vec<i64>, tw: i64) -> (r: Vec<(i64, i64)>)
    requires
        z@.len() <= MAX_SCREEN,
        -MAX_COORD <= rect.screen_x <= MAX_COORD,
        0 <= rect.width <= MAX_SPRITE_HEIGHT,
        1 <= tw <= MAX_TEXTURE,
    ensures
        forall|i: int|
            0 <= i < r@.len() ==> {
                &&& column_lo(rect) <= (#[trigger] r@[i]).0 < column_hi(rect)
                &&& unoccluded(rect, z@, r@[i].0 as int)
                &&& r@[i].1 == sprite_texel_of(rect, r@[i].0 as int, tw as int)
            },
        forall|i: int, j: int| 0 <= i < j < r@.len() ==> (#[trigger] r@[i]).0 < (#[trigger] r@[j]).0,
        forall|x: int|
            column_lo(rect) <= x < column_hi(rect) && #[trigger] unoccluded(rect, z@, x) ==> exists|i: int|
                0 <= i < r@.len() && r@[i].0 == x,
{
    let cols = visible_columns(rect, z);
    let lo: i64 = rect.screen_x - rect.width / 2;
    let mut r: Vec<(i64, i64)> = Vec::new();
    let mut i: usize = 0;
    while i < cols.len()
        invariant
            0 <= i <= cols@.len(),
            lo == column_lo(rect),
            -MAX_COORD <= rect.screen_x <= MAX_COORD,
            0 <= rect.width <= MAX_SPRITE_HEIGHT,
            1 <= tw <= MAX_TEXTURE,
            forall|q: int|
                0 <= q < cols@.len() ==> {
                    &&& column_lo(rect) <= #[trigger] cols@[q] < column_hi(rect)
                    &&& unoccluded(rect, z@, cols@[q] as int)
                },
            r@.len() == i,
            forall|q: int|
                0 <= q < i ==> (#[trigger] r@[q]).0 == cols@[q] && r@[q].1 == sprite_texel_of(
                    rect,
                    cols@[q] as int,
                    tw as int,
                ),
        decreases cols@.len() - i,
    {
        let x = cols[i];
        let off: i64 = x - lo;
        assert(0 <= off <= MAX_SPRITE_HEIGHT);
        assert(0 <= off * tw <= MAX_SPRITE_HEIGHT * MAX_TEXTURE) by (nonlinear_arith)
            requires 0 <= off <= MAX_SPRITE_HEIGHT, 1 <= tw <= MAX_TEXTURE;
        let t: i64 = if rect.width > 0 {
            off * tw / rect.width
        } else {
            0
        };
        let t2: i64 = if t < 0 {
            0
        } else if t > tw - 1 {
            tw - 1
        } else {
            t
        };
        r.push((x, t2));
        i = i + 1;
    }
    proof {
        assert forall|x: int|
            column_lo(rect) <= x < column_hi(rect) && #[trigger] unoccluded(rect, z@, x) implies exists|q: int|
            0 <= q < r@.len() && r@[q].0 == x by {
            assert(cols@.contains(x as i64));
            let w = choose|w: int| 0 <= w < cols@.len() && cols@[w] == x as i64;
            assert(r@[w].0 == x);
        }
    }
    r
}

} // verus!

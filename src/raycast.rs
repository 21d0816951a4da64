//! Per-column ray marching against the grid, wall projection and shading,
//! and the depth buffer that the sprite pass reads.
use vstd::prelude::*;
use crate::fixed::{cell_of, floor_cell, floor_div, fract_of, fract_part, Dir, MAX_COORD, SCALE, TWO_PI};
use crate::grid::GridMap;
use crate::player::{div_trunc, Player};

verus! {

/// Length of one marching step: 0.005 cells.
pub const RAY_STEP: i64 = 5_000;

/// Distance past which a ray gives up: 25 cells.
pub const MAX_RAY_DIST: i64 = 25_000_000;

/// The first step count whose distance exceeds `MAX_RAY_DIST`; every ray
/// stops at or before it.
pub const MAX_RAY_STEPS: i64 = 5_001;

/// Wall material reported when a ray leaves the grid or gives up.
pub const DEFAULT_WALL: u8 = 1;

/// Largest screen dimension accepted, in pixels.
pub const MAX_SCREEN: i64 = 100_000;

/// What a ray met: its distance, the wall material, the texture coordinate
/// along the face (a fraction in fixed point), and whether the face crossed
/// was a vertical grid line.
#[derive(Clone, Copy, Debug, PartialEq, Eq)]
pub struct RayHit {
    pub distance: i64,
    pub wall_type: u8,
    pub wall_x: i64,
    pub is_vertical: bool,
}

/// Per-step advance of a ray along `d`: `d · RAY_STEP`, rounded toward zero.
pub open spec fn ray_inc(d: Dir) -> (int, int) {
    (div_trunc(d.c * RAY_STEP, SCALE as int), div_trunc(d.s * RAY_STEP, SCALE as int))
}

/// Sample point after `k` steps.
pub open spec fn ray_point(px: int, py: int, inc: (int, int), k: int) -> (int, int) {
    (px + k * inc.0, py + k * inc.1)
}

/// A ray stops at step `k` when its sample point blocks or its travelled
/// distance exceeds the cap.
pub open spec fn ray_stops(map: &GridMap, px: int, py: int, inc: (int, int), k: int) -> bool {
    let p = ray_point(px, py, inc, k);
    map.blocks(p.0, p.1) || k * RAY_STEP > MAX_RAY_DIST
}

/// The first step at or after `k` where the ray stops.
pub open spec fn stop_from(map: &GridMap, px: int, py: int, inc: (int, int), k: int) -> int
    decreases MAX_RAY_STEPS - k,
{
    if k >= MAX_RAY_STEPS || ray_stops(map, px, py, inc, k) {
        k
    } else {
        stop_from(map, px, py, inc, k + 1)
    }
}

/// The hit reported when the ray stops at step `k`. A non-empty cell gives
/// its code; the face is vertical when the cell column changed on the last
/// step, and the texture coordinate is the fraction of Y on a vertical face,
/// of X otherwise. Leaving the grid or reaching the cap gives the default
/// material with coordinate 0 on a horizontal face.
pub open spec fn hit_at(map: &GridMap, px: int, py: int, inc: (int, int), k: int) -> RayHit {
    let p = ray_point(px, py, inc, k);
    let ix = cell_of(p.0);
    let iy = cell_of(p.1);
    let dist = (k * RAY_STEP) as i64;
    if map.in_bounds(ix, iy) && map.cell(ix, iy) != 0 {
        let last = ray_point(px, py, inc, k - 1);
        let vertical = cell_of(last.0) != ix;
        RayHit {
            distance: dist,
            wall_type: map.cell(ix, iy),
            wall_x: (if vertical { fract_of(p.1) } else { fract_of(p.0) }) as i64,
            is_vertical: vertical,
        }
    } else {
        RayHit { distance: dist, wall_type: DEFAULT_WALL, wall_x: 0, is_vertical: false }
    }
}

/// The result of marching from `(px, py)` along `d`.
pub open spec fn ray_result(map: &GridMap, px: int, py: int, d: Dir) -> RayHit {
    hit_at(map, px, py, ray_inc(d), stop_from(map, px, py, ray_inc(d), 1))
}

/// Every ray stops within the step cap.
pub proof fn lemma_stop_bounded(map: &GridMap, px: int, py: int, inc: (int, int), k: int)
    requires
        1 <= k <= MAX_RAY_STEPS,
    ensures
        k <= stop_from(map, px, py, inc, k) <= MAX_RAY_STEPS,
        ray_stops(map, px, py, inc, stop_from(map, px, py, inc, k)),
        forall|j: int|
            k <= j < stop_from(map, px, py, inc, k) ==> !ray_stops(map, px, py, inc, j),
    decreases MAX_RAY_STEPS - k,
{
    if k < MAX_RAY_STEPS && !ray_stops(map, px, py, inc, k) {
        lemma_stop_bounded(map, px, py, inc, k + 1);
    }
}

/// Ray marching terminates by the distance cap: every ray, from any start
/// and in any direction, reports a distance in `[RAY_STEP, MAX_RAY_DIST + RAY_STEP]`,
/// a whole number of steps, and it stops at the first step whose point blocks.
pub proof fn lemma_ray_terminates(map: &GridMap, px: int, py: int, d: Dir)
    ensures
        ({
            let k = stop_from(map, px, py, ray_inc(d), 1);
            let r = ray_result(map, px, py, d);
            &&& 1 <= k <= MAX_RAY_STEPS
            &&& r.distance == k * RAY_STEP
            &&& RAY_STEP <= r.distance <= MAX_RAY_DIST + RAY_STEP
            &&& forall|j: int| 1 <= j < k ==> {
                let p = #[trigger] ray_point(px, py, ray_inc(d), j);
                !map.blocks(p.0, p.1)
            }
        }),
{
    lemma_stop_bounded(map, px, py, ray_inc(d), 1);
    let k = stop_from(map, px, py, ray_inc(d), 1);
    assert forall|j: int| 1 <= j < k implies {
        let p = #[trigger] ray_point(px, py, ray_inc(d), j);
        !map.blocks(p.0, p.1)
    } by {
        assert(!ray_stops(map, px, py, ray_inc(d), j));
    }
}

/// Marches a ray from `(px, py)` along `facing` in steps of `RAY_STEP`
/// until it leaves the grid, meets a non-empty cell, or passes
/// `MAX_RAY_DIST`.
pub fn cast_ray(map: &GridMap, px: i64, py: i64, facing: Dir) -> (r: RayHit)
    requires
        map.wf(),
        facing.wf(),
        -MAX_COORD <= px <= MAX_COORD,
        -MAX_COORD <= py <= MAX_COORD,
    ensures
        r == ray_result(map, px as int, py as int, facing),
{
    let ix: i64 = if facing.c >= 0 {
        facing.c * RAY_STEP / SCALE
    } else {
        -((-facing.c) * RAY_STEP / SCALE)
    };
    let iy: i64 = if facing.s >= 0 {
        facing.s * RAY_STEP / SCALE
    } else {
        -((-facing.s) * RAY_STEP / SCALE)
    };
    let ghost inc = ray_inc(facing);
    assert(inc == (ix as int, iy as int));
    let mut rx: i64 = px;
    let mut ry: i64 = py;
    let mut k: i64 = 0;
    loop
        invariant
            0 <= k < MAX_RAY_STEPS,
            -RAY_STEP <= ix <= RAY_STEP,
            -RAY_STEP <= iy <= RAY_STEP,
            inc == (ix as int, iy as int),
            inc == ray_inc(facing),
            (rx as int, ry as int) == ray_point(px as int, py as int, inc, k as int),
            stop_from(map, px as int, py as int, inc, 1) == stop_from(
                map,
                px as int,
                py as int,
                inc,
                k + 1,
            ),
            map.wf(),
            -MAX_COORD <= px <= MAX_COORD,
            -MAX_COORD <= py <= MAX_COORD,
        decreases MAX_RAY_STEPS - k,
    {
        assert(-25_000_000 <= k * ix <= 25_000_000 && -25_000_000 <= k * iy <= 25_000_000)
            by (nonlinear_arith)
            requires
                0 <= k <= 5_000,
                -5_000 <= ix <= 5_000,
                -5_000 <= iy <= 5_000,
        ;
        assert(rx == px + k * ix && ry == py + k * iy);
        assert((k + 1) * ix == k * ix + ix && (k + 1) * iy == k * iy + iy) by (nonlinear_arith);
        let lx: i64 = rx;
        let ghost ly = ry;
        let ghost prev = k as int;
        rx = rx + ix;
        ry = ry + iy;
        k = k + 1;
        assert(ray_point(px as int, py as int, inc, k as int) == (rx as int, ry as int));
        assert(ray_point(px as int, py as int, inc, k - 1) == (lx as int, ly as int)) by {
            assert(k - 1 == prev);
        }
        let gx = floor_cell(rx);
        let gy = floor_cell(ry);
        let dist: i64 = k * RAY_STEP;
        if gx < 0 || gy < 0 || gx >= map.width as i64 || gy >= map.height as i64 {
            assert(ray_stops(map, px as int, py as int, inc, k as int));
            assert(stop_from(map, px as int, py as int, inc, k as int) == k);
            let r = RayHit { distance: dist, wall_type: DEFAULT_WALL, wall_x: 0, is_vertical: false };
            return r;
        }
        let t = map.get_cell(gx as usize, gy as usize);
        if t > 0 {
            let vertical = floor_cell(lx) != gx;
            let wall_x = if vertical { fract_part(ry) } else { fract_part(rx) };
            assert(ray_stops(map, px as int, py as int, inc, k as int));
            assert(stop_from(map, px as int, py as int, inc, k as int) == k);
            return RayHit { distance: dist, wall_type: t, wall_x, is_vertical: vertical };
        }
        assert(!map.blocks(rx as int, ry as int));
        if dist > MAX_RAY_DIST {
            assert(ray_stops(map, px as int, py as int, inc, k as int));
            assert(stop_from(map, px as int, py as int, inc, k as int) == k);
            return RayHit { distance: dist, wall_type: DEFAULT_WALL, wall_x: 0, is_vertical: false };
        }
    }
}

/// Ray angle of column `i` of `w`: the heading plus `(2i/w - 1) · fov/2`,
/// rounded down.
pub open spec fn column_angle_of(heading: int, fov: int, i: int, w: int) -> int {
    heading + ((2 * i - w) * fov) / (2 * w)
}

/// Ray angle of screen column `i` of `w`.
pub fn column_angle(heading: i64, fov: i64, i: i64, w: i64) -> (r: i64)
    requires
        0 <= heading < TWO_PI,
        0 <= fov <= TWO_PI,
        0 <= i < w <= MAX_SCREEN,
    ensures
        r == column_angle_of(heading as int, fov as int, i as int, w as int),
        heading - fov <= r <= heading + fov,
{
    assert(-(w * fov) <= (2 * i - w) * fov <= w * fov) by (nonlinear_arith)
        requires 0 <= i < w, fov >= 0;
    assert(0 <= w * fov <= MAX_SCREEN * TWO_PI) by (nonlinear_arith)
        requires 0 < w <= MAX_SCREEN, 0 <= fov <= TWO_PI;
    let num: i128 = (2 * i as i128 - w as i128) * fov as i128;
    let q = floor_div(num, 2 * w as i128);
    assert(-fov <= q <= fov) by (nonlinear_arith)
        requires
            q == num as int / (2 * w as int),
            -(w * fov) <= num <= w * fov,
            w > 0,
            fov >= 0,
    {
        vstd::arithmetic::div_mod::lemma_fundamental_div_mod(num as int, 2 * w);
    }
    (heading as i128 + q) as i64
}

/// Ray angles of all `w` columns of the screen, left to right.
pub fn column_angles(player: &Player, w: i64) -> (r: Vec<i64>)
    requires
        player.wf(),
        0 <= w <= MAX_SCREEN,
    ensures
        r@.len() == w,
        forall|i: int|
            0 <= i < w ==> r@[i] == column_angle_of(
                player.angle as int,
                player.fov as int,
                i,
                w as int,
            ),
{
    let mut r: Vec<i64> = Vec::new();
    let mut i: i64 = 0;
    while i < w
        invariant
            0 <= i <= w <= MAX_SCREEN,
            player.wf(),
            r@.len() == i,
            forall|j: int|
                0 <= j < i ==> r@[j] == column_angle_of(
                    player.angle as int,
                    player.fov as int,
                    j,
                    w as int,
                ),
        decreases w - i,
    {
        r.push(column_angle(player.angle, player.fov, i, w));
        i = i + 1;
    }
    r
}

/// Projected wall height on a screen `h` pixels tall: `min(h, h / d)` with
/// `d` in cells. A distance of one cell or less, zero and below included,
/// fills the column, so a player against a wall never divides by zero.
pub open spec fn wall_height_of(d: int, h: int) -> int {
    if d <= SCALE { h } else { (h * SCALE) / d }
}

/// The vertical extent of a wall column: its height, and the first and
/// one-past-last rows of a strip centred on the screen.
#[derive(Clone, Copy, Debug, PartialEq, Eq)]
pub struct WallSpan {
    pub height: i64,
    pub start: i64,
    pub end: i64,
}

pub open spec fn wall_span_of(d: int, h: int) -> WallSpan {
    let wh = wall_height_of(d, h);
    let start = (h - wh) / 2;
    WallSpan { height: wh as i64, start: start as i64, end: (start + wh) as i64 }
}

/// The wall height is `min(h, h·SCALE / d)` for every positive distance.
pub proof fn lemma_wall_height_is_min(d: int, h: int)
    requires
        d > 0,
        h >= 0,
    ensures
        wall_height_of(d, h) == if h <= (h * SCALE) / d { h } else { (h * SCALE) / d },
{
    if d <= SCALE {
        assert(h <= (h * SCALE) / d) by (nonlinear_arith)
            requires 0 < d <= SCALE, h >= 0;
    } else {
        assert((h * SCALE) / d <= h) by (nonlinear_arith)
            requires d > SCALE, h >= 0;
    }
}

/// The wall height never grows with distance: a farther wall is never
/// drawn taller.
pub proof fn lemma_wall_height_monotone(d1: int, d2: int, h: int)
    requires
        d1 <= d2,
        h >= 0,
    ensures
        wall_height_of(d2, h) <= wall_height_of(d1, h),
        0 <= wall_height_of(d2, h) <= h,
{
    if d2 > SCALE {
        assert(0 <= (h * SCALE) / d2 <= h) by (nonlinear_arith)
            requires d2 > SCALE, h >= 0;
        if d1 > SCALE {
            assert((h * SCALE) / d2 <= (h * SCALE) / d1) by (nonlinear_arith)
                requires SCALE < d1 <= d2, h >= 0;
        }
    }
}

/// Height and placement of the wall strip for a hit at distance `d`.
pub fn wall_span(d: i64, h: i64) -> (r: WallSpan)
    requires
        0 <= h <= MAX_SCREEN,
    ensures
        r == wall_span_of(d as int, h as int),
        0 <= r.height <= h,
        0 <= r.start <= r.end <= h,
{
    let wh: i64 = if d <= SCALE {
        h
    } else {
        assert(0 <= (h as int * SCALE as int) / (d as int) <= h) by (nonlinear_arith)
            requires d > SCALE, 0 <= h;
        h * SCALE / d
    };
    let start: i64 = (h - wh) / 2;
    WallSpan { height: wh, start, end: start + wh }
}

/// A column of the wall pass: the ray's hit and the strip it projects to.
#[derive(Clone, Copy, Debug, PartialEq, Eq)]
pub struct WallColumn {
    pub hit: RayHit,
    pub span: WallSpan,
}

/// The wall pass and the depth buffer it leaves for the sprite pass: one
/// distance per screen column.
pub struct RayCaster {
    pub z_buffer: Vec<i64>,
}

impl RayCaster {
    /// A ray caster whose depth buffer has not been written yet.
    pub fn new() -> (r: RayCaster)
        ensures
            r.z_buffer@.len() == 0,
    {
        RayCaster { z_buffer: Vec::new() }
    }

    /// Casts one ray per column, where `facings[i]` is the unit vector of
    /// column `i`'s ray angle, and projects each hit onto a screen `h` pixels
    /// tall. The depth buffer is rewritten in full: afterwards it holds
    /// exactly this frame's distances, one per column.
    pub fn render(&mut self, player: &Player, map: &GridMap, facings: &Vec<Dir>, h: i64) -> (r: Vec<
        WallColumn,
    >)
        requires
            player.wf(),
            map.wf(),
            forall|i: int| 0 <= i < facings@.len() ==> (#[trigger] facings@[i]).wf(),
            0 <= h <= MAX_SCREEN,
        ensures
            r@.len() == facings@.len(),
            final(self).z_buffer@.len() == facings@.len(),
            forall|i: int|
                0 <= i < facings@.len() ==> {
                    &&& (#[trigger] r@[i]).hit == ray_result(
                        map,
                        player.x as int,
                        player.y as int,
                        facings@[i],
                    )
                    &&& r@[i].span == wall_span_of(r@[i].hit.distance as int, h as int)
                    &&& final(self).z_buffer@[i] == r@[i].hit.distance
                },
    {
        let mut cols: Vec<WallColumn> = Vec::new();
        let mut z: Vec<i64> = Vec::new();
        let mut i: usize = 0;
        while i < facings.len()
            invariant
                0 <= i <= facings@.len(),
                player.wf(),
                map.wf(),
                forall|j: int| 0 <= j < facings@.len() ==> (#[trigger] facings@[j]).wf(),
                0 <= h <= MAX_SCREEN,
                cols@.len() == i,
                z@.len() == i,
                forall|j: int|
                    0 <= j < i ==> {
                        &&& (#[trigger] cols@[j]).hit == ray_result(
                            map,
                            player.x as int,
                            player.y as int,
                            facings@[j],
                        )
                        &&& cols@[j].span == wall_span_of(cols@[j].hit.distance as int, h as int)
                        &&& z@[j] == cols@[j].hit.distance
                    },
            decreases facings@.len() - i,
        {
            let hit = cast_ray(map, player.x, player.y, facings[i]);
            let span = wall_span(hit.distance, h);
            cols.push(WallColumn { hit, span });
            z.push(hit.distance);
            i = i + 1;
        }
        self.z_buffer = z;
        cols
    }
}

/// Light left after distance `d` (fixed point) with falloff `k` thousandths
/// per cell: `min(1, 1 / (1 + d·k))` in fixed point.
pub open spec fn falloff_of(d: int, k: int) -> int {
    (SCALE * SCALE * 1000) / (SCALE * 1000 + k * d)
}

/// Largest distance the shading functions accept: beyond any ray or sprite.
pub const MAX_SHADE_DIST: i64 = 4_000_000_000_000;

/// Brightness after distance `d` for a falloff of `k` thousandths per cell.
pub fn falloff(d: i64, k: i64) -> (r: i64)
    requires
        0 <= d <= MAX_SHADE_DIST,
        0 <= k <= 1000,
    ensures
        r == falloff_of(d as int, k as int),
        0 <= r <= SCALE,
{
    assert(0 <= k * d <= 1000 * MAX_SHADE_DIST) by (nonlinear_arith)
        requires 0 <= d <= MAX_SHADE_DIST, 0 <= k <= 1000;
    let den: i64 = SCALE * 1000 + k * d;
    assert((SCALE as int * SCALE as int * 1000) / (den as int) <= SCALE) by (nonlinear_arith)
        requires den >= SCALE * 1000;
    SCALE * SCALE * 1000 / den
}

/// Falloff of wall light: 0.08 per cell.
pub const WALL_FALLOFF: i64 = 80;

/// Falloff of flat-coloured walls: 0.1 per cell.
pub const COLOR_FALLOFF: i64 = 100;

/// Falloff of floor light: 0.15 per cell.
pub const FLOOR_FALLOFF: i64 = 150;

/// Falloff of sprite light: 0.05 per cell.
pub const SPRITE_FALLOFF: i64 = 50;

/// Brightest a floor sample gets: 0.8.
pub const FLOOR_MAX_BRIGHTNESS: i64 = 800_000;

/// Brightness of a textured wall strip: the distance falloff, darkened to
/// 70% on horizontal faces.
pub open spec fn wall_brightness_of(d: int, vertical: bool) -> int {
    let b = falloff_of(d, WALL_FALLOFF as int);
    if vertical { b } else { b * 7 / 10 }
}

pub fn wall_brightness(d: i64, vertical: bool) -> (r: i64)
    requires
        0 <= d <= MAX_SHADE_DIST,
    ensures
        r == wall_brightness_of(d as int, vertical),
        0 <= r <= SCALE,
{
    let b = falloff(d, WALL_FALLOFF);
    if vertical {
        b
    } else {
        b * 7 / 10
    }
}

/// A colour channel scaled by a brightness in fixed point.
pub open spec fn shade_of(ch: u8, b: int) -> int {
    (ch as int * b) / (SCALE as int)
}

pub fn shade(ch: u8, b: i64) -> (r: u8)
    requires
        0 <= b <= SCALE,
    ensures
        r == shade_of(ch, b as int),
{
    assert(0 <= ch as int * b <= 255 * SCALE) by (nonlinear_arith)
        requires 0 <= ch <= 255, 0 <= b <= SCALE;
    assert((ch as int * b) / (SCALE as int) <= 255) by (nonlinear_arith)
        requires 0 <= ch as int * b <= 255 * SCALE;
    ((ch as i64 * b) / SCALE) as u8
}

/// An opaque colour.
#[derive(Clone, Copy, Debug, PartialEq, Eq)]
pub struct Rgb {
    pub r: u8,
    pub g: u8,
    pub b: u8,
}

/// Base colour of a wall material: codes 1 to 5 are red, green, blue,
/// yellow and purple; any other code is gray (raylib's named colours).
pub open spec fn wall_base_color_of(t: u8) -> Rgb {
    if t == 1 {
        Rgb { r: 255, g: 0, b: 0 }
    } else if t == 2 {
        Rgb { r: 0, g: 128, b: 0 }
    } else if t == 3 {
        Rgb { r: 0, g: 0, b: 255 }
    } else if t == 4 {
        Rgb { r: 255, g: 255, b: 0 }
    } else if t == 5 {
        Rgb { r: 128, g: 0, b: 128 }
    } else {
        Rgb { r: 128, g: 128, b: 128 }
    }
}

pub fn wall_base_color(t: u8) -> (r: Rgb)
    ensures
        r == wall_base_color_of(t),
{
    if t == 1 {
        Rgb { r: 255, g: 0, b: 0 }
    } else if t == 2 {
        Rgb { r: 0, g: 128, b: 0 }
    } else if t == 3 {
        Rgb { r: 0, g: 0, b: 255 }
    } else if t == 4 {
        Rgb { r: 255, g: 255, b: 0 }
    } else if t == 5 {
        Rgb { r: 128, g: 0, b: 128 }
    } else {
        Rgb { r: 128, g: 128, b: 128 }
    }
}

/// A colour with each channel scaled by `b`.
pub open spec fn shade_rgb_of(c: Rgb, b: int) -> Rgb {
    Rgb { r: shade_of(c.r, b) as u8, g: shade_of(c.g, b) as u8, b: shade_of(c.b, b) as u8 }
}

pub fn shade_rgb(c: Rgb, b: i64) -> (r: Rgb)
    requires
        0 <= b <= SCALE,
    ensures
        r == shade_rgb_of(c, b as int),
{
    Rgb { r: shade(c.r, b), g: shade(c.g, b), b: shade(c.b, b) }
}

/// Flat colour of an untextured wall strip: the material's base colour with
/// a falloff of 0.1 per cell.
pub fn get_wall_color(wall_type: u8, distance: i64) -> (r: Rgb)
    requires
        0 <= distance <= MAX_SHADE_DIST,
    ensures
        r == shade_rgb_of(
            wall_base_color_of(wall_type),
            falloff_of(distance as int, COLOR_FALLOFF as int),
        ),
{
    let base = wall_base_color(wall_type);
    let b = falloff(distance, COLOR_FALLOFF);
    shade_rgb(base, b)
}

/// Largest texture dimension accepted, in texels.
pub const MAX_TEXTURE: i64 = 65_536;

/// Texel column for a texture coordinate: `wall_x · tw`, clamped into
/// `[0, tw - 1]`.
pub open spec fn texture_column_of(wall_x: int, tw: int) -> int {
    let t = (wall_x * tw) / (SCALE as int);
    if t < 0 { 0 } else if t > tw - 1 { tw - 1 } else { t }
}

pub fn texture_column(wall_x: i64, tw: i64) -> (r: i64)
    requires
        0 <= wall_x <= SCALE,
        1 <= tw <= MAX_TEXTURE,
    ensures
        r == texture_column_of(wall_x as int, tw as int),
        0 <= r < tw,
{
    assert(0 <= wall_x * tw <= SCALE * MAX_TEXTURE) by (nonlinear_arith)
        requires 0 <= wall_x <= SCALE, 1 <= tw <= MAX_TEXTURE;
    let t: i64 = wall_x * tw / SCALE;
    if t < 0 {
        0
    } else if t > tw - 1 {
        tw - 1
    } else {
        t
    }
}

/// A floor texel to draw at one screen row.
#[derive(Clone, Copy, Debug, PartialEq, Eq)]
pub struct FloorSample {
    pub tex_x: i64,
    pub tex_y: i64,
    pub brightness: i64,
}

/// Distance to the floor seen at screen row `y` of a screen `h` rows tall:
/// `(h/2) / |h/2 - y|` cells, in fixed point.
pub open spec fn row_distance_of(y: int, h: int) -> int {
    let off = if h - 2 * y >= 0 { h - 2 * y } else { 2 * y - h };
    (h * SCALE) / off
}

/// Texel index along one axis of a floor point `f`: the integer part of
/// `|f| · size`, wrapped into the texture.
pub open spec fn floor_texel_of(f: int, size: int) -> int {
    let a = if f >= 0 { f } else { -f };
    ((a * size) / (SCALE as int)) % size
}

pub open spec fn floor_sample_of(px: int, py: int, d: Dir, y: int, h: int, tw: int, th: int) -> Option<FloorSample> {
    let off = if h - 2 * y >= 0 { h - 2 * y } else { 2 * y - h };
    if off < 2 {
        None
    } else {
        let rd = row_distance_of(y, h);
        if rd >= MAX_RAY_DIST {
            None
        } else {
            let fx = px + div_trunc(d.c * rd, SCALE as int);
            let fy = py + div_trunc(d.s * rd, SCALE as int);
            let b = falloff_of(rd, FLOOR_FALLOFF as int);
            Some(FloorSample {
                tex_x: floor_texel_of(fx, tw) as i64,
                tex_y: floor_texel_of(fy, th) as i64,
                brightness: (if b < FLOOR_MAX_BRIGHTNESS { b } else { FLOOR_MAX_BRIGHTNESS as int }) as i64,
            })
        }
    }
}

fn floor_texel(f: i64, size: i64) -> (r: i64)
    requires
        -2 * MAX_COORD <= f <= 2 * MAX_COORD,
        1 <= size <= MAX_TEXTURE,
    ensures
        r == floor_texel_of(f as int, size as int),
        0 <= r < size,
{
    let a: i64 = if f >= 0 { f } else { -f };
    assert(0 <= a * size <= 2 * MAX_COORD * MAX_TEXTURE) by (nonlinear_arith)
        requires 0 <= a <= 2 * MAX_COORD, 1 <= size <= MAX_TEXTURE;
    (a * size / SCALE) % size
}

/// The floor texel seen at row `y` of the column whose ray direction is
/// `d`, with its brightness (the distance falloff, at most 0.8). Rows within
/// half a pixel of the horizon, and rows whose floor lies at or beyond
/// `MAX_RAY_DIST`, show nothing.
pub fn floor_sample(px: i64, py: i64, d: Dir, y: i64, h: i64, tw: i64, th: i64) -> (r: Option<FloorSample>)
    requires
        -MAX_COORD <= px <= MAX_COORD,
        -MAX_COORD <= py <= MAX_COORD,
        d.wf(),
        0 <= y < h <= MAX_SCREEN,
        1 <= tw <= MAX_TEXTURE,
        1 <= th <= MAX_TEXTURE,
    ensures
        r == floor_sample_of(px as int, py as int, d, y as int, h as int, tw as int, th as int),
{
    let off: i64 = if h - 2 * y >= 0 { h - 2 * y } else { 2 * y - h };
    if off < 2 {
        return None;
    }
    let rd: i64 = h * SCALE / off;
    if rd >= MAX_RAY_DIST {
        return None;
    }
    assert(0 <= rd);
    assert(-SCALE * MAX_RAY_DIST <= d.c * rd <= SCALE * MAX_RAY_DIST) by (nonlinear_arith)
        requires -SCALE <= d.c <= SCALE, 0 <= rd < MAX_RAY_DIST;
    assert(-SCALE * MAX_RAY_DIST <= d.s * rd <= SCALE * MAX_RAY_DIST) by (nonlinear_arith)
        requires -SCALE <= d.s <= SCALE, 0 <= rd < MAX_RAY_DIST;
    let cx: i64 = d.c * rd;
    let cy: i64 = d.s * rd;
    let fx: i64 = px + if cx >= 0 { cx / SCALE } else { -((-cx) / SCALE) };
    let fy: i64 = py + if cy >= 0 { cy / SCALE } else { -((-cy) / SCALE) };
    let b = falloff(rd, FLOOR_FALLOFF);
    Some(FloorSample {
        tex_x: floor_texel(fx, tw),
        tex_y: floor_texel(fy, th),
        brightness: if b < FLOOR_MAX_BRIGHTNESS { b } else { FLOOR_MAX_BRIGHTNESS },
    })
}

/// Brightness of a flat-coloured wall strip: a falloff of 0.1 per cell,
/// darkened to 70% on horizontal faces.
pub open spec fn flat_brightness_of(d: int, vertical: bool) -> int {
    let b = falloff_of(d, COLOR_FALLOFF as int);
    if vertical { b } else { b * 7 / 10 }
}

/// Colour of an untextured wall strip: the material's base colour scaled by
/// `flat_brightness_of`, so horizontal faces are darker.
pub fn wall_column_color(wall_type: u8, distance: i64, is_vertical: bool) -> (r: Rgb)
    requires
        0 <= distance <= MAX_SHADE_DIST,
    ensures
        r == shade_rgb_of(wall_base_color_of(wall_type), flat_brightness_of(distance as int, is_vertical)),
{
    let base = wall_base_color(wall_type);
    let b = falloff(distance, COLOR_FALLOFF);
    let b2 = if is_vertical {
        b
    } else {
        b * 7 / 10
    };
    shade_rgb(base, b2)
}

} // verus!

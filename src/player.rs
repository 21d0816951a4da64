//! Player pose and its per-tick advance: rotation with heading
//! normalization, normalized movement intents, and axis-separated collision.
use vstd::prelude::*;
use crate::fixed::{Dir, MAX_COORD, SCALE, TWO_PI};
use crate::grid::{GridMap, MAX_GRID_DIM};

verus! {

/// π/3 in microradians.
pub const DEFAULT_FOV: i64 = 1_047_198;

/// Cells per second, in fixed point.
pub const DEFAULT_MOVE_SPEED: i64 = 3_000_000;

/// Radians per second, in fixed point.
pub const DEFAULT_ROT_SPEED: i64 = 2_000_000;

/// Microradians of turn per thousandth of a pixel of mouse travel
/// (0.002 radians per pixel).
pub const MOUSE_SENSITIVITY: i64 = 2;

/// Fastest movement or rotation speed a player may be given.
pub const MAX_SPEED: i64 = 100_000_000;

/// Longest single movement step: above `MAX_SPEED · i64::MAX / SCALE`.
pub const MAX_STEP: i128 = 1_000_000_000_000_000_000_000;

/// Heading normalized into `[0, 2π)`.
pub open spec fn wrap_angle(a: int) -> int {
    a % (TWO_PI as int)
}

/// Normalizes an angle into `[0, 2π)`. Adding or removing whole turns until
/// the angle falls in range gives exactly this value.
pub fn normalize_angle(a: i128) -> (r: i64)
    ensures
        r == wrap_angle(a as int),
        0 <= r < TWO_PI,
{
    let t: i128 = TWO_PI as i128;
    if a >= 0 {
        (a % t) as i64
    } else {
        let m: i128 = (-(a + 1)) % t;
        (t - 1 - m) as i64
    }
}

/// The four movement intents of one tick.
#[derive(Clone, Copy, Debug, PartialEq, Eq)]
pub struct MoveIntent {
    pub forward: bool,
    pub backward: bool,
    pub strafe_left: bool,
    pub strafe_right: bool,
}

pub open spec fn signed(plus: bool, minus: bool) -> int {
    (if plus { 1int } else { 0int }) - (if minus { 1int } else { 0int })
}

/// Sum of the unit vectors of the active intents: forward along the heading,
/// strafing along the heading turned by ±90°.
pub open spec fn move_sum(m: MoveIntent, d: Dir) -> (int, int) {
    let f = signed(m.forward, m.backward);
    let r = signed(m.strafe_right, m.strafe_left);
    (times_sign(f, d.c as int) - times_sign(r, d.s as int), times_sign(f, d.s as int) + times_sign(r, d.c as int))
}

/// `k · v` for `k` in `{-1, 0, 1}`.
pub open spec fn times_sign(k: int, v: int) -> int {
    if k > 0 { v } else if k < 0 { -v } else { 0 }
}

/// Least `l >= 0` with `l * l >= n`.
pub open spec fn is_ceil_sqrt(n: int, l: int) -> bool {
    &&& l >= 0
    &&& l * l >= n
    &&& (l == 0 || (l - 1) * (l - 1) < n)
}

pub open spec fn ceil_sqrt(n: int) -> int {
    choose|l: int| is_ceil_sqrt(n, l)
}

/// Integer division rounding toward zero.
pub open spec fn div_trunc(a: int, b: int) -> int {
    if a >= 0 { a / b } else { -((-a) / b) }
}

/// Distance covered in `dt` microseconds at `speed` cells per second.
pub open spec fn travel(speed: int, dt: int) -> int {
    speed * dt / (SCALE as int)
}

/// The movement vector scaled to length `step`: each component of the
/// intent sum times `step`, divided by the sum's length (rounded up), and
/// rounded toward zero. Zero when no intent contributes.
pub open spec fn displacement(m: MoveIntent, d: Dir, step: int) -> (int, int) {
    let v = move_sum(m, d);
    let n = v.0 * v.0 + v.1 * v.1;
    if n == 0 {
        (0, 0)
    } else {
        let l = ceil_sqrt(n);
        (div_trunc(v.0 * step, l), div_trunc(v.1 * step, l))
    }
}

#[verifier::spinoff_prover]
proof fn lemma_ceil_sqrt_unique(n: int, a: int, b: int)
    requires
        is_ceil_sqrt(n, a),
        is_ceil_sqrt(n, b),
    ensures
        a == b,
{
    if a < b {
        assert((b - 1) * (b - 1) >= a * a) by (nonlinear_arith)
            requires 0 <= a <= b - 1;
    } else if b < a {
        assert((a - 1) * (a - 1) >= b * b) by (nonlinear_arith)
            requires 0 <= b <= a - 1;
    }
}

/// Ceiling square root of `n`, for `1 <= n <= 9·10²⁴`.
pub fn ceil_sqrt_exec(n: i128) -> (r: i64)
    requires
        1 <= n <= 9_000_000_000_000_000_000_000_000,
    ensures
        r == ceil_sqrt(n as int),
        is_ceil_sqrt(n as int, r as int),
        1 <= r <= 3_000_000_000_000,
{
    let mut lo: i128 = 0;
    let mut hi: i128 = 3_000_000_000_000;
    assert(3_000_000_000_000 * 3_000_000_000_000 == 9_000_000_000_000_000_000_000_000) by (nonlinear_arith);
    while hi - lo > 1
        invariant
            0 <= lo < hi <= 3_000_000_000_000,
            lo * lo < n,
            hi * hi >= n,
        decreases hi - lo,
    {
        let mid: i128 = lo + (hi - lo) / 2;
        assert(0 <= mid * mid <= 9_000_000_000_000_000_000_000_000) by (nonlinear_arith)
            requires 0 <= mid <= 3_000_000_000_000;
        if mid * mid >= n {
            hi = mid;
        } else {
            lo = mid;
        }
    }
    proof {
        assert(is_ceil_sqrt(n as int, hi as int));
        lemma_ceil_sqrt_unique(n as int, hi as int, ceil_sqrt(n as int));
    }
    hi as i64
}

/// The player: a position in fixed-point cells, a heading, a field of view,
/// and the speeds that scale its intents.
#[derive(Clone, Copy, Debug, PartialEq, Eq)]
pub struct Player {
    pub x: i64,
    pub y: i64,
    pub angle: i64,
    pub fov: i64,
    pub move_speed: i64,
    pub rot_speed: i64,
}

impl Player {
    pub open spec fn wf(&self) -> bool {
        &&& -MAX_COORD <= self.x <= MAX_COORD
        &&& -MAX_COORD <= self.y <= MAX_COORD
        &&& 0 <= self.angle < TWO_PI
        &&& 0 <= self.fov <= TWO_PI
        &&& 0 <= self.move_speed <= MAX_SPEED
        &&& 0 <= self.rot_speed <= MAX_SPEED
    }

    /// A player at `(x, y)` facing `angle` (normalized into `[0, 2π)`), with
    /// a 60° field of view and the default speeds.
    pub fn new(x: i64, y: i64, angle: i64) -> (r: Player)
        requires
            -MAX_COORD <= x <= MAX_COORD,
            -MAX_COORD <= y <= MAX_COORD,
        ensures
            r.wf(),
            r.x == x,
            r.y == y,
            r.angle == wrap_angle(angle as int),
            r.fov == DEFAULT_FOV,
            r.move_speed == DEFAULT_MOVE_SPEED,
            r.rot_speed == DEFAULT_ROT_SPEED,
    {
        Player {
            x,
            y,
            angle: normalize_angle(angle as i128),
            fov: DEFAULT_FOV,
            move_speed: DEFAULT_MOVE_SPEED,
            rot_speed: DEFAULT_ROT_SPEED,
        }
    }

    /// Turn of one tick: mouse travel in thousandths of a pixel times the
    /// sensitivity, plus the keyboard rotation for `dt` microseconds.
    pub open spec fn turn_amount(
        &self,
        dt: int,
        rotate_left: bool,
        rotate_right: bool,
        mouse_dx: int,
    ) -> int {
        let spin = travel(self.rot_speed as int, dt);
        mouse_dx * MOUSE_SENSITIVITY + (if rotate_right { spin } else { 0 }) - (if rotate_left {
            spin
        } else {
            0
        })
    }

    /// Applies the rotation intents of one tick, then normalizes the heading
    /// into `[0, 2π)`.
    pub fn turn(&mut self, dt: i64, rotate_left: bool, rotate_right: bool, mouse_dx: i64)
        requires
            old(self).wf(),
            0 <= dt,
        ensures
            final(self).wf(),
            final(self).angle == wrap_angle(
                old(self).angle + old(self).turn_amount(dt as int, rotate_left, rotate_right, mouse_dx as int),
            ),
            0 <= final(self).angle < TWO_PI,
            final(self).x == old(self).x,
            final(self).y == old(self).y,
            final(self).fov == old(self).fov,
            final(self).move_speed == old(self).move_speed,
            final(self).rot_speed == old(self).rot_speed,
    {
        assert(0 <= self.rot_speed * dt <= MAX_SPEED * i64::MAX) by (nonlinear_arith)
            requires 0 <= self.rot_speed <= MAX_SPEED, 0 <= dt <= i64::MAX;
        let spin: i128 = (self.rot_speed as i128) * (dt as i128) / (SCALE as i128);
        let mut a: i128 = self.angle as i128 + (mouse_dx as i128) * (MOUSE_SENSITIVITY as i128);
        if rotate_left {
            a = a - spin;
        }
        if rotate_right {
            a = a + spin;
        }
        self.angle = normalize_angle(a);
    }

    /// Moves the player for `dt` microseconds along the active intents,
    /// where `facing` is the unit vector of the current heading. The intent
    /// sum is normalized to the distance `move_speed · dt`; the X part is
    /// taken first and kept only if the new point is free, then the Y part
    /// from the possibly updated X, kept only if free.
    pub fn update(&mut self, dt: i64, intent: MoveIntent, facing: Dir, map: &GridMap)
        requires
            old(self).wf(),
            facing.wf(),
            map.wf(),
            0 <= dt,
        ensures
            final(self).wf(),
            ({
                let step = travel(old(self).move_speed as int, dt as int);
                let d = displacement(intent, facing, step);
                (final(self).x as int, final(self).y as int) == collide(
                    map,
                    old(self).x as int,
                    old(self).y as int,
                    d.0,
                    d.1,
                )
            }),
            final(self).angle == old(self).angle,
            final(self).fov == old(self).fov,
            final(self).move_speed == old(self).move_speed,
            final(self).rot_speed == old(self).rot_speed,
    {
        assert(0 <= self.move_speed * dt <= MAX_SPEED * i64::MAX) by (nonlinear_arith)
            requires 0 <= self.move_speed <= MAX_SPEED, 0 <= dt <= i64::MAX;
        let step: i128 = (self.move_speed as i128) * (dt as i128) / (SCALE as i128);
        assert(step <= MAX_STEP);
        let (dx, dy) = scaled_move(intent, facing, step);
        let nx: i128 = self.x as i128 + dx;
        if free_at(map, nx, self.y as i128) {
            proof { lemma_free_point_in_grid(map, nx as int, self.y as int); }
            self.x = nx as i64;
        }
        let ny: i128 = self.y as i128 + dy;
        if free_at(map, self.x as i128, ny) {
            proof { lemma_free_point_in_grid(map, self.x as int, ny as int); }
            self.y = ny as i64;
        }
    }
}

/// Axis-separated collision: the X part of the move is kept only if
/// `(x + dx, y)` is free; then the Y part, from the X reached, only if
/// `(x', y + dy)` is free.
pub open spec fn collide(map: &GridMap, x: int, y: int, dx: int, dy: int) -> (int, int) {
    let nx = if map.blocks(x + dx, y) { x } else { x + dx };
    let ny = if map.blocks(nx, y + dy) { y } else { y + dy };
    (nx, ny)
}

/// Whether a point, possibly far outside the coordinate range, is free.
fn free_at(map: &GridMap, x: i128, y: i128) -> (r: bool)
    requires
        map.wf(),
    ensures
        r == !map.blocks(x as int, y as int),
{
    if x < -MAX_COORD as i128 || x > MAX_COORD as i128 || y < -MAX_COORD as i128 || y
        > MAX_COORD as i128 {
        proof {
            if !map.blocks(x as int, y as int) {
                lemma_free_point_in_grid(map, x as int, y as int);
            }
        }
        false
    } else {
        !map.is_wall(x as i64, y as i64)
    }
}

/// A free point lies inside the grid.
pub proof fn lemma_free_point_in_grid(map: &GridMap, x: int, y: int)
    requires
        map.wf(),
        !map.blocks(x, y),
    ensures
        0 <= x < map.width * SCALE,
        0 <= y < map.height * SCALE,
        map.width * SCALE <= MAX_COORD,
        map.height * SCALE <= MAX_COORD,
{
    assert(map.width <= MAX_GRID_DIM && map.height <= MAX_GRID_DIM);
}

/// Exact-length movement step: `displacement(intent, facing, step)`.
pub fn scaled_move(intent: MoveIntent, facing: Dir, step: i128) -> (r: (i128, i128))
    requires
        facing.wf(),
        0 <= step <= MAX_STEP,
    ensures
        r.0 == displacement(intent, facing, step as int).0,
        r.1 == displacement(intent, facing, step as int).1,
        -step <= r.0 <= step,
        -step <= r.1 <= step,
{
    let f: i64 = if intent.forward { 1 } else { 0 } - if intent.backward { 1 } else { 0 };
    let r: i64 = if intent.strafe_right { 1 } else { 0 } - if intent.strafe_left { 1 } else { 0 };
    let vx: i64 = sign_times(f, facing.c) - sign_times(r, facing.s);
    let vy: i64 = sign_times(f, facing.s) + sign_times(r, facing.c);
    assert(vx == move_sum(intent, facing).0 && vy == move_sum(intent, facing).1);
    assert(-2_000_000 <= vx <= 2_000_000 && -2_000_000 <= vy <= 2_000_000);
    assert(0 <= vx * vx <= 4_000_000_000_000) by (nonlinear_arith)
        requires -2_000_000 <= vx <= 2_000_000;
    assert(0 <= vy * vy <= 4_000_000_000_000) by (nonlinear_arith)
        requires -2_000_000 <= vy <= 2_000_000;
    let n: i64 = vx * vx + vy * vy;
    if n == 0 {
        return (0, 0);
    }
    let l = ceil_sqrt_exec(n as i128) as i128;
    assert(-2_000_000 * MAX_STEP <= vx * step <= 2_000_000 * MAX_STEP) by (nonlinear_arith)
        requires -2_000_000 <= vx <= 2_000_000, 0 <= step <= MAX_STEP;
    assert(-2_000_000 * MAX_STEP <= vy * step <= 2_000_000 * MAX_STEP) by (nonlinear_arith)
        requires -2_000_000 <= vy <= 2_000_000, 0 <= step <= MAX_STEP;
    let px: i128 = vx as i128 * step;
    let py: i128 = vy as i128 * step;
    let dx: i128 = if px >= 0 { px / l } else { -((-px) / l) };
    let dy: i128 = if py >= 0 { py / l } else { -((-py) / l) };
    proof {
        lemma_component_bound(vx as int, vy as int, l as int, step as int);
        lemma_component_bound(vy as int, vx as int, l as int, step as int);
    }
    (dx, dy)
}

fn sign_times(k: i64, v: i64) -> (r: i64)
    requires
        -1 <= k <= 1,
        -SCALE <= v <= SCALE,
    ensures
        r == times_sign(k as int, v as int),
{
    if k > 0 {
        v
    } else if k < 0 {
        -v
    } else {
        0
    }
}

/// A component of a vector scaled to length `step` by a length no smaller
/// than the vector's is at most `step` in magnitude.
proof fn lemma_component_bound(a: int, b: int, l: int, step: int)
    requires
        l >= 1,
        l * l >= a * a + b * b,
        step >= 0,
    ensures
        -step <= div_trunc(a * step, l) <= step,
{
    let m = if a >= 0 { a } else { -a };
    assert(m <= l) by (nonlinear_arith)
        requires l >= 1, l * l >= a * a + b * b, m == a || m == -a, m >= 0;
    assert(m * step <= l * step) by (nonlinear_arith)
        requires m <= l, step >= 0;
    assert((m * step) / l <= (l * step) / l) by (nonlinear_arith)
        requires m * step <= l * step, l >= 1;
    assert((l * step) / l == step) by (nonlinear_arith)
        requires l >= 1;
    assert(0 <= (m * step) / l) by (nonlinear_arith)
        requires m >= 0, step >= 0, l >= 1;
    if a >= 0 {
        assert(a * step == m * step);
    } else {
        assert(-(a * step) == m * step) by (nonlinear_arith)
            requires m == -a;
    }
}

} // verus!

verus! {

pub open spec fn abs(a: int) -> int {
    if a >= 0 { a } else { -a }
}

/// Rounding a scaled component toward zero: `l·|q| <= |v|·step < l·(|q| + 1)`.
proof fn lemma_trunc_component(v: int, l: int, step: int)
    requires
        l >= 1,
        step >= 0,
    ensures
        abs(div_trunc(v * step, l)) == (abs(v) * step) / l,
        l * abs(div_trunc(v * step, l)) <= abs(v) * step < l * (abs(div_trunc(v * step, l)) + 1),
{
    let m = abs(v);
    assert(abs(v * step) == m * step) by (nonlinear_arith)
        requires m == abs(v), step >= 0;
    assert(m * step >= 0) by (nonlinear_arith)
        requires m >= 0, step >= 0;
    let q = (m * step) / l;
    assert(q >= 0) by (nonlinear_arith)
        requires m * step >= 0, l >= 1, q == (m * step) / l;
    assert(l * q <= m * step < l * (q + 1)) by (nonlinear_arith)
        requires m * step >= 0, l >= 1, q == (m * step) / l;
}

/// The squared length of the intent sum is the number of axes in use times
/// the squared length of the facing vector.
proof fn lemma_move_sum_norm(m: MoveIntent, d: Dir)
    ensures
        ({
            let v = move_sum(m, d);
            let f = signed(m.forward, m.backward);
            let r = signed(m.strafe_right, m.strafe_left);
            v.0 * v.0 + v.1 * v.1 == (f * f + r * r) * (d.c * d.c + d.s * d.s)
        }),
{
    let f = signed(m.forward, m.backward);
    let r = signed(m.strafe_right, m.strafe_left);
    let c = d.c as int;
    let s = d.s as int;
    let fc = times_sign(f, c);
    let fs = times_sign(f, s);
    let rc = times_sign(r, c);
    let rs = times_sign(r, s);
    assert(fc == f * c && fs == f * s && rc == r * c && rs == r * s) by (nonlinear_arith)
        requires
            -1 <= f <= 1,
            -1 <= r <= 1,
            fc == times_sign(f, c),
            fs == times_sign(f, s),
            rc == times_sign(r, c),
            rs == times_sign(r, s),
    {
    }
    lemma_rotation_norm(f, r, c, s);
}

proof fn lemma_rotation_norm(f: int, r: int, c: int, s: int)
    requires
        -1 <= f <= 1,
        -1 <= r <= 1,
    ensures
        (f * c - r * s) * (f * c - r * s) + (f * s + r * c) * (f * s + r * c) == (f * f + r * r)
            * (c * c + s * s),
{
    assert((c - s) * (c - s) + (s + c) * (s + c) == 2 * (c * c + s * s)) by (nonlinear_arith);
    assert((c + s) * (c + s) + (s - c) * (s - c) == 2 * (c * c + s * s)) by (nonlinear_arith);
    assert((-c - s) * (-c - s) + (-s + c) * (-s + c) == 2 * (c * c + s * s)) by (nonlinear_arith);
    assert((-c + s) * (-c + s) + (-s - c) * (-s - c) == 2 * (c * c + s * s)) by (nonlinear_arith);
    assert((-c) * (-c) == c * c && (-s) * (-s) == s * s) by (nonlinear_arith);
    if f == 0 {
        assert(f * c == 0 && f * s == 0 && f * f == 0) by (nonlinear_arith) requires f == 0;
    } else if f == 1 {
        assert(f * c == c && f * s == s && f * f == 1) by (nonlinear_arith) requires f == 1;
    } else {
        assert(f * c == -c && f * s == -s && f * f == 1) by (nonlinear_arith) requires f == -1;
    }
    if r == 0 {
        assert(r * c == 0 && r * s == 0 && r * r == 0) by (nonlinear_arith) requires r == 0;
    } else if r == 1 {
        assert(r * c == c && r * s == s && r * r == 1) by (nonlinear_arith) requires r == 1;
    } else {
        assert(r * c == -c && r * s == -s && r * r == 1) by (nonlinear_arith) requires r == -1;
    }
    assert(2 * (c * c + s * s) == (1 + 1) * (c * c + s * s)
        && 1 * (c * c + s * s) == c * c + s * s && 0 * (c * c + s * s) == 0) by (nonlinear_arith);
}

/// Moving never covers more than the step distance: whichever intents are
/// held, diagonal ones included, the squared length of the displacement is
/// at most `step²`.
#[verifier::spinoff_prover]
pub proof fn lemma_move_never_faster(m: MoveIntent, d: Dir, step: int)
    requires
        d.wf(),
        step >= 0,
    ensures
        ({
            let p = displacement(m, d, step);
            p.0 * p.0 + p.1 * p.1 <= step * step
        }),
{
    let v = move_sum(m, d);
    let n = v.0 * v.0 + v.1 * v.1;
    assert(v.0 * v.0 >= 0 && v.1 * v.1 >= 0) by (nonlinear_arith);
    if n != 0 {
        let l = ceil_sqrt(n);
        lemma_ceil_sqrt_exists(n);
        assert(l >= 1) by (nonlinear_arith)
            requires l >= 0, l * l >= n, n >= 1;
        let p = displacement(m, d, step);
        lemma_trunc_component(v.0, l, step);
        lemma_trunc_component(v.1, l, step);
        let a = abs(p.0);
        let b = abs(p.1);
        let av = abs(v.0) * step;
        let bv = abs(v.1) * step;
        assert(p.0 * p.0 == a * a && p.1 * p.1 == b * b) by (nonlinear_arith)
            requires a == abs(p.0), b == abs(p.1);
        assert((l * a) * (l * a) <= av * av) by (nonlinear_arith)
            requires 0 <= l * a <= av;
        assert((l * b) * (l * b) <= bv * bv) by (nonlinear_arith)
            requires 0 <= l * b <= bv;
        assert((l * a) * (l * a) == (l * l) * (a * a)) by (nonlinear_arith);
        assert((l * b) * (l * b) == (l * l) * (b * b)) by (nonlinear_arith);
        assert(av * av == (v.0 * v.0) * (step * step)) by (nonlinear_arith)
            requires av == abs(v.0) * step;
        assert(bv * bv == (v.1 * v.1) * (step * step)) by (nonlinear_arith)
            requires bv == abs(v.1) * step;
        assert(av * av + bv * bv == n * (step * step)) by (nonlinear_arith)
            requires
                av * av == (v.0 * v.0) * (step * step),
                bv * bv == (v.1 * v.1) * (step * step),
                n == v.0 * v.0 + v.1 * v.1;
        assert(n * (step * step) <= (l * l) * (step * step)) by (nonlinear_arith)
            requires l * l >= n, step >= 0;
        assert((l * l) * (a * a + b * b) <= (l * l) * (step * step)) by (nonlinear_arith)
            requires
                (l * a) * (l * a) <= av * av,
                (l * b) * (l * b) <= bv * bv,
                (l * a) * (l * a) == (l * l) * (a * a),
                (l * b) * (l * b) == (l * l) * (b * b),
                av * av + bv * bv == n * (step * step),
                n * (step * step) <= (l * l) * (step * step);
        assert(a * a + b * b <= step * step) by (nonlinear_arith)
            requires (l * l) * (a * a + b * b) <= (l * l) * (step * step), l >= 1;
    }
}

#[verifier::spinoff_prover]
proof fn lemma_ceil_sqrt_exists(n: int)
    requires
        n >= 1,
    ensures
        is_ceil_sqrt(n, ceil_sqrt(n)),
{
    assert(n * n >= n) by (nonlinear_arith)
        requires n >= 1;
    lemma_ceil_sqrt_witness(n, n);
}

/// Some `l` in `[1, k]` is the ceiling square root of `n`, given `k·k >= n`.
#[verifier::spinoff_prover]
proof fn lemma_ceil_sqrt_witness(n: int, k: int)
    requires
        n >= 1,
        k >= 1,
        k * k >= n,
    ensures
        is_ceil_sqrt(n, ceil_sqrt(n)),
    decreases k,
{
    if k == 1 || (k - 1) * (k - 1) < n {
        assert(is_ceil_sqrt(n, k));
    } else {
        lemma_ceil_sqrt_witness(n, k - 1);
    }
}

/// Moving covers the full step distance up to rounding: when the held
/// intents do not cancel, the displacement, each component widened by one
/// unit, reaches at least `(1 - 1/400000)` of `step²`. Together with
/// `lemma_move_never_faster` this gives diagonal and straight movement the
/// same speed.
#[verifier::spinoff_prover]
pub proof fn lemma_move_full_speed(m: MoveIntent, d: Dir, step: int)
    requires
        d.wf(),
        step >= 0,
        signed(m.forward, m.backward) != 0 || signed(m.strafe_right, m.strafe_left) != 0,
    ensures
        ({
            let p = displacement(m, d, step);
            400_000 * ((abs(p.0) + 1) * (abs(p.0) + 1) + (abs(p.1) + 1) * (abs(p.1) + 1))
                > 399_999 * (step * step)
        }),
{
    let v = move_sum(m, d);
    let n = v.0 * v.0 + v.1 * v.1;
    let f = signed(m.forward, m.backward);
    let r = signed(m.strafe_right, m.strafe_left);
    lemma_move_sum_norm(m, d);
    let q = d.c * d.c + d.s * d.s;
    assert(f * f + r * r >= 1) by (nonlinear_arith)
        requires -1 <= f <= 1, -1 <= r <= 1, f != 0 || r != 0;
    assert(n >= q) by (nonlinear_arith)
        requires n == (f * f + r * r) * q, f * f + r * r >= 1, q >= 0;
    let l = ceil_sqrt(n);
    lemma_ceil_sqrt_exists(n);
    assert(l >= 999_998) by (nonlinear_arith)
        requires l >= 0, l * l >= n, n >= 999_996_000_000;
    let p = displacement(m, d, step);
    lemma_trunc_component(v.0, l, step);
    lemma_trunc_component(v.1, l, step);
    let a = abs(p.0) + 1;
    let b = abs(p.1) + 1;
    let x = a * a + b * b;
    let av = abs(v.0) * step;
    let bv = abs(v.1) * step;
    assert(av >= 0 && bv >= 0) by (nonlinear_arith)
        requires av == abs(v.0) * step, bv == abs(v.1) * step, step >= 0;
    assert(av * av <= (l * a) * (l * a)) by (nonlinear_arith)
        requires 0 <= av < l * a;
    assert(bv * bv <= (l * b) * (l * b)) by (nonlinear_arith)
        requires 0 <= bv < l * b;
    assert((l * a) * (l * a) == (l * l) * (a * a)) by (nonlinear_arith);
    assert((l * b) * (l * b) == (l * l) * (b * b)) by (nonlinear_arith);
    assert(av * av == (v.0 * v.0) * (step * step)) by (nonlinear_arith)
        requires av == abs(v.0) * step;
    assert(bv * bv == (v.1 * v.1) * (step * step)) by (nonlinear_arith)
        requires bv == abs(v.1) * step;
    assert(l * l * x == (l * l) * (a * a) + (l * l) * (b * b)) by (nonlinear_arith)
        requires x == a * a + b * b;
    assert(n * (step * step) == av * av + bv * bv) by (nonlinear_arith)
        requires
            av * av == (v.0 * v.0) * (step * step),
            bv * bv == (v.1 * v.1) * (step * step),
            n == v.0 * v.0 + v.1 * v.1;
    assert(n * (step * step) <= l * l * x);
    assert((l - 1) * (l - 1) * (step * step) <= n * (step * step)) by (nonlinear_arith)
        requires (l - 1) * (l - 1) < n, step >= 0;
    assert(x >= 2) by (nonlinear_arith)
        requires a >= 1, b >= 1, x == a * a + b * b;
    if step == 0 {
        assert(400_000 * x > 399_999 * (step * step)) by (nonlinear_arith)
            requires step == 0, x >= 2;
    } else {
        assert((l - 1) * (l - 1) * (step * step) < n * (step * step)) by (nonlinear_arith)
            requires (l - 1) * (l - 1) < n, step > 0;
        assert(l * l * x > (l - 1) * (l - 1) * (step * step));
        assert(400_000 * x > 399_999 * (step * step)) by (nonlinear_arith)
            requires
                l >= 999_998,
                l * l * x > (l - 1) * (l - 1) * (step * step),
                x >= 0,
        {
            assert(400_000 * ((l - 1) * (l - 1)) >= 399_999 * (l * l)) by (nonlinear_arith)
                requires l >= 999_998;
            assert(400_000 * (l * l * x) > 400_000 * ((l - 1) * (l - 1)) * (step * step)) by (nonlinear_arith)
                requires l * l * x > (l - 1) * (l - 1) * (step * step);
            assert(400_000 * ((l - 1) * (l - 1)) * (step * step) >= 399_999 * (l * l) * (step * step)) by (nonlinear_arith)
                requires 400_000 * ((l - 1) * (l - 1)) >= 399_999 * (l * l);
            assert((l * l) * (400_000 * x - 399_999 * (step * step)) > 0) by (nonlinear_arith)
                requires
                    400_000 * (l * l * x) > 400_000 * ((l - 1) * (l - 1)) * (step * step),
                    400_000 * ((l - 1) * (l - 1)) * (step * step) >= 399_999 * (l * l) * (step * step);
            assert(l * l > 0) by (nonlinear_arith)
                requires l >= 999_998;
            assert(400_000 * x - 399_999 * (step * step) > 0) by (nonlinear_arith)
                requires (l * l) * (400_000 * x - 399_999 * (step * step)) > 0, l * l > 0;
        }
    }
}

/// Sliding along a wall: when the X part of a move runs into a wall but the
/// Y part is free from the unchanged X, the player stays at its X and
/// advances in Y instead of stopping.
pub proof fn lemma_slides_along_wall(map: &GridMap, x: int, y: int, dx: int, dy: int)
    requires
        map.blocks(x + dx, y),
        !map.blocks(x, y + dy),
    ensures
        collide(map, x, y, dx, dy) == (x, y + dy),
{
}

/// Moving never enters a blocking cell: each coordinate of the result is
/// either kept or moved to a point that is free.
pub proof fn lemma_collide_lands_free(map: &GridMap, x: int, y: int, dx: int, dy: int)
    requires
        !map.blocks(x, y),
    ensures
        !map.blocks(collide(map, x, y, dx, dy).0, collide(map, x, y, dx, dy).1),
{
}

} // verus!

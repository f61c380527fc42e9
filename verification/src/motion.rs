//! Subject motion controller.
//!
//! Each tick, discrete key state becomes smooth, frame-time-scaled motion
//! relative to the camera: the subject's forward axis is the horizontal part
//! of the camera-to-subject line, normalized — skipped entirely for the tick
//! when that line has no horizontal part, so no degenerate direction is ever
//! normalized — its strafe axis the horizontal perpendicular. The facing
//! interpolates toward the forward axis and, while movement keys are held,
//! the position interpolates toward one normalized step of the combined key
//! direction; both factors are `rate * dt`, clamped so a frame-time spike
//! cannot overshoot the target. With no keys held the position is left
//! untouched.

use vstd::prelude::*;

use vstd::arithmetic::div_mod::{lemma_fundamental_div_mod, lemma_fundamental_div_mod_converse, lemma_mod_bound};

use crate::fixed::{
    add3, bounded2, bounded3, is_zero3, normalize3, scale3, scale_by, sub3, add3v,
    lemma_tdiv_bounds, lemma_unit_scale_bounded, scale3v, sub3v, tdiv, unit3v, Fx2, Fx3, V2, V3,
    SCALE,
};
use crate::world::{transform_bounded, LookCam, LookCamV, Transform, TransformV, CAM_LIMIT};

verus! {

/// Angular approach rate: orientation closes on its target at `5 * dt`.
pub const TURN_RATE: i64 = 5;

/// Closing rate: position closes on its step target at `10 * dt`.
pub const MOVE_RATE: i64 = 10;

/// Largest tick size the controller accepts, in fixed seconds.
pub const DT_LIMIT: i64 = 100_000_000;

/// Which movement keys are held this tick.
#[derive(Clone, Copy, PartialEq, Eq, Structural, Debug)]
pub struct KeyState {
    pub forward: bool,
    pub back: bool,
    pub right: bool,
    pub left: bool,
}

/// A rate-times-dt factor, clamped so one step can never overshoot.
pub open spec fn clamp_factor(k: int) -> int {
    if k > SCALE as int {
        SCALE as int
    } else {
        k
    }
}

/// One interpolation step of `a` toward `b` by factor `k` (out of `SCALE`).
pub open spec fn lerp1(a: int, b: int, k: int) -> int {
    a + tdiv((b - a) * k, SCALE as int)
}

/// The horizontal part of a vector.
pub open spec fn horiz(v: V3) -> V3 {
    V3 { x: v.x, y: 0, z: v.z }
}

/// Signed combination of forward and strafe axes from the held keys.
pub open spec fn key_delta(dir: V3, perp: V3, keys: KeyState) -> V3 {
    V3 {
        x: (if keys.forward {
            dir.x
        } else {
            0
        }) - (if keys.back {
            dir.x
        } else {
            0
        }) + (if keys.right {
            perp.x
        } else {
            0
        }) - (if keys.left {
            perp.x
        } else {
            0
        }),
        y: 0,
        z: (if keys.forward {
            dir.z
        } else {
            0
        }) - (if keys.back {
            dir.z
        } else {
            0
        }) + (if keys.right {
            perp.z
        } else {
            0
        }) - (if keys.left {
            perp.z
        } else {
            0
        }),
    }
}

/// The transform one motion tick leaves the subject with.
pub open spec fn move_character_spec(t: TransformV, cam: LookCamV, keys: KeyState, dt: int) -> TransformV {
    let raw = horiz(sub3v(t.pos, cam.eye));
    if is_zero3(raw) {
        t
    } else {
        let dir = unit3v(raw);
        let perp = V3 { x: -dir.z, y: 0, z: dir.x };
        let dest = V2 { x: dir.x, y: dir.z };
        let kr = clamp_factor(TURN_RATE as int * dt);
        let facing1 = V2 {
            x: lerp1(t.facing.x, dest.x, kr),
            y: lerp1(t.facing.y, dest.y, kr),
        };
        let delta = key_delta(dir, perp, keys);
        if is_zero3(delta) {
            TransformV { facing: facing1, ..t }
        } else {
            let kp = clamp_factor(MOVE_RATE as int * dt);
            TransformV { pos: add3v(t.pos, scale3v(unit3v(delta), kp)), facing: facing1, ..t }
        }
    }
}

/// A clamped interpolation step stays between its endpoints.
pub proof fn lemma_lerp_between(a: int, b: int, k: int)
    requires
        0 <= k <= SCALE as int,
    ensures
        a <= b ==> a <= lerp1(a, b, k) <= b,
        b <= a ==> b <= lerp1(a, b, k) <= a,
{
    let d = b - a;
    let s = SCALE as int;
    if d >= 0 {
        assert(0 <= d * k <= d * s) by (nonlinear_arith)
            requires
                0 <= k <= s,
                d >= 0,
        ;
        lemma_tdiv_bounds(d * k, s);
        assert((d * k) / s <= (d * s) / s) by (nonlinear_arith)
            requires
                0 <= d * k <= d * s,
                s >= 1,
        ;
        assert((d * s) / s == d) by (nonlinear_arith)
            requires
                s >= 1,
                d >= 0,
        ;
    } else {
        assert(0 <= (-d) * k <= (-d) * s) by (nonlinear_arith)
            requires
                0 <= k <= s,
                d < 0,
        ;
        lemma_tdiv_bounds(d * k, s);
        assert(d * k == -((-d) * k)) by (nonlinear_arith);
        assert(((-d) * k) / s <= ((-d) * s) / s) by (nonlinear_arith)
            requires
                0 <= (-d) * k <= (-d) * s,
                s >= 1,
        ;
        assert(((-d) * s) / s == -d) by (nonlinear_arith)
            requires
                s >= 1,
                d < 0,
        ;
    }
}

/// One motion tick of the subject.
pub fn move_character(t: &Transform, cam: &LookCam, keys: KeyState, dt: i64) -> (r: Transform)
    requires
        transform_bounded(t@),
        bounded3(cam@.eye, CAM_LIMIT as int),
        0 <= dt <= DT_LIMIT,
    ensures
        r@ == move_character_spec(t@, cam@, keys, dt as int),
        bounded3(sub3v(r@.pos, t@.pos), SCALE as int),
        bounded2(r@.facing, SCALE as int),
        r@.scale == t@.scale,
{
    let d3 = sub3(t.pos, cam.eye);
    let raw = Fx3 { x: d3.x, y: 0, z: d3.z };
    if raw.x == 0 && raw.z == 0 {
        proof {
            assert(bounded3(sub3v(t@.pos, t@.pos), SCALE as int));
        }
        return *t;
    }
    let dir = match normalize3(raw) {
        Some(u) => u,
        None => {
            return *t;
        },
    };
    let perp = Fx3 { x: -dir.z, y: 0, z: dir.x };
    let dest = Fx2 { x: dir.x, y: dir.z };
    let mut kr: i64 = TURN_RATE * dt;
    if kr > SCALE {
        kr = SCALE;
    }
    let fx = t.facing.x + scale_by(dest.x - t.facing.x, kr);
    let fy = t.facing.y + scale_by(dest.y - t.facing.y, kr);
    proof {
        lemma_lerp_between(t@.facing.x, dest@.x, kr as int);
        lemma_lerp_between(t@.facing.y, dest@.y, kr as int);
    }
    let facing1 = Fx2 { x: fx, y: fy };
    let mut dx: i64 = 0;
    let mut dz: i64 = 0;
    if keys.forward {
        dx = dx + dir.x;
        dz = dz + dir.z;
    }
    if keys.back {
        dx = dx - dir.x;
        dz = dz - dir.z;
    }
    if keys.right {
        dx = dx + perp.x;
        dz = dz + perp.z;
    }
    if keys.left {
        dx = dx - perp.x;
        dz = dz - perp.z;
    }
    let delta = Fx3 { x: dx, y: 0, z: dz };
    proof {
        assert(delta@ == key_delta(unit3v(raw@), perp@, keys));
    }
    if delta.x == 0 && delta.z == 0 {
        let r = Transform { pos: t.pos, facing: facing1, scale: t.scale };
        proof {
            assert(bounded3(sub3v(r@.pos, t@.pos), SCALE as int));
        }
        return r;
    }
    let step = match normalize3(delta) {
        Some(u) => u,
        None => {
            return *t;
        },
    };
    let mut kp: i64 = MOVE_RATE * dt;
    if kp > SCALE {
        kp = SCALE;
    }
    let moved = scale3(step, kp);
    proof {
        lemma_unit_scale_bounded(delta@, kp as int);
    }
    let newpos = add3(t.pos, moved);
    Transform { pos: newpos, facing: facing1, scale: t.scale }
}

/// Guarded normalization: when the subject's position coincides with the
/// camera's eye — or stands exactly above or below it — the motion tick has
/// no horizontal direction to normalize and leaves the subject untouched,
/// rather than computing an undefined orientation.
pub proof fn lemma_guarded_normalization(t: TransformV, cam: LookCamV, keys: KeyState, dt: int)
    requires
        t.pos == cam.eye,
    ensures
        move_character_spec(t, cam, keys, dt) == t,
{
    assert(is_zero3(horiz(sub3v(t.pos, cam.eye))));
}

/// Frame-rate independence of the orientation law: with all values scaled by
/// `SCALE * SCALE`, one ideal interpolation step of factor `2k` differs from
/// two consecutive steps of factor `k` by exactly `(b - a) * k * k` — second
/// order in the tick size, within tolerance of zero for small `k`.
pub proof fn lemma_frame_rate_orientation(a: int, b: int, k: int)
    ensures
        (a * (SCALE as int * SCALE as int) + (b - a) * (2 * k) * SCALE as int) - ((a * SCALE as int
            + (b - a) * k) * SCALE as int + (b * SCALE as int - (a * SCALE as int + (b - a) * k))
            * k) == (b - a) * k * k,
{
    let s = SCALE as int;
    let d = b - a;
    let mid = a * s + d * k;
    assert(mid * s + (b * s - mid) * k == mid * (s - k) + b * s * k) by (nonlinear_arith)
        requires
            mid == a * s + d * k,
    ;
    assert(mid * (s - k) == a * s * s - a * s * k + d * k * s - d * k * k) by (nonlinear_arith)
        requires
            mid == a * s + d * k,
    ;
    assert(b * s * k == a * s * k + d * s * k) by (nonlinear_arith)
        requires
            d == b - a,
    ;
    assert((a * (s * s) + d * (2 * k) * s) - (a * s * s - a * s * k + d * k * s - d * k * k + (a * s
        * k + d * s * k)) == d * k * k) by (nonlinear_arith);
}


/// `SCALE * tdiv(x, SCALE)` misses `x` by less than one whole `SCALE`.
proof fn lemma_tdiv_near(x: int)
    ensures
        x - (SCALE as int) < (SCALE as int) * tdiv(x, SCALE as int),
        (SCALE as int) * tdiv(x, SCALE as int) < x + SCALE as int,
{
    let s = SCALE as int;
    if x >= 0 {
        lemma_fundamental_div_mod(x, s);
        lemma_mod_bound(x, s);
    } else {
        lemma_fundamental_div_mod(-x, s);
        lemma_mod_bound(-x, s);
        assert(s * tdiv(x, s) == -(s * ((-x) / s))) by (nonlinear_arith)
            requires
                tdiv(x, s) == -((-x) / s),
        ;
    }
}

/// Frame-rate independence of the shipped interpolation operator: scaled by
/// `SCALE * SCALE`, one `lerp1` step of factor `2k` differs from two
/// consecutive `lerp1` steps of factor `k` by `(b - a) * k * k` — second
/// order in the tick size — up to four units of truncation slack.
pub proof fn lemma_frame_rate_lerp(a: int, b: int, k: int)
    requires
        0 <= k <= SCALE as int,
    ensures
        (b - a) * k * k - 4 * (SCALE as int) * (SCALE as int) < (SCALE as int) * (SCALE as int)
            * (lerp1(a, b, 2 * k) - lerp1(lerp1(a, b, k), b, k)),
        (SCALE as int) * (SCALE as int) * (lerp1(a, b, 2 * k) - lerp1(lerp1(a, b, k), b, k)) < (b
            - a) * k * k + 4 * (SCALE as int) * (SCALE as int),
{
    let s = SCALE as int;
    let e1 = lerp1(a, b, 2 * k);
    let m = lerp1(a, b, k);
    let e2 = lerp1(m, b, k);
    lemma_tdiv_near((b - a) * (2 * k));
    lemma_tdiv_near((b - a) * k);
    lemma_tdiv_near((b - m) * k);
    // s * e1 is within s of s * a + (b - a) * 2 * k.
    assert(s * e1 == s * a + s * tdiv((b - a) * (2 * k), s)) by (nonlinear_arith)
        requires
            e1 == a + tdiv((b - a) * (2 * k), s),
    ;
    // s * m is within s of s * a + (b - a) * k.
    assert(s * m == s * a + s * tdiv((b - a) * k, s)) by (nonlinear_arith)
        requires
            m == a + tdiv((b - a) * k, s),
    ;
    // s * e2 is within s of s * m + (b - m) * k.
    assert(s * e2 == s * m + s * tdiv((b - m) * k, s)) by (nonlinear_arith)
        requires
            e2 == m + tdiv((b - m) * k, s),
    ;
    // Multiply the middle layer out: s * s * e2 is near
    // s * s * a + 2 * s * (b - a) * k - (b - a) * k * k.
    let sm = s * m;
    assert(s * a + (b - a) * k - s < sm && sm < s * a + (b - a) * k + s) by (nonlinear_arith)
        requires
            sm == s * a + s * tdiv((b - a) * k, s),
            (b - a) * k - s < s * tdiv((b - a) * k, s),
            s * tdiv((b - a) * k, s) < (b - a) * k + s,
    ;
    assert(s * (b - m) * k == k * (s * b - sm)) by (nonlinear_arith)
        requires
            sm == s * m,
    ;
    assert(k * (s * b - (s * a + (b - a) * k + s)) <= k * (s * b - sm) && k * (s * b - sm) <= k * (
    s * b - (s * a + (b - a) * k - s))) by (nonlinear_arith)
        requires
            k >= 0,
            s * a + (b - a) * k - s <= sm <= s * a + (b - a) * k + s,
    ;
    assert(k * (s * b - (s * a + (b - a) * k + s)) == s * (b - a) * k - (b - a) * k * k - k * s)
        by (nonlinear_arith);
    assert(k * (s * b - (s * a + (b - a) * k - s)) == s * (b - a) * k - (b - a) * k * k + k * s)
        by (nonlinear_arith);
    assert(s * s * e2 == s * sm + s * (s * tdiv((b - m) * k, s))) by (nonlinear_arith)
        requires
            s * e2 == sm + s * tdiv((b - m) * k, s),
    ;
    assert(s * (s * tdiv((b - m) * k, s)) > s * ((b - m) * k - s) && s * (s * tdiv(
        (b - m) * k,
        s,
    )) < s * ((b - m) * k + s)) by (nonlinear_arith)
        requires
            s >= 1,
            (b - m) * k - s < s * tdiv((b - m) * k, s) < (b - m) * k + s,
    ;
    assert(s * ((b - m) * k) == s * (b - m) * k) by (nonlinear_arith);
    assert(s * ((b - m) * k - s) == s * (b - m) * k - s * s) by (nonlinear_arith);
    assert(s * ((b - m) * k + s) == s * (b - m) * k + s * s) by (nonlinear_arith);
    assert(s * sm == s * (s * a + s * tdiv((b - a) * k, s))) by (nonlinear_arith)
        requires
            sm == s * a + s * tdiv((b - a) * k, s),
    ;
    assert(s * (s * a + s * tdiv((b - a) * k, s)) > s * (s * a + (b - a) * k - s) && s * (s * a + s
        * tdiv((b - a) * k, s)) < s * (s * a + (b - a) * k + s)) by (nonlinear_arith)
        requires
            s >= 1,
            (b - a) * k - s < s * tdiv((b - a) * k, s) < (b - a) * k + s,
    ;
    assert(s * (s * a + (b - a) * k - s) == s * s * a + s * (b - a) * k - s * s) by (nonlinear_arith);
    assert(s * (s * a + (b - a) * k + s) == s * s * a + s * (b - a) * k + s * s) by (nonlinear_arith);
    // And s * s * e1 is near s * s * a + 2 * s * (b - a) * k.
    assert(s * s * e1 == s * (s * a) + s * (s * tdiv((b - a) * (2 * k), s))) by (nonlinear_arith)
        requires
            s * e1 == s * a + s * tdiv((b - a) * (2 * k), s),
    ;
    assert(s * (s * tdiv((b - a) * (2 * k), s)) > s * ((b - a) * (2 * k) - s) && s * (s * tdiv(
        (b - a) * (2 * k),
        s,
    )) < s * ((b - a) * (2 * k) + s)) by (nonlinear_arith)
        requires
            s >= 1,
            (b - a) * (2 * k) - s < s * tdiv((b - a) * (2 * k), s) < (b - a) * (2 * k) + s,
    ;
    assert(s * ((b - a) * (2 * k) - s) == 2 * (s * (b - a) * k) - s * s && s * ((b - a) * (2 * k)
        + s) == 2 * (s * (b - a) * k) + s * s) by (nonlinear_arith);
    assert(s * (s * a) == s * s * a) by (nonlinear_arith);
    // Combine: the bound needs k * s <= s * s.
    assert(k * s <= s * s) by (nonlinear_arith)
        requires
            0 <= k <= s,
    ;
    assert(s * s * (e1 - e2) == s * s * e1 - s * s * e2) by (nonlinear_arith);
}

/// Doubling the factor of one truncated interpolation step changes it by at
/// most one fixed unit from taking two equal steps' worth of displacement.
pub proof fn lemma_frame_rate_position(c: int, k: int)
    requires
        k >= 0,
    ensures
        -1 <= tdiv(c * (2 * k), SCALE as int) - 2 * tdiv(c * k, SCALE as int) <= 1,
{
    let s = SCALE as int;
    let y = if c * k >= 0 {
        c * k
    } else {
        -(c * k)
    };
    let q = y / s;
    let r = y % s;
    assert(y >= 0);
    assert(y == q * s + r && 0 <= r < s && q >= 0) by (nonlinear_arith)
        requires
            y >= 0,
            s == 1000,
            q == y / s,
            r == y % s,
    ;
    assert(c * (2 * k) == 2 * (c * k)) by (nonlinear_arith);
    assert(2 * y == (2 * q) * s + 2 * r) by (nonlinear_arith)
        requires
            y == q * s + r,
    ;
    if 2 * r < s {
        lemma_fundamental_div_mod_converse(2 * y, s, 2 * q, 2 * r);
        assert((2 * y) / s == 2 * q);
    } else {
        assert(2 * y == (2 * q + 1) * s + (2 * r - s)) by (nonlinear_arith)
            requires
                2 * y == (2 * q) * s + 2 * r,
        ;
        lemma_fundamental_div_mod_converse(2 * y, s, 2 * q + 1, 2 * r - s);
        assert((2 * y) / s == 2 * q + 1);
    }
    if c * k >= 0 {
        assert(tdiv(c * k, s) == q);
        assert(tdiv(c * (2 * k), s) == (2 * y) / s);
    } else {
        assert(tdiv(c * k, s) == -q);
        assert(c * (2 * k) == -(2 * y));
        assert(tdiv(c * (2 * k), s) == -((2 * y) / s));
    }
}

} // verus!

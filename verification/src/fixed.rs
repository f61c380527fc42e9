//! Fixed-point scalar and vector arithmetic for the gameplay model.
//!
//! World geometry is held in signed 64-bit integers scaled by `SCALE`
//! (one world unit is `SCALE` fixed units), so every tick computes exact
//! values and contracts can pin results down to the last unit. Division
//! truncates toward zero (`tdiv`), and square roots round down
//! (`sqrt_floor`); a unit vector is one whose components are a direction
//! scaled to length `SCALE`.

use vstd::prelude::*;

verus! {

/// Number of fixed units in one world unit.
pub const SCALE: i64 = 1000;

/// Largest coordinate magnitude the vector operations accept.
pub const MAX_COORD: i64 = 2_000_000_000_000_000;

/// Largest factor magnitude `scale_by` accepts (sensitivities, lerp factors).
pub const MAX_FACTOR: i64 = 1_000_000;

/// Integer division truncating toward zero, for a positive divisor.
pub open spec fn tdiv(a: int, b: int) -> int
    recommends
        b >= 1,
{
    if a >= 0 {
        a / b
    } else {
        -((-a) / b)
    }
}

/// Floor of the square root, defined by counting up.
pub open spec fn sqrt_floor(n: int) -> int
    decreases n,
{
    if n <= 0 {
        0
    } else {
        let r = sqrt_floor(n - 1);
        if (r + 1) * (r + 1) <= n {
            r + 1
        } else {
            r
        }
    }
}

/// `sqrt_floor(n)` is the unique `r >= 0` with `r * r <= n < (r + 1) * (r + 1)`.
pub proof fn lemma_sqrt_floor(n: int)
    requires
        n >= 0,
    ensures
        sqrt_floor(n) >= 0,
        sqrt_floor(n) * sqrt_floor(n) <= n,
        (sqrt_floor(n) + 1) * (sqrt_floor(n) + 1) > n,
    decreases n,
{
    if n > 0 {
        lemma_sqrt_floor(n - 1);
        let r = sqrt_floor(n - 1);
        if (r + 1) * (r + 1) <= n {
            assert((r + 2) * (r + 2) > (r + 1) * (r + 1)) by (nonlinear_arith)
                requires
                    r >= 0,
            ;
        }
    }
}

/// Any `r` bracketing `n` between consecutive squares is `sqrt_floor(n)`.
pub proof fn lemma_sqrt_floor_unique(n: int, r: int)
    requires
        n >= 0,
        r >= 0,
        r * r <= n,
        (r + 1) * (r + 1) > n,
    ensures
        r == sqrt_floor(n),
{
    lemma_sqrt_floor(n);
    let s = sqrt_floor(n);
    if r < s {
        assert((r + 1) * (r + 1) <= s * s) by (nonlinear_arith)
            requires
                0 <= r,
                r < s,
        ;
    }
    if s < r {
        assert((s + 1) * (s + 1) <= r * r) by (nonlinear_arith)
            requires
                0 <= s,
                s < r,
        ;
    }
}

/// Truncating division by a positive divisor never grows the magnitude.
pub proof fn lemma_tdiv_bounds(a: int, b: int)
    requires
        b >= 1,
    ensures
        a >= 0 ==> 0 <= tdiv(a, b) <= a,
        a < 0 ==> a <= tdiv(a, b) <= 0,
        b * tdiv(a, b) <= a || a < 0,
{
    if a >= 0 {
        assert(0 <= a / b <= a) by (nonlinear_arith)
            requires
                a >= 0,
                b >= 1,
        ;
        assert(b * (a / b) <= a) by (nonlinear_arith)
            requires
                a >= 0,
                b >= 1,
        ;
    } else {
        assert(0 <= (-a) / b <= -a) by (nonlinear_arith)
            requires
                a < 0,
                b >= 1,
        ;
    }
}

/// `|a| <= c` gives `|tdiv(a * k, d)| <= tdiv(c * k, d) <= k` when `c <= d`.
pub proof fn lemma_tdiv_scaled_bound(a: int, c: int, k: int, d: int)
    requires
        d >= 1,
        k >= 0,
        0 <= c <= d,
        -c <= a <= c,
    ensures
        -k <= tdiv(a * k, d) <= k,
{
    assert(-(d * k) <= a * k <= d * k) by (nonlinear_arith)
        requires
            -c <= a <= c,
            c <= d,
            k >= 0,
    ;
    lemma_tdiv_bounds(a * k, d);
    if a * k >= 0 {
        assert((d * k) / d == k) by (nonlinear_arith)
            requires
                d >= 1,
                k >= 0,
        ;
        assert((a * k) / d <= (d * k) / d) by (nonlinear_arith)
            requires
                d >= 1,
                a * k <= d * k,
                a * k >= 0,
        ;
    } else {
        assert((d * k) / d == k) by (nonlinear_arith)
            requires
                d >= 1,
                k >= 0,
        ;
        assert((-(a * k)) / d <= (d * k) / d) by (nonlinear_arith)
            requires
                d >= 1,
                -(a * k) <= d * k,
                -(a * k) >= 0,
        ;
    }
}

/// Floor square root of a 128-bit value, by binary search.
pub fn isqrt(n: u128) -> (r: u64)
    requires
        n < (1u128 << 124),
    ensures
        r == sqrt_floor(n as int),
        (r as int) * (r as int) <= n as int,
        ((r as int) + 1) * ((r as int) + 1) > n as int,
{
    let mut lo: u128 = 0;
    let mut hi: u128 = 1u128 << 62;
    assert((1u128 << 62) * (1u128 << 62) == (1u128 << 124)) by (bit_vector);
    assert(hi * hi > n);
    while hi - lo > 1
        invariant
            lo < hi,
            hi <= 1u128 << 62,
            lo * lo <= n,
            hi * hi > n,
            n < (1u128 << 124),
        decreases hi - lo,
    {
        let mid: u128 = lo + (hi - lo) / 2;
        assert(lo < mid < hi);
        assert(mid * mid <= (1u128 << 62) * (1u128 << 62)) by (nonlinear_arith)
            requires
                0 <= mid <= (1u128 << 62),
        ;
        assert((1u128 << 62) * (1u128 << 62) == (1u128 << 124)) by (bit_vector);
        if mid * mid <= n {
            lo = mid;
        } else {
            hi = mid;
        }
    }
    assert(hi == lo + 1);
    proof {
        lemma_sqrt_floor_unique(n as int, lo as int);
    }
    assert((1u128 << 62) == 0x4000_0000_0000_0000u128) by (bit_vector);
    assert(lo < 0x4000_0000_0000_0000u128);
    lo as u64
}

/// `tdiv(a * k, SCALE)`, for sensitivity scaling and interpolation steps.
pub fn scale_by(a: i64, k: i64) -> (r: i64)
    requires
        -MAX_COORD <= a <= MAX_COORD,
        -MAX_FACTOR <= k <= MAX_FACTOR,
    ensures
        r == tdiv(a * k, SCALE as int),
        -MAX_COORD * MAX_FACTOR / (SCALE as int) <= r <= MAX_COORD * MAX_FACTOR / (SCALE as int),
{
    proof {
        assert(-(MAX_COORD as int * MAX_FACTOR as int) <= a as int * k as int <= MAX_COORD as int
            * MAX_FACTOR as int) by (nonlinear_arith)
            requires
                -MAX_COORD <= a as int <= MAX_COORD,
                -MAX_FACTOR <= k as int <= MAX_FACTOR,
        ;
        lemma_tdiv_bounds(a as int * k as int, SCALE as int);
    }
    let p: i128 = (a as i128) * (k as i128);
    let q: i128 = if p >= 0 {
        ((p as u128) / 1000) as i128
    } else {
        -((((-p) as u128) / 1000) as i128)
    };
    proof {
        assert(MAX_COORD as int * MAX_FACTOR as int / 1000 == 2_000_000_000_000_000_000);
        if a as int * k as int >= 0 {
            assert((a as int * k as int) / 1000 <= (MAX_COORD as int * MAX_FACTOR as int) / 1000)
                by (nonlinear_arith)
                requires
                    0 <= a as int * k as int <= MAX_COORD as int * MAX_FACTOR as int,
            ;
        } else {
            assert((-(a as int * k as int)) / 1000 <= (MAX_COORD as int * MAX_FACTOR as int)
                / 1000) by (nonlinear_arith)
                requires
                    0 <= -(a as int * k as int) <= MAX_COORD as int * MAX_FACTOR as int,
            ;
        }
    }
    q as i64
}

/// Truncating division of a coordinate by a positive length.
pub fn div_trunc(a: i64, d: i64) -> (r: i64)
    requires
        d >= 1,
        a > i64::MIN,
    ensures
        r == tdiv(a as int, d as int),
{
    proof {
        lemma_tdiv_bounds(a as int, d as int);
    }
    if a >= 0 {
        ((a as u64) / (d as u64)) as i64
    } else {
        -((((-a) as u64) / (d as u64)) as i64)
    }
}

/// Mathematical value of a fixed-point 3-vector.
pub struct V3 {
    pub x: int,
    pub y: int,
    pub z: int,
}

/// Mathematical value of a fixed-point 2-vector.
pub struct V2 {
    pub x: int,
    pub y: int,
}

/// Fixed-point 3-vector (a position, direction or velocity).
#[derive(Clone, Copy, PartialEq, Eq, Structural, Debug)]
pub struct Fx3 {
    pub x: i64,
    pub y: i64,
    pub z: i64,
}

/// Fixed-point 2-vector (a pointer delta or a horizontal facing).
#[derive(Clone, Copy, PartialEq, Eq, Structural, Debug)]
pub struct Fx2 {
    pub x: i64,
    pub y: i64,
}

impl View for Fx3 {
    type V = V3;

    open spec fn view(&self) -> V3 {
        V3 { x: self.x as int, y: self.y as int, z: self.z as int }
    }
}

impl View for Fx2 {
    type V = V2;

    open spec fn view(&self) -> V2 {
        V2 { x: self.x as int, y: self.y as int }
    }
}

/// All components within `b` in magnitude.
pub open spec fn bounded3(v: V3, b: int) -> bool {
    &&& -b <= v.x <= b
    &&& -b <= v.y <= b
    &&& -b <= v.z <= b
}

/// All components within `b` in magnitude.
pub open spec fn bounded2(v: V2, b: int) -> bool {
    &&& -b <= v.x <= b
    &&& -b <= v.y <= b
}

pub open spec fn add3v(a: V3, b: V3) -> V3 {
    V3 { x: a.x + b.x, y: a.y + b.y, z: a.z + b.z }
}

pub open spec fn sub3v(a: V3, b: V3) -> V3 {
    V3 { x: a.x - b.x, y: a.y - b.y, z: a.z - b.z }
}

pub open spec fn add2v(a: V2, b: V2) -> V2 {
    V2 { x: a.x + b.x, y: a.y + b.y }
}

/// Componentwise `tdiv(c * k, SCALE)`.
pub open spec fn scale3v(v: V3, k: int) -> V3 {
    V3 {
        x: tdiv(v.x * k, SCALE as int),
        y: tdiv(v.y * k, SCALE as int),
        z: tdiv(v.z * k, SCALE as int),
    }
}

/// Componentwise `tdiv(c * k, SCALE)`.
pub open spec fn scale2v(v: V2, k: int) -> V2 {
    V2 { x: tdiv(v.x * k, SCALE as int), y: tdiv(v.y * k, SCALE as int) }
}

/// Length of a fixed-point vector, in fixed units, rounded down.
pub open spec fn len3v(v: V3) -> int {
    sqrt_floor(v.x * v.x + v.y * v.y + v.z * v.z)
}

/// Direction of `v` scaled to length `SCALE` (defined for nonzero `v`).
pub open spec fn unit3v(v: V3) -> V3 {
    V3 {
        x: tdiv(v.x * SCALE as int, len3v(v)),
        y: tdiv(v.y * SCALE as int, len3v(v)),
        z: tdiv(v.z * SCALE as int, len3v(v)),
    }
}

pub open spec fn is_zero3(v: V3) -> bool {
    v.x == 0 && v.y == 0 && v.z == 0
}

pub open spec fn is_zero2(v: V2) -> bool {
    v.x == 0 && v.y == 0
}

pub fn add3(a: Fx3, b: Fx3) -> (r: Fx3)
    requires
        bounded3(a@, 2 * MAX_COORD as int),
        bounded3(b@, 2 * MAX_COORD as int),
    ensures
        r@ == add3v(a@, b@),
{
    Fx3 { x: a.x + b.x, y: a.y + b.y, z: a.z + b.z }
}

pub fn sub3(a: Fx3, b: Fx3) -> (r: Fx3)
    requires
        bounded3(a@, 2 * MAX_COORD as int),
        bounded3(b@, 2 * MAX_COORD as int),
    ensures
        r@ == sub3v(a@, b@),
{
    Fx3 { x: a.x - b.x, y: a.y - b.y, z: a.z - b.z }
}

pub fn add2(a: Fx2, b: Fx2) -> (r: Fx2)
    requires
        bounded2(a@, 2 * MAX_COORD as int),
        bounded2(b@, 2 * MAX_COORD as int),
    ensures
        r@ == add2v(a@, b@),
{
    Fx2 { x: a.x + b.x, y: a.y + b.y }
}

pub fn scale3(v: Fx3, k: i64) -> (r: Fx3)
    requires
        bounded3(v@, MAX_COORD as int),
        -MAX_FACTOR <= k <= MAX_FACTOR,
    ensures
        r@ == scale3v(v@, k as int),
{
    Fx3 { x: scale_by(v.x, k), y: scale_by(v.y, k), z: scale_by(v.z, k) }
}

pub fn scale2(v: Fx2, k: i64) -> (r: Fx2)
    requires
        bounded2(v@, MAX_COORD as int),
        -MAX_FACTOR <= k <= MAX_FACTOR,
    ensures
        r@ == scale2v(v@, k as int),
{
    Fx2 { x: scale_by(v.x, k), y: scale_by(v.y, k) }
}

/// A value whose square is at most `n` is bounded by any `l` with `(l+1)^2 > n`.
proof fn lemma_sq_le(c: int, n: int, l: int)
    requires
        c * c <= n,
        l >= 0,
        (l + 1) * (l + 1) > n,
    ensures
        -l <= c <= l,
{
    if c > l {
        assert(c * c >= (l + 1) * (l + 1)) by (nonlinear_arith)
            requires
                c >= l + 1,
                l >= 0,
        ;
    }
    if c < -l {
        assert(c * c >= (l + 1) * (l + 1)) by (nonlinear_arith)
            requires
                c <= -l - 1,
                l >= 0,
        ;
    }
}

/// Each component of a vector is bounded by its length.
pub proof fn lemma_component_le_len(v: V3)
    ensures
        len3v(v) >= 0,
        -len3v(v) <= v.x <= len3v(v),
        -len3v(v) <= v.y <= len3v(v),
        -len3v(v) <= v.z <= len3v(v),
        is_zero3(v) <==> len3v(v) == 0,
{
    let n = v.x * v.x + v.y * v.y + v.z * v.z;
    assert(n >= 0 && v.x * v.x <= n && v.y * v.y <= n && v.z * v.z <= n) by (nonlinear_arith)
        requires
            n == v.x * v.x + v.y * v.y + v.z * v.z,
    ;
    lemma_sqrt_floor(n);
    let l = len3v(v);
    lemma_sq_le(v.x, n, l);
    lemma_sq_le(v.y, n, l);
    lemma_sq_le(v.z, n, l);
    if is_zero3(v) {
        assert(n == 0);
        assert(sqrt_floor(0) == 0);
    } else {
        assert(n >= 1) by (nonlinear_arith)
            requires
                !(v.x == 0 && v.y == 0 && v.z == 0),
                n == v.x * v.x + v.y * v.y + v.z * v.z,
        ;
        if l == 0 {
            assert((l + 1) * (l + 1) > n);
        }
    }
}

/// A normalized direction has no component beyond `SCALE`.
pub proof fn lemma_unit3v_bounded(v: V3)
    requires
        !is_zero3(v),
    ensures
        bounded3(unit3v(v), SCALE as int),
{
    lemma_component_le_len(v);
    let l = len3v(v);
    lemma_tdiv_scaled_bound(v.x, l, SCALE as int, l);
    lemma_tdiv_scaled_bound(v.y, l, SCALE as int, l);
    lemma_tdiv_scaled_bound(v.z, l, SCALE as int, l);
}

/// Scaling a normalized direction by `k` stays within `k` per component.
pub proof fn lemma_unit_scale_bounded(v: V3, k: int)
    requires
        !is_zero3(v),
        0 <= k,
    ensures
        bounded3(scale3v(unit3v(v), k), k),
{
    lemma_unit3v_bounded(v);
    let u = unit3v(v);
    lemma_tdiv_scaled_bound(u.x, SCALE as int, k, SCALE as int);
    lemma_tdiv_scaled_bound(u.y, SCALE as int, k, SCALE as int);
    lemma_tdiv_scaled_bound(u.z, SCALE as int, k, SCALE as int);
}

/// Normalize a nonzero vector to length `SCALE`; `None` exactly on zero input.
///
/// The guard on the zero vector is the hardened form of the degenerate-geometry
/// rule: callers skip the step of the tick that needed the direction.
pub fn normalize3(v: Fx3) -> (r: Option<Fx3>)
    requires
        bounded3(v@, 4 * MAX_COORD as int),
    ensures
        r is None <==> is_zero3(v@),
        r is Some ==> (r->Some_0)@ == unit3v(v@) && bounded3((r->Some_0)@, SCALE as int),
{
    if v.x == 0 && v.y == 0 && v.z == 0 {
        return None;
    }
    proof {
        lemma_component_le_len(v@);
        assert(0 <= v@.x * v@.x <= 64_000_000_000_000_000_000_000_000_000_000int)
            by (nonlinear_arith)
            requires
                -8_000_000_000_000_000 <= v@.x <= 8_000_000_000_000_000,
        ;
        assert(0 <= v@.y * v@.y <= 64_000_000_000_000_000_000_000_000_000_000int)
            by (nonlinear_arith)
            requires
                -8_000_000_000_000_000 <= v@.y <= 8_000_000_000_000_000,
        ;
        assert(0 <= v@.z * v@.z <= 64_000_000_000_000_000_000_000_000_000_000int)
            by (nonlinear_arith)
            requires
                -8_000_000_000_000_000 <= v@.z <= 8_000_000_000_000_000,
        ;
        assert(1u128 << 124 > 200_000_000_000_000_000_000_000_000_000_000u128) by (bit_vector);
    }
    let xs: u128 = ((v.x as i128) * (v.x as i128)) as u128;
    let ys: u128 = ((v.y as i128) * (v.y as i128)) as u128;
    let zs: u128 = ((v.z as i128) * (v.z as i128)) as u128;
    let l64: u64 = isqrt(xs + ys + zs);
    proof {
        assert(l64 as int == len3v(v@));
        assert(l64 >= 1);
        lemma_sq_le(l64 as int, (xs + ys + zs) as int, 20_000_000_000_000_000);
        assert(l64 <= 20_000_000_000_000_000u64);
        lemma_tdiv_scaled_bound(v@.x, len3v(v@), SCALE as int, len3v(v@));
        lemma_tdiv_scaled_bound(v@.y, len3v(v@), SCALE as int, len3v(v@));
        lemma_tdiv_scaled_bound(v@.z, len3v(v@), SCALE as int, len3v(v@));
    }
    let l: i64 = l64 as i64;
    let ux = div_trunc(v.x * SCALE, l);
    let uy = div_trunc(v.y * SCALE, l);
    let uz = div_trunc(v.z * SCALE, l);
    Some(Fx3 { x: ux, y: uy, z: uz })
}

} // verus!

//! Fixed-point geometry for the rig model.
//!
//! Coordinates are signed integers; `SCALE` units stand for 1.0 of world
//! space, so a translation of 1.5 along y is `Vec3 { x: 0, y: 1500, z: 0 }`
//! with the default scale of 1000.

use vstd::prelude::*;
use crate::SCALE;

verus! {

/// Largest coordinate magnitude the model accepts. Keeping every coordinate
/// within this bound lets every product computed here fit in `i128` and every
/// final coordinate fit in `i64`.
pub const COORD_LIMIT: i64 = 1_000_000_000;

/// A point or direction, in fixed-point units.
#[derive(Clone, Copy, Debug, PartialEq, Eq, Structural)]
pub struct Vec3 {
    pub x: i64,
    pub y: i64,
    pub z: i64,
}

/// A rotation. The model never computes with rotations; they are carried
/// verbatim from source to target, so the four components are opaque payload.
#[derive(Clone, Copy, Debug, PartialEq, Eq, Structural)]
pub struct Quat {
    pub x: i64,
    pub y: i64,
    pub z: i64,
    pub w: i64,
}

/// A local transform: translation, rotation and scale relative to the parent.
#[derive(Clone, Copy, Debug, PartialEq, Eq, Structural)]
pub struct Transform {
    pub translation: Vec3,
    pub rotation: Quat,
    pub scale: Vec3,
}

impl Vec3 {
    pub open spec fn spec_in_range(self) -> bool {
        &&& -COORD_LIMIT <= self.x <= COORD_LIMIT
        &&& -COORD_LIMIT <= self.y <= COORD_LIMIT
        &&& -COORD_LIMIT <= self.z <= COORD_LIMIT
    }

    pub open spec fn spec_is_zero(self) -> bool {
        self.x == 0 && self.y == 0 && self.z == 0
    }

    pub fn new(x: i64, y: i64, z: i64) -> (r: Vec3)
        ensures
            r == (Vec3 { x, y, z }),
    {
        Vec3 { x, y, z }
    }

    pub fn zero() -> (r: Vec3)
        ensures
            r == (Vec3 { x: 0i64, y: 0i64, z: 0i64 }),
    {
        Vec3 { x: 0, y: 0, z: 0 }
    }

    pub fn in_range(&self) -> (r: bool)
        ensures
            r == self.spec_in_range(),
    {
        -COORD_LIMIT <= self.x && self.x <= COORD_LIMIT && -COORD_LIMIT <= self.y
            && self.y <= COORD_LIMIT && -COORD_LIMIT <= self.z && self.z <= COORD_LIMIT
    }

    /// Componentwise difference.
    pub fn minus(&self, other: &Vec3) -> (r: Vec3)
        requires
            self.spec_in_range(),
            other.spec_in_range(),
        ensures
            r.x == self.x - other.x,
            r.y == self.y - other.y,
            r.z == self.z - other.z,
    {
        Vec3 { x: self.x - other.x, y: self.y - other.y, z: self.z - other.z }
    }
}

impl Quat {
    /// The identity rotation, with the real part at the fixed-point unit.
    pub fn identity() -> (r: Quat)
        ensures
            r == (Quat { x: 0i64, y: 0i64, z: 0i64, w: SCALE }),
    {
        Quat { x: 0, y: 0, z: 0, w: SCALE }
    }
}

impl Transform {
    pub open spec fn spec_in_range(self) -> bool {
        self.translation.spec_in_range()
    }

    /// The identity transform: no translation, identity rotation, unit scale.
    pub fn identity() -> (r: Transform)
        ensures
            r.translation == (Vec3 { x: 0i64, y: 0i64, z: 0i64 }),
            r.rotation == (Quat { x: 0i64, y: 0i64, z: 0i64, w: SCALE }),
            r.scale == (Vec3 { x: SCALE, y: SCALE, z: SCALE }),
    {
        Transform {
            translation: Vec3::zero(),
            rotation: Quat::identity(),
            scale: Vec3 { x: SCALE, y: SCALE, z: SCALE },
        }
    }

    /// A transform translated to `(x, y, z)`, otherwise the identity.
    pub fn from_xyz(x: i64, y: i64, z: i64) -> (r: Transform)
        ensures
            r.translation == (Vec3 { x, y, z }),
            r.rotation == (Quat { x: 0i64, y: 0i64, z: 0i64, w: SCALE }),
            r.scale == (Vec3 { x: SCALE, y: SCALE, z: SCALE }),
    {
        Transform { translation: Vec3 { x, y, z }, ..Transform::identity() }
    }
}

impl Default for Transform {
    /// The default transform is the identity.
    fn default() -> (r: Self)
        ensures
            r.translation == (Vec3 { x: 0i64, y: 0i64, z: 0i64 }),
            r.rotation == (Quat { x: 0i64, y: 0i64, z: 0i64, w: SCALE }),
            r.scale == (Vec3 { x: SCALE, y: SCALE, z: SCALE }),
    {
        Transform::identity()
    }
}

/// Division that truncates toward zero, as machine division does.
pub open spec fn spec_div_trunc(a: int, b: int) -> int
    recommends
        b != 0,
{
    if (a < 0) == (b < 0) {
        vstd::math::abs(a) as int / vstd::math::abs(b) as int
    } else {
        -(vstd::math::abs(a) as int / vstd::math::abs(b) as int)
    }
}

/// Truncating division on `i128`, for the wide intermediate products.
pub fn div_trunc_i128(a: i128, b: i128) -> (r: i128)
    requires
        b != 0,
        a != i128::MIN,
        b != i128::MIN,
    ensures
        r == spec_div_trunc(a as int, b as int),
{
    let ua: u128 = if a < 0 {
        (-a) as u128
    } else {
        a as u128
    };
    let ub: u128 = if b < 0 {
        (-b) as u128
    } else {
        b as u128
    };
    assert(ua == vstd::math::abs(a as int));
    assert(ub == vstd::math::abs(b as int));
    let q: u128 = ua / ub;
    assert(q <= ua) by {
        assert(q * ub <= ua) by (nonlinear_arith)
            requires
                q == ua / ub,
                ub >= 1,
        ;
        assert(q <= q * ub) by (nonlinear_arith)
            requires
                ub >= 1,
                q >= 0,
        ;
    }
    if (a < 0) != (b < 0) {
        -(q as i128)
    } else {
        q as i128
    }
}

/// The integer square root: the greatest `r` with `r * r <= n`.
pub open spec fn spec_isqrt(n: nat) -> nat
    decreases n,
{
    if n == 0 {
        0
    } else {
        let p = spec_isqrt((n - 1) as nat);
        if (p + 1) * (p + 1) <= n {
            p + 1
        } else {
            p
        }
    }
}

pub proof fn lemma_isqrt_bounds(n: nat)
    ensures
        spec_isqrt(n) * spec_isqrt(n) <= n,
        n < (spec_isqrt(n) + 1) * (spec_isqrt(n) + 1),
    decreases n,
{
    if n > 0 {
        lemma_isqrt_bounds((n - 1) as nat);
        let p = spec_isqrt((n - 1) as nat);
        assert(p * p <= n - 1);
        assert(n - 1 < (p + 1) * (p + 1));
        if (p + 1) * (p + 1) <= n {
            assert(spec_isqrt(n) == p + 1);
            assert(n < (p + 1 + 1) * (p + 1 + 1)) by (nonlinear_arith)
                requires
                    p >= 0,
                    n <= (p + 1) * (p + 1),
            ;
        } else {
            assert(spec_isqrt(n) == p);
        }
    } else {
        assert(spec_isqrt(n) == 0);
        assert((spec_isqrt(n) + 1) * (spec_isqrt(n) + 1) == 1) by (nonlinear_arith)
            requires
                spec_isqrt(n) == 0,
        ;
    }
}

/// A positive number has a positive integer square root.
pub proof fn lemma_isqrt_pos(n: nat)
    requires
        n >= 1,
    ensures
        spec_isqrt(n) >= 1,
{
    lemma_isqrt_bounds(n);
    if spec_isqrt(n) == 0 {
        assert(n < (spec_isqrt(n) + 1) * (spec_isqrt(n) + 1));
        assert((spec_isqrt(n) + 1) * (spec_isqrt(n) + 1) == 1) by (nonlinear_arith)
            requires
                spec_isqrt(n) == 0,
        ;
    }
}

/// Any `r` with `r * r <= n < (r + 1) * (r + 1)` is the integer square root.
pub proof fn lemma_isqrt_unique(n: nat, r: nat)
    requires
        r * r <= n,
        n < (r + 1) * (r + 1),
    ensures
        r == spec_isqrt(n),
{
    lemma_isqrt_bounds(n);
    let s = spec_isqrt(n);
    if r < s {
        assert((r + 1) * (r + 1) <= s * s) by (nonlinear_arith)
            requires
                r + 1 <= s,
        ;
    }
    if s < r {
        assert((s + 1) * (s + 1) <= r * r) by (nonlinear_arith)
            requires
                s + 1 <= r,
        ;
    }
}

/// Computes the integer square root by binary search.
pub fn isqrt_u64(n: u64) -> (r: u64)
    ensures
        r == spec_isqrt(n as nat),
{
    let mut lo: u64 = 0;
    let mut hi: u64 = 0xFFFF_FFFF;
    if n >= 0xFFFF_FFFE_0000_0001 {
        // n is at or above hi * hi, so hi is the root of everything this high.
        proof {
            assert(0xFFFF_FFFF as nat * 0xFFFF_FFFF as nat == 0xFFFF_FFFE_0000_0001)
                by (nonlinear_arith);
            assert((0xFFFF_FFFF as nat + 1) * (0xFFFF_FFFF as nat + 1) == 0x1_0000_0000_0000_0000)
                by (nonlinear_arith);
            lemma_isqrt_unique(n as nat, 0xFFFF_FFFF as nat);
        }
        return 0xFFFF_FFFF;
    }
    assert(0xFFFF_FFFFu64 * 0xFFFF_FFFFu64 == 0xFFFF_FFFE_0000_0001) by (nonlinear_arith);
    while hi - lo > 1
        invariant
            lo < hi <= 0xFFFF_FFFF,
            lo * lo <= n,
            n < hi * hi,
        decreases hi - lo,
    {
        let mid: u64 = lo + (hi - lo) / 2;
        assert(mid * mid <= 0xFFFF_FFFFu64 * 0xFFFF_FFFFu64) by (nonlinear_arith)
            requires
                0 <= mid <= 0xFFFF_FFFFu64,
        ;
        if mid * mid <= n {
            lo = mid;
        } else {
            hi = mid;
        }
    }
    proof {
        lemma_isqrt_unique(n as nat, lo as nat);
    }
    lo
}

/// The Euclidean length of `v`, rounded down to whole fixed-point units.
pub open spec fn spec_norm(v: Vec3) -> int {
    spec_isqrt((v.x * v.x + v.y * v.y + v.z * v.z) as nat) as int
}

pub fn norm_fixed(v: &Vec3) -> (r: i64)
    requires
        v.spec_in_range(),
    ensures
        r == spec_norm(*v),
        r >= 0,
        !v.spec_is_zero() ==> r >= 1,
{
    let xx: i64 = v.x;
    let yy: i64 = v.y;
    let zz: i64 = v.z;
    assert(xx * xx >= 0 && xx * xx <= COORD_LIMIT * COORD_LIMIT) by (nonlinear_arith)
        requires
            -COORD_LIMIT <= xx <= COORD_LIMIT,
    ;
    assert(yy * yy >= 0 && yy * yy <= COORD_LIMIT * COORD_LIMIT) by (nonlinear_arith)
        requires
            -COORD_LIMIT <= yy <= COORD_LIMIT,
    ;
    assert(zz * zz >= 0 && zz * zz <= COORD_LIMIT * COORD_LIMIT) by (nonlinear_arith)
        requires
            -COORD_LIMIT <= zz <= COORD_LIMIT,
    ;
    let sum: u64 = (xx * xx) as u64 + (yy * yy) as u64 + (zz * zz) as u64;
    let root: u64 = isqrt_u64(sum);
    proof {
        lemma_isqrt_bounds(sum as nat);
        if !v.spec_is_zero() {
            assert(sum >= 1) by (nonlinear_arith)
                requires
                    sum == xx * xx + yy * yy + zz * zz,
                    !(xx == 0 && yy == 0 && zz == 0),
            ;
            lemma_isqrt_pos(sum as nat);
        }
        assert(root <= 0xFFFF_FFFF) by {
            if root > 0xFFFF_FFFF {
                assert(root * root >= 0x1_0000_0000u64 * 0x1_0000_0000u64) by (nonlinear_arith)
                    requires
                        root >= 0x1_0000_0000u64,
                ;
            }
        }
    }
    root as i64
}

/// The direction of `v` as a fixed-point unit vector: each component is
/// `c * SCALE / |v|`, truncated toward zero. A zero vector has no direction;
/// the documented fallback is the positive y axis.
pub open spec fn spec_normalize(v: Vec3) -> Vec3 {
    if v.spec_is_zero() {
        Vec3 { x: 0, y: SCALE, z: 0 }
    } else {
        Vec3 {
            x: spec_div_trunc(v.x * SCALE, spec_norm(v)) as i64,
            y: spec_div_trunc(v.y * SCALE, spec_norm(v)) as i64,
            z: spec_div_trunc(v.z * SCALE, spec_norm(v)) as i64,
        }
    }
}

pub fn normalize_fixed(v: &Vec3) -> (r: Vec3)
    requires
        v.spec_in_range(),
    ensures
        r == spec_normalize(*v),
    {
    if v.x == 0 && v.y == 0 && v.z == 0 {
        return Vec3 { x: 0, y: SCALE, z: 0 };
    }
    let len: i64 = norm_fixed(v);
    let x = scaled_quotient(v.x, len);
    let y = scaled_quotient(v.y, len);
    let z = scaled_quotient(v.z, len);
    Vec3 { x, y, z }
}

/// One component of the unit direction: `c * SCALE / len`, truncated.
fn scaled_quotient(c: i64, len: i64) -> (r: i64)
    requires
        -COORD_LIMIT <= c <= COORD_LIMIT,
        1 <= len,
    ensures
        r == spec_div_trunc(c * SCALE, len as int),
{
    proof {
        assert(-1_000_000_000_000 <= c as int * SCALE as int <= 1_000_000_000_000)
            by (nonlinear_arith)
            requires
                -1_000_000_000 <= c <= 1_000_000_000,
                SCALE == 1000,
        ;
    }
    let wide: i128 = (c as i128) * (SCALE as i128);
    let q: i128 = div_trunc_i128(wide, len as i128);
    proof {
        lemma_div_trunc_bound(wide as int, len as int, 1_000_000_000_000);
    }
    q as i64
}

/// Truncating division never grows the magnitude past the numerator bound.
pub proof fn lemma_div_trunc_bound(a: int, b: int, m: int)
    requires
        b != 0,
        -m <= a <= m,
        0 <= m,
    ensures
        -m <= spec_div_trunc(a, b) <= m,
{
    let q = vstd::math::abs(a) as int / vstd::math::abs(b) as int;
    assert(q <= vstd::math::abs(a)) by (nonlinear_arith)
        requires
            q == vstd::math::abs(a) as int / vstd::math::abs(b) as int,
            vstd::math::abs(b) >= 1,
            vstd::math::abs(a) >= 0,
    ;
    assert(q >= 0) by (nonlinear_arith)
        requires
            q == vstd::math::abs(a) as int / vstd::math::abs(b) as int,
            vstd::math::abs(b) >= 1,
            vstd::math::abs(a) >= 0,
    ;
}

} // verus!

use vstd::prelude::*;

verus! {

// Scalars are fixed-point numbers: an `i64` counting 1/256ths of a pixel.
// Every operation is total; results outside the `i64` range saturate.
// Each executable operation is pinned to the spec function of the same name
// with an `s_` prefix, so contracts elsewhere can speak of exact values.

/// Number of fixed-point units in one pixel.
pub const FX_ONE: i64 = 256;

pub open spec fn s_sat(x: int) -> int {
    if x > i64::MAX as int {
        i64::MAX as int
    } else if x < i64::MIN as int {
        i64::MIN as int
    } else {
        x
    }
}

pub open spec fn s_add(a: int, b: int) -> int {
    s_sat(a + b)
}

pub open spec fn s_sub(a: int, b: int) -> int {
    s_sat(a - b)
}

pub open spec fn s_min(a: int, b: int) -> int {
    if a <= b {
        a
    } else {
        b
    }
}

pub open spec fn s_max(a: int, b: int) -> int {
    if a >= b {
        a
    } else {
        b
    }
}

/// Quotient rounded toward zero, for a positive divisor.
pub open spec fn s_div_trunc(p: int, d: int) -> int
    recommends
        d > 0,
{
    if p >= 0 {
        p / d
    } else {
        -((-p) / d)
    }
}

/// Fixed-point product: `a * b / FX_ONE`, rounded toward zero, saturated.
pub open spec fn s_mul(a: int, b: int) -> int {
    s_sat(s_div_trunc(a * b, FX_ONE as int))
}

/// Fixed-point quotient: `a * FX_ONE / b`, rounded toward zero, saturated.
/// Division by zero yields zero.
pub open spec fn s_div(a: int, b: int) -> int {
    if b == 0 {
        0
    } else if b > 0 {
        s_sat(s_div_trunc(a * (FX_ONE as int), b))
    } else {
        s_sat(s_div_trunc(-(a * (FX_ONE as int)), -b))
    }
}

/// Largest whole-pixel value at or below `a`. Never saturates, since the
/// least `i64` is itself a whole pixel.
pub open spec fn s_floor(a: int) -> int {
    256 * (a / 256)
}

/// Smallest whole-pixel value at or above `a`, saturated.
pub open spec fn s_ceil(a: int) -> int {
    if a == s_floor(a) {
        a
    } else {
        s_sat(s_floor(a) + 256)
    }
}

/// Whole-pixel part of `a`, rounded toward zero.
pub open spec fn s_trunc(a: int) -> int {
    if a >= 0 {
        256 * (a / 256)
    } else {
        -(256 * ((-a) / 256))
    }
}

/// Fractional part of `a` in fixed-point units, always in `0 .. 256`.
pub open spec fn s_fract(a: int) -> int {
    a - s_floor(a)
}

pub fn fx_add(a: i64, b: i64) -> (r: i64)
    ensures
        r as int == s_add(a as int, b as int),
{
    let w: i128 = a as i128 + b as i128;
    if w > i64::MAX as i128 {
        i64::MAX
    } else if w < i64::MIN as i128 {
        i64::MIN
    } else {
        w as i64
    }
}

pub fn fx_sub(a: i64, b: i64) -> (r: i64)
    ensures
        r as int == s_sub(a as int, b as int),
{
    let w: i128 = a as i128 - b as i128;
    if w > i64::MAX as i128 {
        i64::MAX
    } else if w < i64::MIN as i128 {
        i64::MIN
    } else {
        w as i64
    }
}

pub fn fx_min(a: i64, b: i64) -> (r: i64)
    ensures
        r as int == s_min(a as int, b as int),
{
    if a <= b {
        a
    } else {
        b
    }
}

pub fn fx_max(a: i64, b: i64) -> (r: i64)
    ensures
        r as int == s_max(a as int, b as int),
{
    if a >= b {
        a
    } else {
        b
    }
}

/// Magnitude of `a` as an unsigned doubled-width value.
fn mag(a: i64) -> (r: u128)
    ensures
        r as int == if a >= 0 {
            a as int
        } else {
            -(a as int)
        },
{
    if a >= 0 {
        a as u128
    } else {
        (-(a as i128)) as u128
    }
}

/// Applies the sign chosen by `neg` to a magnitude, clamping into `i64`.
fn apply_sign(m: u128, neg: bool) -> (r: i64)
    ensures
        r as int == if neg {
            s_sat(-(m as int))
        } else {
            s_sat(m as int)
        },
{
    if neg {
        if m >= 9223372036854775808u128 {
            i64::MIN
        } else {
            (-(m as i128)) as i64
        }
    } else {
        if m > i64::MAX as u128 {
            i64::MAX
        } else {
            m as i64
        }
    }
}

proof fn lemma_mul_sign(a: int, b: int)
    ensures
        a >= 0 && b >= 0 ==> a * b >= 0,
        a <= 0 && b <= 0 ==> a * b >= 0 && (-a) * (-b) == a * b,
        a >= 0 && b <= 0 ==> a * b <= 0 && a * (-b) == -(a * b),
        a <= 0 && b >= 0 ==> a * b <= 0 && (-a) * b == -(a * b),
        a != 0 && b != 0 ==> a * b != 0,
{
    assert(a >= 0 && b >= 0 ==> a * b >= 0) by (nonlinear_arith);
    assert(a <= 0 && b <= 0 ==> a * b >= 0 && (-a) * (-b) == a * b) by (nonlinear_arith);
    assert(a >= 0 && b <= 0 ==> a * b <= 0 && a * (-b) == -(a * b)) by (nonlinear_arith);
    assert(a <= 0 && b >= 0 ==> a * b <= 0 && (-a) * b == -(a * b)) by (nonlinear_arith);
    assert(a != 0 && b != 0 ==> a * b != 0) by (nonlinear_arith);
}

pub fn fx_mul(a: i64, b: i64) -> (r: i64)
    ensures
        r as int == s_mul(a as int, b as int),
{
    let neg: bool = (a < 0) != (b < 0) && a != 0 && b != 0;
    let ma: u128 = mag(a);
    let mb: u128 = mag(b);
    proof {
        assert(ma * mb <= 0x8000000000000000u128 * 0x8000000000000000u128) by (nonlinear_arith)
            requires
                ma <= 0x8000000000000000u128,
                mb <= 0x8000000000000000u128,
        ;
        lemma_mul_sign(a as int, b as int);
    }
    let p: u128 = ma * mb;
    let q: u128 = p / 256;
    proof {
        let ai = a as int;
        let bi = b as int;
        lemma_mul_sign(ai, bi);
        if !neg {
            assert(p as int == ai * bi);
            assert(s_div_trunc(ai * bi, 256) == q as int);
        } else {
            assert(p as int == -(ai * bi));
            assert(ai * bi < 0);
            assert(s_div_trunc(ai * bi, 256) == -(q as int));
        }
    }
    apply_sign(q, neg)
}

pub fn fx_div(a: i64, b: i64) -> (r: i64)
    ensures
        r as int == s_div(a as int, b as int),
{
    if b == 0 {
        return 0;
    }
    let neg: bool = (a < 0) != (b < 0) && a != 0;
    let ma: u128 = mag(a);
    let mb: u128 = mag(b);
    let p: u128 = ma * 256;
    let q: u128 = p / mb;
    proof {
        let ai = a as int;
        let bi = b as int;
        lemma_mul_sign(ai, 256);
        assert(p as int == if ai >= 0 {
            ai * 256
        } else {
            -(ai * 256)
        });
        if bi > 0 {
            if ai >= 0 {
                assert(s_div_trunc(ai * 256, bi) == q as int);
            } else {
                assert(ai * 256 <= 0);
                assert(s_div_trunc(ai * 256, bi) == -(q as int));
            }
        } else {
            if ai >= 0 {
                assert(s_div_trunc(-(ai * 256), -bi) == -(q as int));
            } else {
                assert(s_div_trunc(-(ai * 256), -bi) == q as int);
            }
        }
    }
    apply_sign(q, neg)
}

proof fn lemma_floor_neg(m: int, q: int)
    requires
        m > 0,
        q == (m + 255) / 256,
    ensures
        (-m) / 256 == -q,
        256 * ((-m) / 256) == -(256 * q),
{
    broadcast use vstd::arithmetic::div_mod::group_div_basics;

    vstd::arithmetic::div_mod::lemma_fundamental_div_mod(m + 255, 256);
    assert(m + 255 == 256 * q + (m + 255) % 256);
    vstd::arithmetic::div_mod::lemma_fundamental_div_mod(-m, 256);
    let f = (-m) / 256;
    assert(-m == 256 * f + (-m) % 256);
    assert(0 <= (-m) % 256 < 256);
    assert(256 * q >= m) by {
        assert((m + 255) % 256 < 256);
    };
    assert(256 * q <= m + 255);
    assert(256 * f <= -m);
    assert(256 * f > -m - 256);
    assert(256 * f <= 256 * (-q) < 256 * f + 256) by (nonlinear_arith)
        requires
            256 * q >= m,
            256 * q <= m + 255,
            256 * f <= -m,
            256 * f > -m - 256,
    ;
    assert(f == -q) by (nonlinear_arith)
        requires
            256 * f <= 256 * (-q) < 256 * f + 256,
    ;
}

pub fn fx_floor(a: i64) -> (r: i64)
    ensures
        r as int == s_floor(a as int),
        r <= a,
{
    if a >= 0 {
        let q: i64 = (a / 256) * 256;
        proof {
            assert((a as int) / 256 * 256 <= a as int);
        }
        q
    } else {
        let m: u128 = mag(a);
        let q: u128 = (m + 255) / 256;
        proof {
            lemma_floor_neg(m as int, q as int);
            assert(256 * (q as int) <= (m as int) + 255);
            assert(m <= 0x8000000000000000u128);
        }
        let down: u128 = q * 256;
        (-(down as i128)) as i64
    }
}

pub fn fx_ceil(a: i64) -> (r: i64)
    ensures
        r as int == s_ceil(a as int),
{
    let f: i64 = fx_floor(a);
    if f == a {
        a
    } else if f > i64::MAX - 256 {
        proof {
            assert(s_floor(a as int) + 256 > i64::MAX as int);
        }
        i64::MAX
    } else {
        f + 256
    }
}

pub fn fx_trunc(a: i64) -> (r: i64)
    ensures
        r as int == s_trunc(a as int),
{
    if a >= 0 {
        (a / 256) * 256
    } else {
        let m: u128 = mag(a);
        let t: u128 = (m / 256) * 256;
        proof {
            assert((m as int) / 256 * 256 <= m as int);
        }
        (-(t as i128)) as i64
    }
}

pub fn fx_fract(a: i64) -> (r: i64)
    ensures
        r as int == s_fract(a as int),
        0 <= r < 256,
{
    let f: i64 = fx_floor(a);
    proof {
        vstd::arithmetic::div_mod::lemma_fundamental_div_mod(a as int, 256);
        assert(a as int == 256 * ((a as int) / 256) + (a as int) % 256);
        assert(0 <= (a as int) % 256 < 256);
    }
    a - f
}

/// Whether `r` is the integer square root of `n`.
pub open spec fn s_sqrt_range(n: int, r: int) -> bool {
    0 <= r && r * r <= n && n < (r + 1) * (r + 1)
}

/// The integer square root: the unique value in range.
pub open spec fn s_isqrt(n: int) -> int {
    choose|r: int| s_sqrt_range(n, r)
}

/// Two values in the square-root range are the same value.
pub proof fn lemma_sqrt_unique(n: int, a: int, b: int)
    requires
        s_sqrt_range(n, a),
        s_sqrt_range(n, b),
    ensures
        a == b,
{
    if a < b {
        assert((a + 1) * (a + 1) <= b * b) by (nonlinear_arith)
            requires
                0 <= a,
                a + 1 <= b,
        ;
    }
    if b < a {
        assert((b + 1) * (b + 1) <= a * a) by (nonlinear_arith)
            requires
                0 <= b,
                b + 1 <= a,
        ;
    }
}

/// Integer square root of a doubled-width value.
pub fn isqrt(n: u128) -> (r: u128)
    ensures
        r * r <= n,
        n < (r + 1) * (r + 1),
        r <= 0xFFFFFFFFFFFFFFFFu128,
        r as int == s_isqrt(n as int),
{
    if n == 0 {
        proof {
            assert(s_sqrt_range(0, 0));
            lemma_sqrt_unique(0, 0, s_isqrt(0));
        }
        return 0;
    }
    let mut lo: u128 = 0;
    let mut hi: u128 = 0x10000000000000000u128;
    proof {
        assert(0x10000000000000000u128 * 0x10000000000000000u128 > n as int) by (nonlinear_arith)
            requires
                n <= 0xffffffffffffffffffffffffffffffffu128,
        ;
    }
    while lo + 1 < hi
        invariant
            lo < hi,
            hi <= 0x10000000000000000u128,
            lo * lo <= n,
            hi * hi > n,
        decreases hi - lo,
    {
        let mid: u128 = lo + (hi - lo) / 2;
        proof {
            assert(mid < hi);
            assert(mid * mid <= 0xFFFFFFFFFFFFFFFFu128 * 0xFFFFFFFFFFFFFFFFu128)
                by (nonlinear_arith)
                requires
                    mid <= 0xFFFFFFFFFFFFFFFFu128,
            ;
        }
        if mid * mid <= n {
            lo = mid;
        } else {
            hi = mid;
        }
    }
    proof {
        assert(s_sqrt_range(n as int, lo as int));
        lemma_sqrt_unique(n as int, lo as int, s_isqrt(n as int));
    }
    lo
}


/// A two-component fixed-point vector.
#[derive(Debug, Clone, Copy, PartialEq, Eq, Structural)]
pub struct Vec2 {
    pub x: i64,
    pub y: i64,
}

pub open spec fn sv(x: int, y: int) -> Vec2 {
    Vec2 { x: s_sat(x) as i64, y: s_sat(y) as i64 }
}

pub open spec fn sv_add(a: Vec2, b: Vec2) -> Vec2 {
    sv(s_add(a.x as int, b.x as int), s_add(a.y as int, b.y as int))
}

pub open spec fn sv_sub(a: Vec2, b: Vec2) -> Vec2 {
    sv(s_sub(a.x as int, b.x as int), s_sub(a.y as int, b.y as int))
}

pub open spec fn sv_min(a: Vec2, b: Vec2) -> Vec2 {
    sv(s_min(a.x as int, b.x as int), s_min(a.y as int, b.y as int))
}

pub open spec fn sv_max(a: Vec2, b: Vec2) -> Vec2 {
    sv(s_max(a.x as int, b.x as int), s_max(a.y as int, b.y as int))
}

/// Component-wise fixed-point product.
pub open spec fn sv_mul(a: Vec2, b: Vec2) -> Vec2 {
    sv(s_mul(a.x as int, b.x as int), s_mul(a.y as int, b.y as int))
}

/// Component-wise fixed-point quotient; a zero divisor component yields zero.
pub open spec fn sv_div(a: Vec2, b: Vec2) -> Vec2 {
    sv(s_div(a.x as int, b.x as int), s_div(a.y as int, b.y as int))
}

impl Vec2 {
    pub fn new(x: i64, y: i64) -> (r: Vec2)
        ensures
            r == (Vec2 { x, y }),
    {
        Vec2 { x, y }
    }

    /// The zero vector.
    pub fn zero() -> (r: Vec2)
        ensures
            r == (Vec2 { x: 0i64, y: 0i64 }),
    {
        Vec2 { x: 0, y: 0 }
    }

    /// Both components set to the whole-pixel count `px`.
    pub fn splat_px(px: i64) -> (r: Vec2)
        ensures
            r == sv(s_mul(px as int, 65536), s_mul(px as int, 65536)),
    {
        let v: i64 = fx_mul(px, 256 * 256);
        Vec2 { x: v, y: v }
    }

    pub fn add(self, o: Vec2) -> (r: Vec2)
        ensures
            r == sv_add(self, o),
    {
        Vec2 { x: fx_add(self.x, o.x), y: fx_add(self.y, o.y) }
    }

    pub fn sub(self, o: Vec2) -> (r: Vec2)
        ensures
            r == sv_sub(self, o),
    {
        Vec2 { x: fx_sub(self.x, o.x), y: fx_sub(self.y, o.y) }
    }

    pub fn min(self, o: Vec2) -> (r: Vec2)
        ensures
            r == sv_min(self, o),
    {
        Vec2 { x: fx_min(self.x, o.x), y: fx_min(self.y, o.y) }
    }

    pub fn max(self, o: Vec2) -> (r: Vec2)
        ensures
            r == sv_max(self, o),
    {
        Vec2 { x: fx_max(self.x, o.x), y: fx_max(self.y, o.y) }
    }

    pub fn mul(self, o: Vec2) -> (r: Vec2)
        ensures
            r == sv_mul(self, o),
    {
        Vec2 { x: fx_mul(self.x, o.x), y: fx_mul(self.y, o.y) }
    }

    pub fn div(self, o: Vec2) -> (r: Vec2)
        ensures
            r == sv_div(self, o),
    {
        Vec2 { x: fx_div(self.x, o.x), y: fx_div(self.y, o.y) }
    }

    pub fn trunc(self) -> (r: Vec2)
        ensures
            r == (Vec2 { x: s_trunc(self.x as int) as i64, y: s_trunc(self.y as int) as i64 }),
    {
        proof {
            assert(s_sat(s_trunc(self.x as int)) == s_trunc(self.x as int));
            assert(s_sat(s_trunc(self.y as int)) == s_trunc(self.y as int));
        }
        Vec2 { x: fx_trunc(self.x), y: fx_trunc(self.y) }
    }
}

/// A two-component vector of whole texels.
#[derive(Debug, Clone, Copy, PartialEq, Eq, Structural)]
pub struct UVec2 {
    pub x: u32,
    pub y: u32,
}

impl UVec2 {
    pub fn new(x: u32, y: u32) -> (r: UVec2)
        ensures
            r == (UVec2 { x, y }),
    {
        UVec2 { x, y }
    }

    pub fn zero() -> (r: UVec2)
        ensures
            r == (UVec2 { x: 0u32, y: 0u32 }),
    {
        UVec2 { x: 0, y: 0 }
    }

    /// The fixed-point position of this texel coordinate.
    pub fn to_fx(self) -> (r: Vec2)
        ensures
            r.x == self.x as int * 256 && r.y == self.y as int * 256,
    {
        Vec2 { x: self.x as i64 * 256, y: self.y as i64 * 256 }
    }
}

/// An axis-aligned rectangle over whole texels: two corners, `min` at
/// top-left and `max` one past bottom-right.
#[derive(Debug, Clone, Copy, PartialEq, Eq, Structural)]
pub struct URect {
    pub min: UVec2,
    pub max: UVec2,
}

impl URect {
    pub fn new(min: UVec2, max: UVec2) -> (r: URect)
        ensures
            r == (URect { min, max }),
    {
        URect { min, max }
    }

    pub fn zero() -> (r: URect)
        ensures
            r == (URect { min: UVec2 { x: 0u32, y: 0u32 }, max: UVec2 { x: 0u32, y: 0u32 } }),
    {
        URect { min: UVec2 { x: 0, y: 0 }, max: UVec2 { x: 0, y: 0 } }
    }

    /// Size of the rectangle: `max - min`, component-wise, saturated at zero.
    pub fn size(&self) -> (r: UVec2)
        ensures
            r.x as int == s_max(0, self.max.x - self.min.x),
            r.y as int == s_max(0, self.max.y - self.min.y),
    {
        let x: u32 = if self.max.x >= self.min.x { self.max.x - self.min.x } else { 0 };
        let y: u32 = if self.max.y >= self.min.y { self.max.y - self.min.y } else { 0 };
        UVec2 { x, y }
    }
}

/// An axis-aligned rectangle over fixed-point coordinates.
#[derive(Debug, Clone, Copy, PartialEq, Eq, Structural)]
pub struct Rect {
    pub min: Vec2,
    pub max: Vec2,
}

pub open spec fn s_rect_union(a: Rect, b: Rect) -> Rect {
    Rect { min: sv_min(a.min, b.min), max: sv_max(a.max, b.max) }
}

impl Rect {
    pub fn new(min: Vec2, max: Vec2) -> (r: Rect)
        ensures
            r == (Rect { min, max }),
    {
        Rect { min, max }
    }

    pub fn size(&self) -> (r: Vec2)
        ensures
            r == sv_sub(self.max, self.min),
    {
        self.max.sub(self.min)
    }

    /// The smallest rectangle containing both `self` and `other`.
    pub fn union(self, other: Rect) -> (r: Rect)
        ensures
            r == s_rect_union(self, other),
    {
        Rect { min: self.min.min(other.min), max: self.max.max(other.max) }
    }

    /// The axis-aligned bounding rectangle of `self` under `transform`.
    pub fn transform(self, transform: &Transform) -> (r: Rect)
        ensures
            r == s_rect_transform(self, *transform),
    {
        let a: Vec2 = transform.transform_point(self.min);
        let b: Vec2 = transform.transform_point(Vec2 { x: self.min.x, y: self.max.y });
        let c: Vec2 = transform.transform_point(Vec2 { x: self.max.x, y: self.min.y });
        let d: Vec2 = transform.transform_point(self.max);
        Rect { min: a.min(b).min(c).min(d), max: a.max(b).max(c).max(d) }
    }
}

/// A 2D affine transform. The four matrix entries are fixed-point factors
/// (`FX_ONE` is one); the translation is a fixed-point offset.
#[derive(Debug, Clone, Copy, PartialEq, Eq, Structural)]
pub struct Transform {
    pub m00: i64,
    pub m01: i64,
    pub m10: i64,
    pub m11: i64,
    pub tx: i64,
    pub ty: i64,
}

pub open spec fn s_identity() -> Transform {
    Transform { m00: 256i64, m01: 0i64, m10: 0i64, m11: 256i64, tx: 0i64, ty: 0i64 }
}

pub open spec fn s_transform_point(t: Transform, p: Vec2) -> Vec2 {
    sv(
        s_add(
            s_add(s_mul(t.m00 as int, p.x as int), s_mul(t.m01 as int, p.y as int)),
            t.tx as int,
        ),
        s_add(
            s_add(s_mul(t.m10 as int, p.x as int), s_mul(t.m11 as int, p.y as int)),
            t.ty as int,
        ),
    )
}

/// Composition: applying `s_compose(a, b)` is applying `b`, then `a`.
pub open spec fn s_compose(a: Transform, b: Transform) -> Transform {
    Transform {
        m00: s_sat(s_add(s_mul(a.m00 as int, b.m00 as int), s_mul(a.m01 as int, b.m10 as int)))
            as i64,
        m01: s_sat(s_add(s_mul(a.m00 as int, b.m01 as int), s_mul(a.m01 as int, b.m11 as int)))
            as i64,
        m10: s_sat(s_add(s_mul(a.m10 as int, b.m00 as int), s_mul(a.m11 as int, b.m10 as int)))
            as i64,
        m11: s_sat(s_add(s_mul(a.m10 as int, b.m01 as int), s_mul(a.m11 as int, b.m11 as int)))
            as i64,
        tx: s_sat(
            s_add(
                s_add(s_mul(a.m00 as int, b.tx as int), s_mul(a.m01 as int, b.ty as int)),
                a.tx as int,
            ),
        ) as i64,
        ty: s_sat(
            s_add(
                s_add(s_mul(a.m10 as int, b.tx as int), s_mul(a.m11 as int, b.ty as int)),
                a.ty as int,
            ),
        ) as i64,
    }
}

pub open spec fn s_rect_transform(rect: Rect, t: Transform) -> Rect {
    let a = s_transform_point(t, rect.min);
    let b = s_transform_point(t, Vec2 { x: rect.min.x, y: rect.max.y });
    let c = s_transform_point(t, Vec2 { x: rect.max.x, y: rect.min.y });
    let d = s_transform_point(t, rect.max);
    Rect { min: sv_min(sv_min(sv_min(a, b), c), d), max: sv_max(sv_max(sv_max(a, b), c), d) }
}

/// A translation moves every point by `v` and a point at the origin to `v`.
pub open spec fn s_translation(v: Vec2) -> Transform {
    Transform { m00: 256i64, m01: 0i64, m10: 0i64, m11: 256i64, tx: v.x, ty: v.y }
}

impl Transform {
    pub fn identity() -> (r: Transform)
        ensures
            r == s_identity(),
    {
        Transform { m00: 256, m01: 0, m10: 0, m11: 256, tx: 0, ty: 0 }
    }

    pub fn translation(v: Vec2) -> (r: Transform)
        ensures
            r == s_translation(v),
    {
        Transform { m00: 256, m01: 0, m10: 0, m11: 256, tx: v.x, ty: v.y }
    }

    pub fn transform_point(&self, p: Vec2) -> (r: Vec2)
        ensures
            r == s_transform_point(*self, p),
    {
        let x: i64 = fx_add(fx_add(fx_mul(self.m00, p.x), fx_mul(self.m01, p.y)), self.tx);
        let y: i64 = fx_add(fx_add(fx_mul(self.m10, p.x), fx_mul(self.m11, p.y)), self.ty);
        proof {
            assert(s_sat(x as int) == x as int);
            assert(s_sat(y as int) == y as int);
        }
        Vec2 { x, y }
    }

    /// Applies `other`, then `self`.
    pub fn compose(&self, other: &Transform) -> (r: Transform)
        ensures
            r == s_compose(*self, *other),
    {
        Transform {
            m00: fx_add(fx_mul(self.m00, other.m00), fx_mul(self.m01, other.m10)),
            m01: fx_add(fx_mul(self.m00, other.m01), fx_mul(self.m01, other.m11)),
            m10: fx_add(fx_mul(self.m10, other.m00), fx_mul(self.m11, other.m10)),
            m11: fx_add(fx_mul(self.m10, other.m01), fx_mul(self.m11, other.m11)),
            tx: fx_add(fx_add(fx_mul(self.m00, other.tx), fx_mul(self.m01, other.ty)), self.tx),
            ty: fx_add(fx_add(fx_mul(self.m10, other.tx), fx_mul(self.m11, other.ty)), self.ty),
        }
    }
}

/// The identity transform maps every point to itself.
pub proof fn lemma_identity_point(p: Vec2)
    ensures
        s_transform_point(s_identity(), p) == p,
{
    assert(s_mul(256, p.x as int) == p.x as int);
    assert(s_mul(256, p.y as int) == p.y as int);
    assert(s_mul(0, p.x as int) == 0);
    assert(s_mul(0, p.y as int) == 0);
}

/// A fixed-point vector as whole texels: negative components clamp to
/// zero, fractions truncate.
pub open spec fn s_to_texels(v: Vec2) -> UVec2 {
    UVec2 {
        x: s_min(s_max(0, v.x as int) / 256, u32::MAX as int) as u32,
        y: s_min(s_max(0, v.y as int) / 256, u32::MAX as int) as u32,
    }
}

pub fn to_texels(v: Vec2) -> (r: UVec2)
    ensures
        r == s_to_texels(v),
{
    let x: u64 = if v.x < 0 {
        0
    } else {
        (v.x as u64) / 256
    };
    let y: u64 = if v.y < 0 {
        0
    } else {
        (v.y as u64) / 256
    };
    UVec2 {
        x: if x > u32::MAX as u64 {
            u32::MAX
        } else {
            x as u32
        },
        y: if y > u32::MAX as u64 {
            u32::MAX
        } else {
            y as u32
        },
    }
}

} // verus!

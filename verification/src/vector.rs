//! Three-component integer vectors and the scalar helpers they rest on.

use vstd::prelude::*;

verus! {

/// Grid units per world unit.
pub const SCALE: i64 = 65536;

/// Largest magnitude a position component may have (16384 world units).
pub const COORD_LIMIT: i64 = 1073741824;

/// The value of `v` brought into the range of `i64`.
pub open spec fn clamp_to_i64(v: int) -> int {
    if v < i64::MIN as int {
        i64::MIN as int
    } else if v > i64::MAX as int {
        i64::MAX as int
    } else {
        v
    }
}

/// Brings a wide intermediate back into `i64`, saturating at the ends.
pub fn saturate(v: i128) -> (r: i64)
    ensures
        r as int == clamp_to_i64(v as int),
{
    if v < i64::MIN as i128 {
        i64::MIN
    } else if v > i64::MAX as i128 {
        i64::MAX
    } else {
        v as i64
    }
}

/// The square of a number is not negative and grows with its magnitude.
pub proof fn lemma_square_bound(v: int, limit: int)
    requires
        -limit <= v <= limit,
    ensures
        0 <= v * v <= limit * limit,
{
    assert(0 <= v * v <= limit * limit) by (nonlinear_arith)
        requires
            -limit <= v <= limit,
    ;
}

/// `r` is the square root of `n`, rounded down.
pub open spec fn is_sqrt_floor(n: int, r: int) -> bool {
    0 <= r && r * r <= n < (r + 1) * (r + 1)
}

/// The square root of `n`, rounded down.
pub open spec fn sqrt_floor(n: int) -> int {
    choose|r: int| is_sqrt_floor(n, r)
}

/// Every natural number has a rounded-down square root.
pub proof fn lemma_sqrt_exists(n: nat)
    ensures
        is_sqrt_floor(n as int, sqrt_floor(n as int)),
    decreases n,
{
    if n == 0 {
        assert(is_sqrt_floor(0, 0));
    } else {
        lemma_sqrt_exists((n - 1) as nat);
        let r = sqrt_floor(n - 1);
        if (r + 1) * (r + 1) <= n {
            assert((r + 1) * (r + 1) < (r + 2) * (r + 2)) by (nonlinear_arith)
                requires
                    0 <= r,
            ;
            assert(is_sqrt_floor(n as int, r + 1));
        } else {
            assert(is_sqrt_floor(n as int, r));
        }
    }
}

/// The rounded-down square root is unique.
pub proof fn lemma_sqrt_unique(n: int, r: int)
    requires
        is_sqrt_floor(n, r),
    ensures
        sqrt_floor(n) == r,
{
    let s = sqrt_floor(n);
    assert(is_sqrt_floor(n, s));
    if s < r {
        assert((s + 1) * (s + 1) <= r * r) by (nonlinear_arith)
            requires
                0 <= s < r,
        ;
    } else if r < s {
        assert((r + 1) * (r + 1) <= s * s) by (nonlinear_arith)
            requires
                0 <= r < s,
        ;
    }
}

/// The square root of a square is its magnitude.
pub proof fn lemma_sqrt_of_square(d: int)
    requires
        0 <= d,
    ensures
        sqrt_floor(d * d) == d,
        sqrt_ceil(d * d) == d,
{
    assert(d * d < (d + 1) * (d + 1)) by (nonlinear_arith)
        requires
            0 <= d,
    ;
    lemma_sqrt_unique(d * d, d);
}

/// Computes the square root of `n`, rounded down.
pub fn isqrt(n: u128) -> (r: u128)
    ensures
        r == sqrt_floor(n as int),
        is_sqrt_floor(n as int, r as int),
        r <= 0xffff_ffff_ffff_ffff,
{
    let mut lo: u128 = 0;
    let mut hi: u128 = 0x1_0000_0000_0000_0000;
    assert(0x1_0000_0000_0000_0000int * 0x1_0000_0000_0000_0000int > n);
    while hi - lo > 1
        invariant
            lo < hi <= 0x1_0000_0000_0000_0000,
            lo * lo <= n < hi * hi,
        decreases hi - lo,
    {
        let mid: u128 = lo + (hi - lo) / 2;
        proof {
            lemma_square_bound(mid as int, 0xffff_ffff_ffff_ffff);
        }
        if mid * mid <= n {
            lo = mid;
        } else {
            hi = mid;
        }
    }
    proof {
        lemma_sqrt_unique(n as int, lo as int);
    }
    lo
}

/// The square root of `n`, rounded up.
pub open spec fn sqrt_ceil(n: int) -> int {
    let r = sqrt_floor(n);
    if r * r == n {
        r
    } else {
        r + 1
    }
}

/// The rounded-up square root of `n` is the least number whose square is
/// not below `n`.
pub proof fn lemma_sqrt_ceil(n: nat)
    ensures
        sqrt_floor(n as int) <= sqrt_ceil(n as int) <= sqrt_floor(n as int) + 1,
        n <= sqrt_ceil(n as int) * sqrt_ceil(n as int),
        n > 0 ==> sqrt_ceil(n as int) > 0,
        n > 0 ==> (sqrt_ceil(n as int) - 1) * (sqrt_ceil(n as int) - 1) < n,
        n == 0 ==> sqrt_ceil(n as int) == 0,
{
    lemma_sqrt_exists(n);
    let r = sqrt_floor(n as int);
    assert(r * r <= (r + 1) * (r + 1)) by (nonlinear_arith)
        requires
            0 <= r,
    ;
    if r == 0 {
        assert(r * r == 0) by (nonlinear_arith)
            requires
                r == 0,
        ;
    }
    if n > 0 && r * r == n {
        assert((r - 1) * (r - 1) < r * r) by (nonlinear_arith)
            requires
                0 < r,
        ;
    }
    if n == 0 {
        assert(is_sqrt_floor(0, 0));
        lemma_sqrt_unique(0, 0);
    }
}

/// Computes the square root of `n`, rounded up.
pub fn isqrt_ceil(n: u128) -> (r: u128)
    ensures
        r == sqrt_ceil(n as int),
        r <= 0x1_0000_0000_0000_0000,
{
    let r: u128 = isqrt(n);
    proof {
        lemma_square_bound(r as int, 0xffff_ffff_ffff_ffff);
    }
    if r * r == n {
        r
    } else {
        r + 1
    }
}

/// Squared lengths are scaled up to at least this much before their root is
/// taken: 2^126.
pub open spec fn fine() -> int {
    0x4000_0000_0000_0000_0000_0000_0000_0000
}

/// Doubles `f` for as long as `p`, which grows fourfold with it, is below
/// `fine()`.
pub open spec fn refine(p: int, f: int) -> int
    decreases
        (if p >= fine() {
            0
        } else {
            fine() - p
        }),
{
    if p <= 0 || p >= fine() {
        f
    } else {
        refine(4 * p, 2 * f)
    }
}

/// The power of two by which a vector of squared length `d2` is scaled
/// before its length is taken: the least that brings the squared length to
/// `fine()` or above.
pub open spec fn fine_factor(d2: int) -> int {
    refine(d2, 1)
}

/// Refining keeps the factor positive and ends between `fine()` and four
/// times `fine()`.
pub proof fn lemma_refine(d2: int, p: int, f: int)
    requires
        1 <= d2,
        1 <= f,
        p == f * f * d2,
        p < 4 * fine(),
    ensures
        f <= refine(p, f),
        fine() <= refine(p, f) * refine(p, f) * d2 < 4 * fine(),
    decreases
        (if p >= fine() {
            0
        } else {
            fine() - p
        }),
{
    assert(1 <= p) by (nonlinear_arith)
        requires
            p == f * f * d2,
            1 <= d2,
            1 <= f,
    ;
    if p < fine() {
        assert(4 * p == (2 * f) * (2 * f) * d2) by (nonlinear_arith)
            requires
                p == f * f * d2,
        ;
        lemma_refine(d2, 4 * p, 2 * f);
    }
}

/// Computes `fine_factor(d2)`, and with it the squared length at that
/// scale.
fn refine_scale(d2: u64) -> (r: (u128, u128))
    requires
        d2 > 0,
    ensures
        r.1 == fine_factor(d2 as int),
        r.0 == r.1 * r.1 * d2,
        fine() <= r.0 < 4 * fine(),
        1 <= r.1 < 0x1_0000_0000_0000_0000,
{
    let mut p: u128 = d2 as u128;
    let mut f: u128 = 1;
    assert(p == f * f * d2) by (nonlinear_arith)
        requires
            p == d2,
            f == 1,
    ;
    while p < 0x4000_0000_0000_0000_0000_0000_0000_0000
        invariant
            1 <= d2,
            1 <= f,
            1 <= p,
            p == f * f * d2,
            p < 4 * fine(),
            refine(p as int, f as int) == fine_factor(d2 as int),
        decreases
        (if p >= fine() {
            0
        } else {
            fine() - p
        }),
    {
        proof {
            assert(f * f <= p) by (nonlinear_arith)
                requires
                    p == f * f * d2,
                    1 <= d2,
                    0 <= f * f,
            ;
            assert(f < 0x8000_0000_0000_0000) by (nonlinear_arith)
                requires
                    f * f <= p,
                    p < 0x4000_0000_0000_0000_0000_0000_0000_0000,
                    1 <= f,
            ;
            assert(4 * p == (2 * f) * (2 * f) * d2) by (nonlinear_arith)
                requires
                    p == f * f * d2,
            ;
        }
        p = p * 4;
        f = f * 2;
    }
    proof {
        assert(f * f <= p) by (nonlinear_arith)
            requires
                p == f * f * d2,
                1 <= d2,
                0 <= f * f,
        ;
        assert(f < 0x1_0000_0000_0000_0000) by (nonlinear_arith)
            requires
                f * f <= p,
                p < 4 * 0x4000_0000_0000_0000_0000_0000_0000_0000,
                1 <= f,
        ;
    }
    (p, f)
}

/// The component `c` of a vector of length `len`, after the vector is
/// stretched to length `mag`: `c * mag / len`, rounded towards zero, and zero
/// for a vector without length.
pub open spec fn scale_component(c: int, mag: int, len: int) -> int {
    if len <= 0 {
        0
    } else if c >= 0 {
        (c * mag) / len
    } else {
        -((-c * mag) / len)
    }
}

/// A component is no longer than the vector it belongs to.
pub proof fn lemma_component_le_length(c: int, d2: int)
    requires
        0 <= c * c <= d2,
    ensures
        -sqrt_floor(d2) <= c <= sqrt_floor(d2),
        -sqrt_ceil(d2) <= c <= sqrt_ceil(d2),
{
    lemma_sqrt_exists(d2 as nat);
    lemma_sqrt_ceil(d2 as nat);
    let r = sqrt_floor(d2);
    if c > r {
        assert((r + 1) * (r + 1) <= c * c) by (nonlinear_arith)
            requires
                0 <= r < c,
        ;
    } else if c < -r {
        assert((r + 1) * (r + 1) <= c * c) by (nonlinear_arith)
            requires
                0 <= r,
                c < -r,
        ;
    }
}

/// A stretched component has the sign of the component it came from, and no
/// more than the magnitude it was stretched to.
pub proof fn lemma_scale_component_bounds(c: int, mag: int, len: int)
    requires
        -len <= c <= len,
        0 <= mag,
    ensures
        c >= 0 ==> 0 <= scale_component(c, mag, len) <= mag,
        c <= 0 ==> -mag <= scale_component(c, mag, len) <= 0,
        c == len && len > 0 ==> scale_component(c, mag, len) == mag,
        c == -len && len > 0 ==> scale_component(c, mag, len) == -mag,
        c == 0 ==> scale_component(c, mag, len) == 0,
{
    if len > 0 {
        let a = if c >= 0 {
            c
        } else {
            -c
        };
        assert(0 <= a * mag <= len * mag) by (nonlinear_arith)
            requires
                0 <= a <= len,
                0 <= mag,
        ;
        assert(len * mag == mag * len) by (nonlinear_arith);
        vstd::arithmetic::div_mod::lemma_div_multiples_vanish(mag, len);
        vstd::arithmetic::div_mod::lemma_div_is_ordered(0, a * mag, len);
        vstd::arithmetic::div_mod::lemma_div_is_ordered(a * mag, mag * len, len);
        assert((mag * len) / len == mag) by {
            assert(mag * len == len * mag) by (nonlinear_arith);
        }
        if c == 0 {
            assert(a * mag == 0) by (nonlinear_arith)
                requires
                    a == 0,
            ;
        }
        if a == len {
            assert(a * mag == mag * len) by (nonlinear_arith)
                requires
                    a == len,
            ;
        }
        if c < 0 {
            assert(-c * mag == a * mag) by (nonlinear_arith)
                requires
                    a == -c,
            ;
        } else {
            assert(c * mag == a * mag);
        }
    }
}

/// The square of a stretched component, times the squared length, is at
/// most the square of the component times the squared magnitude.
pub proof fn lemma_scale_component_square(c: int, mag: int, len: int)
    requires
        -len <= c <= len,
        0 < len,
        0 <= mag,
    ensures
        scale_component(c, mag, len) * scale_component(c, mag, len) * (len * len) <= (c * c) * (mag
            * mag),
{
    let a = if c >= 0 {
        c
    } else {
        -c
    };
    let q = (a * mag) / len;
    assert(0 <= a * mag) by (nonlinear_arith)
        requires
            0 <= a,
            0 <= mag,
    ;
    vstd::arithmetic::div_mod::lemma_fundamental_div_mod(a * mag, len);
    vstd::arithmetic::div_mod::lemma_mod_bound(a * mag, len);
    vstd::arithmetic::div_mod::lemma_div_pos_is_pos(a * mag, len);
    assert(0 <= q * len <= a * mag) by (nonlinear_arith)
        requires
            a * mag == len * q + (a * mag) % len,
            0 <= (a * mag) % len,
            0 <= q,
            0 < len,
    ;
    assert((q * len) * (q * len) <= (a * mag) * (a * mag)) by (nonlinear_arith)
        requires
            0 <= q * len <= a * mag,
    ;
    assert((q * len) * (q * len) == q * q * (len * len)) by (nonlinear_arith);
    assert((a * mag) * (a * mag) == (a * a) * (mag * mag)) by (nonlinear_arith);
    assert(a * a == c * c) by (nonlinear_arith)
        requires
            a == c || a == -c,
    ;
    let r = scale_component(c, mag, len);
    if c >= 0 {
        assert(r == q);
    } else {
        assert(-c * mag == a * mag) by (nonlinear_arith)
            requires
                a == -c,
        ;
        assert(r == -q);
    }
    assert(r * r == q * q) by (nonlinear_arith)
        requires
            r == q || r == -q,
    ;
}

/// The magnitude of a number.
pub open spec fn abs(v: int) -> int {
    if v >= 0 {
        v
    } else {
        -v
    }
}

/// A stretched component falls short of the exact quotient by less than
/// one: with `q` its magnitude, `(q + 1) * len` is above `|c| * mag`, and so
/// are the squares.
pub proof fn lemma_scale_component_lower(c: int, mag: int, len: int)
    requires
        0 < len,
        0 <= mag,
    ensures
        (abs(scale_component(c, mag, len)) + 1) * (abs(scale_component(c, mag, len)) + 1) * (len
            * len) > (c * c) * (mag * mag),
{
    let a = abs(c);
    let q = (a * mag) / len;
    assert(0 <= a * mag) by (nonlinear_arith)
        requires
            0 <= a,
            0 <= mag,
    ;
    vstd::arithmetic::div_mod::lemma_fundamental_div_mod(a * mag, len);
    vstd::arithmetic::div_mod::lemma_mod_bound(a * mag, len);
    vstd::arithmetic::div_mod::lemma_div_pos_is_pos(a * mag, len);
    assert((q + 1) * len > a * mag) by (nonlinear_arith)
        requires
            a * mag == len * q + (a * mag) % len,
            (a * mag) % len < len,
    ;
    assert(((q + 1) * len) * ((q + 1) * len) > (a * mag) * (a * mag)) by (nonlinear_arith)
        requires
            (q + 1) * len > a * mag,
            0 <= a * mag,
    ;
    assert(((q + 1) * len) * ((q + 1) * len) == (q + 1) * (q + 1) * (len * len))
        by (nonlinear_arith);
    assert((a * mag) * (a * mag) == (a * a) * (mag * mag)) by (nonlinear_arith);
    assert(a * a == c * c) by (nonlinear_arith)
        requires
            a == c || a == -c,
    ;
    let r = scale_component(c, mag, len);
    if c >= 0 {
        assert(r == q);
    } else {
        assert(-c * mag == a * mag) by (nonlinear_arith)
            requires
                a == -c,
        ;
        assert(r == -q);
    }
    assert(abs(r) == q);
}

/// Computes `scale_component`.
pub fn scale(c: i128, mag: u64, len: u128) -> (r: i64)
    requires
        -(len as int) <= c <= len,
        len <= 0x1_0000_0000_0000_0000,
        mag <= i64::MAX,
    ensures
        r == scale_component(c as int, mag as int, len as int),
{
    if len == 0 {
        return 0;
    }
    proof {
        lemma_scale_component_bounds(c as int, mag as int, len as int);
    }
    if c >= 0 {
        assert(c * mag <= 0x1_0000_0000_0000_0000 * 0x7fff_ffff_ffff_ffff) by (nonlinear_arith)
            requires
                0 <= c <= 0x1_0000_0000_0000_0000,
                0 <= mag <= 0x7fff_ffff_ffff_ffff,
        ;
        let q: u128 = (c as u128) * (mag as u128) / len;
        q as i64
    } else {
        let a: u128 = (-c) as u128;
        assert(a * mag <= 0x1_0000_0000_0000_0000 * 0x7fff_ffff_ffff_ffff) by (nonlinear_arith)
            requires
                0 <= a <= 0x1_0000_0000_0000_0000,
                0 <= mag <= 0x7fff_ffff_ffff_ffff,
        ;
        assert(-(c as int) * mag == a * mag);
        let q: u128 = a * (mag as u128) / len;
        -(q as i64)
    }
}

/// The product `a * b` divided by `den`, rounded towards zero.
pub open spec fn mul_div_trunc(a: int, b: int, den: int) -> int {
    if a * b >= 0 {
        (a * b) / den
    } else {
        -((-(a * b)) / den)
    }
}

/// Computes `mul_div_trunc`, saturating.
pub fn mul_div(a: i64, b: i64, den: u32) -> (r: i64)
    requires
        den > 0,
    ensures
        r == clamp_to_i64(mul_div_trunc(a as int, b as int, den as int)),
{
    assert(-0x8000_0000_0000_0000 * 0x8000_0000_0000_0000 <= a * b <= 0x8000_0000_0000_0000
        * 0x8000_0000_0000_0000) by (nonlinear_arith)
        requires
            -0x8000_0000_0000_0000 <= a <= 0x8000_0000_0000_0000,
            -0x8000_0000_0000_0000 <= b <= 0x8000_0000_0000_0000,
    ;
    let p: i128 = (a as i128) * (b as i128);
    if p >= 0 {
        let q: u128 = (p as u128) / (den as u128);
        proof {
            vstd::arithmetic::div_mod::lemma_div_is_ordered_by_denominator(p as int, 1, den as int);
        }
        saturate(q as i128)
    } else {
        let n: u128 = (-p) as u128;
        let q: u128 = n / (den as u128);
        proof {
            vstd::arithmetic::div_mod::lemma_div_is_ordered_by_denominator(n as int, 1, den as int);
        }
        saturate(-(q as i128))
    }
}

/// A vector with integer components.
#[derive(Clone, Copy, Debug, PartialEq, Eq, Structural)]
pub struct Vec3 {
    pub x: i64,
    pub y: i64,
    pub z: i64,
}

impl Vec3 {
    /// Whether every component lies within `COORD_LIMIT` of zero.
    pub open spec fn in_bounds(self) -> bool {
        &&& -COORD_LIMIT <= self.x <= COORD_LIMIT
        &&& -COORD_LIMIT <= self.y <= COORD_LIMIT
        &&& -COORD_LIMIT <= self.z <= COORD_LIMIT
    }

    /// Componentwise sum, each component saturating.
    pub open spec fn add_spec(self, other: Vec3) -> Vec3 {
        Vec3 {
            x: clamp_to_i64(self.x + other.x) as i64,
            y: clamp_to_i64(self.y + other.y) as i64,
            z: clamp_to_i64(self.z + other.z) as i64,
        }
    }

    /// Squared Euclidean distance between two points.
    pub open spec fn dist2(self, other: Vec3) -> int {
        (self.x - other.x) * (self.x - other.x) + (self.y - other.y) * (self.y - other.y) + (self.z
            - other.z) * (self.z - other.z)
    }

    pub fn new(x: i64, y: i64, z: i64) -> (v: Vec3)
        ensures
            v == (Vec3 { x, y, z }),
    {
        Vec3 { x, y, z }
    }

    pub fn zero() -> (v: Vec3)
        ensures
            v == (Vec3 { x: 0, y: 0, z: 0 }),
    {
        Vec3 { x: 0, y: 0, z: 0 }
    }

    /// Tests `in_bounds`.
    pub fn is_in_bounds(&self) -> (b: bool)
        ensures
            b == self.in_bounds(),
    {
        -COORD_LIMIT <= self.x && self.x <= COORD_LIMIT && -COORD_LIMIT <= self.y && self.y
            <= COORD_LIMIT && -COORD_LIMIT <= self.z && self.z <= COORD_LIMIT
    }

    /// Squared length.
    pub open spec fn norm2(self) -> int {
        self.x * self.x + self.y * self.y + self.z * self.z
    }

    /// The vector stretched or shrunk to length `mag`; the zero vector stays
    /// as it is. Each component is multiplied by `mag`, divided by the length
    /// of the vector, and rounded towards zero. The length is taken rounded
    /// up at the scale of `fine_factor`, so that the result is no longer than
    /// `mag` and less than three grid units shorter.
    pub open spec fn with_length(self, mag: int) -> Vec3 {
        let f = fine_factor(self.norm2());
        let len = sqrt_ceil(f * f * self.norm2());
        Vec3 {
            x: scale_component(self.x * f, mag, len) as i64,
            y: scale_component(self.y * f, mag, len) as i64,
            z: scale_component(self.z * f, mag, len) as i64,
        }
    }

    /// Componentwise difference `self - other`.
    pub open spec fn sub_spec(self, other: Vec3) -> Vec3 {
        Vec3 {
            x: (self.x - other.x) as i64,
            y: (self.y - other.y) as i64,
            z: (self.z - other.z) as i64,
        }
    }

    /// Whether every component lies within twice `COORD_LIMIT` of zero, as
    /// the difference of two positions does.
    pub open spec fn is_offset(self) -> bool {
        &&& -2 * COORD_LIMIT <= self.x <= 2 * COORD_LIMIT
        &&& -2 * COORD_LIMIT <= self.y <= 2 * COORD_LIMIT
        &&& -2 * COORD_LIMIT <= self.z <= 2 * COORD_LIMIT
    }

    /// Tests `is_offset`.
    pub fn fits_offset(&self) -> (b: bool)
        ensures
            b == self.is_offset(),
    {
        -2 * COORD_LIMIT <= self.x && self.x <= 2 * COORD_LIMIT && -2 * COORD_LIMIT <= self.y
            && self.y <= 2 * COORD_LIMIT && -2 * COORD_LIMIT <= self.z && self.z <= 2
            * COORD_LIMIT
    }

    /// The difference of two positions.
    pub fn offset_from(&self, other: &Vec3) -> (v: Vec3)
        requires
            self.in_bounds(),
            other.in_bounds(),
        ensures
            v == self.sub_spec(*other),
            v.is_offset(),
            v.norm2() == self.dist2(*other),
    {
        Vec3 { x: self.x - other.x, y: self.y - other.y, z: self.z - other.z }
    }

    /// Squared length of an offset.
    pub fn length_squared(&self) -> (d: u64)
        requires
            self.is_offset(),
        ensures
            d == self.norm2(),
            d <= 3 * 0x4000_0000_0000_0000,
    {
        proof {
            lemma_square_bound(self.x as int, 0x8000_0000);
            lemma_square_bound(self.y as int, 0x8000_0000);
            lemma_square_bound(self.z as int, 0x8000_0000);
        }
        let sx: u64 = (self.x * self.x) as u64;
        let sy: u64 = (self.y * self.y) as u64;
        let sz: u64 = (self.z * self.z) as u64;
        sx + sy + sz
    }

    /// Stretches or shrinks an offset to length `mag`.
    pub fn scaled_to(&self, mag: u64) -> (v: Vec3)
        requires
            self.is_offset(),
            mag <= i64::MAX,
        ensures
            v == self.with_length(mag as int),
    {
        let d2: u64 = self.length_squared();
        if d2 == 0 {
            proof {
                lemma_sqrt_ceil(0);
                assert(fine_factor(0) == 1);
                assert(1 * 1 * 0 == 0);
            }
            return Vec3 { x: 0, y: 0, z: 0 };
        }
        let (p, f): (u128, u128) = refine_scale(d2);
        let len: u128 = isqrt_ceil(p);
        proof {
            lemma_scaled_components(*self, f as int);
        }
        Vec3 {
            x: scale(self.x as i128 * f as i128, mag, len),
            y: scale(self.y as i128 * f as i128, mag, len),
            z: scale(self.z as i128 * f as i128, mag, len),
        }
    }

    /// The vector moved by `rate * dt / SCALE`, componentwise, saturating.
    pub open spec fn advanced(self, rate: Vec3, dt: u32) -> Vec3 {
        self.add_spec(
            Vec3 {
                x: clamp_to_i64(mul_div_trunc(rate.x as int, dt as int, SCALE as int)) as i64,
                y: clamp_to_i64(mul_div_trunc(rate.y as int, dt as int, SCALE as int)) as i64,
                z: clamp_to_i64(mul_div_trunc(rate.z as int, dt as int, SCALE as int)) as i64,
            },
        )
    }

    /// Moves the vector by `rate` over the time `dt`, which is in units of
    /// `1 / SCALE`.
    pub fn advance(&self, rate: &Vec3, dt: u32) -> (v: Vec3)
        ensures
            v == self.advanced(*rate, dt),
    {
        let step = Vec3 {
            x: mul_div(rate.x, dt as i64, SCALE as u32),
            y: mul_div(rate.y, dt as i64, SCALE as u32),
            z: mul_div(rate.z, dt as i64, SCALE as u32),
        };
        self.saturating_add(&step)
    }

    /// Squared Euclidean distance to `other`.
    pub fn distance_squared(&self, other: &Vec3) -> (d: u64)
        requires
            self.in_bounds(),
            other.in_bounds(),
        ensures
            d == self.dist2(*other),
            d <= 3 * 0x4000_0000_0000_0000,
    {
        let dx: i64 = self.x - other.x;
        let dy: i64 = self.y - other.y;
        let dz: i64 = self.z - other.z;
        proof {
            lemma_square_bound(dx as int, 0x8000_0000);
            lemma_square_bound(dy as int, 0x8000_0000);
            lemma_square_bound(dz as int, 0x8000_0000);
        }
        let sx: u64 = (dx * dx) as u64;
        let sy: u64 = (dy * dy) as u64;
        let sz: u64 = (dz * dz) as u64;
        sx + sy + sz
    }

    /// Componentwise saturating sum.
    pub fn saturating_add(&self, other: &Vec3) -> (v: Vec3)
        ensures
            v == self.add_spec(*other),
    {
        Vec3 {
            x: saturate(self.x as i128 + other.x as i128),
            y: saturate(self.y as i128 + other.y as i128),
            z: saturate(self.z as i128 + other.z as i128),
        }
    }
}

/// The components of an offset, scaled by `f`, are within the rounded-up
/// root of the squared length at that scale.
pub proof fn lemma_scaled_components(v: Vec3, f: int)
    requires
        v.is_offset(),
        0 <= f < 0x1_0000_0000_0000_0000,
    ensures
        ({
            let len = sqrt_ceil(f * f * v.norm2());
            &&& 0 <= f * f * v.norm2()
            &&& (v.x * f) * (v.x * f) + (v.y * f) * (v.y * f) + (v.z * f) * (v.z * f) == f * f
                * v.norm2()
            &&& -len <= v.x * f <= len
            &&& -len <= v.y * f <= len
            &&& -len <= v.z * f <= len
            &&& -0x8000_0000 * 0x1_0000_0000_0000_0000 <= v.x * f <= 0x8000_0000
                * 0x1_0000_0000_0000_0000
            &&& -0x8000_0000 * 0x1_0000_0000_0000_0000 <= v.y * f <= 0x8000_0000
                * 0x1_0000_0000_0000_0000
            &&& -0x8000_0000 * 0x1_0000_0000_0000_0000 <= v.z * f <= 0x8000_0000
                * 0x1_0000_0000_0000_0000
        }),
{
    let d2 = v.norm2();
    let p = f * f * d2;
    lemma_square_bound(v.x as int, 0x8000_0000);
    lemma_square_bound(v.y as int, 0x8000_0000);
    lemma_square_bound(v.z as int, 0x8000_0000);
    let ff = f * f;
    assert(0 <= ff) by (nonlinear_arith)
        requires
            ff == f * f,
    ;
    let xx = v.x * v.x;
    let yy = v.y * v.y;
    let zz = v.z * v.z;
    assert((v.x * f) * (v.x * f) == ff * xx && (v.y * f) * (v.y * f) == ff * yy && (v.z * f) * (v.z
        * f) == ff * zz) by (nonlinear_arith)
        requires
            ff == f * f,
            xx == v.x * v.x,
            yy == v.y * v.y,
            zz == v.z * v.z,
    ;
    assert(p == ff * xx + ff * yy + ff * zz && 0 <= ff * xx <= p && 0 <= ff * yy <= p && 0 <= ff
        * zz <= p) by (nonlinear_arith)
        requires
            p == ff * d2,
            d2 == xx + yy + zz,
            0 <= ff,
            0 <= xx,
            0 <= yy,
            0 <= zz,
    ;
    lemma_component_le_length(v.x * f, p);
    lemma_component_le_length(v.y * f, p);
    lemma_component_le_length(v.z * f, p);
    assert(-0x8000_0000 * 0x1_0000_0000_0000_0000 <= v.x * f <= 0x8000_0000
        * 0x1_0000_0000_0000_0000) by (nonlinear_arith)
        requires
            -0x8000_0000 <= v.x <= 0x8000_0000,
            0 <= f <= 0x1_0000_0000_0000_0000,
    ;
    assert(-0x8000_0000 * 0x1_0000_0000_0000_0000 <= v.y * f <= 0x8000_0000
        * 0x1_0000_0000_0000_0000) by (nonlinear_arith)
        requires
            -0x8000_0000 <= v.y <= 0x8000_0000,
            0 <= f <= 0x1_0000_0000_0000_0000,
    ;
    assert(-0x8000_0000 * 0x1_0000_0000_0000_0000 <= v.z * f <= 0x8000_0000
        * 0x1_0000_0000_0000_0000) by (nonlinear_arith)
        requires
            -0x8000_0000 <= v.z <= 0x8000_0000,
            0 <= f <= 0x1_0000_0000_0000_0000,
    ;
}

/// A vector given the length `mag` has that length, up to rounding: it is no
/// longer than `mag`, and, unless it was the zero vector, less than three
/// grid units shorter. Each of its components keeps its sign.
pub proof fn lemma_with_length_bound(v: Vec3, mag: int)
    requires
        v.is_offset(),
        0 <= mag <= i64::MAX,
    ensures
        v.with_length(mag).norm2() <= mag * mag,
        v.norm2() > 0 && mag >= 3 ==> (mag - 3) * (mag - 3) <= v.with_length(mag).norm2(),
        v.norm2() == 0 ==> v.with_length(mag) == (Vec3 { x: 0, y: 0, z: 0 }),
        v.x >= 0 ==> 0 <= v.with_length(mag).x <= mag,
        v.x <= 0 ==> -mag <= v.with_length(mag).x <= 0,
        v.y >= 0 ==> 0 <= v.with_length(mag).y <= mag,
        v.y <= 0 ==> -mag <= v.with_length(mag).y <= 0,
        v.z >= 0 ==> 0 <= v.with_length(mag).z <= mag,
        v.z <= 0 ==> -mag <= v.with_length(mag).z <= 0,
{
    let d2 = v.norm2();
    lemma_square_bound(v.x as int, 0x8000_0000);
    lemma_square_bound(v.y as int, 0x8000_0000);
    lemma_square_bound(v.z as int, 0x8000_0000);
    let f = fine_factor(d2);
    if d2 > 0 {
        assert(d2 == 1 * 1 * d2) by (nonlinear_arith);
        lemma_refine(d2, d2, 1);
        assert(f < 0x1_0000_0000_0000_0000) by (nonlinear_arith)
            requires
                f * f * d2 < 4 * 0x4000_0000_0000_0000_0000_0000_0000_0000,
                1 <= d2,
                1 <= f,
        ;
    } else {
        assert(f == 1);
    }
    let p = f * f * d2;
    lemma_scaled_components(v, f);
    lemma_sqrt_ceil(p as nat);
    let len = sqrt_ceil(p);
    let cx = v.x * f;
    let cy = v.y * f;
    let cz = v.z * f;
    assert((v.x >= 0 ==> cx >= 0) && (v.x <= 0 ==> cx <= 0) && (v.y >= 0 ==> cy >= 0) && (v.y <= 0
        ==> cy <= 0) && (v.z >= 0 ==> cz >= 0) && (v.z <= 0 ==> cz <= 0)) by (nonlinear_arith)
        requires
            cx == v.x * f,
            cy == v.y * f,
            cz == v.z * f,
            0 <= f,
    ;
    lemma_scale_component_bounds(cx, mag, len);
    lemma_scale_component_bounds(cy, mag, len);
    lemma_scale_component_bounds(cz, mag, len);
    let rx = scale_component(cx, mag, len);
    let ry = scale_component(cy, mag, len);
    let rz = scale_component(cz, mag, len);
    let w = v.with_length(mag);
    assert(w.x == rx && w.y == ry && w.z == rz);
    let mm = mag * mag;
    assert(0 <= mm) by (nonlinear_arith)
        requires
            mm == mag * mag,
    ;
    let total = rx * rx + ry * ry + rz * rz;
    assert(total == w.norm2());
    if d2 > 0 {
        let ll = len * len;
        assert(0 < ll) by (nonlinear_arith)
            requires
                ll == len * len,
                0 < len,
        ;
        // No longer than `mag`.
        lemma_scale_component_square(cx, mag, len);
        lemma_scale_component_square(cy, mag, len);
        lemma_scale_component_square(cz, mag, len);
        assert(total * ll <= p * mm) by (nonlinear_arith)
            requires
                total == rx * rx + ry * ry + rz * rz,
                p == cx * cx + cy * cy + cz * cz,
                rx * rx * ll <= (cx * cx) * mm,
                ry * ry * ll <= (cy * cy) * mm,
                rz * rz * ll <= (cz * cz) * mm,
        ;
        assert(total <= mm) by (nonlinear_arith)
            requires
                total * ll <= p * mm,
                p <= ll,
                0 < ll,
                0 <= mm,
        ;
        // Less than three grid units shorter.
        if mag >= 3 {
            lemma_scale_component_lower(cx, mag, len);
            lemma_scale_component_lower(cy, mag, len);
            lemma_scale_component_lower(cz, mag, len);
            let qx = abs(rx);
            let qy = abs(ry);
            let qz = abs(rz);
            lemma_short_by_less_than_three(qx, qy, qz, cx, cy, cz, len, mag);
            assert(qx * qx == rx * rx && qy * qy == ry * ry && qz * qz == rz * rz)
                by (nonlinear_arith)
                requires
                    qx == rx || qx == -rx,
                    qy == ry || qy == -ry,
                    qz == rz || qz == -rz,
            ;
        }
    } else {
        assert(len == 0);
        assert(rx == 0 && ry == 0 && rz == 0);
        assert(total == 0) by (nonlinear_arith)
            requires
                total == rx * rx + ry * ry + rz * rz,
                rx == 0,
                ry == 0,
                rz == 0,
        ;
    }
}

/// A vector along the x axis is given the length `mag` exactly.
pub proof fn lemma_with_length_along_x(v: Vec3, mag: int)
    requires
        v.is_offset(),
        v.x != 0,
        v.y == 0,
        v.z == 0,
        0 <= mag <= i64::MAX,
    ensures
        v.x > 0 ==> v.with_length(mag) == (Vec3 { x: mag as i64, y: 0, z: 0 }),
        v.x < 0 ==> v.with_length(mag) == (Vec3 { x: (-mag) as i64, y: 0, z: 0 }),
{
    let d = abs(v.x as int);
    let d2 = v.norm2();
    assert(d2 == d * d && 1 <= d2) by (nonlinear_arith)
        requires
            d2 == v.x * v.x + v.y * v.y + v.z * v.z,
            v.y == 0,
            v.z == 0,
            d == v.x || d == -v.x,
            d >= 1,
    ;
    lemma_square_bound(v.x as int, 0x8000_0000);
    assert(d2 == 1 * 1 * d2) by (nonlinear_arith);
    lemma_refine(d2, d2, 1);
    let f = fine_factor(d2);
    let len = f * d;
    assert(f * f * d2 == len * len && 0 < len) by (nonlinear_arith)
        requires
            d2 == d * d,
            len == f * d,
            1 <= f,
            1 <= d,
    ;
    lemma_sqrt_of_square(len);
    assert(v.x * f == len || v.x * f == -len) by (nonlinear_arith)
        requires
            len == f * d,
            d == v.x || d == -v.x,
    ;
    assert(v.x > 0 ==> v.x * f == len) by (nonlinear_arith)
        requires
            len == f * d,
            d == v.x || d == -v.x,
            d >= 1,
            f >= 1,
    ;
    assert(v.x < 0 ==> v.x * f == -len) by (nonlinear_arith)
        requires
            len == f * d,
            d == v.x || d == -v.x,
            d >= 1,
            f >= 1,
    ;
    assert(v.y * f == 0 && v.z * f == 0) by (nonlinear_arith)
        requires
            v.y == 0,
            v.z == 0,
    ;
    lemma_scale_component_bounds(v.x * f, mag, len);
    lemma_scale_component_bounds(0, mag, len);
}

/// Three quotients, each rounded down by less than one, of a vector
/// `(cx, cy, cz)` stretched to `mag`: the sum of their squares is at least
/// the square of `mag - 3`.
proof fn lemma_short_by_less_than_three(
    qx: int,
    qy: int,
    qz: int,
    cx: int,
    cy: int,
    cz: int,
    len: int,
    mag: int,
)
    requires
        0 <= qx,
        0 <= qy,
        0 <= qz,
        3 <= mag < 0x8000_0000_0000_0000,
        0x4000_0000_0000_0000_0000_0000_0000_0000 <= cx * cx + cy * cy + cz * cz,
        0 < len,
        (len - 1) * (len - 1) < cx * cx + cy * cy + cz * cz <= len * len,
        (qx + 1) * (qx + 1) * (len * len) > (cx * cx) * (mag * mag),
        (qy + 1) * (qy + 1) * (len * len) > (cy * cy) * (mag * mag),
        (qz + 1) * (qz + 1) * (len * len) > (cz * cz) * (mag * mag),
    ensures
        (mag - 3) * (mag - 3) <= qx * qx + qy * qy + qz * qz,
{
    let p = cx * cx + cy * cy + cz * cz;
    let ll = len * len;
    let mm = mag * mag;
    let u = (qx + 1) * (qx + 1) + (qy + 1) * (qy + 1) + (qz + 1) * (qz + 1);
    let n = qx * qx + qy * qy + qz * qz;
    let t = qx + qy + qz;
    // The quotients rounded up, taken together, are longer than `mag - 1`.
    assert(u * ll > p * mm) by (nonlinear_arith)
        requires
            u == (qx + 1) * (qx + 1) + (qy + 1) * (qy + 1) + (qz + 1) * (qz + 1),
            p == cx * cx + cy * cy + cz * cz,
            (qx + 1) * (qx + 1) * ll > (cx * cx) * mm,
            (qy + 1) * (qy + 1) * ll > (cy * cy) * mm,
            (qz + 1) * (qz + 1) * ll > (cz * cz) * mm,
    ;
    assert(mag < len) by (nonlinear_arith)
        requires
            0x4000_0000_0000_0000_0000_0000_0000_0000 <= p <= len * len,
            0 < len,
            mag < 0x8000_0000_0000_0000,
    ;
    let lo = (mag - 1) * len;
    let hi = mag * (len - 1);
    assert(0 <= lo <= hi) by (nonlinear_arith)
        requires
            lo == (mag - 1) * len,
            hi == mag * (len - 1),
            1 <= mag < len,
    ;
    assert(lo * lo <= hi * hi) by (nonlinear_arith)
        requires
            0 <= lo <= hi,
    ;
    assert(hi * hi == mm * ((len - 1) * (len - 1))) by (nonlinear_arith)
        requires
            hi == mag * (len - 1),
            mm == mag * mag,
    ;
    assert(mm * ((len - 1) * (len - 1)) <= p * mm) by (nonlinear_arith)
        requires
            (len - 1) * (len - 1) < p,
            0 <= mm,
    ;
    assert(lo * lo == (mag - 1) * (mag - 1) * ll) by (nonlinear_arith)
        requires
            lo == (mag - 1) * len,
            ll == len * len,
    ;
    assert(u > (mag - 1) * (mag - 1)) by (nonlinear_arith)
        requires
            u * ll > p * mm,
            (mag - 1) * (mag - 1) * ll <= p * mm,
            0 < ll,
    ;
    // Rounding down shortens by less than two more.
    assert(u == n + 2 * t + 3) by (nonlinear_arith)
        requires
            u == (qx + 1) * (qx + 1) + (qy + 1) * (qy + 1) + (qz + 1) * (qz + 1),
            n == qx * qx + qy * qy + qz * qz,
            t == qx + qy + qz,
    ;
    assert(0 <= (qx - qy) * (qx - qy) && 0 <= (qy - qz) * (qy - qz) && 0 <= (qx - qz) * (qx - qz))
        by (nonlinear_arith);
    assert(t * t <= 3 * n) by (nonlinear_arith)
        requires
            n == qx * qx + qy * qy + qz * qz,
            t == qx + qy + qz,
            0 <= (qx - qy) * (qx - qy),
            0 <= (qy - qz) * (qy - qz),
            0 <= (qx - qz) * (qx - qz),
    ;
    let s = mag - 3;
    if n < s * s {
        assert(t < 2 * s) by (nonlinear_arith)
            requires
                t * t <= 3 * n,
                n < s * s,
                0 <= t,
                0 <= s,
        ;
        assert(n + 2 * t + 3 <= (s + 2) * (s + 2)) by (nonlinear_arith)
            requires
                n < s * s,
                t < 2 * s,
        ;
        assert(false);
    }
}

} // verus!

use vstd::prelude::*;
use vstd::arithmetic::div_mod::lemma_fundamental_div_mod_converse;

verus! {

/// Raw units in one whole unit: a `Scalar` counts millionths.
pub const SCALE: i64 = 1_000_000;

/// A fixed-point number: `raw` millionths.
#[derive(Clone, Copy, Debug, PartialEq, Eq, Structural)]
pub struct Scalar {
    pub raw: i64,
}

impl View for Scalar {
    type V = int;

    /// The number of millionths, as a mathematical integer.
    open spec fn view(&self) -> int {
        self.raw as int
    }
}

/// Whether `v` can be stored in a `Scalar`.
pub open spec fn fits(v: int) -> bool {
    i64::MIN <= v <= i64::MAX
}

/// The absolute value of `v`.
pub open spec fn abs(v: int) -> int {
    if v < 0 {
        -v
    } else {
        v
    }
}

/// `r` is the square root of `n`, rounded down.
pub open spec fn is_isqrt(n: int, r: int) -> bool {
    0 <= r && r * r <= n && n < (r + 1) * (r + 1)
}

/// The square root of `n`, rounded down (meaningful for `n >= 0`).
pub open spec fn isqrt(n: int) -> int {
    choose|r: int| is_isqrt(n, r)
}

/// A number has at most one rounded-down square root.
pub proof fn lemma_isqrt_unique(n: int, r: int)
    requires
        is_isqrt(n, r),
    ensures
        isqrt(n) == r,
{
    let s = isqrt(n);
    assert(is_isqrt(n, s));
    assert(s == r) by (nonlinear_arith)
        requires
            is_isqrt(n, s),
            is_isqrt(n, r),
    {
        if s < r {
            assert((s + 1) * (s + 1) <= r * r);
        } else if r < s {
            assert((r + 1) * (r + 1) <= s * s);
        }
    }
}

/// Every natural number has a rounded-down square root.
pub proof fn lemma_isqrt_exists(n: int)
    requires
        0 <= n,
    ensures
        is_isqrt(n, isqrt(n)),
    decreases n,
{
    if n == 0 {
        assert(is_isqrt(0, 0));
    } else {
        lemma_isqrt_exists(n - 1);
        let r = isqrt(n - 1);
        if n < (r + 1) * (r + 1) {
            assert(is_isqrt(n, r));
        } else {
            assert(is_isqrt(n, r + 1)) by (nonlinear_arith)
                requires
                    is_isqrt(n - 1, r),
                    n >= (r + 1) * (r + 1),
            {
            }
        }
    }
}

impl Scalar {
    /// The scalar of `raw` millionths.
    pub fn new(raw: i64) -> (r: Scalar)
        ensures
            r.raw == raw,
    {
        Scalar { raw }
    }

    /// Whether the scalar lies within `limit` of zero.
    pub fn is_within(&self, limit: i64) -> (ok: bool)
        requires
            0 <= limit,
        ensures
            ok == (abs(self@) <= limit),
    {
        -limit <= self.raw && self.raw <= limit
    }

    /// The scalar that stands for the whole number `units`.
    pub fn from_int(units: i32) -> (r: Scalar)
        ensures
            r@ == units * SCALE,
    {
        let wide: i64 = units as i64;
        Scalar { raw: wide * SCALE }
    }
}

/// The quotient of `a` by a positive `d`, rounded towards negative infinity.
pub fn div_floor(a: i128, d: i128) -> (q: i128)
    requires
        d > 0,
    ensures
        q == a / d,
{
    let t: i128 = a / d;
    let m: i128 = a % d;
    if m < 0 {
        proof {
            let b: int = -a;
            let dd: int = d as int;
            let whole: int = b / dd;
            let part: int = b % dd;
            vstd::arithmetic::div_mod::lemma_fundamental_div_mod(b, dd);
            assert(a == (-whole - 1) * dd + (dd - part)) by (nonlinear_arith)
                requires
                    b == dd * whole + part,
                    b == -a,
            {
            }
            lemma_fundamental_div_mod_converse(a as int, dd, -whole - 1, dd - part);
            assert(a / d >= a) by (nonlinear_arith)
                requires
                    a as int == (-whole - 1) * dd + (dd - part),
                    a / d == -whole - 1,
                    0 < dd - part < dd,
                    a < 0,
            {
            }
        }
        t - 1
    } else {
        proof {
            if a < 0 {
                let b: int = -a;
                let dd: int = d as int;
                vstd::arithmetic::div_mod::lemma_fundamental_div_mod(b, dd);
                assert(a == (-(b / dd)) * dd + 0) by (nonlinear_arith)
                    requires
                        b == dd * (b / dd) + b % dd,
                        b % dd == 0,
                        b == -a,
                {
                }
                lemma_fundamental_div_mod_converse(a as int, dd, -(b / dd), 0);
            }
        }
        t
    }
}

/// The square root of `n`, rounded down.
pub fn isqrt_u128(n: u128) -> (r: u128)
    ensures
        r == isqrt(n as int),
        is_isqrt(n as int, r as int),
        r < 0x1_0000_0000_0000_0000,
{
    let mut lo: u128 = 0;
    let mut hi: u128 = 0x1_0000_0000_0000_0000;
    assert(n < hi * hi) by (nonlinear_arith)
        requires
            hi == 0x1_0000_0000_0000_0000,
            n <= u128::MAX,
    {
    }
    while hi - lo > 1
        invariant
            lo < hi <= 0x1_0000_0000_0000_0000,
            lo * lo <= n,
            n < hi * hi,
        decreases hi - lo,
    {
        let mid: u128 = lo + (hi - lo) / 2;
        assert(mid * mid <= u128::MAX) by (nonlinear_arith)
            requires
                mid < 0x1_0000_0000_0000_0000,
        {
        }
        if mid * mid <= n {
            lo = mid;
        } else {
            hi = mid;
        }
    }
    proof {
        lemma_isqrt_unique(n as int, lo as int);
    }
    lo
}

/// `(px + py + pz) / SCALE`, rounded down, for three products of two
/// 64-bit factors each; their sum itself may not fit in 128 bits.
pub fn sum3_scaled(px: i128, py: i128, pz: i128) -> (r: i128)
    requires
        -0x4000_0000_0000_0000_0000_0000_0000_0000 <= px <= 0x4000_0000_0000_0000_0000_0000_0000_0000,
        -0x4000_0000_0000_0000_0000_0000_0000_0000 <= py <= 0x4000_0000_0000_0000_0000_0000_0000_0000,
        -0x4000_0000_0000_0000_0000_0000_0000_0000 <= pz <= 0x4000_0000_0000_0000_0000_0000_0000_0000,
    ensures
        r == (px + py + pz) / (SCALE as int),
{
    let s: i128 = SCALE as i128;
    let qx: i128 = div_floor(px, s);
    let qy: i128 = div_floor(py, s);
    let qz: i128 = div_floor(pz, s);
    proof {
        vstd::arithmetic::div_mod::lemma_fundamental_div_mod(px as int, s as int);
        vstd::arithmetic::div_mod::lemma_fundamental_div_mod(py as int, s as int);
        vstd::arithmetic::div_mod::lemma_fundamental_div_mod(pz as int, s as int);
    }
    let rx: i128 = px - qx * s;
    let ry: i128 = py - qy * s;
    let rz: i128 = pz - qz * s;
    let rest: i128 = rx + ry + rz;
    let carry: i128 = rest / s;
    proof {
        let total: int = px + py + pz;
        assert(total == (qx + qy + qz + carry) * s + rest % s);
        lemma_fundamental_div_mod_converse(total, s as int, qx + qy + qz + carry, (rest % s) as int);
    }
    qx + qy + qz + carry
}

/// The product of two 64-bit numbers has at most 126 bits.
pub proof fn lemma_product_bound(a: int, b: int)
    requires
        fits(a),
        fits(b),
    ensures
        -0x4000_0000_0000_0000_0000_0000_0000_0000 <= a * b <= 0x4000_0000_0000_0000_0000_0000_0000_0000,
{
    assert(-0x4000_0000_0000_0000_0000_0000_0000_0000 <= a * b <= 0x4000_0000_0000_0000_0000_0000_0000_0000)
        by (nonlinear_arith)
        requires
            -0x8000_0000_0000_0000 <= a <= 0x7fff_ffff_ffff_ffff,
            -0x8000_0000_0000_0000 <= b <= 0x7fff_ffff_ffff_ffff,
    {
    }
}

/// The product of `a` and `b`, rounded down to millionths.
pub fn scaled_product(a: Scalar, b: Scalar) -> (r: Scalar)
    requires
        fits((a@ * b@) / (SCALE as int)),
    ensures
        r@ == (a@ * b@) / (SCALE as int),
{
    proof {
        lemma_product_bound(a@, b@);
    }
    let q: i128 = div_floor((a.raw as i128) * (b.raw as i128), SCALE as i128);
    Scalar { raw: q as i64 }
}

/// A product lies as far from zero as its factors allow.
pub proof fn lemma_product_within(a: int, b: int, la: int, lb: int)
    requires
        abs(a) <= la,
        abs(b) <= lb,
    ensures
        abs(a * b) <= la * lb,
{
    assert(abs(a * b) <= la * lb) by (nonlinear_arith)
        requires
            abs(a) <= la,
            abs(b) <= lb,
    {
        assert(abs(a * b) == abs(a) * abs(b));
        assert(abs(a) * abs(b) <= la * abs(b));
        assert(la * abs(b) <= la * lb);
    }
}

/// Rounded-down division by a positive number brings no number farther
/// from zero.
pub proof fn lemma_quotient_within(t: int, d: int)
    requires
        1 <= d,
    ensures
        abs(t / d) <= abs(t),
{
    vstd::arithmetic::div_mod::lemma_fundamental_div_mod(t, d);
    let q = t / d;
    let r = t % d;
    assert(abs(q) <= abs(t)) by (nonlinear_arith)
        requires
            t == d * q + r,
            0 <= r < d,
            1 <= d,
    {
        if q > 0 {
            assert(d * q >= q);
        }
        if q < 0 {
            assert(d * q <= q);
            assert(d * (q + 1) <= q + 1);
        }
    }
}

/// Multiplying by `s` and dividing by a `d` that is no smaller brings no
/// number farther from zero.
pub proof fn lemma_ratio_within(n: int, s: int, d: int)
    requires
        0 < s <= d,
    ensures
        abs((n * s) / d) <= abs(n),
{
    let t = n * s;
    vstd::arithmetic::div_mod::lemma_fundamental_div_mod(t, d);
    let q = t / d;
    let r = t % d;
    assert(abs(q) <= abs(n)) by (nonlinear_arith)
        requires
            t == n * s,
            t == d * q + r,
            0 <= r < d,
            0 < s <= d,
    {
        if n >= 0 {
            assert(n * s <= n * d);
            if q > n {
                assert(d * q >= d * (n + 1));
            }
            if q < 0 {
                assert(d * q <= -d);
            }
        } else {
            assert(n * s >= n * d);
            if q < n {
                assert(d * q <= d * (n - 1));
            }
            if q >= 0 {
                assert(d * q >= 0);
                assert(n * s < 0);
            }
        }
    }
}

} // verus!

use vstd::prelude::*;
use crate::error::RenderError;
use crate::scalar::{Scalar, SCALE, fits, abs, isqrt, is_isqrt, isqrt_u128, div_floor, sum3_scaled,
    lemma_product_bound, lemma_product_within, lemma_isqrt_exists};

verus! {

/// Up to this magnitude of every component, `normalize` measures the
/// length in millionths of a raw unit; above it, in raw units.
pub const FINE_MAX: i64 = 10_000_000_000_000;

/// The largest component that `exact_dot` takes: two to the power 62.
pub const WIDE_MAX: i64 = 0x4000_0000_0000_0000;

/// A displacement in space.
#[derive(Clone, Copy, Debug, PartialEq, Eq, Structural)]
pub struct Vector3 {
    pub x: Scalar,
    pub y: Scalar,
    pub z: Scalar,
}

/// The magnitude of `v` as an unsigned number.
fn magnitude(v: i64) -> (r: u128)
    ensures
        r == abs(v as int),
        r <= 0x8000_0000_0000_0000,
{
    let w: i128 = v as i128;
    if w < 0 {
        (-w) as u128
    } else {
        w as u128
    }
}

impl Vector3 {
    /// The sum of the products of matching components, unrounded: in
    /// millionths of a millionth.
    pub open spec fn dot_exact(self, other: Vector3) -> int {
        self.x@ * other.x@ + self.y@ * other.y@ + self.z@ * other.z@
    }

    /// The scalar product, rounded down to millionths.
    pub open spec fn spec_dot(self, other: Vector3) -> int {
        self.dot_exact(other) / (SCALE as int)
    }

    /// The squared length, rounded down to millionths.
    pub open spec fn spec_norm(self) -> int {
        self.dot_exact(self) / (SCALE as int)
    }

    /// The length, rounded down to millionths.
    pub open spec fn spec_length(self) -> int {
        isqrt(self.dot_exact(self))
    }

    /// Whether all three components are zero.
    pub open spec fn is_zero(self) -> bool {
        self.x@ == 0 && self.y@ == 0 && self.z@ == 0
    }

    /// Whether every component lies within `limit` of zero.
    pub open spec fn within(self, limit: int) -> bool {
        abs(self.x@) <= limit && abs(self.y@) <= limit && abs(self.z@) <= limit
    }

    /// By how much `normalize` magnifies the vector before it takes the
    /// square root.
    pub open spec fn precision(self) -> int {
        if self.within(FINE_MAX as int) {
            SCALE as int
        } else {
            1
        }
    }

    /// The length that `normalize` divides by: the rounded-down square
    /// root of the squared raw length, magnified by `precision`.
    pub open spec fn measured_length(self) -> int {
        isqrt(self.dot_exact(self) * self.precision() * self.precision())
    }

    /// The vector scaled to length one: each component is multiplied by
    /// `SCALE * precision`, divided by `measured_length` and rounded down.
    pub open spec fn spec_normalize(self) -> Vector3 {
        let m = SCALE * self.precision();
        let len = self.measured_length();
        Vector3 {
            x: Scalar { raw: ((self.x@ * m) / len) as i64 },
            y: Scalar { raw: ((self.y@ * m) / len) as i64 },
            z: Scalar { raw: ((self.z@ * m) / len) as i64 },
        }
    }

    /// Whether the vector has an opposite: no component is the least
    /// 64-bit number.
    pub open spec fn negatable(self) -> bool {
        self.x@ > i64::MIN && self.y@ > i64::MIN && self.z@ > i64::MIN
    }

    /// The opposite vector.
    pub open spec fn spec_neg(self) -> Vector3 {
        Vector3 {
            x: Scalar { raw: (-self.x@) as i64 },
            y: Scalar { raw: (-self.y@) as i64 },
            z: Scalar { raw: (-self.z@) as i64 },
        }
    }

    /// Whether every component of the vector multiplied by `factor`
    /// can be stored.
    pub open spec fn scalable(self, factor: Scalar) -> bool {
        &&& fits((self.x@ * factor@) / (SCALE as int))
        &&& fits((self.y@ * factor@) / (SCALE as int))
        &&& fits((self.z@ * factor@) / (SCALE as int))
    }

    /// The vector multiplied by `factor`, each component rounded down.
    pub open spec fn spec_scale(self, factor: Scalar) -> Vector3 {
        Vector3 {
            x: Scalar { raw: ((self.x@ * factor@) / (SCALE as int)) as i64 },
            y: Scalar { raw: ((self.y@ * factor@) / (SCALE as int)) as i64 },
            z: Scalar { raw: ((self.z@ * factor@) / (SCALE as int)) as i64 },
        }
    }

    /// Whether every component lies within `limit` of zero.
    pub fn is_within(&self, limit: i64) -> (ok: bool)
        requires
            0 <= limit,
        ensures
            ok == self.within(limit as int),
    {
        self.x.is_within(limit) && self.y.is_within(limit) && self.z.is_within(limit)
    }

    pub fn new(x: Scalar, y: Scalar, z: Scalar) -> (v: Vector3)
        ensures
            v.x == x,
            v.y == y,
            v.z == z,
    {
        Vector3 { x, y, z }
    }

    /// The squared length.
    pub fn norm(&self) -> (r: Scalar)
        requires
            fits(self.spec_norm()),
        ensures
            r@ == self.spec_norm(),
    {
        self.dot(self)
    }

    /// The length.
    pub fn length(&self) -> (r: Scalar)
        requires
            fits(self.spec_length()),
        ensures
            r@ == self.spec_length(),
    {
        let n: u128 = self.square_sum();
        let root: u128 = isqrt_u128(n);
        Scalar { raw: root as i64 }
    }

    /// The sum of the squares of the raw components.
    fn square_sum(&self) -> (n: u128)
        ensures
            n == self.dot_exact(*self),
            n <= 3 * 0x4000_0000_0000_0000_0000_0000_0000_0000,
    {
        let ax: u128 = magnitude(self.x.raw);
        let ay: u128 = magnitude(self.y.raw);
        let az: u128 = magnitude(self.z.raw);
        proof {
            lemma_product_bound(self.x@, self.x@);
            lemma_product_bound(self.y@, self.y@);
            lemma_product_bound(self.z@, self.z@);
            assert(ax * ax == self.x@ * self.x@) by (nonlinear_arith)
                requires
                    ax == abs(self.x@),
            {
            }
            assert(ay * ay == self.y@ * self.y@) by (nonlinear_arith)
                requires
                    ay == abs(self.y@),
            {
            }
            assert(az * az == self.z@ * self.z@) by (nonlinear_arith)
                requires
                    az == abs(self.z@),
            {
            }
        }
        ax * ax + ay * ay + az * az
    }

    /// The vector scaled to length one, or the reason why it has no
    /// direction.
    pub fn normalize(&self) -> (r: Result<Vector3, RenderError>)
        ensures
            self.is_zero() ==> r == Err::<Vector3, RenderError>(RenderError::DegenerateVector),
            !self.is_zero() ==> r == Ok::<Vector3, RenderError>(self.spec_normalize()),
    {
        let ax: u128 = magnitude(self.x.raw);
        let ay: u128 = magnitude(self.y.raw);
        let az: u128 = magnitude(self.z.raw);
        if ax == 0 && ay == 0 && az == 0 {
            return Err(RenderError::DegenerateVector);
        }
        let n: u128 = self.square_sum();
        let fine: bool = ax <= FINE_MAX as u128 && ay <= FINE_MAX as u128 && az <= FINE_MAX as u128;
        let k: u128 = if fine {
            1_000_000
        } else {
            1
        };
        proof {
            assert(k == self.precision());
            lemma_square_sum_bounds(self.x@, self.y@, self.z@);
            if fine {
                lemma_fine_square_sum(self.x@, self.y@, self.z@);
            }
            assert(n * k * k <= u128::MAX && n * k <= u128::MAX && n * k * k >= 1) by (nonlinear_arith)
                requires
                    1 <= n,
                    fine ==> n <= 300_000_000_000_000_000_000_000_000 && k == 1_000_000,
                    !fine ==> k == 1,
            {
            }
        }
        let len: u128 = isqrt_u128(n * k * k);
        let m: i128 = (SCALE as i128) * (k as i128);
        let li: i128 = len as i128;
        proof {
            assert(len >= 1) by (nonlinear_arith)
                requires
                    n * k * k >= 1,
                    is_isqrt((n * k * k) as int, len as int),
            {
            }
            lemma_component_ratio(self.x@, self.dot_exact(*self), k as int, len as int);
            lemma_component_ratio(self.y@, self.dot_exact(*self), k as int, len as int);
            lemma_component_ratio(self.z@, self.dot_exact(*self), k as int, len as int);
            assert(m == SCALE * self.precision());
            assert(len == self.measured_length());
        }
        let x: i128 = div_floor((self.x.raw as i128) * m, li);
        let y: i128 = div_floor((self.y.raw as i128) * m, li);
        let z: i128 = div_floor((self.z.raw as i128) * m, li);
        Ok(Vector3 { x: Scalar { raw: x as i64 }, y: Scalar { raw: y as i64 }, z: Scalar { raw: z as i64 } })
    }

    /// The unrounded scalar product of two vectors whose components
    /// have at most 62 bits.
    pub fn exact_dot(&self, other: &Vector3) -> (r: i128)
        requires
            self.within(WIDE_MAX as int),
            other.within(WIDE_MAX as int),
        ensures
            r == self.dot_exact(*other),
    {
        proof {
            lemma_product_within(self.x@, other.x@, WIDE_MAX as int, WIDE_MAX as int);
            lemma_product_within(self.y@, other.y@, WIDE_MAX as int, WIDE_MAX as int);
            lemma_product_within(self.z@, other.z@, WIDE_MAX as int, WIDE_MAX as int);
            assert(WIDE_MAX * WIDE_MAX == 0x1000_0000_0000_0000_0000_0000_0000_0000) by (nonlinear_arith)
                requires
                    WIDE_MAX == 0x4000_0000_0000_0000,
            {
            }
        }
        let px: i128 = (self.x.raw as i128) * (other.x.raw as i128);
        let py: i128 = (self.y.raw as i128) * (other.y.raw as i128);
        let pz: i128 = (self.z.raw as i128) * (other.z.raw as i128);
        px + py + pz
    }

    /// The scalar product.
    pub fn dot(&self, other: &Vector3) -> (r: Scalar)
        requires
            fits(self.spec_dot(*other)),
        ensures
            r@ == self.spec_dot(*other),
    {
        proof {
            lemma_product_bound(self.x@, other.x@);
            lemma_product_bound(self.y@, other.y@);
            lemma_product_bound(self.z@, other.z@);
        }
        let px: i128 = (self.x.raw as i128) * (other.x.raw as i128);
        let py: i128 = (self.y.raw as i128) * (other.y.raw as i128);
        let pz: i128 = (self.z.raw as i128) * (other.z.raw as i128);
        let q: i128 = sum3_scaled(px, py, pz);
        Scalar { raw: q as i64 }
    }
}

impl core::ops::Neg for Vector3 {
    type Output = Vector3;

    /// The opposite vector.
    fn neg(self) -> (r: Vector3) {
        Vector3 {
            x: Scalar { raw: -self.x.raw },
            y: Scalar { raw: -self.y.raw },
            z: Scalar { raw: -self.z.raw },
        }
    }
}

impl vstd::std_specs::ops::NegSpecImpl for Vector3 {
    open spec fn obeys_neg_spec() -> bool {
        true
    }

    open spec fn neg_req(self) -> bool {
        self.negatable()
    }

    open spec fn neg_spec(self) -> Vector3 {
        self.spec_neg()
    }
}

impl core::ops::Mul<Scalar> for Vector3 {
    type Output = Vector3;

    /// The vector multiplied by `other`.
    fn mul(self, other: Scalar) -> (r: Vector3) {
        let f: i128 = other.raw as i128;
        let s: i128 = SCALE as i128;
        proof {
            lemma_product_bound(self.x@, other@);
            lemma_product_bound(self.y@, other@);
            lemma_product_bound(self.z@, other@);
        }
        let x: i128 = div_floor((self.x.raw as i128) * f, s);
        let y: i128 = div_floor((self.y.raw as i128) * f, s);
        let z: i128 = div_floor((self.z.raw as i128) * f, s);
        Vector3 { x: Scalar { raw: x as i64 }, y: Scalar { raw: y as i64 }, z: Scalar { raw: z as i64 } }
    }
}

impl vstd::std_specs::ops::MulSpecImpl<Scalar> for Vector3 {
    open spec fn obeys_mul_spec() -> bool {
        true
    }

    open spec fn mul_req(self, other: Scalar) -> bool {
        self.scalable(other)
    }

    open spec fn mul_spec(self, other: Scalar) -> Vector3 {
        self.spec_scale(other)
    }
}

/// A square is at most the sum of three squares that it is one of, and
/// such a sum is positive unless all three numbers are zero.
pub proof fn lemma_square_sum_bounds(x: int, y: int, z: int)
    ensures
        x * x <= x * x + y * y + z * z,
        y * y <= x * x + y * y + z * z,
        z * z <= x * x + y * y + z * z,
        (x != 0 || y != 0 || z != 0) ==> x * x + y * y + z * z >= 1,
{
    assert(x * x >= 0 && (x != 0 ==> x * x >= 1)) by (nonlinear_arith);
    assert(y * y >= 0 && (y != 0 ==> y * y >= 1)) by (nonlinear_arith);
    assert(z * z >= 0 && (z != 0 ==> z * z >= 1)) by (nonlinear_arith);
}

/// The squared raw length of a vector within `FINE_MAX`.
proof fn lemma_fine_square_sum(x: int, y: int, z: int)
    requires
        abs(x) <= FINE_MAX,
        abs(y) <= FINE_MAX,
        abs(z) <= FINE_MAX,
    ensures
        x * x + y * y + z * z <= 300_000_000_000_000_000_000_000_000,
{
    assert(x * x <= 100_000_000_000_000_000_000_000_000) by (nonlinear_arith)
        requires
            -10_000_000_000_000 <= x <= 10_000_000_000_000,
    {
    }
    assert(y * y <= 100_000_000_000_000_000_000_000_000) by (nonlinear_arith)
        requires
            -10_000_000_000_000 <= y <= 10_000_000_000_000,
    {
    }
    assert(z * z <= 100_000_000_000_000_000_000_000_000) by (nonlinear_arith)
        requires
            -10_000_000_000_000 <= z <= 10_000_000_000_000,
    {
    }
}

/// A component magnified by `k`, of a vector whose squared length is `n`,
/// is at most the rounded-down root of `n * k * k`; so the component
/// times `SCALE * k`, divided by that root, lies within `SCALE` of zero.
pub proof fn lemma_component_ratio(x: int, n: int, k: int, len: int)
    requires
        x * x <= n,
        1 <= k,
        1 <= len,
        is_isqrt(n * k * k, len),
    ensures
        abs(x) * k <= len,
        -(SCALE as int) <= (x * (SCALE * k)) / len <= SCALE,
{
    let a = abs(x) * k;
    assert(a <= len) by (nonlinear_arith)
        requires
            a == abs(x) * k,
            x * x <= n,
            1 <= k,
            0 <= len,
            n * k * k < (len + 1) * (len + 1),
    {
        assert(abs(x) * abs(x) == x * x);
        assert(a * a == (x * x) * k * k);
        assert((x * x) * k * k <= n * k * k);
        if a >= len + 1 {
            assert(a * a >= (len + 1) * (len + 1));
        }
    }
    let s = SCALE as int;
    let t = x * (SCALE * k);
    assert(-s * len <= t <= s * len) by (nonlinear_arith)
        requires
            t == x * (s * k),
            abs(x) * k <= len,
            s == 1_000_000,
            1 <= k,
    {
        assert(x * (s * k) == s * (x * k));
        assert(-(abs(x) * k) <= x * k <= abs(x) * k);
    }
    vstd::arithmetic::div_mod::lemma_fundamental_div_mod(t, len);
    let q = t / len;
    let r = t % len;
    assert(-s <= q <= s) by (nonlinear_arith)
        requires
            t == len * q + r,
            0 <= r < len,
            -s * len <= t <= s * len,
            1 <= len,
    {
    }
}

/// One component's share in the squared length after rounding: with
/// `a == q * len + r` and `a` within `s * len` of zero, the square of
/// `q * len` is at least that of `a` less `2 * s * len * len`, and at
/// most that of `a` plus `2 * s * len * len + len * len`.
proof fn lemma_rounded_square(a: int, q: int, r: int, len: int, s: int)
    requires
        a == q * len + r,
        0 <= r < len,
        0 <= s,
        abs(a) <= s * len,
    ensures
        a * a - 2 * (s * (len * len)) <= (q * q) * (len * len),
        (q * q) * (len * len) <= a * a + 2 * (s * (len * len)) + len * len,
{
    assert((q * q) * (len * len) == a * a - 2 * (a * r) + r * r) by (nonlinear_arith)
        requires
            a == q * len + r,
    {
    }
    assert(-(s * (len * len)) <= a * r <= s * (len * len)) by (nonlinear_arith)
        requires
            0 <= r < len,
            abs(a) <= s * len,
            0 <= s,
    {
        assert(abs(a) * r <= (s * len) * len);
        assert((s * len) * len == s * (len * len));
        assert(-(abs(a) * r) <= a * r <= abs(a) * r);
    }
    assert(0 <= r * r <= len * len) by (nonlinear_arith)
        requires
            0 <= r < len,
    {
    }
}

/// The square of a product is the product of the squares.
proof fn lemma_square_of_product(a: int, b: int)
    ensures
        (a * b) * (a * b) == (a * a) * (b * b),
{
    assert((a * b) * (a * b) == (a * a) * (b * b)) by (nonlinear_arith);
}

/// Normalising gives length one: the squared raw length of the result
/// lies between `SCALE * SCALE - 6 * SCALE` and `SCALE * SCALE + 8 * SCALE + 3`,
/// so its length is within four millionths of one, and every component
/// lies within `SCALE` of zero.
pub proof fn lemma_normalize_is_unit(v: Vector3)
    requires
        !v.is_zero(),
    ensures
        v.spec_normalize().within(SCALE as int),
        SCALE * SCALE - 6 * SCALE <= v.spec_normalize().dot_exact(v.spec_normalize()),
        v.spec_normalize().dot_exact(v.spec_normalize()) <= SCALE * SCALE + 8 * SCALE + 3,
        SCALE - 4 <= v.spec_normalize().spec_length() <= SCALE + 4,
{
    let s = SCALE as int;
    let k = v.precision();
    let n = v.dot_exact(v);
    let m = s * k;
    let len = v.measured_length();
    let (x, y, z) = (v.x@, v.y@, v.z@);
    lemma_square_sum_bounds(x, y, z);
    let nkk = n * k * k;
    assert(nkk >= 1 && nkk == n * (k * k)) by (nonlinear_arith)
        requires
            nkk == n * k * k,
            n >= 1,
            k >= 1,
    {
    }
    lemma_isqrt_exists(nkk);
    assert(len >= 1) by (nonlinear_arith)
        requires
            nkk >= 1,
            is_isqrt(nkk, len),
    {
    }
    lemma_component_ratio(x, n, k, len);
    lemma_component_ratio(y, n, k, len);
    lemma_component_ratio(z, n, k, len);
    assert(len >= s) by {
        if v.within(FINE_MAX as int) {
            assert(len >= s) by (nonlinear_arith)
                requires
                    n >= 1,
                    k == s,
                    s == 1_000_000,
                    nkk == n * (k * k),
                    is_isqrt(nkk, len),
            {
                assert(n * (k * k) >= s * s);
                if len < s {
                    assert((len + 1) * (len + 1) <= s * s);
                }
            }
        } else {
            assert(k == 1);
            assert(abs(x) * 1 == abs(x) && abs(y) * 1 == abs(y) && abs(z) * 1 == abs(z));
        }
    }
    let (ax, ay, az) = (x * m, y * m, z * m);
    let (qx, qy, qz) = (ax / len, ay / len, az / len);
    let (rx, ry, rz) = (ax % len, ay % len, az % len);
    vstd::arithmetic::div_mod::lemma_fundamental_div_mod(ax, len);
    vstd::arithmetic::div_mod::lemma_fundamental_div_mod(ay, len);
    vstd::arithmetic::div_mod::lemma_fundamental_div_mod(az, len);
    assert(abs(ax) <= s * len && abs(ay) <= s * len && abs(az) <= s * len) by (nonlinear_arith)
        requires
            ax == x * (s * k),
            ay == y * (s * k),
            az == z * (s * k),
            abs(x) * k <= len,
            abs(y) * k <= len,
            abs(z) * k <= len,
            s == 1_000_000,
            k >= 1,
    {
        assert(abs(x * (s * k)) == s * (abs(x) * k));
        assert(abs(y * (s * k)) == s * (abs(y) * k));
        assert(abs(z * (s * k)) == s * (abs(z) * k));
    }
    assert(ax == qx * len + rx && ay == qy * len + ry && az == qz * len + rz) by (nonlinear_arith)
        requires
            ax == len * qx + rx,
            ay == len * qy + ry,
            az == len * qz + rz,
    {
    }
    lemma_rounded_square(ax, qx, rx, len, s);
    lemma_rounded_square(ay, qy, ry, len, s);
    lemma_rounded_square(az, qz, rz, len, s);
    let ll = len * len;
    let sll = s * ll;
    let ss = s * s;
    let mm = m * m;
    let kk = k * k;
    let big = ax * ax + ay * ay + az * az;
    lemma_square_of_product(x, m);
    lemma_square_of_product(y, m);
    lemma_square_of_product(z, m);
    lemma_square_of_product(s, k);
    assert(big == n * mm) by (nonlinear_arith)
        requires
            big == (x * x) * mm + (y * y) * mm + (z * z) * mm,
            n == x * x + y * y + z * z,
    {
    }
    assert(n * (ss * kk) == ss * (n * kk)) by (nonlinear_arith);
    assert(big == ss * nkk);
    let qq = qx * qx + qy * qy + qz * qz;
    assert(qq * ll == (qx * qx) * ll + (qy * qy) * ll + (qz * qz) * ll) by (nonlinear_arith)
        requires
            qq == qx * qx + qy * qy + qz * qz,
    {
    }
    assert((len + 1) * (len + 1) == ll + 2 * len + 1) by (nonlinear_arith)
        requires
            ll == len * len,
    {
    }
    assert(ss * ll <= big <= ss * ll + 2 * sll) by (nonlinear_arith)
        requires
            big == ss * nkk,
            ll <= nkk <= ll + 2 * len,
            ll == len * len,
            sll == s * ll,
            ss == s * s,
            len >= s,
            s == 1_000_000,
    {
        assert(ss * ll <= ss * nkk);
        assert(ss * nkk <= ss * (ll + 2 * len));
        assert(ss * (ll + 2 * len) == ss * ll + 2 * (ss * len));
        assert(ss * len == s * (s * len));
        assert(s * len <= len * len);
        assert(s * (s * len) <= s * (len * len));
    }
    assert(ss * ll - 6 * sll <= qq * ll <= ss * ll + 8 * sll + 3 * ll);
    assert(s * s - 6 * s <= qq <= s * s + 8 * s + 3) by (nonlinear_arith)
        requires
            ss * ll - 6 * sll <= qq * ll,
            qq * ll <= ss * ll + 8 * sll + 3 * ll,
            sll == s * ll,
            ss == s * s,
            ll >= 1,
            s == 1_000_000,
    {
        assert((ss - 6 * s) * ll == ss * ll - 6 * (s * ll));
        assert((ss + 8 * s + 3) * ll == ss * ll + 8 * (s * ll) + 3 * ll);
        if qq < ss - 6 * s {
            assert(qq * ll <= (ss - 6 * s - 1) * ll);
        }
        if qq > ss + 8 * s + 3 {
            assert(qq * ll >= (ss + 8 * s + 4) * ll);
        }
    }
    let u = v.spec_normalize();
    assert(u.x@ == qx && u.y@ == qy && u.z@ == qz);
    assert(u.dot_exact(u) == qq);
    lemma_isqrt_exists(qq);
    let root = isqrt(qq);
    assert(s - 4 <= root <= s + 4) by (nonlinear_arith)
        requires
            is_isqrt(qq, root),
            s * s - 6 * s <= qq <= s * s + 8 * s + 3,
            s == 1_000_000,
    {
        if root < s - 4 {
            assert((root + 1) * (root + 1) <= (s - 3) * (s - 3));
        }
        if root > s + 4 {
            assert(root * root >= (s + 5) * (s + 5));
        }
    }
}

/// The unrounded scalar product of a vector within `la` and one within
/// `lb` lies within `3 * (la * lb)`.
pub proof fn lemma_dot_within(a: Vector3, b: Vector3, la: int, lb: int)
    requires
        a.within(la),
        b.within(lb),
    ensures
        abs(a.dot_exact(b)) <= 3 * (la * lb),
{
    lemma_product_within(a.x@, b.x@, la, lb);
    lemma_product_within(a.y@, b.y@, la, lb);
    lemma_product_within(a.z@, b.z@, la, lb);
}

/// The scalar product is the sum of the products of matching
/// components: `exact_dot` is that sum itself, and `dot` differs from it
/// by the rounding alone, less than one millionth.
pub proof fn lemma_dot_is_sum_of_products(a: Vector3, b: Vector3)
    ensures
        a.dot_exact(b) == a.x@ * b.x@ + a.y@ * b.y@ + a.z@ * b.z@,
        a.dot_exact(b) == b.dot_exact(a),
        a.spec_dot(b) * SCALE <= a.dot_exact(b) < a.spec_dot(b) * SCALE + SCALE,
        a.dot_exact(b) % (SCALE as int) == 0 ==> a.spec_dot(b) * SCALE == a.dot_exact(b),
{
    assert(a.x@ * b.x@ == b.x@ * a.x@ && a.y@ * b.y@ == b.y@ * a.y@ && a.z@ * b.z@ == b.z@ * a.z@)
        by (nonlinear_arith);
    vstd::arithmetic::div_mod::lemma_fundamental_div_mod(a.dot_exact(b), SCALE as int);
}

} // verus!

//! Fixed-point vectors.
//!
//! A component counts thousandths of a unit, so the vector `(1250, 0, -500)`
//! stands for the point `(1.25, 0, -0.5)`. Lengths are never computed as
//! such: squares of lengths are compared, and where a vector has to be
//! brought to a given length its components are rounded so that the result
//! errs on the safe side.

use vstd::prelude::*;
use vstd::arithmetic::div_mod::lemma_fundamental_div_mod;
use vstd::math::abs;

verus! {

/// Factor by which lengths are scaled up before the root of a short vector is
/// taken, so that the rounded root is fine enough to lengthen the vector by.
pub const ROOT_SCALE: u128 = 0x1_0000_0000;

/// Largest size of a coordinate that the game's rules accept for an anchor
/// to which offsets are added: a million units either way.
pub const WORLD_LIMIT: i32 = 1_000_000_000;

/// A vector with components of any size.
pub struct Vector3 {
    pub x: int,
    pub y: int,
    pub z: int,
}

/// A point or a direction in space, in thousandths of a unit.
#[derive(Clone, Copy, Debug, PartialEq, Eq, Structural)]
pub struct Vec3 {
    pub x: i32,
    pub y: i32,
    pub z: i32,
}

impl View for Vec3 {
    type V = Vector3;

    open spec fn view(&self) -> Vector3 {
        Vector3 { x: self.x as int, y: self.y as int, z: self.z as int }
    }
}

/// Whether `r` is the square root of `n`, rounded down.
pub open spec fn is_sqrt_floor(n: nat, r: nat) -> bool {
    r * r <= n < (r + 1) * (r + 1)
}

/// The square root of `n`, rounded down.
pub open spec fn sqrt_floor(n: nat) -> nat {
    choose|r: nat| is_sqrt_floor(n, r)
}

/// The square root of `n`, rounded up.
pub open spec fn sqrt_ceil(n: nat) -> nat {
    let r = sqrt_floor(n);
    if r * r == n {
        r
    } else {
        r + 1
    }
}

/// `mag` with the sign of `c`.
pub open spec fn with_sign_of(mag: nat, c: int) -> int {
    if c < 0 {
        -(mag as int)
    } else {
        mag as int
    }
}

/// `c * num / den`, rounded towards zero.
pub open spec fn shrink(c: int, num: nat, den: nat) -> int {
    with_sign_of((abs(c) * num / den) as nat, c)
}

/// `c * num / den`, rounded away from zero.
pub open spec fn stretch(c: int, num: nat, den: nat) -> int {
    with_sign_of(((abs(c) * num + den - 1) / (den as int)) as nat, c)
}

impl Vector3 {
    /// The vector from `other` to `self`.
    pub open spec fn sub(self, other: Vector3) -> Vector3 {
        Vector3 { x: self.x - other.x, y: self.y - other.y, z: self.z - other.z }
    }

    /// The sum of the two vectors.
    pub open spec fn add(self, other: Vector3) -> Vector3 {
        Vector3 { x: self.x + other.x, y: self.y + other.y, z: self.z + other.z }
    }

    /// The square of the length.
    pub open spec fn length_squared(self) -> nat {
        (self.x * self.x + self.y * self.y + self.z * self.z) as nat
    }

    /// The vector times `num / den`, each component rounded towards zero.
    pub open spec fn scale(self, num: nat, den: nat) -> Vector3 {
        Vector3 {
            x: shrink(self.x, num, den),
            y: shrink(self.y, num, den),
            z: shrink(self.z, num, den),
        }
    }

    /// The vector, shortened to the length `max` if it is longer. The
    /// components are rounded towards zero, so the result is never longer
    /// than `max`.
    pub open spec fn clamp_length_max(self, max: nat) -> Vector3 {
        let n = self.length_squared();
        if n <= max * max {
            self
        } else {
            let len = sqrt_ceil(n);
            Vector3 {
                x: shrink(self.x, max, len),
                y: shrink(self.y, max, len),
                z: shrink(self.z, max, len),
            }
        }
    }

    /// The vector, lengthened to the length `min` if it is shorter. The
    /// components are rounded away from zero, so the result is never shorter
    /// than `min`; the root is taken of the length scaled up by `ROOT_SCALE`,
    /// so the result is longer than `min` by no more than four thousandths.
    /// The zero vector has no direction and is replaced by the vector of
    /// length `min` that points up.
    pub open spec fn clamp_length_min(self, min: nat) -> Vector3 {
        let n = self.length_squared();
        if n >= min * min {
            self
        } else if n == 0 {
            Vector3 { x: 0, y: min as int, z: 0 }
        } else {
            let len = sqrt_floor(n * ROOT_SCALE as nat * ROOT_SCALE as nat);
            Vector3 {
                x: stretch(self.x, min * ROOT_SCALE as nat, len),
                y: stretch(self.y, min * ROOT_SCALE as nat, len),
                z: stretch(self.z, min * ROOT_SCALE as nat, len),
            }
        }
    }

    /// The vector with its length brought between `min` and `max`: it is
    /// lengthened to `min` if it is shorter, and what comes of that is
    /// shortened to `max` if it is longer. So the result is never longer than
    /// `max`, and it is at least as long as `min` wherever the two limits are
    /// eight thousandths or more apart, which leaves room for the rounding.
    pub open spec fn clamp_length(self, min: nat, max: nat) -> Vector3 {
        self.clamp_length_min(min).clamp_length_max(max)
    }
}

/// A number has at most one rounded-down square root.
proof fn lemma_sqrt_floor_unique(n: nat, r: nat, s: nat)
    requires
        is_sqrt_floor(n, r),
        is_sqrt_floor(n, s),
    ensures
        r == s,
{
    if r < s {
        assert((r + 1) * (r + 1) <= s * s) by (nonlinear_arith)
            requires
                0 <= r + 1 <= s,
        ;
    } else if s < r {
        assert((s + 1) * (s + 1) <= r * r) by (nonlinear_arith)
            requires
                0 <= s + 1 <= r,
        ;
    }
}

/// The number whose square is at most `n` while the square of the next number
/// is more than `n` is the rounded-down square root of `n`.
pub proof fn lemma_sqrt_floor_is(n: nat, r: nat)
    requires
        is_sqrt_floor(n, r),
    ensures
        sqrt_floor(n) == r,
{
    lemma_sqrt_floor_unique(n, r, sqrt_floor(n));
}

/// The square of the rounded-up root of `n` is at least `n`, and the root is
/// the least such number.
proof fn lemma_sqrt_ceil(n: nat, r: nat)
    requires
        is_sqrt_floor(n, r),
        n > 0,
    ensures
        sqrt_ceil(n) > 0,
        sqrt_ceil(n) * sqrt_ceil(n) >= n,
        (sqrt_ceil(n) - 1) * (sqrt_ceil(n) - 1) < n,
{
    lemma_sqrt_floor_is(n, r);
    if r * r != n {
        assert(r + 1 - 1 == r);
    } else {
        assert(r > 0) by (nonlinear_arith)
            requires
                r * r == n,
                n > 0,
        ;
        assert((r - 1) * (r - 1) < r * r) by (nonlinear_arith)
            requires
                r > 0,
        ;
    }
}

/// Squaring keeps the order of numbers that are not negative.
proof fn lemma_square_le(u: int, v: int)
    requires
        0 <= u <= v,
    ensures
        u * u <= v * v,
{
    assert(u * u <= v * v) by (nonlinear_arith)
        requires
            0 <= u <= v,
    ;
}

/// The square of a product is the product of the squares.
proof fn lemma_square_mul(u: int, v: int)
    ensures
        (u * v) * (u * v) == (u * u) * (v * v),
{
    assert((u * v) * (u * v) == (u * u) * (v * v)) by (nonlinear_arith);
}

/// Three magnitudes, each times `m / len` and rounded down, make a vector no
/// longer than `m` when `len` is at least the length of the three.
proof fn lemma_shrink_bound(a: nat, b: nat, c: nat, m: nat, len: nat)
    requires
        len > 0,
        a * a + b * b + c * c <= len * len,
    ensures
        (a * m / len) * (a * m / len) + (b * m / len) * (b * m / len) + (c * m / len) * (c * m
            / len) <= m * m,
{
    let a1 = (a * m / len) as int;
    let b1 = (b * m / len) as int;
    let c1 = (c * m / len) as int;
    let l = len as int;
    lemma_rounded_down_product(a, m, len);
    lemma_rounded_down_product(b, m, len);
    lemma_rounded_down_product(c, m, len);
    lemma_square_le(a1 * l, (a * m) as int);
    lemma_square_le(b1 * l, (b * m) as int);
    lemma_square_le(c1 * l, (c * m) as int);
    lemma_square_mul(a1, l);
    lemma_square_mul(b1, l);
    lemma_square_mul(c1, l);
    lemma_square_mul(a as int, m as int);
    lemma_square_mul(b as int, m as int);
    lemma_square_mul(c as int, m as int);
    let s1 = a1 * a1 + b1 * b1 + c1 * c1;
    let s = (a * a + b * b + c * c) as int;
    let ll = l * l;
    let mm = (m * m) as int;
    assert(ll > 0) by (nonlinear_arith)
        requires
            ll == l * l,
            l > 0,
    ;
    assert(s1 * ll == (a1 * a1) * ll + (b1 * b1) * ll + (c1 * c1) * ll) by (nonlinear_arith)
        requires
            s1 == a1 * a1 + b1 * b1 + c1 * c1,
    ;
    assert(s * mm == (a * a) * mm + (b * b) * mm + (c * c) * mm) by (nonlinear_arith)
        requires
            s == a * a + b * b + c * c,
    ;
    assert(s1 * ll <= s * mm);
    assert(s * mm <= ll * mm) by (nonlinear_arith)
        requires
            0 <= s <= ll,
            0 <= mm,
    ;
    assert(s1 <= mm) by (nonlinear_arith)
        requires
            s1 * ll <= ll * mm,
            ll > 0,
    ;
}

/// A quotient that is rounded down, times the divisor, is at most the
/// dividend.
proof fn lemma_rounded_down_product(a: nat, m: nat, len: nat)
    requires
        len > 0,
    ensures
        0 <= (a * m / len) * len <= a * m,
{
    let x = (a * m) as int;
    lemma_fundamental_div_mod(x, len as int);
    assert(0 <= x) by (nonlinear_arith)
        requires
            x == a * m,
    ;
    assert((x / (len as int)) * len == len * (x / (len as int))) by (nonlinear_arith);
    assert(0 <= x / (len as int)) by (nonlinear_arith)
        requires
            x == len * (x / (len as int)) + x % (len as int),
            0 <= x % (len as int) < len,
            0 <= x,
            len > 0,
    ;
    assert(0 <= (x / (len as int)) * len) by (nonlinear_arith)
        requires
            0 <= x / (len as int),
            len > 0,
    ;
}

/// A quotient that is rounded up, times the divisor, is at least the
/// dividend, and the quotient is at most `m` when the dividend is at most
/// `len * m`.
proof fn lemma_rounded_up_product(a: nat, m: nat, len: nat)
    requires
        len > 0,
    ensures
        ((a * m + len - 1) / (len as int)) * len >= a * m,
        (a * m + len - 1) / (len as int) >= 0,
        a <= len ==> (a * m + len - 1) / (len as int) <= m,
{
    let x = (a * m + len - 1) as int;
    let l = len as int;
    let q = x / l;
    assert(0 <= a * m) by (nonlinear_arith);
    lemma_fundamental_div_mod(x, l);
    assert(q * l == l * q) by (nonlinear_arith);
    assert(q >= 0) by (nonlinear_arith)
        requires
            x == l * q + x % l,
            0 <= x % l < l,
            0 <= x,
            l > 0,
    ;
    if a <= len {
        assert(a * m <= l * m) by (nonlinear_arith)
            requires
                0 <= a <= l,
                0 <= m,
        ;
        assert(q <= m) by (nonlinear_arith)
            requires
                x == l * q + x % l,
                0 <= x % l,
                x < l * m + l,
                l > 0,
        ;
    }
}

/// Three magnitudes, each times `m / len` and rounded up, make a vector at
/// least as long as `m` when `len` is the rounded-down length of the three,
/// and no component of it is more than `m`.
proof fn lemma_stretch_bound(a: nat, b: nat, c: nat, m: nat, len: nat)
    requires
        len > 0,
        is_sqrt_floor(a * a + b * b + c * c, len),
    ensures
        ({
            let a1 = (a * m + len - 1) / (len as int);
            let b1 = (b * m + len - 1) / (len as int);
            let c1 = (c * m + len - 1) / (len as int);
            &&& 0 <= a1 <= m
            &&& 0 <= b1 <= m
            &&& 0 <= c1 <= m
            &&& a1 * a1 + b1 * b1 + c1 * c1 >= m * m
        }),
{
    let l = len as int;
    let a1 = (a * m + len - 1) / l;
    let b1 = (b * m + len - 1) / l;
    let c1 = (c * m + len - 1) / l;
    let s = (a * a + b * b + c * c) as int;
    lemma_component_at_most_root(a, b * b + c * c, len);
    lemma_component_at_most_root(b, a * a + c * c, len);
    lemma_component_at_most_root(c, a * a + b * b, len);
    lemma_rounded_up_product(a, m, len);
    lemma_rounded_up_product(b, m, len);
    lemma_rounded_up_product(c, m, len);
    assert(0 <= a * m) by (nonlinear_arith);
    assert(0 <= b * m) by (nonlinear_arith);
    assert(0 <= c * m) by (nonlinear_arith);
    lemma_square_le((a * m) as int, a1 * l);
    lemma_square_le((b * m) as int, b1 * l);
    lemma_square_le((c * m) as int, c1 * l);
    lemma_square_mul(a1, l);
    lemma_square_mul(b1, l);
    lemma_square_mul(c1, l);
    lemma_square_mul(a as int, m as int);
    lemma_square_mul(b as int, m as int);
    lemma_square_mul(c as int, m as int);
    let s1 = a1 * a1 + b1 * b1 + c1 * c1;
    let ll = l * l;
    let mm = (m * m) as int;
    assert(ll > 0) by (nonlinear_arith)
        requires
            ll == l * l,
            l > 0,
    ;
    assert(s1 * ll == (a1 * a1) * ll + (b1 * b1) * ll + (c1 * c1) * ll) by (nonlinear_arith)
        requires
            s1 == a1 * a1 + b1 * b1 + c1 * c1,
    ;
    assert(s * mm == (a * a) * mm + (b * b) * mm + (c * c) * mm) by (nonlinear_arith)
        requires
            s == a * a + b * b + c * c,
    ;
    assert(s1 * ll >= s * mm);
    assert(s * mm >= ll * mm) by (nonlinear_arith)
        requires
            s >= ll,
            0 <= mm,
    ;
    assert(s1 >= mm) by (nonlinear_arith)
        requires
            s1 * ll >= ll * mm,
            ll > 0,
    ;
}

/// A magnitude is at most the rounded-down length of a vector that has it as
/// a component.
proof fn lemma_component_at_most_root(a: nat, rest: nat, len: nat)
    requires
        is_sqrt_floor(a * a + rest, len),
    ensures
        a <= len,
{
    if a > len {
        assert(a * a >= (len + 1) * (len + 1)) by (nonlinear_arith)
            requires
                a >= len + 1,
                len >= 0,
        ;
    }
}

/// Three magnitudes, each times `m / len` and rounded up, make a vector longer
/// than `m` by little: its square is at most `m * m + 8 * m + 3`, when `len`
/// is the rounded-down length of the three and at least `m`.
proof fn lemma_stretch_upper(a: nat, b: nat, c: nat, m: nat, len: nat)
    requires
        len > 0,
        m <= len,
        is_sqrt_floor(a * a + b * b + c * c, len),
    ensures
        ({
            let a1 = (a * m + len - 1) / (len as int);
            let b1 = (b * m + len - 1) / (len as int);
            let c1 = (c * m + len - 1) / (len as int);
            a1 * a1 + b1 * b1 + c1 * c1 <= m * m + 8 * m + 3
        }),
{
    let l = len as int;
    let mi = m as int;
    let a1 = (a * m + len - 1) / l;
    let b1 = (b * m + len - 1) / l;
    let c1 = (c * m + len - 1) / l;
    let n = (a * a + b * b + c * c) as int;
    lemma_component_at_most_root(a, b * b + c * c, len);
    lemma_component_at_most_root(b, a * a + c * c, len);
    lemma_component_at_most_root(c, a * a + b * b, len);
    lemma_rounded_up_square(a, m, len);
    lemma_rounded_up_square(b, m, len);
    lemma_rounded_up_square(c, m, len);
    let ll = l * l;
    let s1 = a1 * a1 + b1 * b1 + c1 * c1;
    // each square, times the square of the divisor, is bounded
    assert(s1 * ll == (a1 * a1) * ll + (b1 * b1) * ll + (c1 * c1) * ll) by (nonlinear_arith)
        requires
            s1 == a1 * a1 + b1 * b1 + c1 * c1,
    ;
    assert((a * a) * (mi * mi) + (b * b) * (mi * mi) + (c * c) * (mi * mi) == n * (mi * mi))
        by (nonlinear_arith)
        requires
            n == a * a + b * b + c * c,
    ;
    let t = mi * ll;
    assert(s1 * ll <= n * (mi * mi) + 6 * t + 3 * ll);
    // the squared length is less than the square of the next number
    assert(n <= ll + 2 * l) by (nonlinear_arith)
        requires
            n < (l + 1) * (l + 1),
            ll == l * l,
    ;
    assert(n * (mi * mi) <= (ll + 2 * l) * (mi * mi)) by (nonlinear_arith)
        requires
            n <= ll + 2 * l,
            0 <= mi,
    ;
    assert((ll + 2 * l) * (mi * mi) <= (mi * mi) * ll + 2 * t) by (nonlinear_arith)
        requires
            ll == l * l,
            t == mi * ll,
            0 <= mi <= l,
    ;
    assert(s1 * ll <= (mi * mi + 8 * mi + 3) * ll) by (nonlinear_arith)
        requires
            s1 * ll <= n * (mi * mi) + 6 * t + 3 * ll,
            n * (mi * mi) <= (mi * mi) * ll + 2 * t,
            t == mi * ll,
    ;
    assert(ll > 0) by (nonlinear_arith)
        requires
            ll == l * l,
            l > 0,
    ;
    assert(s1 <= mi * mi + 8 * mi + 3) by (nonlinear_arith)
        requires
            s1 * ll <= (mi * mi + 8 * mi + 3) * ll,
            ll > 0,
    ;
}

/// The square of a quotient that is rounded up, times the square of the
/// divisor, is at most the square of the dividend and a little more, when the
/// magnitude is at most the divisor.
proof fn lemma_rounded_up_square(a: nat, m: nat, len: nat)
    requires
        len > 0,
        a <= len,
    ensures
        ({
            let a1 = (a * m + len - 1) / (len as int);
            (a1 * a1) * (len * len) <= (a * a) * (m * m) + 2 * (m * (len * len)) + len * len
        }),
{
    let l = len as int;
    let mi = m as int;
    let x = (a * m) as int;
    let a1 = (x + l - 1) / l;
    assert(0 <= x) by (nonlinear_arith)
        requires
            x == a * m,
    ;
    lemma_fundamental_div_mod(x + l - 1, l);
    lemma_rounded_up_product(a, m, len);
    assert(a1 * l == l * a1) by (nonlinear_arith);
    assert(0 <= a1 * l <= x + l);
    lemma_square_le(a1 * l, x + l);
    lemma_square_mul(a1, l);
    assert((x + l) * (x + l) == x * x + 2 * x * l + l * l) by (nonlinear_arith);
    assert(x * x == (a * a) * (mi * mi)) by (nonlinear_arith)
        requires
            x == a * mi,
    ;
    assert(x <= l * mi) by (nonlinear_arith)
        requires
            x == a * mi,
            0 <= a <= l,
            0 <= mi,
    ;
    assert(2 * x * l <= 2 * (mi * (l * l))) by (nonlinear_arith)
        requires
            0 <= x <= l * mi,
            l > 0,
    ;
}

/// The square of a quotient that is rounded down, times the square of the
/// divisor, is at least the square of the dividend less a little, when the
/// magnitude is at most the divisor.
proof fn lemma_rounded_down_square(a: nat, m: nat, len: nat)
    requires
        len > 0,
        a <= len,
    ensures
        ({
            let a1 = (a * m) as int / (len as int);
            (a1 * a1) * (len * len) >= (a * a) * (m * m) - 2 * (m * (len * len))
        }),
{
    let l = len as int;
    let mi = m as int;
    let x = (a * m) as int;
    let a1 = x / l;
    assert(0 <= x) by (nonlinear_arith)
        requires
            x == a * m,
    ;
    lemma_fundamental_div_mod(x, l);
    lemma_rounded_down_product(a, m, len);
    assert(a1 * l == l * a1) by (nonlinear_arith);
    assert(a1 * l >= x - l + 1);
    lemma_square_mul(a1, l);
    assert(x * x == (a * a) * (mi * mi)) by (nonlinear_arith)
        requires
            x == a * mi,
    ;
    assert(x <= l * mi) by (nonlinear_arith)
        requires
            x == a * mi,
            0 <= a <= l,
            0 <= mi,
    ;
    assert(2 * x * l <= 2 * (mi * (l * l))) by (nonlinear_arith)
        requires
            0 <= x <= l * mi,
            l > 0,
    ;
    assert((x - l) * (x - l) == x * x - 2 * x * l + l * l) by (nonlinear_arith);
    if x >= l {
        lemma_square_le(x - l, a1 * l);
    } else {
        assert((x - l) * (x - l) <= l * l) by (nonlinear_arith)
            requires
                0 <= x < l,
        ;
        assert((a1 * l) * (a1 * l) >= 0) by (nonlinear_arith);
    }
}

/// Three magnitudes, each times `m / len` and rounded down, make a vector
/// shorter than `m` by little: its square is at least `m * m - 8 * m`, when
/// `len` is the rounded-up length of the three and more than `m`.
proof fn lemma_shrink_lower(a: nat, b: nat, c: nat, m: nat, len: nat)
    requires
        len > 0,
        m <= len,
        a * a + b * b + c * c <= len * len,
        (len - 1) * (len - 1) < a * a + b * b + c * c,
    ensures
        (a * m / len) * (a * m / len) + (b * m / len) * (b * m / len) + (c * m / len) * (c * m
            / len) >= m * m - 8 * m,
{
    let l = len as int;
    let mi = m as int;
    let a1 = (a * m) as int / l;
    let b1 = (b * m) as int / l;
    let c1 = (c * m) as int / l;
    let n = (a * a + b * b + c * c) as int;
    lemma_component_of_short_vector(a, b, c, len);
    lemma_rounded_down_square(a, m, len);
    lemma_rounded_down_square(b, m, len);
    lemma_rounded_down_square(c, m, len);
    let ll = l * l;
    let s1 = a1 * a1 + b1 * b1 + c1 * c1;
    assert(s1 * ll == (a1 * a1) * ll + (b1 * b1) * ll + (c1 * c1) * ll) by (nonlinear_arith)
        requires
            s1 == a1 * a1 + b1 * b1 + c1 * c1,
    ;
    assert((a * a) * (mi * mi) + (b * b) * (mi * mi) + (c * c) * (mi * mi) == n * (mi * mi))
        by (nonlinear_arith)
        requires
            n == a * a + b * b + c * c,
    ;
    let t = mi * ll;
    assert(s1 * ll >= n * (mi * mi) - 6 * t);
    assert(n >= ll - 2 * l + 2) by (nonlinear_arith)
        requires
            (l - 1) * (l - 1) < n,
            ll == l * l,
    ;
    assert(n * (mi * mi) >= (ll - 2 * l) * (mi * mi)) by (nonlinear_arith)
        requires
            n >= ll - 2 * l,
            0 <= mi,
    ;
    assert((ll - 2 * l) * (mi * mi) >= (mi * mi) * ll - 2 * t) by (nonlinear_arith)
        requires
            ll == l * l,
            t == mi * ll,
            0 <= mi <= l,
    ;
    assert(s1 * ll >= (mi * mi - 8 * mi) * ll) by (nonlinear_arith)
        requires
            s1 * ll >= n * (mi * mi) - 6 * t,
            n * (mi * mi) >= (mi * mi) * ll - 2 * t,
            t == mi * ll,
    ;
    assert(ll > 0) by (nonlinear_arith)
        requires
            ll == l * l,
            l > 0,
    ;
    assert(s1 >= mi * mi - 8 * mi) by (nonlinear_arith)
        requires
            s1 * ll >= (mi * mi - 8 * mi) * ll,
            ll > 0,
    ;
}

/// Shortening to `max` leaves a vector alone that is no longer than `max`,
/// and turns a longer one into a vector no longer than `max` and shorter by
/// little: its square is at least `max * max - 8 * max`.
pub proof fn lemma_clamp_length_max_bounds(v: Vector3, max: nat)
    ensures
        v.clamp_length_max(max).length_squared() <= max * max,
        v.length_squared() <= max * max ==> v.clamp_length_max(max) == v,
        v.length_squared() > max * max ==> v.clamp_length_max(max).length_squared() >= max * max
            - 8 * max,
        v.length_squared() > max * max ==> {
            &&& -max <= v.clamp_length_max(max).x <= max
            &&& -max <= v.clamp_length_max(max).y <= max
            &&& -max <= v.clamp_length_max(max).z <= max
        },
{
    let n = v.length_squared();
    let a = abs(v.x);
    let b = abs(v.y);
    let c = abs(v.z);
    lemma_abs_square(v.x);
    lemma_abs_square(v.y);
    lemma_abs_square(v.z);
    assert(n == a * a + b * b + c * c);
    lemma_sqrt_exists(n);
    let r = sqrt_floor(n);
    let w = v.clamp_length_max(max);
    if n > max * max {
        assert(0 <= max * max) by (nonlinear_arith);
        lemma_sqrt_ceil(n, r);
        let len = sqrt_ceil(n);
        if len <= max {
            lemma_square_le(len as int, max as int);
        }
        lemma_shrink_bound(a, b, c, max, len);
        lemma_shrink_lower(a, b, c, max, len);
        let a1 = a * max / len;
        let b1 = b * max / len;
        let c1 = c * max / len;
        lemma_rounded_down_product(a, max, len);
        lemma_rounded_down_product(b, max, len);
        lemma_rounded_down_product(c, max, len);
        assert(a1 >= 0 && b1 >= 0 && c1 >= 0) by (nonlinear_arith)
            requires
                0 <= a1 * len,
                0 <= b1 * len,
                0 <= c1 * len,
                len > 0,
        ;
        lemma_signed_square(a1 as nat, v.x);
        lemma_signed_square(b1 as nat, v.y);
        lemma_signed_square(c1 as nat, v.z);
        assert(w.length_squared() == a1 * a1 + b1 * b1 + c1 * c1);
        lemma_component_of_short_vector(a1 as nat, b1 as nat, c1 as nat, max);
    }
}

/// Lengthening to `min` leaves a vector alone that is at least as long as
/// `min`, and turns a shorter one into a vector at least as long as `min`
/// and longer by no more than four, with no component beyond `min`.
pub proof fn lemma_clamp_length_min_bounds(v: Vector3, min: nat)
    requires
        min < ROOT_SCALE,
    ensures
        v.clamp_length_min(min).length_squared() >= min * min,
        v.length_squared() >= min * min ==> v.clamp_length_min(min) == v,
        v.length_squared() < min * min ==> v.clamp_length_min(min).length_squared() <= (min + 4)
            * (min + 4),
        v.length_squared() < min * min ==> {
            &&& -min <= v.clamp_length_min(min).x <= min
            &&& -min <= v.clamp_length_min(min).y <= min
            &&& -min <= v.clamp_length_min(min).z <= min
        },
{
    let n = v.length_squared();
    let k = ROOT_SCALE as nat;
    let a = abs(v.x);
    let b = abs(v.y);
    let c = abs(v.z);
    lemma_abs_square(v.x);
    lemma_abs_square(v.y);
    lemma_abs_square(v.z);
    assert(n == a * a + b * b + c * c);
    assert((min + 4) * (min + 4) == min * min + 8 * min + 16) by (nonlinear_arith);
    assert(0 <= min * min) by (nonlinear_arith);
    if n < min * min {
        if n > 0 {
            let scaled = n * k * k;
            lemma_scaled_squares(a, b, c, k);
            lemma_sqrt_exists(scaled);
            let len = sqrt_floor(scaled);
            assert(len >= k) by {
                assert(scaled >= k * k) by (nonlinear_arith)
                    requires
                        scaled == n * k * k,
                        n >= 1,
                        k >= 0,
                ;
                if len < k {
                    lemma_square_le(len as int + 1, k as int);
                }
            }
            lemma_stretch_bound(a * k, b * k, c * k, min, len);
            lemma_stretch_upper(a * k, b * k, c * k, min, len);
            assert(a * (min * k) == (a * k) * min) by (nonlinear_arith);
            assert(b * (min * k) == (b * k) * min) by (nonlinear_arith);
            assert(c * (min * k) == (c * k) * min) by (nonlinear_arith);
            let a1 = ((a * k) * min + len - 1) / (len as int);
            let b1 = ((b * k) * min + len - 1) / (len as int);
            let c1 = ((c * k) * min + len - 1) / (len as int);
            lemma_signed_square(a1 as nat, v.x);
            lemma_signed_square(b1 as nat, v.y);
            lemma_signed_square(c1 as nat, v.z);
            assert(v.clamp_length_min(min).length_squared() == a1 * a1 + b1 * b1 + c1 * c1);
        } else {
            assert(v.clamp_length_min(min) == (Vector3 { x: 0, y: min as int, z: 0 }));
        }
    }
}

/// The squares of three magnitudes times `k` add up to the sum of their
/// squares times the square of `k`.
proof fn lemma_scaled_squares(a: nat, b: nat, c: nat, k: nat)
    ensures
        (a * k) * (a * k) + (b * k) * (b * k) + (c * k) * (c * k) == (a * a + b * b + c * c) * k
            * k,
{
    lemma_square_mul(a as int, k as int);
    lemma_square_mul(b as int, k as int);
    lemma_square_mul(c as int, k as int);
    assert((a * a) * (k * k) + (b * b) * (k * k) + (c * c) * (k * k) == (a * a + b * b + c * c)
        * k * k) by (nonlinear_arith);
}

/// Clamping yields a vector no longer than `max`, whatever the vector was,
/// and one at least as long as `min` where the limits are eight or more
/// apart.
pub proof fn lemma_clamp_length_bounds(v: Vector3, min: nat, max: nat)
    requires
        min <= max,
        min < ROOT_SCALE,
    ensures
        v.clamp_length(min, max).length_squared() <= max * max,
        min + 8 <= max ==> min * min <= v.clamp_length(min, max).length_squared(),
        min * min <= v.length_squared() <= max * max ==> v.clamp_length(min, max) == v,
        v.length_squared() < min * min && min + 8 <= max ==> v.clamp_length(
            min,
            max,
        ).length_squared() <= (min + 4) * (min + 4),
        v.length_squared() > max * max ==> v.clamp_length(min, max).length_squared() >= max * max
            - 8 * max,
{
    let u = v.clamp_length_min(min);
    lemma_clamp_length_min_bounds(v, min);
    lemma_clamp_length_max_bounds(u, max);
    lemma_square_le(min as int, max as int);
    if min + 8 <= max {
        lemma_square_le(min as int + 4, max as int);
        assert((max - 8) * (max - 8) <= max * max - 8 * max) by (nonlinear_arith)
            requires
                max >= 8,
        ;
        lemma_square_le(min as int, max as int - 8);
    }
}

/// The square of a number is the square of its magnitude.
proof fn lemma_abs_square(x: int)
    ensures
        x * x == abs(x) * abs(x),
        x * x >= 0,
{
    assert(x * x == (-x) * (-x)) by (nonlinear_arith);
    assert(x * x >= 0) by (nonlinear_arith);
}

/// Giving a magnitude a sign does not change its square.
proof fn lemma_signed_square(mag: nat, c: int)
    ensures
        with_sign_of(mag, c) * with_sign_of(mag, c) == mag * mag,
{
    assert((-(mag as int)) * (-(mag as int)) == mag * mag) by (nonlinear_arith);
}

/// Every number has a rounded-down square root.
pub proof fn lemma_sqrt_exists(n: nat)
    ensures
        is_sqrt_floor(n, sqrt_floor(n)),
    decreases n,
{
    if n == 0 {
        assert(0nat * 0nat <= 0 < (0nat + 1) * (0nat + 1)) by (nonlinear_arith);
        assert(is_sqrt_floor(0, 0));
    } else {
        lemma_sqrt_exists((n - 1) as nat);
        let r = sqrt_floor((n - 1) as nat);
        if (r + 1) * (r + 1) <= n {
            assert((r + 2) * (r + 2) > (r + 1) * (r + 1)) by (nonlinear_arith)
                requires
                    r >= 0,
            ;
            assert(is_sqrt_floor(n, r + 1));
        } else {
            assert(is_sqrt_floor(n, r));
        }
    }
}

/// The square root of `n`, rounded down.
pub fn isqrt(n: u128) -> (r: u64)
    ensures
        r == sqrt_floor(n as nat),
        is_sqrt_floor(n as nat, r as nat),
{
    let mut lo: u128 = 0;
    let mut hi: u128 = 0x1_0000_0000_0000_0000;
    assert(hi * hi > n) by (nonlinear_arith)
        requires
            hi == 0x1_0000_0000_0000_0000,
            n <= u128::MAX,
    ;
    while hi - lo > 1
        invariant
            lo < hi <= 0x1_0000_0000_0000_0000,
            lo * lo <= n,
            n < hi * hi,
        decreases hi - lo,
    {
        let mid: u128 = lo + (hi - lo) / 2;
        assert(mid * mid <= 0xFFFF_FFFF_FFFF_FFFF * 0xFFFF_FFFF_FFFF_FFFF) by (nonlinear_arith)
            requires
                0 <= mid <= 0xFFFF_FFFF_FFFF_FFFF,
        ;
        if mid * mid <= n {
            lo = mid;
        } else {
            hi = mid;
        }
    }
    proof {
        assert(hi == lo + 1);
        lemma_sqrt_floor_is(n as nat, lo as nat);
    }
    lo as u64
}

impl Vec3 {
    /// The vector with the given components.
    pub fn new(x: i32, y: i32, z: i32) -> (v: Vec3)
        ensures
            v == (Vec3 { x, y, z }),
    {
        Vec3 { x, y, z }
    }

    /// The origin.
    pub open spec fn zero() -> Vec3 {
        Vec3 { x: 0, y: 0, z: 0 }
    }

    /// Whether each coordinate is within `WORLD_LIMIT` of the origin.
    pub open spec fn in_world(self) -> bool {
        &&& -WORLD_LIMIT <= self.x <= WORLD_LIMIT
        &&& -WORLD_LIMIT <= self.y <= WORLD_LIMIT
        &&& -WORLD_LIMIT <= self.z <= WORLD_LIMIT
    }

    /// Whether each coordinate is within `WORLD_LIMIT` of the origin.
    pub fn is_in_world(&self) -> (b: bool)
        ensures
            b == self.in_world(),
    {
        -WORLD_LIMIT <= self.x && self.x <= WORLD_LIMIT && -WORLD_LIMIT <= self.y && self.y
            <= WORLD_LIMIT && -WORLD_LIMIT <= self.z && self.z <= WORLD_LIMIT
    }

    /// The square of the distance to `other`.
    pub fn distance_squared(&self, other: &Vec3) -> (d: u128)
        ensures
            d == self@.sub(other@).length_squared(),
    {
        let dx: i64 = self.x as i64 - other.x as i64;
        let dy: i64 = self.y as i64 - other.y as i64;
        let dz: i64 = self.z as i64 - other.z as i64;
        length_squared_of(dx, dy, dz)
    }
}

/// The magnitude of `c`.
pub fn magnitude(c: i64) -> (m: u128)
    requires
        c > i64::MIN,
    ensures
        m == abs(c as int),
{
    if c < 0 {
        (-c) as u128
    } else {
        c as u128
    }
}

/// The square of the length of the vector `(x, y, z)`.
fn length_squared_of(x: i64, y: i64, z: i64) -> (n: u128)
    requires
        -0x1_0000_0000_0000 <= x <= 0x1_0000_0000_0000,
        -0x1_0000_0000_0000 <= y <= 0x1_0000_0000_0000,
        -0x1_0000_0000_0000 <= z <= 0x1_0000_0000_0000,
    ensures
        n == (Vector3 { x: x as int, y: y as int, z: z as int }).length_squared(),
        n <= 3 * 0x1_0000_0000_0000 * 0x1_0000_0000_0000,
{
    let a = magnitude(x);
    let b = magnitude(y);
    let c = magnitude(z);
    proof {
        lemma_abs_square(x as int);
        lemma_abs_square(y as int);
        lemma_abs_square(z as int);
        lemma_square_le(a as int, 0x1_0000_0000_0000);
        lemma_square_le(b as int, 0x1_0000_0000_0000);
        lemma_square_le(c as int, 0x1_0000_0000_0000);
    }
    a * a + b * b + c * c
}

/// `c * num / den`, rounded towards zero.
pub fn shrink_component(c: i64, num: u32, den: u32) -> (r: i64)
    requires
        den > 0,
        num <= 0xFFFF,
        -0x1_0000_0000 <= c <= 0x1_0000_0000,
    ensures
        r == shrink(c as int, num as nat, den as nat),
        -0x1_0000_0000_0000 <= r <= 0x1_0000_0000_0000,
{
    let a = magnitude(c);
    proof {
        assert(0 <= a * num <= 0x1_0000_0000 * 0xFFFF) by (nonlinear_arith)
            requires
                0 <= a <= 0x1_0000_0000,
                0 <= num <= 0xFFFF,
        ;
        lemma_rounded_down_product(a as nat, num as nat, den as nat);
        let q = (a * num) as int / (den as int);
        assert(q <= a * num) by (nonlinear_arith)
            requires
                0 <= q * den <= a * num,
                den >= 1,
        ;
    }
    let q: u128 = a * (num as u128) / (den as u128);
    if c < 0 {
        -(q as i64)
    } else {
        q as i64
    }
}

/// `mag` with the sign of `c`.
pub fn signed(mag: u128, c: i64) -> (s: i32)
    requires
        mag <= i32::MAX,
    ensures
        s == with_sign_of(mag as nat, c as int),
{
    if c < 0 {
        -(mag as i32)
    } else {
        mag as i32
    }
}

/// The vector `(x, y, z)`, lengthened to `min` if it is shorter.
fn lengthen(x: i64, y: i64, z: i64, min: i32) -> (v: (i64, i64, i64))
    requires
        0 <= min,
        -0x1_0000_0000_0000 <= x <= 0x1_0000_0000_0000,
        -0x1_0000_0000_0000 <= y <= 0x1_0000_0000_0000,
        -0x1_0000_0000_0000 <= z <= 0x1_0000_0000_0000,
    ensures
        (Vector3 { x: v.0 as int, y: v.1 as int, z: v.2 as int }) == (Vector3 {
            x: x as int,
            y: y as int,
            z: z as int,
        }).clamp_length_min(min as nat),
        -0x1_0000_0000_0000 <= v.0 <= 0x1_0000_0000_0000,
        -0x1_0000_0000_0000 <= v.1 <= 0x1_0000_0000_0000,
        -0x1_0000_0000_0000 <= v.2 <= 0x1_0000_0000_0000,
{
    let ghost exact = Vector3 { x: x as int, y: y as int, z: z as int };
    let n = length_squared_of(x, y, z);
    let a = magnitude(x);
    let b = magnitude(y);
    let c = magnitude(z);
    let lo: u128 = min as u128;
    proof {
        lemma_clamp_length_min_bounds(exact, min as nat);
        lemma_square_le(lo as int, 0x8000_0000);
        assert(lo * lo == (min as nat) * (min as nat));
        lemma_abs_square(x as int);
        lemma_abs_square(y as int);
        lemma_abs_square(z as int);
    }
    if n >= lo * lo {
        (x, y, z)
    } else if n == 0 {
        proof {
            lemma_zero_length(x as int, y as int, z as int);
        }
        (0, min as i64, 0)
    } else {
        proof {
            lemma_component_of_short_vector(a as nat, b as nat, c as nat, lo as nat);
            assert(n * ROOT_SCALE * ROOT_SCALE <= 0x4000_0000_0000_0000 * 0x1_0000_0000
                * 0x1_0000_0000) by (nonlinear_arith)
                requires
                    0 <= n <= 0x4000_0000_0000_0000,
                    ROOT_SCALE == 0x1_0000_0000,
            ;
            assert(n * ROOT_SCALE >= 0) by (nonlinear_arith);
        }
        let scaled: u128 = n * ROOT_SCALE * ROOT_SCALE;
        let root = isqrt(scaled);
        let len: u128 = root as u128;
        let factor: u128 = lo * ROOT_SCALE;
        proof {
            assert(len > 0) by {
                if len == 0 {
                    assert((len + 1) * (len + 1) == 1) by (nonlinear_arith)
                        requires
                            len == 0,
                    ;
                    assert(scaled >= 1) by (nonlinear_arith)
                        requires
                            scaled == n * ROOT_SCALE * ROOT_SCALE,
                            n >= 1,
                            ROOT_SCALE == 0x1_0000_0000,
                    ;
                }
            }
            assert(factor <= 0x8000_0000 * 0x1_0000_0000) by (nonlinear_arith)
                requires
                    factor == lo * ROOT_SCALE,
                    0 <= lo <= 0x8000_0000,
                    ROOT_SCALE == 0x1_0000_0000,
            ;
            lemma_long_product(a as nat, factor as nat);
            lemma_long_product(b as nat, factor as nat);
            lemma_long_product(c as nat, factor as nat);
        }
        let a1: u128 = (a * factor + len - 1) / len;
        let b1: u128 = (b * factor + len - 1) / len;
        let c1: u128 = (c * factor + len - 1) / len;
        (signed(a1, x) as i64, signed(b1, y) as i64, signed(c1, z) as i64)
    }
}

/// The vector `(x, y, z)`, shortened to `max` if it is longer.
fn shorten(x: i64, y: i64, z: i64, max: i32) -> (v: Vec3)
    requires
        0 <= max,
        -0x1_0000_0000_0000 <= x <= 0x1_0000_0000_0000,
        -0x1_0000_0000_0000 <= y <= 0x1_0000_0000_0000,
        -0x1_0000_0000_0000 <= z <= 0x1_0000_0000_0000,
    ensures
        v@ == (Vector3 { x: x as int, y: y as int, z: z as int }).clamp_length_max(max as nat),
{
    let ghost exact = Vector3 { x: x as int, y: y as int, z: z as int };
    let n = length_squared_of(x, y, z);
    let a = magnitude(x);
    let b = magnitude(y);
    let c = magnitude(z);
    let hi: u128 = max as u128;
    proof {
        lemma_clamp_length_max_bounds(exact, max as nat);
        lemma_sqrt_exists(n as nat);
        lemma_square_le(hi as int, i32::MAX as int);
        assert(hi * hi == (max as nat) * (max as nat));
        lemma_abs_square(x as int);
        lemma_abs_square(y as int);
        lemma_abs_square(z as int);
    }
    if n > hi * hi {
        let root = isqrt(n);
        let len: u128 = if (root as u128) * (root as u128) == n {
            root as u128
        } else {
            root as u128 + 1
        };
        proof {
            lemma_sqrt_ceil(n as nat, root as nat);
            assert(len == sqrt_ceil(n as nat));
            lemma_wide_product(a as nat, hi as nat);
            lemma_wide_product(b as nat, hi as nat);
            lemma_wide_product(c as nat, hi as nat);
        }
        let a1: u128 = a * hi / len;
        let b1: u128 = b * hi / len;
        let c1: u128 = c * hi / len;
        Vec3 { x: signed(a1, x), y: signed(b1, y), z: signed(c1, z) }
    } else {
        proof {
            lemma_component_of_short_vector(a as nat, b as nat, c as nat, hi as nat);
        }
        Vec3 { x: x as i32, y: y as i32, z: z as i32 }
    }
}

/// The vector `(x, y, z)` with its length brought between `min` and `max`:
/// lengthened with its components rounded away from zero, or shortened with
/// them rounded towards zero. The zero vector becomes the vector of length
/// `min` that points up. The result is never longer than `max`; it is at
/// least as long as `min` where the limits are eight thousandths or more
/// apart, which is the room that the rounding needs.
pub fn clamp_length(x: i64, y: i64, z: i64, min: i32, max: i32) -> (v: Vec3)
    requires
        0 <= min <= max,
        -0x1_0000_0000_0000 <= x <= 0x1_0000_0000_0000,
        -0x1_0000_0000_0000 <= y <= 0x1_0000_0000_0000,
        -0x1_0000_0000_0000 <= z <= 0x1_0000_0000_0000,
    ensures
        v@ == (Vector3 { x: x as int, y: y as int, z: z as int }).clamp_length(
            min as nat,
            max as nat,
        ),
        v@.length_squared() <= max * max,
        min + 8 <= max ==> min * min <= v@.length_squared(),
        x * x + y * y + z * z < min * min && min + 8 <= max ==> v@.length_squared() <= (min + 4)
            * (min + 4),
        x * x + y * y + z * z > max * max ==> v@.length_squared() >= max * max - 8 * max,
{
    proof {
        lemma_abs_square(x as int);
        lemma_abs_square(y as int);
        lemma_abs_square(z as int);
        lemma_clamp_length_bounds(
            Vector3 { x: x as int, y: y as int, z: z as int },
            min as nat,
            max as nat,
        );
    }
    let longer = lengthen(x, y, z, min);
    shorten(longer.0, longer.1, longer.2, max)
}

/// The product of a magnitude below the square root of the machine's range
/// and a scaled 32-bit limit fits the machine with room to spare.
proof fn lemma_long_product(a: nat, m: nat)
    requires
        a <= 0x8000_0000,
        m <= 0x8000_0000 * 0x1_0000_0000,
    ensures
        a * m <= 0x8000_0000 * (0x8000_0000 * 0x1_0000_0000),
{
    assert(a * m <= 0x8000_0000 * (0x8000_0000 * 0x1_0000_0000)) by (nonlinear_arith)
        requires
            0 <= a <= 0x8000_0000,
            0 <= m <= 0x8000_0000 * 0x1_0000_0000,
    ;
}

/// The product of a magnitude within the accepted range and a 32-bit limit
/// fits the machine with room to spare.
proof fn lemma_wide_product(a: nat, m: nat)
    requires
        a <= 0x1_0000_0000_0000,
        m <= 0x8000_0000,
    ensures
        a * m <= 0x1_0000_0000_0000 * 0x8000_0000,
{
    assert(a * m <= 0x1_0000_0000_0000 * 0x8000_0000) by (nonlinear_arith)
        requires
            0 <= a <= 0x1_0000_0000_0000,
            0 <= m <= 0x8000_0000,
    ;
}

/// No component of a vector is longer than the vector.
proof fn lemma_component_of_short_vector(a: nat, b: nat, c: nat, m: nat)
    requires
        a * a + b * b + c * c <= m * m,
    ensures
        a <= m,
        b <= m,
        c <= m,
{
    assert(a * a >= 0 && b * b >= 0 && c * c >= 0) by (nonlinear_arith);
    if a > m {
        assert(a * a > m * m) by (nonlinear_arith)
            requires
                a > m,
                m >= 0,
        ;
    }
    if b > m {
        assert(b * b > m * m) by (nonlinear_arith)
            requires
                b > m,
                m >= 0,
        ;
    }
    if c > m {
        assert(c * c > m * m) by (nonlinear_arith)
            requires
                c > m,
                m >= 0,
        ;
    }
}

/// Only the zero vector has length zero.
proof fn lemma_zero_length(x: int, y: int, z: int)
    requires
        x * x + y * y + z * z == 0,
    ensures
        x == 0,
        y == 0,
        z == 0,
{
    assert(x * x >= 0 && y * y >= 0 && z * z >= 0) by (nonlinear_arith);
    assert(x == 0) by (nonlinear_arith)
        requires
            x * x == 0,
    ;
    assert(y == 0) by (nonlinear_arith)
        requires
            y * y == 0,
    ;
    assert(z == 0) by (nonlinear_arith)
        requires
            z * z == 0,
    ;
}

} // verus!

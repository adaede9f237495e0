//! Dyadic rationals: a numerator over a power of two.
use vstd::prelude::*;
use vstd::arithmetic::power2::{
    is_pow2, lemma2_to64, lemma2_to64_rest, lemma_pow2_adds, lemma_pow2_pos,
    lemma_pow2_strictly_increases, lemma_pow2_unfold, pow2,
};
use vstd::bits::lemma_u64_shl_is_mul;
use vstd::std_specs::ops::SubSpec;

verus! {

/// The rational number `self.0 / 2^self.1`.
///
/// Equality compares the pair, not the rational number: `Dyadic(2, 1)` and
/// `Dyadic(1, 0)` differ. Results of arithmetic are canonical (see
/// [`Dyadic::simplify`]); a pair written by hand is taken as it is.
#[derive(Debug, Clone, Copy, PartialEq, Eq)]
pub struct Dyadic(pub i64, pub u32);

/// Whether halving the numerator and decrementing the exponent is a step of
/// canonicalization: the exponent is positive and the numerator a power of two
/// greater than one. Negative numerators and other even numerators are never
/// reduced.
pub open spec fn reducible(x: int, k: nat) -> bool {
    x > 1 && k > 0 && is_pow2(x)
}

/// The canonical form of the raw pair `(x, k)`: the numerator is halved and the
/// exponent decremented for as long as the pair is [`reducible`].
pub open spec fn canonical(x: i64, k: u32) -> Dyadic
    decreases k,
{
    if reducible(x as int, k as nat) {
        canonical((x / 2) as i64, (k - 1) as u32)
    } else {
        Dyadic(x, k)
    }
}

/// Whether `v` is a value of `i64`.
pub open spec fn fits_i64(v: int) -> bool {
    i64::MIN <= v <= i64::MAX
}

/// The larger of the two exponents: the exponent at which a sum is formed.
pub open spec fn common_exponent(x: Dyadic, y: Dyadic) -> u32 {
    if x.1 < y.1 {
        y.1
    } else {
        x.1
    }
}

/// The numerator of `d` written over `2^e`, for `e >= d.1`: `d.0 * 2^(e - d.1)`.
pub open spec fn scaled(d: Dyadic, e: nat) -> int {
    d.0 * pow2((e - d.1) as nat)
}

/// Whether two pairs denote the same rational number.
pub open spec fn same_value(x: Dyadic, y: Dyadic) -> bool {
    x.0 * pow2(y.1 as nat) == y.0 * pow2(x.1 as nat)
}

/// Whether `x + y` can be formed in `i64`: the scale factor `2^d`, for the
/// difference `d` of the exponents, the rescaled numerator and the sum of the
/// numerators all fit.
pub open spec fn sum_fits(x: Dyadic, y: Dyadic) -> bool {
    let e = common_exponent(x, y) as nat;
    &&& e - x.1 < 63
    &&& e - y.1 < 63
    &&& fits_i64(scaled(x, e))
    &&& fits_i64(scaled(y, e))
    &&& fits_i64(scaled(x, e) + scaled(y, e))
}

/// `x + y`: both numerators over the larger denominator, added, then
/// canonicalized.
pub open spec fn sum(x: Dyadic, y: Dyadic) -> Dyadic {
    let e = common_exponent(x, y);
    canonical((scaled(x, e as nat) + scaled(y, e as nat)) as i64, e)
}

/// `-x`: the numerator negated, the exponent kept, no canonicalization.
pub open spec fn negation(x: Dyadic) -> Dyadic {
    Dyadic((-x.0) as i64, x.1)
}

/// Whether `x * y` can be formed: the product of the numerators fits in `i64`
/// and the sum of the exponents in `u32`.
pub open spec fn product_fits(x: Dyadic, y: Dyadic) -> bool {
    fits_i64(x.0 * y.0) && x.1 + y.1 <= u32::MAX
}

/// `x * y`: numerators multiplied, exponents added, then canonicalized.
pub open spec fn product(x: Dyadic, y: Dyadic) -> Dyadic {
    canonical((x.0 * y.0) as i64, (x.1 + y.1) as u32)
}

/// `x * n` for an integer `n`: the numerator multiplied, then canonicalized.
pub open spec fn scalar_product(x: Dyadic, n: i64) -> Dyadic {
    canonical((x.0 * n) as i64, x.1)
}

/// For a positive `x`, the bit test `x & (x - 1) == 0` holds exactly when `x`
/// is a power of two.
proof fn lemma_bit_test_is_pow2(x: i64)
    requires
        x > 0,
    ensures
        (x & ((x - 1) as i64) == 0) == is_pow2(x as int),
    decreases x,
{
    reveal(is_pow2);
    if x == 1 {
        assert(1i64 & 0i64 == 0) by (bit_vector);
    } else if x % 2 == 0 {
        let h: i64 = (x / 2) as i64;
        assert((x & ((x - 1) as i64) == 0) == (h & ((h - 1) as i64) == 0)) by (bit_vector)
            requires
                x == 2 * h,
                h > 0,
        ;
        lemma_bit_test_is_pow2(h);
    } else {
        assert(x & 1 == x % 2) by (bit_vector)
            requires
                x > 0,
        ;
        assert(x & ((x - 1) as i64) != 0) by (bit_vector)
            requires
                x > 1,
                x & 1 == 1,
        ;
    }
}

impl Dyadic {
    /// Whether no step of canonicalization applies to the pair.
    pub open spec fn is_canonical(self) -> bool {
        !reducible(self.0 as int, self.1 as nat)
    }

    /// Canonicalizes the raw pair `(numerator, exponent)`: while the exponent
    /// is positive and the numerator is a power of two greater than one, the
    /// numerator is halved and the exponent decremented. Negative numerators
    /// and even numerators that are not powers of two are kept as they are,
    /// and so is a numerator of one, which is odd: the rational value is
    /// always kept exactly.
    pub fn simplify(numerator: i64, exponent: u32) -> (r: Dyadic)
        ensures
            r == canonical(numerator, exponent),
            r.is_canonical(),
            r.1 <= exponent,
            same_value(r, Dyadic(numerator, exponent)),
    {
        proof {
            lemma_canonical_scaled(numerator, exponent, exponent as nat);
            lemma_same_value_iff_scaled(
                canonical(numerator, exponent),
                Dyadic(numerator, exponent),
                exponent as nat,
            );
        }
        let mut x: i64 = numerator;
        let mut k: u32 = exponent;
        while x > 1 && k > 0 && (x & (x - 1)) == 0
            invariant
                canonical(x, k) == canonical(numerator, exponent),
            decreases k,
        {
            proof {
                lemma_bit_test_is_pow2(x);
            }
            x = x / 2;
            k = k - 1;
        }
        proof {
            if x > 1 && k > 0 {
                lemma_bit_test_is_pow2(x);
            }
        }
        Dyadic(x, k)
    }
}

/// Canonicalization keeps the rational value: over any `2^e` with `e >= k`,
/// the canonical pair has the numerator `x * 2^(e - k)`. Its exponent is at
/// most `k` and no further step applies to it.
proof fn lemma_canonical_scaled(x: i64, k: u32, e: nat)
    requires
        e >= k,
    ensures
        scaled(canonical(x, k), e) == x * pow2((e - k) as nat),
        canonical(x, k).1 <= k,
        canonical(x, k).is_canonical(),
    decreases k,
{
    if reducible(x as int, k as nat) {
        reveal(is_pow2);
        let h: i64 = (x / 2) as i64;
        lemma_canonical_scaled(h, (k - 1) as u32, e);
        let n: nat = (e - k) as nat;
        lemma_pow2_unfold(n + 1);
        let p = pow2(n) as int;
        assert(h * (2 * p) == x * p) by (nonlinear_arith)
            requires
                x % 2 == 0,
                h == x / 2,
        ;
    } else {
        lemma2_to64();
        let n: nat = (e - k) as nat;
        assert(scaled(Dyadic(x, k), e) == x * pow2(n));
    }
}

/// Two pairs denote the same rational number exactly when their numerators
/// over a common `2^e` agree.
pub proof fn lemma_same_value_iff_scaled(x: Dyadic, y: Dyadic, e: nat)
    requires
        e >= x.1,
        e >= y.1,
    ensures
        same_value(x, y) <==> scaled(x, e) == scaled(y, e),
{
    let px = pow2(x.1 as nat) as int;
    let py = pow2(y.1 as nat) as int;
    let a = pow2((e - x.1) as nat) as int;
    let b = pow2((e - y.1) as nat) as int;
    let pe = pow2(e) as int;
    lemma_pow2_adds((e - x.1) as nat, x.1 as nat);
    lemma_pow2_adds((e - y.1) as nat, y.1 as nat);
    lemma_pow2_pos(x.1 as nat);
    lemma_pow2_pos(y.1 as nat);
    lemma_pow2_pos(e);
    let x0 = x.0 as int;
    let y0 = y.0 as int;
    assert((x0 * a) * (px * py) == (x0 * py) * pe) by (nonlinear_arith)
        requires
            a * px == pe,
    ;
    assert((y0 * b) * (px * py) == (y0 * px) * pe) by (nonlinear_arith)
        requires
            b * py == pe,
    ;
    assert(px * py > 0) by (nonlinear_arith)
        requires
            px > 0,
            py > 0,
    ;
    if x0 * a == y0 * b {
        assert((x0 * py) * pe == (y0 * px) * pe);
        assert(x0 * py == y0 * px) by (nonlinear_arith)
            requires
                (x0 * py) * pe == (y0 * px) * pe,
                pe > 0,
        ;
    }
    if x0 * py == y0 * px {
        assert((x0 * a) * (px * py) == (y0 * b) * (px * py));
        assert(x0 * a == y0 * b) by (nonlinear_arith)
            requires
                (x0 * a) * (px * py) == (y0 * b) * (px * py),
                px * py > 0,
        ;
    }
}

/// Rescaling from exponent `m` to exponent `e >= m`: a numerator over `2^m`
/// times `2^(e - m)` is the numerator over `2^e`.
proof fn lemma_scaled_rescale(d: Dyadic, m: nat, e: nat)
    requires
        d.1 <= m <= e,
    ensures
        scaled(d, m) * pow2((e - m) as nat) == scaled(d, e),
{
    lemma_pow2_adds((m - d.1) as nat, (e - m) as nat);
    let a = pow2((m - d.1) as nat) as int;
    let b = pow2((e - m) as nat) as int;
    assert((d.0 * a) * b == d.0 * (a * b)) by (nonlinear_arith);
}

/// The sum keeps values: over any `2^e` at or above both exponents, the
/// numerator of `x + y` is the sum of the numerators of `x` and `y`.
pub proof fn lemma_sum_scaled(x: Dyadic, y: Dyadic, e: nat)
    requires
        sum_fits(x, y),
        e >= x.1,
        e >= y.1,
    ensures
        scaled(sum(x, y), e) == scaled(x, e) + scaled(y, e),
        sum(x, y).1 <= common_exponent(x, y),
{
    let m = common_exponent(x, y);
    let s = scaled(x, m as nat) + scaled(y, m as nat);
    lemma_canonical_scaled(s as i64, m, e);
    lemma_scaled_rescale(x, m as nat, e);
    lemma_scaled_rescale(y, m as nat, e);
    let p = pow2((e - m) as nat) as int;
    let sx = scaled(x, m as nat);
    let sy = scaled(y, m as nat);
    assert((sx + sy) * p == sx * p + sy * p) by (nonlinear_arith);
}

/// The product keeps values: over `2^e` with `e >= x.1 + y.1`, the numerator
/// of `x * y` is `x.0` times the numerator of `y` over `2^(e - x.1)`.
pub proof fn lemma_product_scaled(x: Dyadic, y: Dyadic, e: nat)
    requires
        product_fits(x, y),
        e >= x.1 + y.1,
    ensures
        scaled(product(x, y), e) == x.0 * scaled(y, (e - x.1) as nat),
        product(x, y).1 <= x.1 + y.1,
{
    let k = (x.1 + y.1) as u32;
    lemma_canonical_scaled((x.0 * y.0) as i64, k, e);
    let p = pow2((e - k) as nat) as int;
    let (x0, y0) = (x.0 as int, y.0 as int);
    assert((x0 * y0) * p == x0 * (y0 * p)) by (nonlinear_arith);
}

/// Multiplying by an integer keeps values: over `2^e` with `e >= x.1`, the
/// numerator of `x * n` is `n` times the numerator of `x`.
pub proof fn lemma_scalar_product_scaled(x: Dyadic, n: i64, e: nat)
    requires
        fits_i64(x.0 * n),
        e >= x.1,
    ensures
        scaled(scalar_product(x, n), e) == n * scaled(x, e),
        scalar_product(x, n).1 <= x.1,
{
    lemma_canonical_scaled((x.0 * n) as i64, x.1, e);
    let p = pow2((e - x.1) as nat) as int;
    let (x0, n0) = (x.0 as int, n as int);
    assert((x0 * n0) * p == n0 * (x0 * p)) by (nonlinear_arith);
}

/// Negation keeps values: the numerator of `-x` over `2^e` is minus that of `x`.
pub proof fn lemma_negation_scaled(x: Dyadic, e: nat)
    requires
        fits_i64(-x.0),
        e >= x.1,
    ensures
        scaled(negation(x), e) == -scaled(x, e),
{
    let p = pow2((e - x.1) as nat) as int;
    let x0 = x.0 as int;
    assert((-x0) * p == -(x0 * p)) by (nonlinear_arith);
}

/// Canonicalizing twice gives what canonicalizing once gives.
pub proof fn lemma_simplify_idempotent(numerator: i64, exponent: u32)
    ensures
        canonical(canonical(numerator, exponent).0, canonical(numerator, exponent).1)
            == canonical(numerator, exponent),
{
    lemma_canonical_scaled(numerator, exponent, exponent as nat);
}

/// Addition of dyadics is commutative, on the pairs themselves: `x + y` and
/// `y + x` are formed under the same condition and are the same pair.
pub proof fn lemma_add_commutative(x: Dyadic, y: Dyadic)
    ensures
        sum_fits(x, y) == sum_fits(y, x),
        sum(x, y) == sum(y, x),
{
}

/// Addition of dyadics is associative on values: where no sum overflows,
/// `(x + y) + z` and `x + (y + z)` denote the same rational number.
pub proof fn lemma_add_associative_value(x: Dyadic, y: Dyadic, z: Dyadic)
    requires
        sum_fits(x, y),
        sum_fits(sum(x, y), z),
        sum_fits(y, z),
        sum_fits(x, sum(y, z)),
    ensures
        same_value(sum(sum(x, y), z), sum(x, sum(y, z))),
{
    let e1 = if x.1 < y.1 { y.1 } else { x.1 };
    let e = (if e1 < z.1 { z.1 } else { e1 }) as nat;
    lemma_sum_scaled(x, y, e);
    lemma_sum_scaled(y, z, e);
    lemma_sum_scaled(sum(x, y), z, e);
    lemma_sum_scaled(x, sum(y, z), e);
    let l = sum(sum(x, y), z);
    let r = sum(x, sum(y, z));
    lemma_sum_scaled(sum(x, y), z, e);
    lemma_same_value_iff_scaled(l, r, e);
}

/// `x - x` is zero over the exponent of `x`: the pair `(0, x.1)`, which is
/// the pair `(0, 0)` exactly when `x.1 == 0`. Its value is zero in any case.
pub proof fn lemma_sub_self(x: Dyadic)
    requires
        fits_i64(-x.0),
    ensures
        x.sub_req(x),
        x.sub_spec(x) == Dyadic(0, x.1),
        x.1 == 0 ==> x.sub_spec(x) == Dyadic(0, 0),
        same_value(x.sub_spec(x), Dyadic(0, 0)),
{
    lemma2_to64();
    let n = negation(x);
    assert(scaled(x, x.1 as nat) == x.0 * 1);
    assert(scaled(n, x.1 as nat) == n.0 * 1);
    assert(canonical(0, x.1) == Dyadic(0, x.1));
    let z = Dyadic(0, x.1);
    assert(z.0 * pow2(0) == 0);
    assert(0 * pow2(x.1 as nat) == 0);
    assert(same_value(z, Dyadic(0, 0)));
}

/// For `d < 63`, `2^d` is a positive value of `i64`, and shifting one left by
/// `d` computes it.
proof fn lemma_shift_is_pow2(d: u64)
    requires
        d < 63,
    ensures
        1u64 << d == pow2(d as nat),
        0 < pow2(d as nat) <= i64::MAX,
{
    lemma2_to64();
    lemma2_to64_rest();
    if d < 62 {
        lemma_pow2_strictly_increases(d as nat, 62);
    }
    lemma_u64_shl_is_mul(1, d);
}

impl core::ops::Add for Dyadic {
    type Output = Dyadic;

    /// Adds over the larger of the two denominators.
    fn add(self, rhs: Dyadic) -> (r: Dyadic)
        ensures
            r == sum(self, rhs),
    {
        proof {
            lemma2_to64();
        }
        if self.1 == rhs.1 {
            assert(scaled(self, self.1 as nat) == self.0 * 1);
            assert(scaled(rhs, self.1 as nat) == rhs.0 * 1);
            return Dyadic::simplify(self.0 + rhs.0, self.1);
        }
        let (a, b) = if self.1 < rhs.1 {
            (self, rhs)
        } else {
            (rhs, self)
        };
        let d: u64 = (b.1 - a.1) as u64;
        proof {
            lemma_shift_is_pow2(d);
        }
        let k_delta: i64 = (1u64 << d) as i64;
        Dyadic::simplify(a.0 * k_delta + b.0, b.1)
    }
}

impl vstd::std_specs::ops::AddSpecImpl for Dyadic {
    open spec fn obeys_add_spec() -> bool {
        true
    }

    open spec fn add_req(self, rhs: Dyadic) -> bool {
        sum_fits(self, rhs)
    }

    open spec fn add_spec(self, rhs: Dyadic) -> Dyadic {
        sum(self, rhs)
    }
}

impl core::ops::Neg for Dyadic {
    type Output = Dyadic;

    fn neg(self) -> (r: Dyadic)
        ensures
            r == negation(self),
    {
        Dyadic(-self.0, self.1)
    }
}

impl vstd::std_specs::ops::NegSpecImpl for Dyadic {
    open spec fn obeys_neg_spec() -> bool {
        true
    }

    open spec fn neg_req(self) -> bool {
        fits_i64(-self.0)
    }

    open spec fn neg_spec(self) -> Dyadic {
        negation(self)
    }
}

impl core::ops::Sub for Dyadic {
    type Output = Dyadic;

    /// `self + (-rhs)`.
    fn sub(self, rhs: Dyadic) -> (r: Dyadic)
        ensures
            r == sum(self, negation(rhs)),
    {
        self + core::ops::Neg::neg(rhs)
    }
}

impl vstd::std_specs::ops::SubSpecImpl for Dyadic {
    open spec fn obeys_sub_spec() -> bool {
        true
    }

    open spec fn sub_req(self, rhs: Dyadic) -> bool {
        fits_i64(-rhs.0) && sum_fits(self, negation(rhs))
    }

    open spec fn sub_spec(self, rhs: Dyadic) -> Dyadic {
        sum(self, negation(rhs))
    }
}

impl core::ops::Mul for Dyadic {
    type Output = Dyadic;

    fn mul(self, rhs: Dyadic) -> (r: Dyadic)
        ensures
            r == product(self, rhs),
    {
        Dyadic::simplify(self.0 * rhs.0, self.1 + rhs.1)
    }
}

impl vstd::std_specs::ops::MulSpecImpl for Dyadic {
    open spec fn obeys_mul_spec() -> bool {
        true
    }

    open spec fn mul_req(self, rhs: Dyadic) -> bool {
        product_fits(self, rhs)
    }

    open spec fn mul_spec(self, rhs: Dyadic) -> Dyadic {
        product(self, rhs)
    }
}

impl core::ops::Mul<i64> for Dyadic {
    type Output = Dyadic;

    fn mul(self, rhs: i64) -> (r: Dyadic)
        ensures
            r == scalar_product(self, rhs),
    {
        Dyadic::simplify(self.0 * rhs, self.1)
    }
}

impl vstd::std_specs::ops::MulSpecImpl<i64> for Dyadic {
    open spec fn obeys_mul_spec() -> bool {
        true
    }

    open spec fn mul_req(self, rhs: i64) -> bool {
        fits_i64(self.0 * rhs)
    }

    open spec fn mul_spec(self, rhs: i64) -> Dyadic {
        scalar_product(self, rhs)
    }
}

impl core::ops::Mul<Dyadic> for i64 {
    type Output = Dyadic;

    fn mul(self, rhs: Dyadic) -> (r: Dyadic)
        ensures
            r == scalar_product(rhs, self),
    {
        proof {
            assert(self * rhs.0 == rhs.0 * self) by (nonlinear_arith);
        }
        Dyadic::simplify(self * rhs.0, rhs.1)
    }
}

impl vstd::std_specs::ops::MulSpecImpl<Dyadic> for i64 {
    open spec fn obeys_mul_spec() -> bool {
        true
    }

    open spec fn mul_req(self, rhs: Dyadic) -> bool {
        fits_i64(self * rhs.0)
    }

    open spec fn mul_spec(self, rhs: Dyadic) -> Dyadic {
        scalar_product(rhs, self)
    }
}

} // verus!

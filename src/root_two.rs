//! Numbers `a + b√2` with coefficients of a type `T`: an integer type or `Dyadic`.
use vstd::prelude::*;
use crate::dyadic::{
    lemma_add_associative_value, lemma_negation_scaled, lemma_product_scaled,
    lemma_same_value_iff_scaled, lemma_scalar_product_scaled, lemma_sum_scaled, negation, product,
    same_value, scalar_product, scaled, sum, Dyadic,
};
use vstd::std_specs::ops::{AddSpec, MulSpec, NegSpec, SubSpec};

verus! {

/// The number `self.0 + self.1 * √2`.
#[derive(Debug, Clone, Copy, PartialEq, Eq)]
pub struct RootTwo<T>(pub T, pub T);

/// The root-two conjugate: `adj2(a + b√2) == a - b√2`.
pub trait Adj2: Sized {
    /// Whether the conjugate of `self` can be formed.
    spec fn adj2_req(self) -> bool;

    /// The conjugate of `self`.
    spec fn adj2_spec(self) -> Self;

    fn adj2(self) -> (r: Self)
        requires
            self.adj2_req(),
        ensures
            r == self.adj2_spec(),
    ;
}

impl<T: core::ops::Add<Output = T>> core::ops::Add for RootTwo<T> {
    type Output = RootTwo<T>;

    /// Componentwise addition; the contract is `add_req` and `add_spec` below.
    fn add(self, rhs: RootTwo<T>) -> (r: RootTwo<T>) {
        RootTwo(self.0 + rhs.0, self.1 + rhs.1)
    }
}

impl<T: core::ops::Add<Output = T>> vstd::std_specs::ops::AddSpecImpl for RootTwo<T> {
    open spec fn obeys_add_spec() -> bool {
        <T as AddSpec>::obeys_add_spec()
    }

    open spec fn add_req(self, rhs: RootTwo<T>) -> bool {
        self.0.add_req(rhs.0) && self.1.add_req(rhs.1)
    }

    open spec fn add_spec(self, rhs: RootTwo<T>) -> RootTwo<T> {
        RootTwo(self.0.add_spec(rhs.0), self.1.add_spec(rhs.1))
    }
}

impl<T: core::ops::Sub<Output = T>> core::ops::Sub for RootTwo<T> {
    type Output = RootTwo<T>;

    /// Componentwise subtraction; the contract is `sub_req` and `sub_spec` below.
    fn sub(self, rhs: RootTwo<T>) -> (r: RootTwo<T>) {
        RootTwo(self.0 - rhs.0, self.1 - rhs.1)
    }
}

impl<T: core::ops::Sub<Output = T>> vstd::std_specs::ops::SubSpecImpl for RootTwo<T> {
    open spec fn obeys_sub_spec() -> bool {
        <T as SubSpec>::obeys_sub_spec()
    }

    open spec fn sub_req(self, rhs: RootTwo<T>) -> bool {
        self.0.sub_req(rhs.0) && self.1.sub_req(rhs.1)
    }

    open spec fn sub_spec(self, rhs: RootTwo<T>) -> RootTwo<T> {
        RootTwo(self.0.sub_spec(rhs.0), self.1.sub_spec(rhs.1))
    }
}

impl<T: core::ops::Neg<Output = T>> core::ops::Neg for RootTwo<T> {
    type Output = RootTwo<T>;

    /// Componentwise negation; the contract is `neg_req` and `neg_spec` below.
    fn neg(self) -> (r: RootTwo<T>) {
        RootTwo(core::ops::Neg::neg(self.0), core::ops::Neg::neg(self.1))
    }
}

impl<T: core::ops::Neg<Output = T>> vstd::std_specs::ops::NegSpecImpl for RootTwo<T> {
    open spec fn obeys_neg_spec() -> bool {
        <T as NegSpec>::obeys_neg_spec()
    }

    open spec fn neg_req(self) -> bool {
        self.0.neg_req() && self.1.neg_req()
    }

    open spec fn neg_spec(self) -> RootTwo<T> {
        RootTwo(self.0.neg_spec(), self.1.neg_spec())
    }
}

/// Whether the coefficient operations that a product uses follow their
/// specifications: the product of two coefficients, a coefficient times an
/// `i64`, and the sum of two coefficients.
pub open spec fn ring_ops_obey<T>() -> bool where
    T: core::ops::Mul<Output = T> + core::ops::Add<Output = T> + core::ops::Mul<i64, Output = T>,
 {
    &&& <T as MulSpec<T>>::obeys_mul_spec()
    &&& <T as MulSpec<i64>>::obeys_mul_spec()
    &&& <T as AddSpec>::obeys_add_spec()
}

impl<T> core::ops::Mul for RootTwo<T> where
    T: core::ops::Mul<Output = T> + core::ops::Add<Output = T> + core::ops::Mul<i64, Output = T> + Copy,
 {
    type Output = RootTwo<T>;

    /// `(a + b√2)(c + d√2) == (ac + 2bd) + (ad + bc)√2`; the contract is
    /// `mul_req` and `mul_spec` below.
    fn mul(self, rhs: RootTwo<T>) -> (r: RootTwo<T>) {
        RootTwo(self.0 * rhs.0 + self.1 * rhs.1 * 2, self.0 * rhs.1 + self.1 * rhs.0)
    }
}

impl<T> vstd::std_specs::ops::MulSpecImpl for RootTwo<T> where
    T: core::ops::Mul<Output = T> + core::ops::Add<Output = T> + core::ops::Mul<i64, Output = T> + Copy,
 {
    open spec fn obeys_mul_spec() -> bool {
        ring_ops_obey::<T>()
    }

    open spec fn mul_req(self, rhs: RootTwo<T>) -> bool {
        let (a, b, c, d) = (self.0, self.1, rhs.0, rhs.1);
        &&& ring_ops_obey::<T>()
        &&& <T as MulSpec<T>>::mul_req(a, c)
        &&& <T as MulSpec<T>>::mul_req(b, d)
        &&& <T as MulSpec<i64>>::mul_req(<T as MulSpec<T>>::mul_spec(b, d), 2)
        &&& <T as MulSpec<T>>::mul_spec(a, c).add_req(
            <T as MulSpec<i64>>::mul_spec(<T as MulSpec<T>>::mul_spec(b, d), 2),
        )
        &&& <T as MulSpec<T>>::mul_req(a, d)
        &&& <T as MulSpec<T>>::mul_req(b, c)
        &&& <T as MulSpec<T>>::mul_spec(a, d).add_req(<T as MulSpec<T>>::mul_spec(b, c))
    }

    open spec fn mul_spec(self, rhs: RootTwo<T>) -> RootTwo<T> {
        let (a, b, c, d) = (self.0, self.1, rhs.0, rhs.1);
        RootTwo(
            <T as MulSpec<T>>::mul_spec(a, c).add_spec(
                <T as MulSpec<i64>>::mul_spec(<T as MulSpec<T>>::mul_spec(b, d), 2),
            ),
            <T as MulSpec<T>>::mul_spec(a, d).add_spec(<T as MulSpec<T>>::mul_spec(b, c)),
        )
    }
}

impl<T: core::ops::Neg<Output = T>> Adj2 for RootTwo<T> {
    open spec fn adj2_req(self) -> bool {
        <T as NegSpec>::obeys_neg_spec() && self.1.neg_req()
    }

    open spec fn adj2_spec(self) -> RootTwo<T> {
        RootTwo(self.0, self.1.neg_spec())
    }

    /// `(a, b)` to `(a, -b)`.
    fn adj2(self) -> (r: RootTwo<T>) {
        RootTwo(self.0, core::ops::Neg::neg(self.1))
    }
}

/// `x` to the power `n` by repeated multiplication, for `n >= 1`. A power of
/// zero gives the additive identity `(0, 0)`, not `(1, 0)`.
pub open spec fn power_of(x: RootTwo<i64>, n: nat) -> RootTwo<i64>
    decreases n,
{
    if n == 0 {
        RootTwo(0, 0)
    } else if n == 1 {
        x
    } else {
        power_of(x, (n - 1) as nat).mul_spec(x)
    }
}

/// Whether every product that `x.pow(n)` forms fits in `i64`: each
/// `power_of(x, i) * x`, for `1 <= i < n`.
pub open spec fn power_fits(x: RootTwo<i64>, n: nat) -> bool {
    forall|i: nat| 1 <= i < n ==> (#[trigger] power_of(x, i)).mul_req(x)
}

impl RootTwo<i64> {
    /// `self` multiplied by itself `power` times. `pow(0)` is `(0, 0)`.
    pub fn pow(self, power: u32) -> (r: RootTwo<i64>)
        requires
            power_fits(self, power as nat),
        ensures
            r == power_of(self, power as nat),
    {
        if power == 0 {
            return RootTwo(0, 0);
        }
        let mut result: RootTwo<i64> = self;
        let mut remaining: u32 = power - 1;
        while remaining > 0
            invariant
                remaining < power,
                power_fits(self, power as nat),
                result == power_of(self, (power - remaining) as nat),
            decreases remaining,
        {
            proof {
                assert(power_of(self, (power - remaining) as nat).mul_req(self));
            }
            result = result * self;
            remaining = remaining - 1;
        }
        result
    }
}

/// Whether two elements of `D[√2]` are the same number: their rational parts
/// denote the same rational, and so do their `√2` parts.
pub open spec fn same_number(x: RootTwo<Dyadic>, y: RootTwo<Dyadic>) -> bool {
    same_value(x.0, y.0) && same_value(x.1, y.1)
}

/// Addition in `Z[√2]` is associative: where no sum overflows,
/// `(x + y) + z == x + (y + z)`.
pub proof fn lemma_add_associative(x: RootTwo<i64>, y: RootTwo<i64>, z: RootTwo<i64>)
    requires
        x.add_req(y),
        x.add_spec(y).add_req(z),
        y.add_req(z),
        x.add_req(y.add_spec(z)),
    ensures
        x.add_spec(y).add_spec(z) == x.add_spec(y.add_spec(z)),
{
}

/// Multiplication in `Z[√2]` distributes over addition: where nothing
/// overflows, `x * (y + z) == x * y + x * z`.
pub proof fn lemma_mul_distributive(x: RootTwo<i64>, y: RootTwo<i64>, z: RootTwo<i64>)
    requires
        y.add_req(z),
        x.mul_req(y.add_spec(z)),
        x.mul_req(y),
        x.mul_req(z),
        x.mul_spec(y).add_req(x.mul_spec(z)),
    ensures
        x.mul_spec(y.add_spec(z)) == x.mul_spec(y).add_spec(x.mul_spec(z)),
{
    let (a, b) = (x.0 as int, x.1 as int);
    let (c, d) = (y.0 as int, y.1 as int);
    let (e, f) = (z.0 as int, z.1 as int);
    assert(a * (c + e) == a * c + a * e) by (nonlinear_arith);
    assert(b * (d + f) == b * d + b * f) by (nonlinear_arith);
    assert(a * (d + f) == a * d + a * f) by (nonlinear_arith);
    assert(b * (c + e) == b * c + b * e) by (nonlinear_arith);
}

/// The conjugate is an involution on `Z[√2]`: `adj2(adj2(x)) == x`.
pub proof fn lemma_adj2_involution(x: RootTwo<i64>)
    requires
        x.adj2_req(),
    ensures
        x.adj2_spec().adj2_req(),
        x.adj2_spec().adj2_spec() == x,
{
}

/// The conjugate is an involution on `D[√2]`: `adj2(adj2(x)) == x`, on the
/// pairs themselves.
pub proof fn lemma_adj2_involution_dyadic(x: RootTwo<Dyadic>)
    requires
        x.adj2_req(),
    ensures
        x.adj2_spec().adj2_req(),
        x.adj2_spec().adj2_spec() == x,
{
}

/// The conjugate respects addition in `Z[√2]`: `adj2(x + y) == adj2(x) + adj2(y)`.
pub proof fn lemma_adj2_add(x: RootTwo<i64>, y: RootTwo<i64>)
    requires
        x.add_req(y),
        x.adj2_req(),
        y.adj2_req(),
        x.add_spec(y).adj2_req(),
        x.adj2_spec().add_req(y.adj2_spec()),
    ensures
        x.add_spec(y).adj2_spec() == x.adj2_spec().add_spec(y.adj2_spec()),
{
}

/// The conjugate respects multiplication in `Z[√2]`:
/// `adj2(x * y) == adj2(x) * adj2(y)`.
pub proof fn lemma_adj2_mul(x: RootTwo<i64>, y: RootTwo<i64>)
    requires
        x.mul_req(y),
        x.adj2_req(),
        y.adj2_req(),
        x.mul_spec(y).adj2_req(),
        x.adj2_spec().mul_req(y.adj2_spec()),
    ensures
        x.mul_spec(y).adj2_spec() == x.adj2_spec().mul_spec(y.adj2_spec()),
{
    let (a, b) = (x.0 as int, x.1 as int);
    let (c, d) = (y.0 as int, y.1 as int);
    assert((-b) * (-d) == b * d) by (nonlinear_arith);
    assert(a * (-d) == -(a * d)) by (nonlinear_arith);
    assert((-b) * c == -(b * c)) by (nonlinear_arith);
}

/// Addition in `D[√2]` is associative on numbers: where no sum overflows,
/// `(x + y) + z` and `x + (y + z)` are the same number.
pub proof fn lemma_add_associative_dyadic(
    x: RootTwo<Dyadic>,
    y: RootTwo<Dyadic>,
    z: RootTwo<Dyadic>,
)
    requires
        x.add_req(y),
        x.add_spec(y).add_req(z),
        y.add_req(z),
        x.add_req(y.add_spec(z)),
    ensures
        same_number(x.add_spec(y).add_spec(z), x.add_spec(y.add_spec(z))),
{
    lemma_add_associative_value(x.0, y.0, z.0);
    lemma_add_associative_value(x.1, y.1, z.1);
}

/// One coefficient of a distributed product: over `2^e`, with `e` at or above
/// every exponent that occurs, the numerator of `u * (v + w)` is that of
/// `u * v` plus that of `u * w`.
proof fn lemma_product_sum_scaled(u: Dyadic, v: Dyadic, w: Dyadic, e: nat)
    requires
        sum(v, w) == v.add_spec(w),
        v.add_req(w),
        u.mul_req(sum(v, w)),
        u.mul_req(v),
        u.mul_req(w),
        e >= u.1 + v.1,
        e >= u.1 + w.1,
    ensures
        scaled(product(u, sum(v, w)), e) == scaled(product(u, v), e) + scaled(product(u, w), e),
        product(u, sum(v, w)).1 <= e,
        product(u, v).1 <= e,
        product(u, w).1 <= e,
{
    let f = (e - u.1) as nat;
    lemma_sum_scaled(v, w, f);
    lemma_product_scaled(u, sum(v, w), e);
    lemma_product_scaled(u, v, e);
    lemma_product_scaled(u, w, e);
    let (u0, sv, sw) = (u.0 as int, scaled(v, f), scaled(w, f));
    assert(u0 * (sv + sw) == u0 * sv + u0 * sw) by (nonlinear_arith);
}

/// Multiplication in `D[√2]` distributes over addition on numbers: where
/// nothing overflows, `x * (y + z)` and `x * y + x * z` are the same number.
pub proof fn lemma_mul_distributive_dyadic(
    x: RootTwo<Dyadic>,
    y: RootTwo<Dyadic>,
    z: RootTwo<Dyadic>,
)
    requires
        y.add_req(z),
        x.mul_req(y.add_spec(z)),
        x.mul_req(y),
        x.mul_req(z),
        x.mul_spec(y).add_req(x.mul_spec(z)),
    ensures
        same_number(x.mul_spec(y.add_spec(z)), x.mul_spec(y).add_spec(x.mul_spec(z))),
{
    let (a, b) = (x.0, x.1);
    let (c, d) = (y.0, y.1);
    let (g, h) = (z.0, z.1);
    let e: nat = (a.1 + b.1 + c.1 + d.1 + g.1 + h.1) as nat;
    let cg = sum(c, g);
    let dh = sum(d, h);
    lemma_sum_scaled(c, g, e);
    lemma_sum_scaled(d, h, e);
    // rational part: a(c + g) + 2b(d + h) against (ac + 2bd) + (ag + 2bh)
    lemma_product_sum_scaled(a, c, g, e);
    lemma_product_sum_scaled(b, d, h, e);
    lemma_scalar_product_scaled(product(b, dh), 2, e);
    lemma_scalar_product_scaled(product(b, d), 2, e);
    lemma_scalar_product_scaled(product(b, h), 2, e);
    let l0 = sum(product(a, cg), scalar_product(product(b, dh), 2));
    let r00 = sum(product(a, c), scalar_product(product(b, d), 2));
    let r01 = sum(product(a, g), scalar_product(product(b, h), 2));
    lemma_sum_scaled(product(a, cg), scalar_product(product(b, dh), 2), e);
    lemma_sum_scaled(product(a, c), scalar_product(product(b, d), 2), e);
    lemma_sum_scaled(product(a, g), scalar_product(product(b, h), 2), e);
    lemma_sum_scaled(r00, r01, e);
    lemma_same_value_iff_scaled(l0, sum(r00, r01), e);
    // √2 part: a(d + h) + b(c + g) against (ad + bc) + (ah + bg)
    lemma_product_sum_scaled(a, d, h, e);
    lemma_product_sum_scaled(b, c, g, e);
    let l1 = sum(product(a, dh), product(b, cg));
    let r10 = sum(product(a, d), product(b, c));
    let r11 = sum(product(a, h), product(b, g));
    lemma_sum_scaled(product(a, dh), product(b, cg), e);
    lemma_sum_scaled(product(a, d), product(b, c), e);
    lemma_sum_scaled(product(a, h), product(b, g), e);
    lemma_sum_scaled(r10, r11, e);
    lemma_same_value_iff_scaled(l1, sum(r10, r11), e);
}

/// The conjugate respects multiplication in `D[√2]` on numbers: where
/// nothing overflows, `adj2(x * y)` and `adj2(x) * adj2(y)` are the same
/// number. Their rational parts are the same pair.
pub proof fn lemma_adj2_mul_dyadic(x: RootTwo<Dyadic>, y: RootTwo<Dyadic>)
    requires
        x.mul_req(y),
        x.adj2_req(),
        y.adj2_req(),
        x.mul_spec(y).adj2_req(),
        x.adj2_spec().mul_req(y.adj2_spec()),
    ensures
        x.mul_spec(y).adj2_spec().0 == x.adj2_spec().mul_spec(y.adj2_spec()).0,
        same_number(x.mul_spec(y).adj2_spec(), x.adj2_spec().mul_spec(y.adj2_spec())),
{
    let (a, b) = (x.0, x.1);
    let (c, d) = (y.0, y.1);
    let (nb, nd) = (negation(b), negation(d));
    let (b0, d0) = (b.0 as int, d.0 as int);
    assert((-b0) * (-d0) == b0 * d0) by (nonlinear_arith);
    assert(product(nb, nd) == product(b, d));
    let e: nat = (a.1 + b.1 + c.1 + d.1) as nat;
    let s = sum(product(a, d), product(b, c));
    lemma_product_scaled(a, d, e);
    lemma_product_scaled(b, c, e);
    lemma_sum_scaled(product(a, d), product(b, c), e);
    lemma_negation_scaled(s, e);
    lemma_product_scaled(a, nd, e);
    lemma_product_scaled(nb, c, e);
    lemma_negation_scaled(d, (e - a.1) as nat);
    lemma_sum_scaled(product(a, nd), product(nb, c), e);
    let (a0, sd, sc) = (a.0 as int, scaled(d, (e - a.1) as nat), scaled(c, (e - b.1) as nat));
    assert(a0 * (-sd) + (-b0) * sc == -(a0 * sd + b0 * sc)) by (nonlinear_arith);
    lemma_same_value_iff_scaled(negation(s), sum(product(a, nd), product(nb, c)), e);
    assert(same_value(x.mul_spec(y).adj2_spec().0, x.adj2_spec().mul_spec(y.adj2_spec()).0)) by {
        lemma_same_value_iff_scaled(
            x.mul_spec(y).adj2_spec().0,
            x.adj2_spec().mul_spec(y.adj2_spec()).0,
            (x.mul_spec(y).adj2_spec().0.1) as nat,
        );
    }
}

} // verus!

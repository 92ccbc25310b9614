//! Exact rational arithmetic.
//!
//! The mathematical model is [`Frac`], an unreduced fraction of unbounded
//! integers; two fractions denote the same rational number when
//! [`frac_eq`] holds (cross multiplication). The executable type is
//! [`Ratio`], a fraction of `i64`s kept with a positive denominator; every
//! arithmetic step reduces its raw result by the greatest common divisor
//! and reports, instead of panicking, when even the reduced result does
//! not fit.

use vstd::arithmetic::div_mod::lemma_fundamental_div_mod;
use vstd::arithmetic::div_mod::lemma_div_multiples_vanish;
use vstd::prelude::*;

verus! {

/// A fraction of unbounded integers: the rational number `n / d`,
/// meaningful when `d >= 1`.
pub struct Frac {
    pub n: int,
    pub d: int,
}

/// A fraction is well formed when its denominator is positive.
pub open spec fn frac_wf(x: Frac) -> bool {
    x.d >= 1
}

/// Two fractions denote the same rational number (cross multiplication).
pub open spec fn frac_eq(x: Frac, y: Frac) -> bool {
    x.n * y.d == y.n * x.d
}

/// The fraction `w / 1`.
pub open spec fn int_frac(w: int) -> Frac {
    Frac { n: w, d: 1 }
}

/// The sum of two fractions, over the product denominator.
pub open spec fn add_raw(x: Frac, y: Frac) -> Frac {
    Frac { n: x.n * y.d + y.n * x.d, d: x.d * y.d }
}

/// The difference of two fractions, over the product denominator.
pub open spec fn sub_raw(x: Frac, y: Frac) -> Frac {
    Frac { n: x.n * y.d - y.n * x.d, d: x.d * y.d }
}

/// The product of two fractions.
pub open spec fn mul_raw(x: Frac, y: Frac) -> Frac {
    Frac { n: x.n * y.n, d: x.d * y.d }
}

/// A fraction scaled by the integer `w`.
pub open spec fn scale_raw(x: Frac, w: int) -> Frac {
    Frac { n: x.n * w, d: x.d }
}

/// A fraction divided by the integer `t`.
pub open spec fn divide_raw(x: Frac, t: int) -> Frac {
    Frac { n: x.n, d: x.d * t }
}

/// Absolute value over `int`.
pub open spec fn iabs(x: int) -> int {
    if x < 0 {
        -x
    } else {
        x
    }
}

/// Greatest common divisor of two non-negative integers, by Euclid's
/// algorithm.
pub open spec fn gcd(a: int, b: int) -> int
    recommends
        a >= 0,
        b >= 0,
    decreases b when b >= 0
{
    if b <= 0 {
        a
    } else {
        gcd(b, a % b)
    }
}

/// `g` divides `x` exactly.
pub open spec fn divides(g: int, x: int) -> bool {
    exists|k: int| x == #[trigger] (g * k)
}

/// The gcd of two non-negative integers divides both, and is positive as
/// soon as either argument is.
pub proof fn lemma_gcd(a: int, b: int)
    requires
        a >= 0,
        b >= 0,
    ensures
        divides(gcd(a, b), a),
        divides(gcd(a, b), b),
        a >= 1 || b >= 1 ==> gcd(a, b) >= 1,
    decreases b,
{
    let g = gcd(a, b);
    if b <= 0 {
        assert(a == g * 1);
        assert(b == g * 0);
    } else {
        lemma_gcd(b, a % b);
        lemma_fundamental_div_mod(a, b);
        let q = a / b;
        let r = a % b;
        let k1 = choose|k: int| b == #[trigger] (g * k);
        let k2 = choose|k: int| r == #[trigger] (g * k);
        assert(a == g * (q * k1 + k2)) by (nonlinear_arith)
            requires
                a == q * b + r,
                b == g * k1,
                r == g * k2,
        ;
    }
}

/// The fraction `x` with numerator and denominator divided by the gcd of
/// their magnitudes: the canonical representative of `x`'s value.
pub open spec fn norm(x: Frac) -> Frac {
    let g = gcd(iabs(x.n), x.d);
    Frac { n: x.n / g, d: x.d / g }
}

/// Reduction by the gcd keeps the denominator positive, never grows
/// either component, and preserves the denoted rational number.
pub proof fn lemma_norm(x: Frac)
    requires
        frac_wf(x),
    ensures
        frac_wf(norm(x)),
        frac_eq(norm(x), x),
        norm(x).d <= x.d,
        iabs(norm(x).n) <= iabs(x.n),
        iabs(norm(x).n) == iabs(x.n) / gcd(iabs(x.n), x.d),
        x.n >= 0 ==> norm(x).n >= 0,
        x.n < 0 ==> norm(x).n <= 0,
{
    let a = iabs(x.n);
    let g = gcd(a, x.d);
    lemma_gcd(a, x.d);
    let ka = choose|k: int| a == #[trigger] (g * k);
    let kd = choose|k: int| x.d == #[trigger] (g * k);
    let kn: int = if x.n < 0 {
        -ka
    } else {
        ka
    };
    assert(x.n == g * kn) by (nonlinear_arith)
        requires
            a == g * ka,
            a == iabs(x.n),
            kn == if x.n < 0 {
                -ka
            } else {
                ka
            },
            iabs(x.n) == if x.n < 0 {
                -x.n
            } else {
                x.n
            },
    ;
    lemma_div_multiples_vanish(kn, g);
    lemma_div_multiples_vanish(kd, g);
    lemma_div_multiples_vanish(ka, g);
    assert(norm(x).n == kn);
    assert(norm(x).d == kd);
    assert(ka >= 0) by (nonlinear_arith)
        requires
            a == g * ka,
            a >= 0,
            g >= 1,
    ;
    assert(iabs(x.n) / g == ka);
    assert(iabs(norm(x).n) == ka);
    assert(kd >= 1 && kd <= x.d && g * 1 <= g * kd) by (nonlinear_arith)
        requires
            x.d == g * kd,
            x.d >= 1,
            g >= 1,
    ;
    assert(kn * x.d == x.n * kd) by (nonlinear_arith)
        requires
            x.n == g * kn,
            x.d == g * kd,
    ;
    assert(iabs(kn) <= iabs(x.n)) by (nonlinear_arith)
        requires
            x.n == g * kn,
            g >= 1,
            iabs(kn) == if kn < 0 {
                -kn
            } else {
                kn
            },
            iabs(x.n) == if x.n < 0 {
                -x.n
            } else {
                x.n
            },
    ;
}

/// Denoting the same rational number is transitive.
pub proof fn lemma_frac_eq_trans(x: Frac, y: Frac, z: Frac)
    requires
        frac_wf(y),
        frac_eq(x, y),
        frac_eq(y, z),
    ensures
        frac_eq(x, z),
{
    assert(x.n * z.d == z.n * x.d) by (nonlinear_arith)
        requires
            x.n * y.d == y.n * x.d,
            y.n * z.d == z.n * y.d,
            y.d >= 1,
    ;
}

/// The raw operations keep denominators positive.
pub proof fn lemma_raw_wf(x: Frac, y: Frac, w: int, t: int)
    requires
        frac_wf(x),
        frac_wf(y),
        t >= 1,
    ensures
        frac_wf(add_raw(x, y)),
        frac_wf(sub_raw(x, y)),
        frac_wf(mul_raw(x, y)),
        frac_wf(scale_raw(x, w)),
        frac_wf(divide_raw(x, t)),
{
    assert(x.d * y.d >= 1 && x.d * t >= 1) by (nonlinear_arith)
        requires
            x.d >= 1,
            y.d >= 1,
            t >= 1,
    ;
}

/// Rearranging a product of four factors.
pub(crate) proof fn lemma_mul4(p: int, q: int, r: int, s: int)
    by (nonlinear_arith)
    ensures
        (p * q) * (r * s) == (p * r) * (q * s),
        (p * q) * (r * s) == (p * s) * (q * r),
{
}

/// Distributing a sum or difference over a product.
pub(crate) proof fn lemma_distrib(x: int, y: int, z: int)
    by (nonlinear_arith)
    ensures
        (x + y) * z == x * z + y * z,
        (x - y) * z == x * z - y * z,
        x * y == y * x,
{
}

/// Addition respects the denoted rational numbers.
pub proof fn lemma_add_cong(a: Frac, a2: Frac, b: Frac, b2: Frac)
    requires
        frac_wf(a),
        frac_wf(a2),
        frac_wf(b),
        frac_wf(b2),
        frac_eq(a, a2),
        frac_eq(b, b2),
    ensures
        frac_eq(add_raw(a, b), add_raw(a2, b2)),
{
    lemma_distrib(a.n * b.d, b.n * a.d, a2.d * b2.d);
    lemma_mul4(a.n, b.d, a2.d, b2.d);
    lemma_mul4(b.n, a.d, a2.d, b2.d);
    lemma_distrib(a2.n * b2.d, b2.n * a2.d, a.d * b.d);
    lemma_mul4(a2.n, b2.d, a.d, b.d);
    lemma_mul4(b2.n, a2.d, a.d, b.d);
    lemma_distrib(b.d, b2.d, 0);
    lemma_distrib(a.d, a2.d, 0);
    lemma_distrib(b2.d, b.d, 0);
    lemma_distrib(a2.d, a.d, 0);
}

/// Subtraction respects the denoted rational numbers.
pub proof fn lemma_sub_cong(a: Frac, a2: Frac, b: Frac, b2: Frac)
    requires
        frac_wf(a),
        frac_wf(a2),
        frac_wf(b),
        frac_wf(b2),
        frac_eq(a, a2),
        frac_eq(b, b2),
    ensures
        frac_eq(sub_raw(a, b), sub_raw(a2, b2)),
{
    lemma_distrib(a.n * b.d, b.n * a.d, a2.d * b2.d);
    lemma_mul4(a.n, b.d, a2.d, b2.d);
    lemma_mul4(b.n, a.d, a2.d, b2.d);
    lemma_distrib(a2.n * b2.d, b2.n * a2.d, a.d * b.d);
    lemma_mul4(a2.n, b2.d, a.d, b.d);
    lemma_mul4(b2.n, a2.d, a.d, b.d);
    lemma_distrib(b.d, b2.d, 0);
    lemma_distrib(a.d, a2.d, 0);
    lemma_distrib(b2.d, b.d, 0);
    lemma_distrib(a2.d, a.d, 0);
}

/// Multiplication respects the denoted rational numbers.
pub proof fn lemma_mul_cong(a: Frac, a2: Frac, b: Frac, b2: Frac)
    requires
        frac_wf(a),
        frac_wf(a2),
        frac_wf(b),
        frac_wf(b2),
        frac_eq(a, a2),
        frac_eq(b, b2),
    ensures
        frac_eq(mul_raw(a, b), mul_raw(a2, b2)),
{
    lemma_mul4(a.n, b.n, a2.d, b2.d);
    lemma_mul4(a2.n, b2.n, a.d, b.d);
    lemma_distrib(b.n, b2.d, 0);
    lemma_distrib(b2.n, b.d, 0);
    lemma_distrib(b.d, b2.d, 0);
    lemma_distrib(a.d, a2.d, 0);
    assert((a.n * a2.d) * (b.n * b2.d) == (a2.n * a.d) * (b2.n * b.d));
}

/// Scaling by an integer respects the denoted rational numbers.
pub proof fn lemma_scale_cong(a: Frac, a2: Frac, w: int)
    requires
        frac_wf(a),
        frac_wf(a2),
        frac_eq(a, a2),
    ensures
        frac_eq(scale_raw(a, w), scale_raw(a2, w)),
{
    assert((a.n * w) * a2.d == (a2.n * w) * a.d) by (nonlinear_arith)
        requires
            a.n * a2.d == a2.n * a.d,
    ;
}

/// Division by an integer respects the denoted rational numbers.
pub proof fn lemma_divide_cong(a: Frac, a2: Frac, t: int)
    requires
        frac_wf(a),
        frac_wf(a2),
        frac_eq(a, a2),
    ensures
        frac_eq(divide_raw(a, t), divide_raw(a2, t)),
{
    assert(a.n * (a2.d * t) == a2.n * (a.d * t)) by (nonlinear_arith)
        requires
            a.n * a2.d == a2.n * a.d,
    ;
}

/// Adding a fraction that denotes zero changes nothing.
pub proof fn lemma_add_zero(z: Frac, x: Frac)
    requires
        frac_wf(z),
        frac_wf(x),
        z.n == 0,
    ensures
        frac_eq(add_raw(z, x), x),
{
    assert((x.n * z.d) * x.d == x.n * (z.d * x.d)) by (nonlinear_arith);
}

/// Adding two fractions to a common third denotes the same rational
/// number whichever of the two is added first.
pub proof fn lemma_add_swap(x: Frac, y: Frac, z: Frac)
    requires
        frac_wf(x),
        frac_wf(y),
        frac_wf(z),
    ensures
        frac_eq(add_raw(x, add_raw(y, z)), add_raw(y, add_raw(x, z))),
{
    let l = add_raw(x, add_raw(y, z));
    let r = add_raw(y, add_raw(x, z));
    lemma_distrib(y.n * z.d, z.n * y.d, x.d);
    lemma_distrib(x.n * z.d, z.n * x.d, y.d);
    assert(x.n * (y.d * z.d) == (x.n * z.d) * y.d) by (nonlinear_arith);
    assert((y.n * z.d) * x.d == y.n * (x.d * z.d)) by (nonlinear_arith);
    assert((z.n * y.d) * x.d == (z.n * x.d) * y.d) by (nonlinear_arith);
    assert(x.d * (y.d * z.d) == y.d * (x.d * z.d)) by (nonlinear_arith);
    assert(l.n == r.n);
    assert(l.d == r.d);
}

/// Grouping does not matter when adding three fractions.
pub proof fn lemma_add_assoc(x: Frac, y: Frac, z: Frac)
    requires
        frac_wf(x),
        frac_wf(y),
        frac_wf(z),
    ensures
        frac_eq(add_raw(x, add_raw(y, z)), add_raw(add_raw(x, y), z)),
{
    let l = add_raw(x, add_raw(y, z));
    let r = add_raw(add_raw(x, y), z);
    lemma_distrib(y.n * z.d, z.n * y.d, x.d);
    lemma_distrib(x.n * y.d, y.n * x.d, z.d);
    assert(x.n * (y.d * z.d) == (x.n * y.d) * z.d) by (nonlinear_arith);
    assert((y.n * z.d) * x.d == (y.n * x.d) * z.d) by (nonlinear_arith);
    assert((z.n * y.d) * x.d == z.n * (x.d * y.d)) by (nonlinear_arith);
    assert(x.d * (y.d * z.d) == (x.d * y.d) * z.d) by (nonlinear_arith);
    assert(l.n == r.n);
    assert(l.d == r.d);
}

/// Scaling back by the integer just divided by restores the fraction's
/// value.
pub proof fn lemma_scale_divide_cancel(y: Frac, t: int)
    requires
        frac_wf(y),
        t >= 1,
    ensures
        frac_eq(scale_raw(divide_raw(y, t), t), y),
{
    assert((y.n * t) * y.d == y.n * (y.d * t)) by (nonlinear_arith);
}

/// The reduced fraction `x` fits the executable representation: numerator
/// in `-i64::MAX ..= i64::MAX`, denominator in `1 ..= i64::MAX`.
pub open spec fn fits(x: Frac) -> bool {
    &&& -(i64::MAX as int) <= x.n <= i64::MAX as int
    &&& 1 <= x.d <= i64::MAX as int
}

/// An exact rational number held as an `i64` fraction with positive
/// denominator. Values built by this crate are always gcd-reduced, so
/// equal values have equal representations.
#[derive(Clone, Copy, PartialEq, Eq, Structural, Debug)]
pub struct Ratio {
    num: i64,
    den: i64,
}

impl View for Ratio {
    type V = Frac;

    closed spec fn view(&self) -> Frac {
        Frac { n: self.num as int, d: self.den as int }
    }
}

impl Ratio {
    /// The representation is a well-formed fraction that the arithmetic
    /// here can take: positive denominator, numerator above `i64::MIN`.
    pub open spec fn wf(&self) -> bool {
        fits(self@)
    }

    /// The numerator.
    pub fn numer(&self) -> (r: i64)
        ensures
            r as int == self@.n,
    {
        self.num
    }

    /// The denominator.
    pub fn denom(&self) -> (r: i64)
        ensures
            r as int == self@.d,
    {
        self.den
    }

    /// The rational number `num / den`, stored reduced.
    pub fn new(num: i64, den: i64) -> (r: Ratio)
        requires
            num > i64::MIN,
            den >= 1,
        ensures
            r.wf(),
            r@ == norm((Frac { n: num as int, d: den as int })),
            frac_eq(r@, (Frac { n: num as int, d: den as int })),
    {
        proof {
            lemma_norm(Frac { n: num as int, d: den as int });
        }
        let r = reduce_i128(num as i128, den as i128);
        match r {
            Option::Some(c) => c,
            Option::None => {
                proof {
                    assert(false);
                }
                Ratio { num: 0, den: 1 }
            },
        }
    }

    /// The rational number `n / 1`.
    pub fn from_int(n: i64) -> (r: Ratio)
        requires
            n > i64::MIN,
        ensures
            r.wf(),
            r@ == (Frac { n: n as int, d: 1 }),
    {
        Ratio { num: n, den: 1 }
    }
}

/// Euclid's algorithm.
fn gcd_u128(a0: u128, b0: u128) -> (g: u128)
    ensures
        g as int == gcd(a0 as int, b0 as int),
{
    let mut a = a0;
    let mut b = b0;
    while b != 0
        invariant
            gcd(a as int, b as int) == gcd(a0 as int, b0 as int),
        decreases b,
    {
        let r = a % b;
        a = b;
        b = r;
    }
    a
}

/// Reduce the raw fraction `n / d` by the gcd of its components' magnitudes
/// and narrow it to `i64`s, reporting `None` when even the reduced fraction
/// does not fit.
fn reduce_i128(n: i128, d: i128) -> (r: Option<Ratio>)
    requires
        d >= 1,
        n > i128::MIN,
    ensures
        r matches Some(c) ==> c.wf() && c@ == norm((Frac { n: n as int, d: d as int })),
        (r is Some) <==> fits(norm((Frac { n: n as int, d: d as int }))),
{
    let ghost x = Frac { n: n as int, d: d as int };
    proof {
        lemma_norm(x);
    }
    let neg = n < 0;
    let a: u128 = if neg {
        (-n) as u128
    } else {
        n as u128
    };
    let dd: u128 = d as u128;
    proof {
        lemma_gcd(a as int, dd as int);
    }
    let g = gcd_u128(a, dd);
    let rn = a / g;
    let rd = dd / g;
    proof {
        assert(a as int == iabs(x.n));
        assert(rn as int == iabs(norm(x).n));
        assert(rd as int == norm(x).d);
    }
    if rn <= i64::MAX as u128 && rd <= i64::MAX as u128 {
        let num: i64 = if neg {
            -(rn as i64)
        } else {
            rn as i64
        };
        Some(Ratio { num, den: rd as i64 })
    } else {
        None
    }
}

/// `|x * y| <= bx * by` whenever `|x| <= bx` and `|y| <= by`.
proof fn lemma_mul_bound(x: int, y: int, bx: int, by: int)
    by (nonlinear_arith)
    requires
        -bx <= x <= bx,
        -by <= y <= by,
        0 <= bx,
        0 <= by,
    ensures
        -(bx * by) <= x * y <= bx * by,
{
}

/// The reduced sum of two ratios, or `None` when it does not fit.
pub(crate) fn add_ratio(a: &Ratio, b: &Ratio) -> (r: Option<Ratio>)
    requires
        a.wf(),
        b.wf(),
    ensures
        r matches Some(c) ==> c.wf() && c@ == norm(add_raw(a@, b@)),
        (r is Some) <==> fits(norm(add_raw(a@, b@))),
{
    proof {
        lemma_mul_bound(a@.n, b@.d, i64::MAX as int, i64::MAX as int);
        lemma_mul_bound(b@.n, a@.d, i64::MAX as int, i64::MAX as int);
        lemma_mul_bound(a@.d, b@.d, i64::MAX as int, i64::MAX as int);
        lemma_mul_bound(1, 1, a@.d, b@.d);
    }
    let n: i128 = (a.num as i128) * (b.den as i128) + (b.num as i128) * (a.den as i128);
    let d: i128 = (a.den as i128) * (b.den as i128);
    reduce_i128(n, d)
}

/// The reduced difference of two ratios, or `None` when it does not fit.
pub(crate) fn sub_ratio(a: &Ratio, b: &Ratio) -> (r: Option<Ratio>)
    requires
        a.wf(),
        b.wf(),
    ensures
        r matches Some(c) ==> c.wf() && c@ == norm(sub_raw(a@, b@)),
        (r is Some) <==> fits(norm(sub_raw(a@, b@))),
{
    proof {
        lemma_mul_bound(a@.n, b@.d, i64::MAX as int, i64::MAX as int);
        lemma_mul_bound(b@.n, a@.d, i64::MAX as int, i64::MAX as int);
        lemma_mul_bound(a@.d, b@.d, i64::MAX as int, i64::MAX as int);
        lemma_mul_bound(1, 1, a@.d, b@.d);
    }
    let n: i128 = (a.num as i128) * (b.den as i128) - (b.num as i128) * (a.den as i128);
    let d: i128 = (a.den as i128) * (b.den as i128);
    reduce_i128(n, d)
}

/// The reduced product of two ratios, or `None` when it does not fit.
pub(crate) fn mul_ratio(a: &Ratio, b: &Ratio) -> (r: Option<Ratio>)
    requires
        a.wf(),
        b.wf(),
    ensures
        r matches Some(c) ==> c.wf() && c@ == norm(mul_raw(a@, b@)),
        (r is Some) <==> fits(norm(mul_raw(a@, b@))),
{
    proof {
        lemma_mul_bound(a@.n, b@.n, i64::MAX as int, i64::MAX as int);
        lemma_mul_bound(a@.d, b@.d, i64::MAX as int, i64::MAX as int);
        lemma_mul_bound(1, 1, a@.d, b@.d);
    }
    let n: i128 = (a.num as i128) * (b.num as i128);
    let d: i128 = (a.den as i128) * (b.den as i128);
    reduce_i128(n, d)
}

/// The reduced product of a ratio and the integer `w`, or `None` when it
/// does not fit.
pub(crate) fn scale_ratio(a: &Ratio, w: u64) -> (r: Option<Ratio>)
    requires
        a.wf(),
    ensures
        r matches Some(c) ==> c.wf() && c@ == norm(scale_raw(a@, w as int)),
        (r is Some) <==> fits(norm(scale_raw(a@, w as int))),
{
    proof {
        lemma_mul_bound(a@.n, w as int, i64::MAX as int, u64::MAX as int);
    }
    let n: i128 = (a.num as i128) * (w as i128);
    reduce_i128(n, a.den as i128)
}

/// The reduced quotient of a ratio by the positive integer `t`, or `None`
/// when it does not fit.
pub(crate) fn divide_ratio(a: &Ratio, t: u64) -> (r: Option<Ratio>)
    requires
        a.wf(),
        t >= 1,
    ensures
        r matches Some(c) ==> c.wf() && c@ == norm(divide_raw(a@, t as int)),
        (r is Some) <==> fits(norm(divide_raw(a@, t as int))),
{
    proof {
        lemma_mul_bound(a@.d, t as int, i64::MAX as int, u64::MAX as int);
        lemma_mul_bound(1, 1, a@.d, t as int);
    }
    let d: i128 = (a.den as i128) * (t as i128);
    reduce_i128(a.num as i128, d)
}

} // verus!

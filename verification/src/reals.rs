//! What an exact number amounts to in real numbers.
//!
//! A `Surd` stands for `p + q·√2` with the rational numbers
//! `p = rat / 2^exp` and `q = irr / 2^exp`. Because `√2` is irrational the
//! pair `(p, q)` determines the number. `Number` is that pair; the lemmas
//! here show that the arithmetic of the model is the arithmetic of numbers,
//! and that a number has one writing in lowest terms only.
use crate::complex::Amplitude;
use crate::surd::{lemma_reduce_shrinks, root_positive, Surd, SAMPLE_BITS};
use vstd::arithmetic::power2::{lemma2_to64_rest, lemma_pow2_adds, lemma_pow2_pos};
use vstd::arithmetic::power2::{lemma_pow2_unfold, pow2};
use vstd::prelude::*;

verus! {

/// The number `rational + radical·√2`.
pub struct Number {
    pub rational: real,
    pub radical: real,
}

impl Number {
    /// The sum `(p + r) + (q + s)√2`.
    pub open spec fn add(self, other: Number) -> Number {
        Number {
            rational: self.rational + other.rational,
            radical: self.radical + other.radical,
        }
    }

    /// The difference `(p - r) + (q - s)√2`.
    pub open spec fn sub(self, other: Number) -> Number {
        Number {
            rational: self.rational - other.rational,
            radical: self.radical - other.radical,
        }
    }

    /// Whether the number is greater than zero. With both coefficients of
    /// one sign this is read off directly; with opposite signs `p` and
    /// `q√2` are compared by their squares.
    pub open spec fn positive(self) -> bool {
        let (p, q) = (self.rational, self.radical);
        ||| p > 0real && q >= 0real
        ||| p >= 0real && q > 0real
        ||| p > 0real && q < 0real && p * p > 2real * (q * q)
        ||| p < 0real && q > 0real && 2real * (q * q) > p * p
    }

    /// The quotient by `√2`: `(p + q√2)/√2 = q + (p/2)√2`.
    pub open spec fn over_root2(self) -> Number {
        Number { rational: self.radical, radical: self.rational / 2real }
    }

    /// The half `p/2 + (q/2)√2`.
    pub open spec fn half(self) -> Number {
        Number { rational: self.rational / 2real, radical: self.radical / 2real }
    }

    /// The product `(p + q√2)(r + s√2) = (pr + 2qs) + (ps + qr)√2`.
    #[verifier::opaque]
    pub open spec fn mul(self, other: Number) -> Number {
        Number {
            rational: self.rational * other.rational + 2real * (self.radical * other.radical),
            radical: self.rational * other.radical + self.radical * other.rational,
        }
    }
}

/// The complex number `re + im·i` whose parts are numbers.
pub struct ComplexNumber {
    pub re: Number,
    pub im: Number,
}

impl ComplexNumber {
    /// The sum, part by part.
    pub open spec fn add(self, other: ComplexNumber) -> ComplexNumber {
        ComplexNumber { re: self.re.add(other.re), im: self.im.add(other.im) }
    }

    /// The difference, part by part.
    pub open spec fn sub(self, other: ComplexNumber) -> ComplexNumber {
        ComplexNumber { re: self.re.sub(other.re), im: self.im.sub(other.im) }
    }

    /// The product `(a + bi)(c + di) = (ac - bd) + (ad + bc)i`.
    pub open spec fn mul(self, other: ComplexNumber) -> ComplexNumber {
        ComplexNumber {
            re: self.re.mul(other.re).sub(self.im.mul(other.im)),
            im: self.re.mul(other.im).add(self.im.mul(other.re)),
        }
    }

    /// The squared magnitude `re² + im²`.
    pub open spec fn norm_sq(self) -> Number {
        self.re.mul(self.re).add(self.im.mul(self.im))
    }
}

impl Surd {
    /// The rational part `rat / 2^exp`.
    pub open spec fn rational(self) -> real {
        self.rat as real / (pow2(self.exp) as real)
    }

    /// The coefficient `irr / 2^exp` of `√2`.
    pub open spec fn radical(self) -> real {
        self.irr as real / (pow2(self.exp) as real)
    }

    /// The number that the writing stands for.
    pub open spec fn number(self) -> Number {
        Number { rational: self.rational(), radical: self.radical() }
    }
}

impl Amplitude {
    /// The complex number that the amplitude stands for.
    pub open spec fn number(self) -> ComplexNumber {
        ComplexNumber { re: self.re.number(), im: self.im.number() }
    }
}

/// The real number of an integer product is the product of the real numbers.
proof fn lemma_product_cast(a: int, b: int)
    by (nonlinear_arith)
    ensures
        (a * b) as real == (a as real) * (b as real),
{
}

/// A quotient depends on the values of dividend and divisor only.
pub(crate) proof fn lemma_quotient_value(x: real, d: real, c: real)
    by (nonlinear_arith)
    requires
        d == c,
        c > 0real,
    ensures
        x / d == x / c,
{
}

/// A quotient keeps its value when numerator and denominator take the same
/// positive factor.
proof fn lemma_quotient_scale(a: int, d: int, k: int)
    requires
        d > 0,
        k > 0,
    ensures
        (a * k) as real / ((d * k) as real) == a as real / (d as real),
{
    let ar = a as real;
    let dr = d as real;
    let kr = k as real;
    assert((a * k) as real == ar * kr) by (nonlinear_arith)
        requires
            ar == a as real,
            kr == k as real,
    ;
    assert((d * k) as real == dr * kr) by (nonlinear_arith)
        requires
            dr == d as real,
            kr == k as real,
    ;
    assert((ar * kr) / (dr * kr) == ar / dr) by (nonlinear_arith)
        requires
            dr > 0real,
            kr > 0real,
    ;
}

/// The quotient of a sum is the sum of the quotients.
proof fn lemma_quotient_sum(x: real, y: real, d: real)
    by (nonlinear_arith)
    requires
        d > 0real,
    ensures
        (x + y) / d == x / d + y / d,
{
}

/// The quotient of a difference is the difference of the quotients.
proof fn lemma_quotient_difference(x: real, y: real, d: real)
    by (nonlinear_arith)
    requires
        d > 0real,
    ensures
        (x - y) / d == x / d - y / d,
{
}

/// A quotient times its divisor gives the dividend back.
proof fn lemma_quotient_cancel(x: real, d: real)
    by (nonlinear_arith)
    requires
        d > 0real,
    ensures
        (x / d) * d == x,
{
}

/// The quotient of a multiple of the divisor is the other factor.
proof fn lemma_quotient_of_multiple(v: real, d: real)
    by (nonlinear_arith)
    requires
        d > 0real,
    ensures
        (v * d) / d == v,
{
}

/// The product of two quotients is the quotient of the products.
proof fn lemma_quotient_product(x: real, d: real, y: real, e: real)
    requires
        d > 0real,
        e > 0real,
    ensures
        (x * y) / (d * e) == (x / d) * (y / e),
{
    let u = x / d;
    let v = y / e;
    lemma_quotient_cancel(x, d);
    lemma_quotient_cancel(y, e);
    assert(x * y == (u * v) * (d * e)) by (nonlinear_arith)
        requires
            x == u * d,
            y == v * e,
    ;
    assert(d * e > 0real) by (nonlinear_arith)
        requires
            d > 0real,
            e > 0real,
    ;
    lemma_quotient_of_multiple(u * v, d * e);
}

/// Equal quotients with positive divisors have equal cross products.
proof fn lemma_cross_products(x: int, d: int, y: int, e: int)
    requires
        d > 0,
        e > 0,
        x as real / (d as real) == y as real / (e as real),
    ensures
        x * e == y * d,
{
    let (xr, dr, yr, er) = (x as real, d as real, y as real, e as real);
    lemma_quotient_cancel(xr, dr);
    lemma_quotient_cancel(yr, er);
    let v = xr / dr;
    assert(xr * er == yr * dr) by (nonlinear_arith)
        requires
            xr == v * dr,
            yr == v * er,
    ;
    lemma_product_cast(x, e);
    lemma_product_cast(y, d);
}

/// If `x·p == y·p·2^k` with positive `p` and `k`, then `x` is even.
proof fn lemma_even_multiple(x: int, y: int, p: int, k: nat)
    requires
        p > 0,
        k > 0,
        x * p == y * (p * pow2(k)),
    ensures
        x % 2 == 0,
{
    lemma_pow2_unfold(k);
    let h = pow2((k - 1) as nat) as int;
    assert(x == 2 * (y * h)) by (nonlinear_arith)
        requires
            p > 0,
            x * p == y * (p * (2 * h)),
    ;
}

/// A common positive factor can be cancelled.
proof fn lemma_cancel_factor(x: int, y: int, p: int)
    by (nonlinear_arith)
    requires
        p > 0,
        x * p == y * p,
    ensures
        x == y,
{
}

/// A positive factor keeps the sign of a real number.
proof fn lemma_sign_scale(p: real, d: real)
    by (nonlinear_arith)
    requires
        d > 0real,
    ensures
        p * d > 0real <==> p > 0real,
        p * d < 0real <==> p < 0real,
{
}

/// The square of a product is the product of the squares.
proof fn lemma_square_scale(p: real, d: real)
    by (nonlinear_arith)
    ensures
        (p * d) * (p * d) == (p * p) * (d * d),
{
}

/// A positive factor keeps the order of two real numbers.
proof fn lemma_order_scale(u: real, v: real, k: real)
    by (nonlinear_arith)
    requires
        k > 0real,
    ensures
        u * k > v * k <==> u > v,
{
}

/// Whether `x + y√2 > 0` does not change when both coefficients are
/// divided by one positive number.
proof fn lemma_positive_scale(x: int, y: int, d: real)
    requires
        d > 0real,
    ensures
        root_positive(x, y) == (Number { rational: x as real / d, radical: y as real / d }).positive(),
{
    let (xr, yr) = (x as real, y as real);
    let (p, q) = (xr / d, yr / d);
    lemma_quotient_cancel(xr, d);
    lemma_quotient_cancel(yr, d);
    lemma_sign_scale(p, d);
    lemma_sign_scale(q, d);
    lemma_square_scale(p, d);
    lemma_square_scale(q, d);
    lemma_sign_scale(d, d);
    lemma_order_scale(p * p, 2real * (q * q), d * d);
    assert((2real * (q * q)) * (d * d) == 2real * ((q * q) * (d * d))) by (nonlinear_arith);
    lemma_order_scale(2real * (q * q), p * p, d * d);
    lemma_product_cast(x, x);
    lemma_product_cast(y, y);
    assert(x * x > 2 * (y * y) <==> p * p > 2real * (q * q));
    assert(2 * (y * y) > x * x <==> 2real * (q * q) > p * p);
}

/// Writing a number over a larger denominator does not change it.
pub proof fn lemma_raised_same(s: Surd, exp: nat)
    requires
        s.exp <= exp,
    ensures
        s.raised(exp).number() == s.number(),
{
    let d = (exp - s.exp) as nat;
    lemma_pow2_adds(s.exp, d);
    lemma_pow2_pos(s.exp);
    lemma_pow2_pos(d);
    lemma_quotient_scale(s.rat, pow2(s.exp) as int, pow2(d) as int);
    lemma_quotient_scale(s.irr, pow2(s.exp) as int, pow2(d) as int);
}

/// Bringing a number to lowest terms does not change it.
pub proof fn lemma_reduce_same(s: Surd)
    ensures
        s.reduce().number() == s.number(),
    decreases s.exp,
{
    if !s.reduced() {
        let h = s.halved();
        lemma_reduce_same(h);
        lemma_pow2_unfold(s.exp);
        lemma_pow2_pos(h.exp);
        lemma_quotient_scale(h.rat, pow2(h.exp) as int, 2);
        lemma_quotient_scale(h.irr, pow2(h.exp) as int, 2);
    }
}

/// The sum of the model is the sum of the numbers.
pub proof fn lemma_add_value(a: Surd, b: Surd)
    ensures
        a.add(b).number() == a.number().add(b.number()),
{
    let exp = a.common_exp(b);
    let x = a.raised(exp);
    let y = b.raised(exp);
    let sum = Surd { rat: x.rat + y.rat, irr: x.irr + y.irr, exp };
    lemma_raised_same(a, exp);
    lemma_raised_same(b, exp);
    lemma_reduce_same(sum);
    lemma_pow2_pos(exp);
    let d = pow2(exp) as real;
    lemma_quotient_sum(x.rat as real, y.rat as real, d);
    lemma_quotient_sum(x.irr as real, y.irr as real, d);
}

/// The difference of the model is the difference of the numbers.
pub proof fn lemma_sub_value(a: Surd, b: Surd)
    ensures
        a.sub(b).number() == a.number().sub(b.number()),
{
    let exp = a.common_exp(b);
    let x = a.raised(exp);
    let y = b.raised(exp);
    let difference = Surd { rat: x.rat - y.rat, irr: x.irr - y.irr, exp };
    lemma_raised_same(a, exp);
    lemma_raised_same(b, exp);
    lemma_reduce_same(difference);
    lemma_pow2_pos(exp);
    let d = pow2(exp) as real;
    lemma_quotient_difference(x.rat as real, y.rat as real, d);
    lemma_quotient_difference(x.irr as real, y.irr as real, d);
}

/// The product of the model is the product of the numbers.
pub proof fn lemma_mul_value(a: Surd, b: Surd)
    ensures
        a.mul(b).number() == a.number().mul(b.number()),
{
    reveal(Number::mul);
    let product = Surd {
        rat: a.rat * b.rat + 2 * (a.irr * b.irr),
        irr: a.rat * b.irr + a.irr * b.rat,
        exp: a.exp + b.exp,
    };
    lemma_reduce_same(product);
    lemma_pow2_adds(a.exp, b.exp);
    lemma_pow2_pos(a.exp);
    lemma_pow2_pos(b.exp);
    let da = pow2(a.exp) as real;
    let db = pow2(b.exp) as real;
    let d = pow2(product.exp) as real;
    let (p, q) = (a.rat as real, a.irr as real);
    let (r, s) = (b.rat as real, b.irr as real);
    lemma_product_cast(a.rat, b.rat);
    lemma_product_cast(a.irr, b.irr);
    lemma_product_cast(a.rat, b.irr);
    lemma_product_cast(a.irr, b.rat);
    lemma_product_cast(pow2(a.exp) as int, pow2(b.exp) as int);
    assert(d == da * db);
    assert(d > 0real) by (nonlinear_arith)
        requires
            d == da * db,
            da > 0real,
            db > 0real,
    ;
    lemma_quotient_product(p, da, r, db);
    lemma_quotient_product(q, da, s, db);
    lemma_quotient_product(p, da, s, db);
    lemma_quotient_product(q, da, r, db);
    lemma_quotient_sum(p * r, 2real * (q * s), d);
    lemma_quotient_sum(q * s, q * s, d);
    lemma_quotient_sum(p * s, q * r, d);
    assert(product.rat as real == p * r + 2real * (q * s));
    assert(product.irr as real == p * s + q * r);
}

/// The order of the model is the order of the numbers: `a < b` exactly
/// when `b - a` is a positive number.
pub proof fn lemma_lt_value(a: Surd, b: Surd)
    ensures
        a.lt(b) == b.number().sub(a.number()).positive(),
{
    let exp = a.common_exp(b);
    let x = a.raised(exp);
    let y = b.raised(exp);
    lemma_raised_same(a, exp);
    lemma_raised_same(b, exp);
    lemma_pow2_pos(exp);
    let d = pow2(exp) as real;
    lemma_quotient_difference(y.rat as real, x.rat as real, d);
    lemma_quotient_difference(y.irr as real, x.irr as real, d);
    lemma_positive_scale(y.rat - x.rat, y.irr - x.irr, d);
}

/// A unit sample stands for the top bits of its word over `2^53`, a
/// rational number in `[0, 1)`.
pub proof fn lemma_unit_sample_number(word: u64)
    ensures
        Surd::unit_sample(word).number() == (Number {
            rational: (word as int / 2048) as real / 9007199254740992real,
            radical: 0real,
        }),
{
    let raw = Surd { rat: word as int / 2048, irr: 0, exp: SAMPLE_BITS as nat };
    lemma_reduce_same(raw);
    lemma2_to64_rest();
    lemma_quotient_value(raw.rat as real, pow2(raw.exp) as real, 9007199254740992real);
    lemma_quotient_value(0real, pow2(raw.exp) as real, 9007199254740992real);
}

/// One of two writings of a number with the larger exponent is not in
/// lowest terms.
proof fn lemma_larger_exp_not_reduced(a: Surd, b: Surd)
    requires
        a.number() == b.number(),
        a.exp > b.exp,
    ensures
        !a.reduced(),
{
    let k = (a.exp - b.exp) as nat;
    let p = pow2(b.exp) as int;
    lemma_pow2_pos(a.exp);
    lemma_pow2_pos(b.exp);
    lemma_pow2_adds(b.exp, k);
    lemma_cross_products(a.rat, pow2(a.exp) as int, b.rat, p);
    lemma_cross_products(a.irr, pow2(a.exp) as int, b.irr, p);
    lemma_even_multiple(a.rat, b.rat, p, k);
    lemma_even_multiple(a.irr, b.irr, p, k);
}

/// A number has one writing in lowest terms only.
pub proof fn lemma_reduced_unique(a: Surd, b: Surd)
    requires
        a.reduced(),
        b.reduced(),
        a.number() == b.number(),
    ensures
        a == b,
{
    if a.exp > b.exp {
        lemma_larger_exp_not_reduced(a, b);
    } else if b.exp > a.exp {
        lemma_larger_exp_not_reduced(b, a);
    } else {
        let p = pow2(a.exp) as int;
        lemma_pow2_pos(a.exp);
        lemma_cross_products(a.rat, p, b.rat, p);
        lemma_cross_products(a.irr, p, b.irr, p);
        lemma_cancel_factor(a.rat, b.rat, p);
        lemma_cancel_factor(a.irr, b.irr, p);
    }
}

/// Sums, differences and products of the model are in lowest terms and
/// stand for the sum, difference and product of the numbers.
pub proof fn lemma_surd_results(a: Surd, b: Surd)
    ensures
        a.add(b).reduced(),
        a.add(b).number() == a.number().add(b.number()),
        a.sub(b).reduced(),
        a.sub(b).number() == a.number().sub(b.number()),
        a.mul(b).reduced(),
        a.mul(b).number() == a.number().mul(b.number()),
{
    lemma_add_value(a, b);
    lemma_sub_value(a, b);
    lemma_mul_value(a, b);
    let exp = a.common_exp(b);
    let x = a.raised(exp);
    let y = b.raised(exp);
    lemma_reduce_shrinks(Surd { rat: x.rat + y.rat, irr: x.irr + y.irr, exp });
    lemma_reduce_shrinks(Surd { rat: x.rat - y.rat, irr: x.irr - y.irr, exp });
    lemma_reduce_shrinks(
        Surd {
            rat: a.rat * b.rat + 2 * (a.irr * b.irr),
            irr: a.rat * b.irr + a.irr * b.rat,
            exp: a.exp + b.exp,
        },
    );
}

/// Sums, differences, products and squared magnitudes of complex numbers
/// of the model have parts in lowest terms and stand for the sum,
/// difference, product and squared magnitude of the complex numbers.
pub proof fn lemma_amplitude_results(a: Amplitude, b: Amplitude)
    ensures
        a.add(b).canonical(),
        a.add(b).number() == a.number().add(b.number()),
        a.sub(b).canonical(),
        a.sub(b).number() == a.number().sub(b.number()),
        a.mul(b).canonical(),
        a.mul(b).number() == a.number().mul(b.number()),
        a.norm_sq().reduced(),
        a.norm_sq().number() == a.number().norm_sq(),
{
    lemma_surd_results(a.re, b.re);
    lemma_surd_results(a.im, b.im);
    lemma_surd_results(a.re, b.im);
    lemma_surd_results(a.im, b.re);
    lemma_surd_results(a.re.mul(b.re), a.im.mul(b.im));
    lemma_surd_results(a.re.mul(b.im), a.im.mul(b.re));
    lemma_surd_results(a.re, a.re);
    lemma_surd_results(a.im, a.im);
    lemma_surd_results(a.re.mul(a.re), a.im.mul(a.im));
}

/// Two amplitudes with parts in lowest terms that stand for one complex
/// number are the same amplitude.
pub proof fn lemma_amplitude_unique(a: Amplitude, b: Amplitude)
    requires
        a.canonical(),
        b.canonical(),
        a.number() == b.number(),
    ensures
        a == b,
{
    lemma_reduced_unique(a.re, b.re);
    lemma_reduced_unique(a.im, b.im);
}

} // verus!

//! The ring laws of the arithmetic.
//!
//! Sums and products of the model are in lowest terms, and a number has one
//! writing in lowest terms only; so two results are equal as soon as
//! they stand for the same number. The laws are therefore shown for
//! numbers first and carried over to the model.
use crate::complex::Amplitude;
use crate::reals::{lemma_add_value, lemma_mul_value, lemma_reduced_unique};
use crate::reals::{lemma_amplitude_results, lemma_amplitude_unique};
use crate::reals::{lemma_quotient_value, lemma_surd_results, ComplexNumber, Number};
use crate::surd::Surd;
use vstd::arithmetic::power2::{lemma2_to64, pow2};
use vstd::prelude::*;

verus! {

/// Multiplication of real numbers distributes over addition.
proof fn lemma_real_distributes(a: real, b: real, c: real)
    by (nonlinear_arith)
    ensures
        a * (b + c) == a * b + a * c,
        (b + c) * a == b * a + c * a,
        a * (b - c) == a * b - a * c,
        (b - c) * a == b * a - c * a,
{
}

/// Multiplication of real numbers is associative.
proof fn lemma_real_associates(a: real, b: real, c: real)
    by (nonlinear_arith)
    ensures
        (a * b) * c == a * (b * c),
{
}

/// Multiplication of real numbers is commutative.
proof fn lemma_real_commutes(a: real, b: real)
    by (nonlinear_arith)
    ensures
        a * b == b * a,
{
}

/// A factor two can be moved out of a product of real numbers.
proof fn lemma_real_double(a: real, b: real)
    by (nonlinear_arith)
    ensures
        a * (2real * b) == 2real * (a * b),
        (2real * a) * b == 2real * (a * b),
{
}

/// A divisor two can be moved out of a product of real numbers.
proof fn lemma_real_half(a: real, b: real)
    by (nonlinear_arith)
    ensures
        a * (b / 2real) == (a * b) / 2real,
        (a / 2real) * b == (a * b) / 2real,
{
}

/// A product with zero is zero.
proof fn lemma_real_zero(a: real)
    by (nonlinear_arith)
    ensures
        a * 0real == 0real,
        0real * a == 0real,
{
}

/// The product of numbers does not depend on the order of the factors.
pub proof fn lemma_number_mul_commutes(a: Number, b: Number)
    ensures
        a.mul(b) == b.mul(a),
{
    reveal(Number::mul);
    lemma_real_commutes(a.rational, b.rational);
    lemma_real_commutes(a.radical, b.radical);
    lemma_real_commutes(a.rational, b.radical);
    lemma_real_commutes(a.radical, b.rational);
}

/// The product of numbers is associative.
pub proof fn lemma_number_mul_associates(a: Number, b: Number, c: Number)
    ensures
        a.mul(b).mul(c) == a.mul(b.mul(c)),
{
    reveal(Number::mul);
    let (p, q) = (a.rational, a.radical);
    let (r, s) = (b.rational, b.radical);
    let (t, u) = (c.rational, c.radical);
    // (ab)c, term by term
    lemma_real_distributes(t, p * r, 2real * (q * s));
    lemma_real_double(q * s, t);
    lemma_real_distributes(u, p * s, q * r);
    lemma_real_associates(p, r, t);
    lemma_real_associates(q, s, t);
    lemma_real_associates(p, s, u);
    lemma_real_associates(q, r, u);
    lemma_real_distributes(u, p * r, 2real * (q * s));
    lemma_real_double(q * s, u);
    lemma_real_distributes(t, p * s, q * r);
    lemma_real_associates(p, r, u);
    lemma_real_associates(q, s, u);
    lemma_real_associates(p, s, t);
    lemma_real_associates(q, r, t);
    // a(bc), term by term
    lemma_real_distributes(p, r * t, 2real * (s * u));
    lemma_real_double(p, s * u);
    lemma_real_distributes(q, r * u, s * t);
    lemma_real_distributes(p, r * u, s * t);
    lemma_real_distributes(q, r * t, 2real * (s * u));
    lemma_real_double(q, s * u);
}

/// The product of numbers distributes over sum and difference, on either
/// side.
pub proof fn lemma_number_mul_distributes(a: Number, b: Number, c: Number)
    ensures
        a.mul(b.add(c)) == a.mul(b).add(a.mul(c)),
        a.mul(b.sub(c)) == a.mul(b).sub(a.mul(c)),
        b.add(c).mul(a) == b.mul(a).add(c.mul(a)),
        b.sub(c).mul(a) == b.mul(a).sub(c.mul(a)),
{
    reveal(Number::mul);
    let (p, q) = (a.rational, a.radical);
    let (r, s) = (b.rational, b.radical);
    let (t, u) = (c.rational, c.radical);
    lemma_real_distributes(p, r, t);
    lemma_real_distributes(q, s, u);
    lemma_real_distributes(p, s, u);
    lemma_real_distributes(q, r, t);
}

/// The squares of a sum and of a difference add up to twice the sum of the
/// squares: `(a + b)² + (a - b)² = 2(a² + b²)`.
pub proof fn lemma_number_square_sum(a: Number, b: Number)
    ensures
        a.add(b).mul(a.add(b)).add(a.sub(b).mul(a.sub(b))).half() == a.mul(a).add(b.mul(b)),
{
    lemma_number_mul_distributes(a.add(b), a, b);
    lemma_number_mul_distributes(a.sub(b), a, b);
    lemma_number_mul_distributes(a, a, b);
    lemma_number_mul_distributes(b, a, b);
}

/// The numbers of zero, of one half and of the Hadamard factor: `0`, `1/2`
/// and `0 + (1/2)√2`.
pub proof fn lemma_constant_numbers()
    ensures
        Surd::integer(0).number() == (Number { rational: 0real, radical: 0real }),
        (Surd { rat: 1, irr: 0, exp: 1 }).number() == (Number {
            rational: 1real / 2real,
            radical: 0real,
        }),
        Surd::inv_sqrt2().number() == (Number { rational: 0real, radical: 1real / 2real }),
{
    lemma2_to64();
    let z = Surd::integer(0);
    let h = Surd::inv_sqrt2();
    let half = Surd { rat: 1, irr: 0, exp: 1 };
    assert(pow2(z.exp) as real == 1real);
    assert(pow2(h.exp) as real == 2real);
    lemma_quotient_value(0real, pow2(0) as real, 1real);
    lemma_quotient_value(0real, pow2(1) as real, 2real);
    lemma_quotient_value(1real, pow2(1) as real, 2real);
    assert(z.rational() == 0real);
    assert(z.radical() == 0real);
    assert(h.rational() == 0real);
    assert(h.radical() == 1real / 2real);
    assert(half.rational() == 1real / 2real);
    assert(half.radical() == 0real);
}

/// The product with the number of `1/√2` is the quotient by `√2`, and the
/// product with zero is zero.
pub proof fn lemma_number_mul_constants(n: Number)
    ensures
        n.mul(Surd::inv_sqrt2().number()) == n.over_root2(),
        n.mul(Surd::integer(0).number()) == Surd::integer(0).number(),
{
    reveal(Number::mul);
    lemma_constant_numbers();
    lemma_real_zero(n.rational);
    lemma_real_zero(n.radical);
    lemma_real_half(n.rational, 1real);
    lemma_real_half(n.radical, 1real);
    assert(n.rational * 1real == n.rational) by (nonlinear_arith);
    assert(n.radical * 1real == n.radical) by (nonlinear_arith);
}

/// The product of two quotients by `√2` is half the product.
pub proof fn lemma_number_mul_over_root2(n: Number, m: Number)
    ensures
        n.over_root2().mul(m.over_root2()) == n.mul(m).half(),
{
    reveal(Number::mul);
    let (p, q) = (n.rational, n.radical);
    let (r, s) = (m.rational, m.radical);
    lemma_real_half(p, r);
    lemma_real_half(p / 2real, r);
    lemma_real_half(p, r / 2real);
    lemma_real_half(q, r);
    lemma_real_half(p, s);
    lemma_real_commutes(q, s);
    lemma_real_commutes(q, r);
    lemma_real_commutes(p, s);
}

/// The product of complex numbers is associative.
pub proof fn lemma_complex_number_mul_associates(
    a: ComplexNumber,
    b: ComplexNumber,
    c: ComplexNumber,
)
    ensures
        a.mul(b).mul(c) == a.mul(b.mul(c)),
{
    let (x1, y1) = (a.re, a.im);
    let (x2, y2) = (b.re, b.im);
    let (x3, y3) = (c.re, c.im);
    lemma_number_mul_distributes(x3, x1.mul(x2), y1.mul(y2));
    lemma_number_mul_distributes(y3, x1.mul(y2), y1.mul(x2));
    lemma_number_mul_distributes(y3, x1.mul(x2), y1.mul(y2));
    lemma_number_mul_distributes(x3, x1.mul(y2), y1.mul(x2));
    lemma_number_mul_associates(x1, x2, x3);
    lemma_number_mul_associates(y1, y2, x3);
    lemma_number_mul_associates(x1, y2, y3);
    lemma_number_mul_associates(y1, x2, y3);
    lemma_number_mul_associates(x1, x2, y3);
    lemma_number_mul_associates(y1, y2, y3);
    lemma_number_mul_associates(x1, y2, x3);
    lemma_number_mul_associates(y1, x2, x3);
    lemma_number_mul_distributes(x1, x2.mul(x3), y2.mul(y3));
    lemma_number_mul_distributes(y1, x2.mul(y3), y2.mul(x3));
    lemma_number_mul_distributes(x1, x2.mul(y3), y2.mul(x3));
    lemma_number_mul_distributes(y1, x2.mul(x3), y2.mul(y3));
}

/// The product of complex numbers distributes over sum and difference, on
/// either side.
pub proof fn lemma_complex_number_mul_distributes(
    a: ComplexNumber,
    b: ComplexNumber,
    c: ComplexNumber,
)
    ensures
        a.mul(b.add(c)) == a.mul(b).add(a.mul(c)),
        a.mul(b.sub(c)) == a.mul(b).sub(a.mul(c)),
        b.add(c).mul(a) == b.mul(a).add(c.mul(a)),
        b.sub(c).mul(a) == b.mul(a).sub(c.mul(a)),
{
    lemma_number_mul_distributes(a.re, b.re, c.re);
    lemma_number_mul_distributes(a.im, b.im, c.im);
    lemma_number_mul_distributes(a.re, b.im, c.im);
    lemma_number_mul_distributes(a.im, b.re, c.re);
}

/// Two products can trade their inner factors: `(ab)(cd) = (ac)(bd)`.
pub proof fn lemma_number_mul_interchange(a: Number, b: Number, c: Number, d: Number)
    ensures
        a.mul(b).mul(c.mul(d)) == a.mul(c).mul(b.mul(d)),
{
    lemma_number_mul_associates(a, b, c.mul(d));
    lemma_number_mul_associates(b, c, d);
    lemma_number_mul_commutes(b, c);
    lemma_number_mul_associates(c, b, d);
    lemma_number_mul_associates(a, c, b.mul(d));
}

/// The squared magnitude of a product of complex numbers is the product of
/// the squared magnitudes.
pub proof fn lemma_complex_number_norm_multiplies(x: ComplexNumber, y: ComplexNumber)
    ensures
        x.mul(y).norm_sq() == x.norm_sq().mul(y.norm_sq()),
{
    let (p, q) = (x.re, x.im);
    let (r, s) = (y.re, y.im);
    let (pr, qs, ps, qr) = (p.mul(r), q.mul(s), p.mul(s), q.mul(r));
    let re = pr.sub(qs);
    let im = ps.add(qr);
    // the two squares, term by term
    lemma_number_mul_distributes(re, pr, qs);
    lemma_number_mul_distributes(pr, pr, qs);
    lemma_number_mul_distributes(qs, pr, qs);
    lemma_number_mul_distributes(im, ps, qr);
    lemma_number_mul_distributes(ps, ps, qr);
    lemma_number_mul_distributes(qr, ps, qr);
    // the product of the two sums, term by term
    let (pp, qq, rr, ss) = (p.mul(p), q.mul(q), r.mul(r), s.mul(s));
    lemma_number_mul_distributes(rr.add(ss), pp, qq);
    lemma_number_mul_distributes(pp, rr, ss);
    lemma_number_mul_distributes(qq, rr, ss);
    // matching terms
    lemma_number_mul_interchange(p, r, p, r);
    lemma_number_mul_interchange(q, s, q, s);
    lemma_number_mul_interchange(p, s, p, s);
    lemma_number_mul_interchange(q, r, q, r);
    lemma_number_mul_interchange(p, r, q, s);
    lemma_number_mul_interchange(q, s, p, r);
    lemma_number_mul_interchange(p, s, q, r);
    lemma_number_mul_interchange(q, r, p, s);
    lemma_number_mul_commutes(r, s);
}

/// Exact sums do not depend on the order of the terms.
pub proof fn lemma_surd_add_commutes(a: Surd, b: Surd)
    ensures
        a.add(b) == b.add(a),
{
}

/// Exact products do not depend on the order of the factors.
pub proof fn lemma_surd_mul_commutes(a: Surd, b: Surd)
    ensures
        a.mul(b) == b.mul(a),
{
    assert(a.rat * b.rat == b.rat * a.rat) by (nonlinear_arith);
    assert(a.irr * b.irr == b.irr * a.irr) by (nonlinear_arith);
    assert(a.rat * b.irr == b.irr * a.rat) by (nonlinear_arith);
    assert(a.irr * b.rat == b.rat * a.irr) by (nonlinear_arith);
}

/// Exact addition is associative.
pub proof fn lemma_surd_add_associates(a: Surd, b: Surd, c: Surd)
    ensures
        a.add(b).add(c) == a.add(b.add(c)),
{
    lemma_add_value(a, b);
    lemma_add_value(a.add(b), c);
    lemma_add_value(b, c);
    lemma_add_value(a, b.add(c));
    lemma_surd_results(a.add(b), c);
    lemma_surd_results(a, b.add(c));
    lemma_reduced_unique(a.add(b).add(c), a.add(b.add(c)));
}

/// Exact multiplication is associative.
pub proof fn lemma_surd_mul_associates(a: Surd, b: Surd, c: Surd)
    ensures
        a.mul(b).mul(c) == a.mul(b.mul(c)),
{
    lemma_mul_value(a, b);
    lemma_mul_value(a.mul(b), c);
    lemma_mul_value(b, c);
    lemma_mul_value(a, b.mul(c));
    lemma_surd_results(a.mul(b), c);
    lemma_surd_results(a, b.mul(c));
    lemma_number_mul_associates(a.number(), b.number(), c.number());
    lemma_reduced_unique(a.mul(b).mul(c), a.mul(b.mul(c)));
}

/// Exact multiplication distributes over addition.
pub proof fn lemma_surd_mul_distributes(a: Surd, b: Surd, c: Surd)
    ensures
        a.mul(b.add(c)) == a.mul(b).add(a.mul(c)),
{
    lemma_add_value(b, c);
    lemma_mul_value(a, b.add(c));
    lemma_mul_value(a, b);
    lemma_mul_value(a, c);
    lemma_add_value(a.mul(b), a.mul(c));
    lemma_surd_results(a, b.add(c));
    lemma_surd_results(a.mul(b), a.mul(c));
    lemma_number_mul_distributes(a.number(), b.number(), c.number());
    lemma_reduced_unique(a.mul(b.add(c)), a.mul(b).add(a.mul(c)));
}

/// Complex addition is commutative: `a + b == b + a` for all `a`, `b`.
pub proof fn lemma_add_commutes(a: Amplitude, b: Amplitude)
    ensures
        a.add(b) == b.add(a),
{
    lemma_surd_add_commutes(a.re, b.re);
    lemma_surd_add_commutes(a.im, b.im);
}

/// Complex multiplication is commutative: `a * b == b * a` for all `a`, `b`.
pub proof fn lemma_mul_commutes(a: Amplitude, b: Amplitude)
    ensures
        a.mul(b) == b.mul(a),
{
    lemma_surd_mul_commutes(a.re, b.re);
    lemma_surd_mul_commutes(a.im, b.im);
    lemma_surd_mul_commutes(a.re, b.im);
    lemma_surd_mul_commutes(a.im, b.re);
    lemma_surd_add_commutes(a.re.mul(b.im), a.im.mul(b.re));
}

/// Complex addition is associative.
pub proof fn lemma_add_associates(a: Amplitude, b: Amplitude, c: Amplitude)
    ensures
        a.add(b).add(c) == a.add(b.add(c)),
{
    lemma_surd_add_associates(a.re, b.re, c.re);
    lemma_surd_add_associates(a.im, b.im, c.im);
}

/// Complex multiplication is associative.
pub proof fn lemma_mul_associates(a: Amplitude, b: Amplitude, c: Amplitude)
    ensures
        a.mul(b).mul(c) == a.mul(b.mul(c)),
{
    lemma_amplitude_results(a.mul(b), c);
    lemma_amplitude_results(a, b);
    lemma_amplitude_results(a, b.mul(c));
    lemma_amplitude_results(b, c);
    lemma_complex_number_mul_associates(a.number(), b.number(), c.number());
    lemma_amplitude_unique(a.mul(b).mul(c), a.mul(b.mul(c)));
}

/// Complex multiplication distributes over addition.
pub proof fn lemma_mul_distributes(a: Amplitude, b: Amplitude, c: Amplitude)
    ensures
        a.mul(b.add(c)) == a.mul(b).add(a.mul(c)),
{
    lemma_amplitude_results(a, b.add(c));
    lemma_amplitude_results(b, c);
    lemma_amplitude_results(a.mul(b), a.mul(c));
    lemma_amplitude_results(a, b);
    lemma_amplitude_results(a, c);
    lemma_complex_number_mul_distributes(a.number(), b.number(), c.number());
    lemma_amplitude_unique(a.mul(b.add(c)), a.mul(b).add(a.mul(c)));
}

/// The squared magnitude of a complex product is the product of the
/// squared magnitudes: `|a·b|² == |a|²·|b|²`.
pub proof fn lemma_norm_multiplies(a: Amplitude, b: Amplitude)
    ensures
        a.mul(b).norm_sq() == a.norm_sq().mul(b.norm_sq()),
{
    lemma_amplitude_results(a, b);
    lemma_amplitude_results(a.mul(b), a.mul(b));
    lemma_amplitude_results(a, a);
    lemma_amplitude_results(b, b);
    lemma_surd_results(a.norm_sq(), b.norm_sq());
    lemma_complex_number_norm_multiplies(a.number(), b.number());
    lemma_reduced_unique(a.mul(b).norm_sq(), a.norm_sq().mul(b.norm_sq()));
}

} // verus!

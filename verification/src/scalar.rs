//! Scalars: exact numbers `(rat + irr·√2) / 2^exp` of any size.
use crate::integer::Integer;
use crate::natural::Natural;
use crate::surd::{lemma_reduce_shrinks, lemma_reduce_zero, Surd, SAMPLE_BITS};
use vstd::arithmetic::power2::{lemma2_to64, lemma_pow2_unfold, pow2};
use vstd::prelude::*;

verus! {

/// A real scalar of the simulator.
///
/// It holds an exact number in lowest terms. Numerators and exponent are of
/// any size, so sums, differences and products are exact and every
/// operation is total; time and memory grow with the size of the numbers.
#[derive(Debug, PartialEq, Eq)]
pub struct Scalar {
    rat: Integer,
    irr: Integer,
    exp: Natural,
}

impl View for Scalar {
    type V = Surd;

    closed spec fn view(&self) -> Surd {
        self.surd().reduce()
    }
}

impl Clone for Scalar {
    fn clone(&self) -> (r: Self)
        ensures
            r@ == self@,
    {
        proof {
            use_type_invariant(self);
        }
        Scalar { rat: self.rat.clone(), irr: self.irr.clone(), exp: self.exp.clone() }
    }
}

/// What a scalar holds is always in lowest terms.
pub proof fn lemma_scalar_canonical(s: Scalar)
    ensures
        s@.reduced(),
{
    lemma_reduce_shrinks(s.surd());
}

impl Scalar {
    #[verifier::type_invariant]
    closed spec fn stored(self) -> bool {
        self.surd().reduced()
    }

    /// The writing that the fields hold.
    closed spec fn surd(self) -> Surd {
        Surd { rat: self.rat@, irr: self.irr@, exp: self.exp@ }
    }

    /// The numerators of the scalar written over the denominator `2^e`.
    fn raise(&self, e: &Natural) -> (r: (Integer, Integer))
        requires
            self.exp@ <= e@,
        ensures
            r.0@ == self@.raised(e@).rat,
            r.1@ == self@.raised(e@).irr,
    {
        proof {
            use_type_invariant(self);
            lemma2_to64();
        }
        let mut x = self.rat.clone();
        let mut y = self.irr.clone();
        let mut left = e.checked_sub(&self.exp).unwrap();
        let one = Natural::from_u64(1);
        let ghost whole = left@;
        proof {
            assert(self.rat@ * 1 == self.rat@) by (nonlinear_arith);
            assert(self.irr@ * 1 == self.irr@) by (nonlinear_arith);
        }
        while !left.is_zero()
            invariant
                one@ == 1,
                left@ <= whole,
                x@ == self.rat@ * pow2((whole - left@) as nat),
                y@ == self.irr@ * pow2((whole - left@) as nat),
            decreases left@,
        {
            proof {
                let done = (whole - left@) as nat;
                lemma_pow2_unfold(done + 1);
                let p = pow2(done) as int;
                assert(self.rat@ * (2 * p) == 2 * (self.rat@ * p)) by (nonlinear_arith);
                assert(self.irr@ * (2 * p) == 2 * (self.irr@ * p)) by (nonlinear_arith);
            }
            x = x.double();
            y = y.double();
            left = left.checked_sub(&one).unwrap();
        }
        (x, y)
    }

    /// The number `(x + y·√2) / 2^e` in lowest terms.
    fn pack(x: Integer, y: Integer, e: Natural) -> (r: Scalar)
        ensures
            r@ == (Surd { rat: x@, irr: y@, exp: e@ }).reduce(),
    {
        let ghost given = Surd { rat: x@, irr: y@, exp: e@ };
        if x.is_zero() && y.is_zero() {
            proof {
                lemma_reduce_zero(e@);
            }
            return Scalar { rat: x, irr: y, exp: Natural::zero() };
        }
        let mut x = x;
        let mut y = y;
        let mut e = e;
        let one = Natural::from_u64(1);
        while !e.is_zero() && x.is_even() && y.is_even()
            invariant
                one@ == 1,
                (Surd { rat: x@, irr: y@, exp: e@ }).reduce() == given.reduce(),
            decreases e@,
        {
            x = x.half();
            y = y.half();
            e = e.checked_sub(&one).unwrap();
        }
        Scalar { rat: x, irr: y, exp: e }
    }

    /// The number `(rat + irr·√2) / 2^exp`, brought to lowest terms.
    pub fn new(rat: i64, irr: i64, exp: u32) -> (r: Scalar)
        ensures
            r@ == (Surd { rat: rat as int, irr: irr as int, exp: exp as nat }).reduce(),
    {
        Scalar::pack(Integer::from_i64(rat), Integer::from_i64(irr), Natural::from_u64(exp as u64))
    }

    /// The integer `n`.
    pub fn from_int(n: i64) -> (r: Scalar)
        ensures
            r@ == Surd::integer(n as int),
    {
        Scalar::pack(Integer::from_i64(n), Integer::zero(), Natural::zero())
    }

    /// The number zero.
    pub fn zero() -> (r: Scalar)
        ensures
            r@ == Surd::integer(0),
    {
        Scalar::from_int(0)
    }

    /// The number one.
    pub fn one() -> (r: Scalar)
        ensures
            r@ == Surd::integer(1),
    {
        Scalar::from_int(1)
    }

    /// The Hadamard factor `1/√2`.
    pub fn inv_sqrt2() -> (r: Scalar)
        ensures
            r@ == Surd::inv_sqrt2(),
    {
        Scalar::pack(Integer::zero(), Integer::from_i64(1), Natural::from_u64(1))
    }

    /// The sample in `[0, 1)` that a 64-bit random word stands for.
    pub fn unit_sample(word: u64) -> (r: Scalar)
        ensures
            r@ == Surd::unit_sample(word),
    {
        let top: u64 = word >> 11;
        proof {
            assert(word >> 11 == word / 2048) by (bit_vector);
        }
        Scalar::pack(
            Integer::from_natural(Natural::from_u64(top)),
            Integer::zero(),
            Natural::from_u64(SAMPLE_BITS as u64),
        )
    }

    /// The sum `self + other`.
    pub fn add(self, other: Scalar) -> (r: Scalar)
        ensures
            r@ == self@.add(other@),
    {
        proof {
            use_type_invariant(&self);
            use_type_invariant(&other);
        }
        let e = if self.exp.lt(&other.exp) { other.exp.clone() } else { self.exp.clone() };
        let (a, b) = (self.raise(&e), other.raise(&e));
        Scalar::pack(a.0.add(&b.0), a.1.add(&b.1), e)
    }

    /// The difference `self - other`.
    pub fn sub(self, other: Scalar) -> (r: Scalar)
        ensures
            r@ == self@.sub(other@),
    {
        proof {
            use_type_invariant(&self);
            use_type_invariant(&other);
        }
        let e = if self.exp.lt(&other.exp) { other.exp.clone() } else { self.exp.clone() };
        let (a, b) = (self.raise(&e), other.raise(&e));
        Scalar::pack(a.0.sub(&b.0), a.1.sub(&b.1), e)
    }

    /// The product `self * other`.
    pub fn mul(self, other: Scalar) -> (r: Scalar)
        ensures
            r@ == self@.mul(other@),
    {
        proof {
            use_type_invariant(&self);
            use_type_invariant(&other);
        }
        let x = self.rat.mul(&other.rat).add(&self.irr.mul(&other.irr).double());
        let y = self.rat.mul(&other.irr).add(&self.irr.mul(&other.rat));
        Scalar::pack(x, y, self.exp.add(&other.exp))
    }

    /// Whether `self` is strictly less than `other`.
    pub fn lt(self, other: Scalar) -> (r: bool)
        ensures
            r == self@.lt(other@),
    {
        proof {
            use_type_invariant(&self);
            use_type_invariant(&other);
        }
        let e = if self.exp.lt(&other.exp) { other.exp.clone() } else { self.exp.clone() };
        let (a, b) = (self.raise(&e), other.raise(&e));
        Integer::root_positive(&b.0.sub(&a.0), &b.1.sub(&a.1))
    }

    /// The integer numerator, where it fits a machine word.
    pub fn rat(&self) -> (r: Option<i64>)
        ensures
            r is Some <==> i64::MIN <= self@.rat <= i64::MAX,
            r is Some ==> r->Some_0 == self@.rat,
    {
        proof {
            use_type_invariant(self);
        }
        self.rat.to_i64()
    }

    /// The numerator of `√2`, where it fits a machine word.
    pub fn irr(&self) -> (r: Option<i64>)
        ensures
            r is Some <==> i64::MIN <= self@.irr <= i64::MAX,
            r is Some ==> r->Some_0 == self@.irr,
    {
        proof {
            use_type_invariant(self);
        }
        self.irr.to_i64()
    }

    /// The exponent of the denominator `2^exp`, where it fits a machine
    /// word.
    pub fn exp(&self) -> (r: Option<u64>)
        ensures
            r is Some <==> self@.exp <= u64::MAX,
            r is Some ==> r->Some_0 == self@.exp,
    {
        proof {
            use_type_invariant(self);
        }
        self.exp.to_u64()
    }
}

} // verus!

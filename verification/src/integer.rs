//! Integers of any size: a sign and a natural number.
use crate::natural::Natural;
use vstd::prelude::*;

verus! {

/// An integer of any size.
#[derive(Debug, PartialEq, Eq)]
pub struct Integer {
    negative: bool,
    size: Natural,
}

impl View for Integer {
    type V = int;

    closed spec fn view(&self) -> int {
        if self.negative {
            -(self.size@ as int)
        } else {
            self.size@ as int
        }
    }
}

impl Clone for Integer {
    fn clone(&self) -> (r: Self)
        ensures
            r@ == self@,
    {
        proof {
            use_type_invariant(self);
        }
        Integer { negative: self.negative, size: self.size.clone() }
    }
}

/// Whether `u² > 2·v²`, decided without forming the squares.
///
/// While `v < u < 2v` the pair is replaced by `(2v - u, u - v)`, which is
/// smaller and for which `u² - 2v²` has the opposite sign; outside that band
/// the sign is plain. The two squares are never equal.
fn square_exceeds_double(u: &Natural, v: &Natural) -> (r: bool)
    requires
        u@ > 0 || v@ > 0,
    ensures
        r <==> u@ * u@ > 2 * (v@ * v@),
        !r <==> u@ * u@ < 2 * (v@ * v@),
{
    let mut p = u.clone();
    let mut q = v.clone();
    let mut swapped: bool = false;
    loop
        invariant
            p@ > 0 || q@ > 0,
            !swapped ==> (p@ * p@ - 2 * (q@ * q@)) == (u@ * u@ - 2 * (v@ * v@)),
            swapped ==> (p@ * p@ - 2 * (q@ * q@)) == -(u@ * u@ - 2 * (v@ * v@)),
        decreases q@,
    {
        let twice = q.double();
        let over = p.checked_sub(&twice);
        if q.is_zero() || over.is_some() {
            assert(p@ * p@ > 2 * (q@ * q@)) by (nonlinear_arith)
                requires
                    p@ > 0 || q@ > 0,
                    q@ == 0 || p@ >= 2 * q@,
            ;
            return !swapped;
        }
        let rest = p.checked_sub(&q);
        if rest.is_none() || rest.as_ref().unwrap().is_zero() {
            assert(p@ * p@ < 2 * (q@ * q@)) by (nonlinear_arith)
                requires
                    q@ > 0,
                    p@ <= q@,
            ;
            return swapped;
        }
        let next_q = rest.unwrap();
        let next_p = twice.checked_sub(&p).unwrap();
        assert(next_p@ * next_p@ - 2 * (next_q@ * next_q@) == -(p@ * p@ - 2 * (q@ * q@)))
            by (nonlinear_arith)
            requires
                next_p@ == 2 * q@ - p@,
                next_q@ == p@ - q@,
        ;
        p = next_p;
        q = next_q;
        swapped = !swapped;
    }
}

impl Integer {
    #[verifier::type_invariant]
    closed spec fn signed(self) -> bool {
        self.size@ == 0 ==> !self.negative
    }

    /// The integer with the given sign and size; zero has no sign.
    fn make(negative: bool, size: Natural) -> (r: Integer)
        ensures
            r@ == (if negative { -(size@ as int) } else { size@ as int }),
    {
        let negative = negative && !size.is_zero();
        Integer { negative, size }
    }

    /// The number zero.
    pub fn zero() -> (r: Integer)
        ensures
            r@ == 0,
    {
        Integer::make(false, Natural::zero())
    }

    /// The integer `n`.
    pub fn from_i64(n: i64) -> (r: Integer)
        ensures
            r@ == n,
    {
        if n >= 0 {
            Integer::make(false, Natural::from_u64(n as u64))
        } else {
            Integer::make(true, Natural::from_u64((-(n as i128)) as u64))
        }
    }

    /// The natural number `n` as an integer.
    pub fn from_natural(n: Natural) -> (r: Integer)
        ensures
            r@ == n@,
    {
        Integer::make(false, n)
    }

    /// The integer as a machine word, where it fits.
    pub fn to_i64(&self) -> (r: Option<i64>)
        ensures
            r is Some <==> i64::MIN <= self@ <= i64::MAX,
            r is Some ==> r->Some_0 == self@,
    {
        proof {
            use_type_invariant(self);
        }
        match self.size.to_u64() {
            None => None,
            Some(n) => {
                if self.negative {
                    if n <= 0x8000_0000_0000_0000 {
                        Some((-(n as i128)) as i64)
                    } else {
                        None
                    }
                } else if n <= 0x7fff_ffff_ffff_ffff {
                    Some(n as i64)
                } else {
                    None
                }
            },
        }
    }

    /// Whether the integer is zero.
    pub fn is_zero(&self) -> (r: bool)
        ensures
            r == (self@ == 0),
    {
        self.size.is_zero()
    }

    /// Whether the integer is below zero.
    pub fn is_negative(&self) -> (r: bool)
        ensures
            r == (self@ < 0),
    {
        proof {
            use_type_invariant(self);
        }
        self.negative
    }

    /// Whether the integer is even.
    pub fn is_even(&self) -> (r: bool)
        ensures
            r == (self@ % 2 == 0),
    {
        self.size.is_even()
    }

    /// The size of the integer without its sign.
    pub fn abs(&self) -> (r: Natural)
        ensures
            r@ == (if self@ < 0 { -self@ } else { self@ }),
    {
        self.size.clone()
    }

    /// The opposite integer `-self`.
    pub fn neg(&self) -> (r: Integer)
        ensures
            r@ == -self@,
    {
        Integer::make(!self.negative, self.size.clone())
    }

    /// The sum `self + other`.
    pub fn add(&self, other: &Integer) -> (r: Integer)
        ensures
            r@ == self@ + other@,
    {
        if self.negative == other.negative {
            Integer::make(self.negative, self.size.add(&other.size))
        } else {
            match self.size.checked_sub(&other.size) {
                Some(d) => Integer::make(self.negative, d),
                None => Integer::make(other.negative, other.size.checked_sub(&self.size).unwrap()),
            }
        }
    }

    /// The difference `self - other`.
    pub fn sub(&self, other: &Integer) -> (r: Integer)
        ensures
            r@ == self@ - other@,
    {
        self.add(&other.neg())
    }

    /// The product `self · other`.
    pub fn mul(&self, other: &Integer) -> (r: Integer)
        ensures
            r@ == self@ * other@,
    {
        let size = self.size.mul(&other.size);
        proof {
            let (a, b) = (self.size@ as int, other.size@ as int);
            assert((-a) * b == -(a * b)) by (nonlinear_arith);
            assert(a * (-b) == -(a * b)) by (nonlinear_arith);
            assert((-a) * (-b) == a * b) by (nonlinear_arith);
        }
        Integer::make(self.negative != other.negative, size)
    }

    /// The double `2·self`.
    pub fn double(&self) -> (r: Integer)
        ensures
            r@ == 2 * self@,
    {
        Integer::make(self.negative, self.size.double())
    }

    /// The half of an even integer.
    pub(crate) fn half(&self) -> (r: Integer)
        requires
            self@ % 2 == 0,
        ensures
            r@ == self@ / 2,
    {
        Integer::make(self.negative, self.size.half())
    }

    /// Whether `x + y·√2 > 0`.
    pub fn root_positive(x: &Integer, y: &Integer) -> (r: bool)
        ensures
            r == crate::surd::root_positive(x@, y@),
    {
        let (nx, ny) = (x.is_negative(), y.is_negative());
        if !nx && !ny {
            !x.is_zero() || !y.is_zero()
        } else if (nx || x.is_zero()) && (ny || y.is_zero()) {
            false
        } else if !nx {
            assert((-y@) * (-y@) == y@ * y@) by (nonlinear_arith);
            square_exceeds_double(&x.abs(), &y.abs())
        } else {
            assert((-x@) * (-x@) == x@ * x@) by (nonlinear_arith);
            !square_exceeds_double(&x.abs(), &y.abs())
        }
    }
}

} // verus!

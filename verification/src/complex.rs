//! Complex numbers over exact scalars.
use crate::scalar::Scalar;
use crate::surd::Surd;
use vstd::prelude::*;

verus! {

/// What a complex number denotes: its real and imaginary parts.
pub struct Amplitude {
    pub re: Surd,
    pub im: Surd,
}

impl Amplitude {
    /// The real integer `n`.
    pub open spec fn integer(n: int) -> Amplitude {
        Amplitude { re: Surd::integer(n), im: Surd::integer(0) }
    }

    /// The real number `1/√2`.
    pub open spec fn inv_sqrt2() -> Amplitude {
        Amplitude { re: Surd::inv_sqrt2(), im: Surd::integer(0) }
    }

    /// The sum, part by part.
    pub open spec fn add(self, other: Amplitude) -> Amplitude {
        Amplitude { re: self.re.add(other.re), im: self.im.add(other.im) }
    }

    /// The difference, part by part.
    pub open spec fn sub(self, other: Amplitude) -> Amplitude {
        Amplitude { re: self.re.sub(other.re), im: self.im.sub(other.im) }
    }

    /// The product `(a + bi)(c + di) = (ac - bd) + (ad + bc)i`.
    pub open spec fn mul(self, other: Amplitude) -> Amplitude {
        Amplitude {
            re: self.re.mul(other.re).sub(self.im.mul(other.im)),
            im: self.re.mul(other.im).add(self.im.mul(other.re)),
        }
    }

    /// The squared magnitude `re² + im²`.
    pub open spec fn norm_sq(self) -> Surd {
        self.re.mul(self.re).add(self.im.mul(self.im))
    }

    /// Whether both parts are in lowest terms, as they are in every stored
    /// complex number.
    pub open spec fn canonical(self) -> bool {
        self.re.reduced() && self.im.reduced()
    }
}

/// A complex number with real and imaginary part.
#[derive(Debug, PartialEq, Eq)]
pub struct Complex {
    pub real: Scalar,
    pub imag: Scalar,
}

impl View for Complex {
    type V = Amplitude;

    open spec fn view(&self) -> Amplitude {
        Amplitude { re: self.real@, im: self.imag@ }
    }
}

impl Clone for Complex {
    fn clone(&self) -> (r: Self)
        ensures
            r@ == self@,
    {
        Complex { real: self.real.clone(), imag: self.imag.clone() }
    }
}

impl Complex {
    /// The complex number `real + imag·i`.
    pub fn new(re: Scalar, im: Scalar) -> (r: Complex)
        ensures
            r@ == (Amplitude { re: re@, im: im@ }),
    {
        Complex { real: re, imag: im }
    }

    /// The sum `self + other`.
    pub fn add(self, other: Complex) -> (r: Complex)
        ensures
            r@ == self@.add(other@),
    {
        Complex::new(self.real.add(other.real), self.imag.add(other.imag))
    }

    /// The difference `self - other`.
    pub fn sub(self, other: Complex) -> (r: Complex)
        ensures
            r@ == self@.sub(other@),
    {
        Complex::new(self.real.sub(other.real), self.imag.sub(other.imag))
    }

    /// The product `self * other`.
    pub fn mul(self, other: Complex) -> (r: Complex)
        ensures
            r@ == self@.mul(other@),
    {
        let re = self.real.clone().mul(other.real.clone()).sub(
            self.imag.clone().mul(other.imag.clone()),
        );
        let im = self.real.mul(other.imag).add(self.imag.mul(other.real));
        Complex::new(re, im)
    }

    /// The squared magnitude `real² + imag²`.
    pub fn norm_sq(self) -> (r: Scalar)
        ensures
            r@ == self@.norm_sq(),
    {
        let re = self.real.clone().mul(self.real);
        let im = self.imag.clone().mul(self.imag);
        re.add(im)
    }
}

} // verus!

//! The mathematical model of a scalar.
//!
//! Every number the simulator handles lies in the ring generated by the
//! integers, `1/2` and `√2`: the Hadamard factor `1/√2 = √2/2` is in it, and
//! it is closed under sum, difference and product. A member is written
//! `(rat + irr·√2) / 2^exp` with integer `rat`, `irr` and a natural `exp`;
//! since `√2` is irrational, the writing in lowest terms is unique.
use vstd::arithmetic::power2::{lemma2_to64, lemma2_to64_rest, lemma_pow2_unfold, pow2};
use vstd::prelude::*;

verus! {

/// Number of random bits that make up a unit sample.
pub const SAMPLE_BITS: u32 = 53;

/// The exact number `(rat + irr·√2) / 2^exp`.
pub struct Surd {
    pub rat: int,
    pub irr: int,
    pub exp: nat,
}

/// Whether `x + y·√2` is greater than zero.
///
/// With both coefficients of one sign the answer is read off directly; with
/// opposite signs the two terms are compared by their squares.
pub open spec fn root_positive(x: int, y: int) -> bool {
    ||| x > 0 && y >= 0
    ||| x >= 0 && y > 0
    ||| x > 0 && y < 0 && x * x > 2 * (y * y)
    ||| x < 0 && y > 0 && 2 * (y * y) > x * x
}

impl Surd {
    /// The integer `n`.
    pub open spec fn integer(n: int) -> Surd {
        Surd { rat: n, irr: 0, exp: 0 }
    }

    /// The Hadamard factor `1/√2`, written `√2 / 2`.
    pub open spec fn inv_sqrt2() -> Surd {
        Surd { rat: 0, irr: 1, exp: 1 }
    }

    /// Whether the writing is in lowest terms: no factor two is shared by
    /// both numerators and the denominator.
    pub open spec fn reduced(self) -> bool {
        self.exp == 0 || self.rat % 2 != 0 || self.irr % 2 != 0
    }

    /// The same number with one shared factor two cancelled.
    pub open spec fn halved(self) -> Surd
        recommends
            !self.reduced(),
    {
        Surd { rat: self.rat / 2, irr: self.irr / 2, exp: (self.exp - 1) as nat }
    }

    /// The same number in lowest terms.
    pub open spec fn reduce(self) -> Surd
        decreases self.exp,
    {
        if self.reduced() {
            self
        } else {
            self.halved().reduce()
        }
    }

    /// The same number written over the denominator `2^exp`.
    pub open spec fn raised(self, exp: nat) -> Surd
        recommends
            self.exp <= exp,
    {
        let scale = pow2((exp - self.exp) as nat) as int;
        Surd { rat: self.rat * scale, irr: self.irr * scale, exp }
    }

    /// The larger of the two exponents: the common denominator.
    pub open spec fn common_exp(self, other: Surd) -> nat {
        if self.exp >= other.exp {
            self.exp
        } else {
            other.exp
        }
    }

    /// The sum, in lowest terms.
    pub open spec fn add(self, other: Surd) -> Surd {
        let exp = self.common_exp(other);
        let a = self.raised(exp);
        let b = other.raised(exp);
        Surd { rat: a.rat + b.rat, irr: a.irr + b.irr, exp }.reduce()
    }

    /// The difference, in lowest terms.
    pub open spec fn sub(self, other: Surd) -> Surd {
        let exp = self.common_exp(other);
        let a = self.raised(exp);
        let b = other.raised(exp);
        Surd { rat: a.rat - b.rat, irr: a.irr - b.irr, exp }.reduce()
    }

    /// The product, in lowest terms: `(a + b√2)(c + d√2) = (ac + 2bd) + (ad + bc)√2`.
    pub open spec fn mul(self, other: Surd) -> Surd {
        Surd {
            rat: self.rat * other.rat + 2 * (self.irr * other.irr),
            irr: self.rat * other.irr + self.irr * other.rat,
            exp: self.exp + other.exp,
        }.reduce()
    }

    /// Whether `self` is strictly less than `other`.
    pub open spec fn lt(self, other: Surd) -> bool {
        let exp = self.common_exp(other);
        let a = self.raised(exp);
        let b = other.raised(exp);
        root_positive(b.rat - a.rat, b.irr - a.irr)
    }

    /// The sample in `[0, 1)` that a 64-bit random word stands for: its top
    /// `SAMPLE_BITS` bits over `2^SAMPLE_BITS`.
    pub open spec fn unit_sample(word: u64) -> Surd {
        Surd { rat: word as int / 2048, irr: 0, exp: SAMPLE_BITS as nat }.reduce()
    }
}

/// Cancelling shared factors gives a writing in lowest terms and never
/// enlarges a numerator or the exponent.
pub proof fn lemma_reduce_shrinks(s: Surd)
    ensures
        s.reduce().reduced(),
        s.reduce().exp <= s.exp,
        s.rat >= 0 ==> 0 <= s.reduce().rat <= s.rat,
        s.rat <= 0 ==> s.rat <= s.reduce().rat <= 0,
        s.irr >= 0 ==> 0 <= s.reduce().irr <= s.irr,
        s.irr <= 0 ==> s.irr <= s.reduce().irr <= 0,
    decreases s.exp,
{
    if !s.reduced() {
        lemma_reduce_shrinks(s.halved());
    }
}

/// Zero is written `0/1` in lowest terms, whatever denominator it came with.
pub proof fn lemma_reduce_zero(exp: nat)
    ensures
        (Surd { rat: 0, irr: 0, exp }).reduce() == Surd::integer(0),
    decreases exp,
{
    if exp > 0 {
        lemma_reduce_zero((exp - 1) as nat);
    }
}

/// A number in `[0, 1)` without a `√2` part stays so in lowest terms.
pub proof fn lemma_reduce_below_one(s: Surd)
    requires
        s.irr == 0,
        0 <= s.rat < pow2(s.exp),
    ensures
        s.reduce().irr == 0,
        0 <= s.reduce().rat < pow2(s.reduce().exp),
    decreases s.exp,
{
    if !s.reduced() {
        lemma_pow2_unfold(s.exp);
        lemma_reduce_below_one(s.halved());
    }
}

/// Every unit sample is a number in `[0, 1)`: in lowest terms, without a
/// `√2` part, at least zero and below one.
pub proof fn lemma_unit_sample_range(word: u64)
    ensures
        Surd::unit_sample(word).reduced(),
        Surd::unit_sample(word).irr == 0,
        0 <= Surd::unit_sample(word).rat < pow2(Surd::unit_sample(word).exp),
        !Surd::unit_sample(word).lt(Surd::integer(0)),
        Surd::unit_sample(word).lt(Surd::integer(1)),
{
    let raw = Surd { rat: word as int / 2048, irr: 0, exp: SAMPLE_BITS as nat };
    lemma2_to64();
    lemma2_to64_rest();
    lemma_reduce_shrinks(raw);
    lemma_reduce_below_one(raw);
}

} // verus!

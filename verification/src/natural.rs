//! Natural numbers of any size, held as binary digits.
use vstd::arithmetic::power2::{lemma2_to64, lemma2_to64_rest, lemma_pow2_pos};
use vstd::arithmetic::power2::{lemma_pow2_strictly_increases, lemma_pow2_unfold, pow2};
use vstd::prelude::*;

verus! {

/// What the digit at place `i` adds to the number: `2^i` where it is set,
/// nothing where it is clear or beyond the last digit.
pub open spec fn weight(s: Seq<bool>, i: nat) -> nat {
    if i < s.len() && s[i as int] {
        pow2(i)
    } else {
        0
    }
}

/// The number that the lowest `i` digits stand for, lowest digit first.
pub open spec fn low(s: Seq<bool>, i: nat) -> nat
    decreases i,
{
    if i == 0 {
        0
    } else {
        low(s, (i - 1) as nat) + weight(s, (i - 1) as nat)
    }
}

/// The lowest digits of two sequences that agree there stand for one number.
pub proof fn lemma_low_agree(s: Seq<bool>, t: Seq<bool>, i: nat)
    requires
        forall|j: nat| j < i ==> weight(s, j) == weight(t, j),
    ensures
        low(s, i) == low(t, i),
    decreases i,
{
    if i > 0 {
        lemma_low_agree(s, t, (i - 1) as nat);
    }
}

/// `i` digits stand for a number below `2^i`.
pub proof fn lemma_low_bound(s: Seq<bool>, i: nat)
    ensures
        low(s, i) < pow2(i),
    decreases i,
{
    if i > 0 {
        lemma_low_bound(s, (i - 1) as nat);
        lemma_pow2_unfold(i);
    } else {
        lemma_pow2_pos(0);
    }
}

/// Places beyond the last digit add nothing.
pub proof fn lemma_low_beyond(s: Seq<bool>, i: nat)
    requires
        i >= s.len(),
    ensures
        low(s, i) == low(s, s.len()),
    decreases i,
{
    if i > s.len() {
        lemma_low_beyond(s, (i - 1) as nat);
    }
}

/// The number is odd exactly when its lowest digit is set.
pub proof fn lemma_low_parity(s: Seq<bool>, i: nat)
    requires
        i >= 1,
    ensures
        low(s, i) % 2 == (if weight(s, 0) > 0 { 1nat } else { 0nat }),
    decreases i,
{
    lemma2_to64();
    reveal_with_fuel(low, 2);
    if i > 1 {
        lemma_low_parity(s, (i - 1) as nat);
        lemma_pow2_unfold((i - 1) as nat);
    }
}

/// A sequence whose last digit is set stands for a positive number.
pub proof fn lemma_top_positive(s: Seq<bool>)
    requires
        s.len() > 0,
        s[s.len() - 1],
    ensures
        low(s, s.len()) > 0,
{
    lemma_pow2_pos((s.len() - 1) as nat);
}

/// A natural number of any size.
///
/// The digits are binary, lowest first, and the last one is set, so each
/// number has one writing.
#[derive(Debug, PartialEq, Eq)]
pub struct Natural {
    bits: Vec<bool>,
}

impl View for Natural {
    type V = nat;

    closed spec fn view(&self) -> nat {
        low(self.bits@, self.bits@.len())
    }
}

impl Clone for Natural {
    fn clone(&self) -> (r: Self)
        ensures
            r@ == self@,
    {
        proof {
            use_type_invariant(self);
        }
        let mut bits: Vec<bool> = Vec::new();
        let mut i: usize = 0;
        while i < self.bits.len()
            invariant
                i <= self.bits.len(),
                bits@ == self.bits@.take(i as int),
            decreases self.bits.len() - i,
        {
            bits.push(self.bits[i]);
            i = i + 1;
            assert(bits@ == self.bits@.take(i as int));
        }
        assert(bits@ == self.bits@);
        Natural { bits }
    }
}

impl Natural {
    #[verifier::type_invariant]
    closed spec fn trimmed(self) -> bool {
        self.bits@.len() == 0 || self.bits@[self.bits@.len() - 1]
    }

    /// The digit at place `i`, clear beyond the last digit.
    fn digit(&self, i: usize) -> (r: bool)
        ensures
            r == (weight(self.bits@, i as nat) > 0),
    {
        proof {
            lemma_pow2_pos(i as nat);
        }
        if i < self.bits.len() {
            self.bits[i]
        } else {
            false
        }
    }

    /// The number that the digits stand for, with clear digits at the top
    /// taken away.
    fn trim(digits: Vec<bool>) -> (r: Natural)
        ensures
            r@ == low(digits@, digits@.len()),
    {
        let mut bits = digits;
        while bits.len() > 0 && !bits[bits.len() - 1]
            invariant
                low(bits@, bits@.len()) == low(digits@, digits@.len()),
            decreases bits.len(),
        {
            let ghost before = bits@;
            bits.pop();
            proof {
                lemma_low_agree(before, bits@, bits@.len());
            }
        }
        Natural { bits }
    }

    /// The number zero.
    pub fn zero() -> (r: Natural)
        ensures
            r@ == 0,
    {
        Natural { bits: Vec::new() }
    }

    /// The number `n`.
    pub fn from_u64(n: u64) -> (r: Natural)
        ensures
            r@ == n,
    {
        let mut bits: Vec<bool> = Vec::new();
        let mut rest: u64 = n;
        proof {
            lemma2_to64();
            assert(n * pow2(0) == n) by (nonlinear_arith)
                requires
                    pow2(0) == 1,
            ;
        }
        while rest > 0
            invariant
                low(bits@, bits@.len()) + rest * pow2(bits@.len()) == n,
            decreases rest,
        {
            let ghost before = bits@;
            let ghost place = bits@.len();
            bits.push(rest % 2 == 1);
            proof {
                lemma_low_agree(before, bits@, place);
                lemma_pow2_unfold(place + 1);
                assert(rest * pow2(place) == (rest / 2) * (2 * pow2(place)) + (rest % 2) * pow2(place))
                    by (nonlinear_arith);
            }
            rest = rest / 2;
        }
        Natural::trim(bits)
    }

    /// The number as a machine word, where it fits.
    pub fn to_u64(&self) -> (r: Option<u64>)
        ensures
            r is Some <==> self@ <= u64::MAX,
            r is Some ==> r->Some_0 == self@,
    {
        proof {
            use_type_invariant(self);
            lemma2_to64_rest();
        }
        let n = self.bits.len();
        if n > 64 {
            proof {
                lemma_low_bound(self.bits@, (n - 1) as nat);
                lemma_pow2_pos((n - 1) as nat);
                if n - 1 > 64 {
                    lemma_pow2_strictly_increases(64, (n - 1) as nat);
                }
            }
            return None;
        }
        let mut sum: u64 = 0;
        let mut unit: u64 = 1;
        let mut i: usize = 0;
        proof {
            lemma2_to64();
        }
        while i < n
            invariant
                i <= n <= 64,
                n == self.bits@.len(),
                sum == low(self.bits@, i as nat),
                i < n ==> unit == pow2(i as nat),
            decreases n - i,
        {
            proof {
                lemma2_to64_rest();
                lemma_low_bound(self.bits@, i as nat);
                lemma_pow2_unfold((i + 1) as nat);
                if i + 1 < 64 {
                    lemma_pow2_strictly_increases((i + 1) as nat, 64);
                }
            }
            if self.bits[i] {
                sum = sum + unit;
            }
            i = i + 1;
            if i < n {
                unit = unit * 2;
            }
        }
        Some(sum)
    }

    /// Whether the number is zero.
    pub fn is_zero(&self) -> (r: bool)
        ensures
            r == (self@ == 0),
    {
        proof {
            use_type_invariant(self);
            if self.bits@.len() > 0 {
                lemma_top_positive(self.bits@);
            }
        }
        self.bits.len() == 0
    }

    /// Whether the number is even.
    pub fn is_even(&self) -> (r: bool)
        ensures
            r == (self@ % 2 == 0),
    {
        proof {
            lemma_pow2_pos(0);
            if self.bits@.len() > 0 {
                lemma_low_parity(self.bits@, self.bits@.len());
            }
        }
        self.bits.len() == 0 || !self.bits[0]
    }

    /// The sum `self + other`.
    pub fn add(&self, other: &Natural) -> (r: Natural)
        ensures
            r@ == self@ + other@,
    {
        let n = if self.bits.len() >= other.bits.len() { self.bits.len() } else { other.bits.len() };
        let mut out: Vec<bool> = Vec::new();
        let mut carry = false;
        let mut i: usize = 0;
        while i < n
            invariant
                i <= n,
                out@.len() == i,
                low(out@, i as nat) + (if carry { pow2(i as nat) } else { 0 }) == low(self.bits@, i as nat)
                    + low(other.bits@, i as nat),
            decreases n - i,
        {
            let x = self.digit(i);
            let y = other.digit(i);
            let ghost before = out@;
            out.push((x != y) != carry);
            proof {
                lemma_low_agree(before, out@, i as nat);
                lemma_pow2_unfold((i + 1) as nat);
            }
            carry = (x && y) || (x && carry) || (y && carry);
            i = i + 1;
        }
        let ghost before = out@;
        if carry {
            out.push(true);
            proof {
                lemma_low_agree(before, out@, n as nat);
            }
        }
        proof {
            lemma_low_beyond(self.bits@, n as nat);
            lemma_low_beyond(other.bits@, n as nat);
        }
        Natural::trim(out)
    }

    /// The difference `self - other`, where `other` is not the larger.
    pub fn checked_sub(&self, other: &Natural) -> (r: Option<Natural>)
        ensures
            r is Some <==> self@ >= other@,
            r is Some ==> r->Some_0@ == self@ - other@,
    {
        let n = if self.bits.len() >= other.bits.len() { self.bits.len() } else { other.bits.len() };
        let mut out: Vec<bool> = Vec::new();
        let mut borrow = false;
        let mut i: usize = 0;
        while i < n
            invariant
                i <= n,
                out@.len() == i,
                low(out@, i as nat) + low(other.bits@, i as nat) == low(self.bits@, i as nat) + (if borrow {
                    pow2(i as nat)
                } else {
                    0
                }),
            decreases n - i,
        {
            let x = self.digit(i);
            let y = other.digit(i);
            let ghost before = out@;
            out.push((x != y) != borrow);
            proof {
                lemma_low_agree(before, out@, i as nat);
                lemma_pow2_unfold((i + 1) as nat);
            }
            borrow = (!x && y) || (!x && borrow) || (y && borrow);
            i = i + 1;
        }
        proof {
            lemma_low_beyond(self.bits@, n as nat);
            lemma_low_beyond(other.bits@, n as nat);
            lemma_low_bound(out@, n as nat);
        }
        if borrow {
            None
        } else {
            Some(Natural::trim(out))
        }
    }

    /// Whether `self` is less than `other`.
    pub fn lt(&self, other: &Natural) -> (r: bool)
        ensures
            r == (self@ < other@),
    {
        self.checked_sub(other).is_none()
    }

    /// The double `2·self`.
    pub fn double(&self) -> (r: Natural)
        ensures
            r@ == 2 * self@,
    {
        self.add(self)
    }

    /// The half `self / 2`, rounded down.
    pub fn half(&self) -> (r: Natural)
        ensures
            r@ == self@ / 2,
    {
        let n = self.bits.len();
        if n == 0 {
            return Natural::zero();
        }
        let mut out: Vec<bool> = Vec::new();
        let mut i: usize = 0;
        proof {
            reveal_with_fuel(low, 2);
        }
        while i + 1 < n
            invariant
                i + 1 <= n,
                n == self.bits@.len(),
                out@.len() == i,
                2 * low(out@, i as nat) + weight(self.bits@, 0) == low(self.bits@, (i + 1) as nat),
            decreases n - i,
        {
            let ghost before = out@;
            out.push(self.bits[i + 1]);
            proof {
                lemma_low_agree(before, out@, i as nat);
                lemma_pow2_unfold((i + 1) as nat);
            }
            i = i + 1;
        }
        proof {
            lemma2_to64();
        }
        Natural::trim(out)
    }

    /// The product `self · other`.
    pub fn mul(&self, other: &Natural) -> (r: Natural)
        ensures
            r@ == self@ * other@,
    {
        let mut sum = Natural::zero();
        let mut shifted = self.clone();
        let mut i: usize = 0;
        let n = other.bits.len();
        proof {
            lemma2_to64();
            assert(self@ * 0 == 0) by (nonlinear_arith);
            assert(self@ * 1 == self@) by (nonlinear_arith);
        }
        while i < n
            invariant
                i <= n,
                n == other.bits@.len(),
                sum@ == self@ * low(other.bits@, i as nat),
                shifted@ == self@ * pow2(i as nat),
            decreases n - i,
        {
            proof {
                lemma_pow2_unfold((i + 1) as nat);
                let a = self@ as int;
                let l = low(other.bits@, i as nat) as int;
                let p = pow2(i as nat) as int;
                assert(a * (l + p) == a * l + a * p) by (nonlinear_arith);
                assert(a * (2 * p) == 2 * (a * p)) by (nonlinear_arith);
            }
            if other.bits[i] {
                sum = sum.add(&shifted);
            }
            shifted = shifted.double();
            i = i + 1;
        }
        sum
    }
}

} // verus!

//! A single qubit: two complex amplitudes, the gates, and measurement.
use crate::algebra::{lemma_constant_numbers, lemma_number_mul_constants};
use crate::algebra::{lemma_complex_number_mul_associates, lemma_norm_multiplies};
use crate::algebra::{lemma_complex_number_mul_distributes, lemma_number_square_sum};
use crate::algebra::lemma_number_mul_over_root2;
use crate::complex::{Amplitude, Complex};
use crate::random::next_word;
use crate::reals::{lemma_amplitude_results, lemma_amplitude_unique};
use crate::reals::{lemma_lt_value, lemma_unit_sample_number};
use crate::reals::{lemma_reduced_unique, lemma_surd_results};
use crate::scalar::{lemma_scalar_canonical, Scalar};
use crate::surd::{lemma_unit_sample_range, Surd};
use rand::rngs::StdRng;
use vstd::arithmetic::power2::lemma2_to64;
use vstd::prelude::*;

verus! {

/// What a qubit denotes: the amplitude `alpha` of the basis state `|0>` and
/// the amplitude `beta` of `|1>`.
pub struct State {
    pub alpha: Amplitude,
    pub beta: Amplitude,
}

impl State {
    /// The definite state of `outcome`: `|0>` for 0, `|1>` for anything else.
    pub open spec fn basis(outcome: u8) -> State {
        if outcome == 0 {
            State { alpha: Amplitude::integer(1), beta: Amplitude::integer(0) }
        } else {
            State { alpha: Amplitude::integer(0), beta: Amplitude::integer(1) }
        }
    }

    /// The equal superposition that the Hadamard gate makes of the definite
    /// state of `outcome`: `(1/√2, 1/√2)` for 0, `(1/√2, -1/√2)` otherwise.
    pub open spec fn superposed(outcome: u8) -> State {
        let beta = if outcome == 0 {
            Surd::inv_sqrt2()
        } else {
            Surd { rat: 0, irr: -1, exp: 1 }
        };
        State {
            alpha: Amplitude::inv_sqrt2(),
            beta: Amplitude { re: beta, im: Surd::integer(0) },
        }
    }

    /// The state after the Hadamard gate: `((alpha + beta)/√2, (alpha - beta)/√2)`,
    /// where `alpha` and `beta` are the amplitudes it is applied to.
    pub open spec fn hadamard(self) -> State {
        State {
            alpha: self.alpha.add(self.beta).mul(Amplitude::inv_sqrt2()),
            beta: self.alpha.sub(self.beta).mul(Amplitude::inv_sqrt2()),
        }
    }

    /// The state of the target `self` after the coupling gate with `control`:
    /// each amplitude is multiplied by the control's amplitude of the same
    /// basis state.
    pub open spec fn coupled(self, control: State) -> State {
        State { alpha: control.alpha.mul(self.alpha), beta: control.beta.mul(self.beta) }
    }

    /// The state with both amplitudes multiplied by `factor`.
    pub open spec fn scaled(self, factor: Amplitude) -> State {
        State { alpha: factor.mul(self.alpha), beta: factor.mul(self.beta) }
    }

    /// The sum of two states, amplitude by amplitude.
    pub open spec fn plus(self, other: State) -> State {
        State { alpha: self.alpha.add(other.alpha), beta: self.beta.add(other.beta) }
    }

    /// Whether the state is one of the two definite states.
    pub open spec fn is_definite(self) -> bool {
        self == State::basis(0) || self == State::basis(1)
    }

    /// Whether all parts of both amplitudes are in lowest terms, as they
    /// are in every stored qubit.
    pub open spec fn canonical(self) -> bool {
        self.alpha.canonical() && self.beta.canonical()
    }

    /// The total squared magnitude `|alpha|² + |beta|²`, which is one for a
    /// normalized state.
    pub open spec fn norm_sq(self) -> Surd {
        self.alpha.norm_sq().add(self.beta.norm_sq())
    }

    /// The probability of outcome 0: the squared magnitude of `alpha`.
    pub open spec fn zero_probability(self) -> Surd {
        self.alpha.norm_sq()
    }

    /// The outcome of a measurement that draws `word`: 0 where the sample
    /// that `word` stands for lies below the probability of outcome 0, else
    /// 1.
    pub open spec fn outcome(self, word: u64) -> u8 {
        if Surd::unit_sample(word).lt(self.zero_probability()) {
            0
        } else {
            1
        }
    }
}

/// A simulated quantum bit.
#[derive(Debug, PartialEq, Eq)]
pub struct Qubit {
    pub alpha: Complex,
    pub beta: Complex,
}

impl View for Qubit {
    type V = State;

    open spec fn view(&self) -> State {
        State { alpha: self.alpha@, beta: self.beta@ }
    }
}

impl Clone for Qubit {
    fn clone(&self) -> (r: Self)
        ensures
            r@ == self@,
    {
        Qubit { alpha: self.alpha.clone(), beta: self.beta.clone() }
    }
}

impl Qubit {
    /// A qubit in the definite state `|0>`.
    pub fn new() -> (q: Qubit)
        ensures
            q@ == State::basis(0),
    {
        Qubit::definite(0)
    }

    /// A qubit in the definite state of `outcome`.
    pub fn definite(outcome: u8) -> (q: Qubit)
        ensures
            q@ == State::basis(outcome),
    {
        let zero = Complex::new(Scalar::from_int(0), Scalar::from_int(0));
        let one = Complex::new(Scalar::from_int(1), Scalar::from_int(0));
        if outcome == 0 {
            Qubit { alpha: one, beta: zero }
        } else {
            Qubit { alpha: zero, beta: one }
        }
    }

    /// Applies the Hadamard gate in place.
    pub fn hadamard_gate(&mut self)
        ensures
            final(self)@ == old(self)@.hadamard(),
    {
        let factor = Complex::new(Scalar::inv_sqrt2(), Scalar::from_int(0));
        let alpha = self.alpha.clone();
        let beta = self.beta.clone();
        self.alpha = alpha.clone().add(beta.clone()).mul(factor.clone());
        self.beta = alpha.sub(beta).mul(factor);
    }

    /// Applies the coupling gate with `self` as control: the target's
    /// amplitudes become the products with the control's, and the control
    /// keeps its state.
    pub fn cnot_gate(&mut self, target: &mut Qubit)
        ensures
            final(target)@ == old(target)@.coupled(old(self)@),
            *final(self) == *old(self),
    {
        let alpha = self.alpha.clone().mul(target.alpha.clone());
        let beta = self.beta.clone().mul(target.beta.clone());
        target.alpha = alpha;
        target.beta = beta;
    }

    /// Measures with the given random word and collapses to the outcome's
    /// definite state.
    pub fn measure_with(&mut self, word: u64) -> (outcome: u8)
        ensures
            outcome <= 1,
            outcome == old(self)@.outcome(word),
            final(self)@ == State::basis(outcome),
    {
        let probability = self.alpha.clone().norm_sq();
        let sample = Scalar::unit_sample(word);
        let outcome: u8 = if sample.lt(probability) { 0 } else { 1 };
        *self = Qubit::definite(outcome);
        outcome
    }

    /// Measures with one word drawn from `rng` and collapses to the
    /// outcome's definite state.
    pub fn measure(&mut self, rng: &mut StdRng) -> (outcome: u8)
        ensures
            outcome <= 1,
            exists|word: u64| outcome == old(self)@.outcome(word),
            final(self)@ == State::basis(outcome),
    {
        let word = next_word(rng);
        self.measure_with(word)
    }
}

/// The Hadamard gate on the definite states: `|0>` becomes `(1/√2, 1/√2)`
/// and `|1>` becomes `(1/√2, -1/√2)`.
pub proof fn lemma_hadamard_on_basis(outcome: u8)
    ensures
        State::basis(outcome).hadamard() == State::superposed(outcome),
{
    reveal_with_fuel(Surd::reduce, 2);
    lemma2_to64();
    let zero = Surd::integer(0);
    let one = Surd::integer(1);
    let factor = Surd::inv_sqrt2();
    let s = State::basis(outcome);
    assert(zero.mul(zero) == zero);
    assert(zero.mul(factor) == zero);
    assert(one.mul(zero) == zero);
    assert(one.mul(factor) == factor);
    assert(zero.add(zero) == zero);
    assert(zero.sub(zero) == zero);
    assert(factor.sub(zero) == factor);
    if outcome == 0 {
        assert(one.add(zero) == one);
        assert(one.sub(zero) == one);
        assert(s.alpha.add(s.beta) == Amplitude::integer(1));
        assert(s.alpha.sub(s.beta) == Amplitude::integer(1));
    } else {
        let minus_one = Surd::integer(-1);
        let minus_factor = Surd { rat: 0, irr: -1, exp: 1 };
        assert(zero.add(one) == one);
        assert(zero.sub(one) == minus_one);
        assert(minus_one.mul(zero) == zero);
        assert(minus_one.mul(factor) == minus_factor);
        assert(minus_factor.sub(zero) == minus_factor);
        assert(s.alpha.add(s.beta) == Amplitude::integer(1));
        assert(s.alpha.sub(s.beta) == Amplitude::integer(-1));
    }
}

/// The Hadamard gate is its own inverse on the definite states: applied
/// twice to `|0>` or to `|1>` it gives the state back, amplitude for
/// amplitude.
pub proof fn lemma_hadamard_twice_on_basis(outcome: u8)
    ensures
        State::basis(outcome).hadamard().hadamard() == State::basis(outcome),
{
    lemma_hadamard_on_basis(outcome);
    reveal_with_fuel(Surd::reduce, 2);
    lemma2_to64();
    let zero = Surd::integer(0);
    let one = Surd::integer(1);
    let factor = Surd::inv_sqrt2();
    let minus_factor = Surd { rat: 0, irr: -1, exp: 1 };
    let root = Surd { rat: 0, irr: 1, exp: 0 };
    let s = State::superposed(outcome);
    assert(zero.mul(zero) == zero);
    assert(zero.mul(factor) == zero);
    assert(root.mul(zero) == zero);
    assert(root.mul(factor) == one);
    assert(zero.add(zero) == zero);
    assert(zero.sub(zero) == zero);
    assert(one.sub(zero) == one);
    if outcome == 0 {
        assert(factor.add(factor) == root);
        assert(factor.sub(factor) == zero);
        assert(s.alpha.add(s.beta) == Amplitude { re: root, im: zero });
        assert(s.alpha.sub(s.beta) == Amplitude::integer(0));
    } else {
        assert(factor.add(minus_factor) == zero);
        assert(factor.sub(minus_factor) == root);
        assert(s.alpha.add(s.beta) == Amplitude::integer(0));
        assert(s.alpha.sub(s.beta) == Amplitude { re: root, im: zero });
    }
}

/// The product of an amplitude with the Hadamard factor has parts in
/// lowest terms that stand for the parts of the amplitude over `√2`.
proof fn lemma_scaled(x: Amplitude)
    ensures
        x.mul(Amplitude::inv_sqrt2()).canonical(),
        x.mul(Amplitude::inv_sqrt2()).number().re == x.number().re.over_root2(),
        x.mul(Amplitude::inv_sqrt2()).number().im == x.number().im.over_root2(),
{
    lemma_amplitude_results(x, Amplitude::inv_sqrt2());
    lemma_number_mul_constants(x.number().re);
    lemma_number_mul_constants(x.number().im);
    lemma_constant_numbers();
}

/// The Hadamard gate is its own inverse on every state: applied twice to
/// the state of a stored qubit it gives the state back, amplitude for
/// amplitude.
pub proof fn lemma_hadamard_twice(s: State)
    requires
        s.canonical(),
    ensures
        s.hadamard().hadamard() == s,
{
    let once = s.hadamard();
    let twice = once.hadamard();
    lemma_scaled(once.alpha.add(once.beta));
    lemma_scaled(once.alpha.sub(once.beta));
    lemma_amplitude_results(once.alpha, once.beta);
    lemma_scaled(s.alpha.add(s.beta));
    lemma_scaled(s.alpha.sub(s.beta));
    lemma_amplitude_results(s.alpha, s.beta);
    lemma_amplitude_unique(twice.alpha, s.alpha);
    lemma_amplitude_unique(twice.beta, s.beta);
}

/// The Hadamard gate preserves the total squared magnitude
/// `|alpha|² + |beta|²` of every state, and with it normalization.
pub proof fn lemma_hadamard_preserves_norm(s: State)
    ensures
        s.hadamard().norm_sq() == s.norm_sq(),
{
    let h = s.hadamard();
    lemma_surd_results(h.alpha.norm_sq(), h.beta.norm_sq());
    lemma_surd_results(s.alpha.norm_sq(), s.beta.norm_sq());
    lemma_amplitude_results(h.alpha, h.alpha);
    lemma_amplitude_results(h.beta, h.beta);
    lemma_amplitude_results(s.alpha, s.alpha);
    lemma_amplitude_results(s.beta, s.beta);
    lemma_scaled(s.alpha.add(s.beta));
    lemma_scaled(s.alpha.sub(s.beta));
    lemma_amplitude_results(s.alpha, s.beta);
    let (a, b) = (s.alpha.number(), s.beta.number());
    let (u, v) = (a.add(b), a.sub(b));
    lemma_number_mul_over_root2(u.re, u.re);
    lemma_number_mul_over_root2(u.im, u.im);
    lemma_number_mul_over_root2(v.re, v.re);
    lemma_number_mul_over_root2(v.im, v.im);
    lemma_number_square_sum(a.re, b.re);
    lemma_number_square_sum(a.im, b.im);
    lemma_reduced_unique(h.norm_sq(), s.norm_sq());
}

/// The Hadamard gate is linear: it commutes with multiplying both
/// amplitudes by one factor, and it never rescales a state.
pub proof fn lemma_hadamard_scales(s: State, factor: Amplitude)
    ensures
        s.scaled(factor).hadamard() == s.hadamard().scaled(factor),
{
    let f = Amplitude::inv_sqrt2();
    let (k, a, b) = (factor.number(), s.alpha.number(), s.beta.number());
    lemma_amplitude_results(factor, s.alpha);
    lemma_amplitude_results(factor, s.beta);
    lemma_amplitude_results(factor.mul(s.alpha), factor.mul(s.beta));
    lemma_amplitude_results(factor.mul(s.alpha).add(factor.mul(s.beta)), f);
    lemma_amplitude_results(factor.mul(s.alpha).sub(factor.mul(s.beta)), f);
    lemma_amplitude_results(s.alpha, s.beta);
    lemma_amplitude_results(s.alpha.add(s.beta), f);
    lemma_amplitude_results(s.alpha.sub(s.beta), f);
    lemma_amplitude_results(factor, s.hadamard().alpha);
    lemma_amplitude_results(factor, s.hadamard().beta);
    lemma_complex_number_mul_distributes(k, a, b);
    lemma_complex_number_mul_associates(k, a.add(b), f.number());
    lemma_complex_number_mul_associates(k, a.sub(b), f.number());
    lemma_amplitude_unique(s.scaled(factor).hadamard().alpha, s.hadamard().scaled(factor).alpha);
    lemma_amplitude_unique(s.scaled(factor).hadamard().beta, s.hadamard().scaled(factor).beta);
}

/// The Hadamard gate is linear: applied to a sum of two states it gives
/// the sum of what it makes of each.
pub proof fn lemma_hadamard_adds(s: State, t: State)
    ensures
        s.plus(t).hadamard() == s.hadamard().plus(t.hadamard()),
{
    let f = Amplitude::inv_sqrt2();
    let u = s.plus(t);
    lemma_amplitude_results(s.alpha, t.alpha);
    lemma_amplitude_results(s.beta, t.beta);
    lemma_amplitude_results(u.alpha, u.beta);
    lemma_amplitude_results(u.alpha.add(u.beta), f);
    lemma_amplitude_results(u.alpha.sub(u.beta), f);
    lemma_amplitude_results(s.alpha, s.beta);
    lemma_amplitude_results(t.alpha, t.beta);
    lemma_amplitude_results(s.alpha.add(s.beta), f);
    lemma_amplitude_results(s.alpha.sub(s.beta), f);
    lemma_amplitude_results(t.alpha.add(t.beta), f);
    lemma_amplitude_results(t.alpha.sub(t.beta), f);
    lemma_amplitude_results(s.hadamard().alpha, t.hadamard().alpha);
    lemma_amplitude_results(s.hadamard().beta, t.hadamard().beta);
    let (a, b) = (s.alpha.number(), s.beta.number());
    let (c, d) = (t.alpha.number(), t.beta.number());
    lemma_complex_number_mul_distributes(f.number(), a.add(b), c.add(d));
    lemma_complex_number_mul_distributes(f.number(), a.sub(b), c.sub(d));
    lemma_amplitude_unique(s.plus(t).hadamard().alpha, s.hadamard().plus(t.hadamard()).alpha);
    lemma_amplitude_unique(s.plus(t).hadamard().beta, s.hadamard().plus(t.hadamard()).beta);
}

/// After the coupling gate the target's squared magnitudes are the
/// products of the control's and the target's former ones; so its new
/// probability of outcome 0 is the product of the two former ones.
pub proof fn lemma_coupled_norms(target: State, control: State)
    ensures
        target.coupled(control).alpha.norm_sq() == control.alpha.norm_sq().mul(
            target.alpha.norm_sq(),
        ),
        target.coupled(control).beta.norm_sq() == control.beta.norm_sq().mul(target.beta.norm_sq()),
        target.coupled(control).zero_probability() == control.zero_probability().mul(
            target.zero_probability(),
        ),
{
    lemma_norm_multiplies(control.alpha, target.alpha);
    lemma_norm_multiplies(control.beta, target.beta);
}

/// The state of a stored qubit has all its parts in lowest terms.
pub proof fn lemma_qubit_canonical(q: Qubit)
    ensures
        q@.canonical(),
{
    lemma_scalar_canonical(q.alpha.real);
    lemma_scalar_canonical(q.alpha.imag);
    lemma_scalar_canonical(q.beta.real);
    lemma_scalar_canonical(q.beta.imag);
}

/// The measurement rule in numbers: for every state the outcome is 0
/// exactly when `|alpha|²` exceeds the sample that the word stands for, and
/// 1 otherwise.
pub proof fn lemma_outcome_rule(s: State, word: u64)
    ensures
        s.outcome(word) <= 1,
        s.zero_probability().number() == s.alpha.number().norm_sq(),
        s.outcome(word) == 0 <==> s.alpha.number().norm_sq().sub(
            Surd::unit_sample(word).number(),
        ).positive(),
{
    lemma_lt_value(Surd::unit_sample(word), s.zero_probability());
    lemma_amplitude_results(s.alpha, s.alpha);
}

/// After the Hadamard gate on a definite state both outcomes have
/// probability one half: the outcome is 0 exactly when the top bit of the
/// word is clear.
pub proof fn lemma_superposed_outcome(outcome: u8, word: u64)
    ensures
        State::superposed(outcome).zero_probability() == (Surd { rat: 1, irr: 0, exp: 1 }),
        State::superposed(outcome).outcome(word) == (if word < 0x8000_0000_0000_0000 {
            0u8
        } else {
            1u8
        }),
{
    reveal_with_fuel(Surd::reduce, 2);
    lemma2_to64();
    let zero = Surd::integer(0);
    let root_half = Surd::inv_sqrt2();
    let half = Surd { rat: 1, irr: 0, exp: 1 };
    let s = State::superposed(outcome);
    assert(zero.mul(zero) == zero);
    assert(root_half.mul(root_half) == half);
    assert(half.add(zero) == half);
    assert(s.zero_probability() == half);
    lemma_outcome_rule(s, word);
    lemma_unit_sample_number(word);
    lemma_constant_numbers();
}

/// A qubit in a definite state measures as that state, whatever word is
/// drawn: `|0>` gives 0 and `|1>` gives 1.
pub proof fn lemma_definite_outcome(outcome: u8, word: u64)
    requires
        outcome <= 1,
    ensures
        State::basis(outcome).outcome(word) == outcome,
{
    lemma2_to64();
    lemma_unit_sample_range(word);
    let zero = Surd::integer(0);
    let one = Surd::integer(1);
    assert(zero.mul(zero) == zero);
    assert(one.mul(one) == one);
    assert(zero.add(zero) == zero);
    assert(one.add(zero) == one);
}

/// A fresh qubit, measured before any gate, always gives outcome 0.
pub proof fn lemma_fresh_qubit_measures_zero(word: u64)
    ensures
        State::basis(0).outcome(word) == 0,
{
    lemma_definite_outcome(0, word);
}

/// Measurement is idempotent: a qubit that was measured gives the same
/// outcome when it is measured again with no gate in between, whatever
/// words the two measurements draw.
pub proof fn lemma_measure_twice(s: State, first: u64, second: u64)
    ensures
        State::basis(s.outcome(first)).outcome(second) == s.outcome(first),
{
    lemma_definite_outcome(s.outcome(first), second);
}

} // verus!

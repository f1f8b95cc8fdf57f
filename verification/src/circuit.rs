//! The two-qubit experiment: repeated trials and the tally of outcomes.
use crate::qubit::{lemma_hadamard_on_basis, lemma_outcome_rule, lemma_superposed_outcome};
use crate::qubit::{Qubit, State};
use crate::random::next_word;
use rand::rngs::StdRng;
use vstd::prelude::*;

verus! {

/// What a running experiment denotes: the states of its two qubits and how
/// often the control qubit has measured 0 and 1 so far.
pub struct Run {
    pub control: State,
    pub target: State,
    pub zeros: nat,
    pub ones: nat,
}

impl Run {
    /// Before the first trial: both qubits in `|0>`, nothing counted.
    pub open spec fn start() -> Run {
        Run { control: State::basis(0), target: State::basis(0), zeros: 0, ones: 0 }
    }

    /// The control qubit's outcome in the next trial, if its measurement
    /// draws `first`: it is measured after its Hadamard gate.
    pub open spec fn control_outcome(self, first: u64) -> u8 {
        self.control.hadamard().outcome(first)
    }

    /// The target qubit's outcome in the next trial, if its measurement
    /// draws `second`: it is measured after the coupling gate, whose control
    /// has passed its Hadamard gate and is not yet measured.
    pub open spec fn target_outcome(self, second: u64) -> u8 {
        self.target.coupled(self.control.hadamard()).outcome(second)
    }

    /// The experiment after one more trial whose two measurements draw
    /// `first` and `second`. Both qubits are left collapsed, with no reset,
    /// and only the control's outcome is counted.
    pub open spec fn trial(self, first: u64, second: u64) -> Run {
        let outcome = self.control_outcome(first);
        Run {
            control: State::basis(outcome),
            target: State::basis(self.target_outcome(second)),
            zeros: if outcome == 0 { self.zeros + 1 } else { self.zeros },
            ones: if outcome == 0 { self.ones } else { self.ones + 1 },
        }
    }

    /// The experiment after one trial for each pair of words, in order.
    pub open spec fn trials(self, words: Seq<(u64, u64)>) -> Run
        decreases words.len(),
    {
        if words.len() == 0 {
            self
        } else {
            self.trials(words.drop_last()).trial(words.last().0, words.last().1)
        }
    }
}

/// How many of the pairs have a first word with its top bit clear.
pub open spec fn clear_firsts(words: Seq<(u64, u64)>) -> nat
    decreases words.len(),
{
    if words.len() == 0 {
        0
    } else if words.last().0 < 0x8000_0000_0000_0000 {
        clear_firsts(words.drop_last()) + 1
    } else {
        clear_firsts(words.drop_last())
    }
}

/// In a trial that starts with the control qubit in a definite state, the
/// control measures 0 exactly when the top bit of its word is clear: both
/// outcomes are as likely as the two values of that bit. The trial leaves
/// both qubits in definite states.
pub proof fn lemma_trial_outcome(run: Run, first: u64, second: u64)
    requires
        run.control.is_definite(),
    ensures
        run.control_outcome(first) == (if first < 0x8000_0000_0000_0000 {
            0u8
        } else {
            1u8
        }),
        run.trial(first, second).control.is_definite(),
        run.trial(first, second).target.is_definite(),
{
    let outcome: u8 = if run.control == State::basis(0) { 0 } else { 1 };
    lemma_hadamard_on_basis(outcome);
    lemma_superposed_outcome(outcome, first);
    lemma_outcome_rule(run.target.coupled(run.control.hadamard()), second);
}

/// The tally in closed form: after any number of trials from a run whose
/// control qubit is in a definite state, the count of zeros has grown by
/// the number of trials whose control word had its top bit clear, and the
/// count of ones by the number of the other trials.
pub proof fn lemma_trials_tally(run: Run, words: Seq<(u64, u64)>)
    requires
        run.control.is_definite(),
    ensures
        run.trials(words).control.is_definite(),
        run.trials(words).zeros == run.zeros + clear_firsts(words),
        run.trials(words).ones == run.ones + words.len() - clear_firsts(words),
    decreases words.len(),
{
    if words.len() > 0 {
        lemma_trials_tally(run, words.drop_last());
        lemma_trial_outcome(run.trials(words.drop_last()), words.last().0, words.last().1);
    }
}

/// How many of the words have their top bit clear.
pub open spec fn clear_words(words: Seq<u64>) -> nat
    decreases words.len(),
{
    if words.len() == 0 {
        0
    } else if words.last() < 0x8000_0000_0000_0000 {
        clear_words(words.drop_last()) + 1
    } else {
        clear_words(words.drop_last())
    }
}

/// How many fresh qubits measure 0 when each passes the Hadamard gate once
/// and is then measured with its own word.
pub open spec fn fresh_zeros(words: Seq<u64>) -> nat
    decreases words.len(),
{
    if words.len() == 0 {
        0
    } else if State::basis(0).hadamard().outcome(words.last()) == 0 {
        fresh_zeros(words.drop_last()) + 1
    } else {
        fresh_zeros(words.drop_last())
    }
}

/// Of any number of fresh qubits, each put through the Hadamard gate once
/// and measured with its own word, exactly those measure 0 whose word has
/// its top bit clear: the share of zeros is the share of samples below one
/// half.
pub proof fn lemma_fresh_zeros(words: Seq<u64>)
    ensures
        fresh_zeros(words) == clear_words(words),
        fresh_zeros(words) <= words.len(),
    decreases words.len(),
{
    if words.len() > 0 {
        lemma_fresh_zeros(words.drop_last());
        lemma_hadamard_on_basis(0);
        lemma_superposed_outcome(0, words.last());
    }
}

/// A running experiment: the control qubit, the target qubit and the tally
/// of the control's outcomes, `counts[0]` for 0 and `counts[1]` for 1.
#[derive(Debug, PartialEq, Eq)]
pub struct Simulation {
    pub control: Qubit,
    pub target: Qubit,
    pub counts: [u64; 2],
}

impl View for Simulation {
    type V = Run;

    open spec fn view(&self) -> Run {
        Run {
            control: self.control@,
            target: self.target@,
            zeros: self.counts[0] as nat,
            ones: self.counts[1] as nat,
        }
    }
}

impl Clone for Simulation {
    fn clone(&self) -> (r: Self)
        ensures
            r@ == self@,
    {
        Simulation {
            control: self.control.clone(),
            target: self.target.clone(),
            counts: [self.counts[0], self.counts[1]],
        }
    }
}

impl Simulation {
    /// An experiment before its first trial.
    pub fn new() -> (sim: Simulation)
        ensures
            sim@ == Run::start(),
    {
        Simulation { control: Qubit::new(), target: Qubit::new(), counts: [0, 0] }
    }

    /// Runs one trial whose two measurements use the given words, and
    /// returns the outcomes of control and target.
    pub fn step_with(&mut self, first: u64, second: u64) -> (outcomes: (u8, u8))
        requires
            old(self).counts[0] < u64::MAX,
            old(self).counts[1] < u64::MAX,
        ensures
            final(self)@ == old(self)@.trial(first, second),
            outcomes.0 == old(self)@.control_outcome(first),
            outcomes.1 == old(self)@.target_outcome(second),
    {
        self.control.hadamard_gate();
        self.control.cnot_gate(&mut self.target);
        let outcome = self.control.measure_with(first);
        let other = self.target.measure_with(second);
        let index = outcome as usize;
        self.counts[index] = self.counts[index] + 1;
        (outcome, other)
    }

    /// Runs one trial whose two measurements each draw a word from `rng`,
    /// the control's first, and returns the outcomes of control and target.
    pub fn step(&mut self, rng: &mut StdRng) -> (outcomes: (u8, u8))
        requires
            old(self).counts[0] < u64::MAX,
            old(self).counts[1] < u64::MAX,
        ensures
            exists|first: u64, second: u64|
                {
                    &&& final(self)@ == old(self)@.trial(first, second)
                    &&& outcomes.0 == old(self)@.control_outcome(first)
                    &&& outcomes.1 == old(self)@.target_outcome(second)
                },
    {
        let first = next_word(rng);
        let second = next_word(rng);
        self.step_with(first, second)
    }
}

/// Runs one trial for each pair of words from a fresh experiment, the first
/// word of a pair for the control's measurement and the second for the
/// target's, and returns the tally of the control qubit's outcomes.
pub fn simulate_with(words: &Vec<(u64, u64)>) -> (counts: [u64; 2])
    ensures
        counts[0] == Run::start().trials(words@).zeros,
        counts[1] == Run::start().trials(words@).ones,
        counts[0] + counts[1] == words@.len(),
{
    let mut sim = Simulation::new();
    let mut done: usize = 0;
    while done < words.len()
        invariant
            done <= words.len(),
            sim@ == Run::start().trials(words@.take(done as int)),
            sim.counts[0] + sim.counts[1] == done,
        decreases words.len() - done,
    {
        let pair = words[done];
        sim.step_with(pair.0, pair.1);
        done = done + 1;
        proof {
            assert(words@.take(done as int).drop_last() == words@.take(done - 1));
        }
    }
    proof {
        assert(words@.take(done as int) == words@);
    }
    sim.counts
}

/// Runs `n` trials from a fresh experiment, drawing from `rng`, and returns
/// the tally of the control qubit's outcomes.
///
/// Whatever is drawn, the two counts add up to `n`, and they are the counts
/// that `n` trials leave for some sequence of drawn words.
pub fn simulate(n: u64, rng: &mut StdRng) -> (counts: [u64; 2])
    ensures
        counts[0] + counts[1] == n,
        exists|words: Seq<(u64, u64)>|
            {
                &&& words.len() == n
                &&& Run::start().trials(words).zeros == counts[0]
                &&& Run::start().trials(words).ones == counts[1]
            },
{
    let mut sim = Simulation::new();
    let ghost mut words: Seq<(u64, u64)> = Seq::empty();
    let mut done: u64 = 0;
    while done < n
        invariant
            done <= n,
            words.len() == done,
            sim@ == Run::start().trials(words),
            sim.counts[0] + sim.counts[1] == done,
        decreases n - done,
    {
        let ghost before = sim@;
        sim.step(rng);
        proof {
            let (first, second) = choose|first: u64, second: u64|
                sim@ == before.trial(first, second);
            assert(words.push((first, second)).drop_last() == words);
            words = words.push((first, second));
        }
        done = done + 1;
    }
    sim.counts
}

} // verus!

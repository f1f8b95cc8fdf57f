use qubit_sim::circuit::{simulate, simulate_with, Simulation};
use qubit_sim::qubit::Qubit;
use rand::rngs::StdRng;
use rand::{Rng, SeedableRng};

const LOW: u64 = 0;
const HIGH: u64 = 1 << 63;

#[test]
fn a_new_simulation_has_fresh_qubits_and_no_counts() {
    let sim = Simulation::new();
    assert_eq!(sim.control, Qubit::new());
    assert_eq!(sim.target, Qubit::new());
    assert_eq!(sim.counts, [0, 0]);
}

#[test]
fn step_with_counts_only_the_control() {
    let mut sim = Simulation::new();
    assert_eq!(sim.step_with(LOW, HIGH), (0, 1));
    assert_eq!(sim.counts, [1, 0]);
    assert_eq!(sim.control, Qubit::definite(0));
    assert_eq!(sim.target, Qubit::definite(1));
    assert_eq!(sim.step_with(HIGH, LOW), (1, 1));
    assert_eq!(sim.counts, [1, 1]);
    assert_eq!(sim.control, Qubit::definite(1));
}

#[test]
fn the_target_carries_its_state_between_trials() {
    // while the target is |0> its outcome follows its own draw
    let mut sim = Simulation::new();
    assert_eq!(sim.step_with(HIGH, LOW), (1, 0));
    assert_eq!(sim.step_with(LOW, LOW), (0, 0));
    assert_eq!(sim.target, Qubit::definite(0));
    // once it has measured 1 it stays there, whatever is drawn
    assert_eq!(sim.step_with(LOW, HIGH), (0, 1));
    for word in [LOW, HIGH, 12345, u64::MAX] {
        let (_, other) = sim.step_with(word, LOW);
        assert_eq!(other, 1);
        assert_eq!(sim.target, Qubit::definite(1));
    }
    assert_eq!(sim.counts[0] + sim.counts[1], 7);
}

#[test]
fn the_control_outcome_is_the_top_bit_of_its_word() {
    let mut rng = StdRng::seed_from_u64(11);
    let mut sim = Simulation::new();
    for _ in 0..2000 {
        let first: u64 = rng.gen();
        let second: u64 = rng.gen();
        let (outcome, _) = sim.step_with(first, second);
        assert_eq!(outcome as u64, first >> 63);
    }
    assert_eq!(sim.counts[0] + sim.counts[1], 2000);
}

#[test]
fn step_draws_the_control_word_first() {
    let mut a = StdRng::seed_from_u64(77);
    let mut b = StdRng::seed_from_u64(77);
    let mut drawn = Simulation::new();
    let mut given = Simulation::new();
    for _ in 0..300 {
        let outcomes = drawn.step(&mut a);
        let first: u64 = b.gen();
        let second: u64 = b.gen();
        assert_eq!(outcomes, given.step_with(first, second));
        assert_eq!(drawn, given);
    }
}

#[test]
fn simulate_counts_every_trial() {
    let mut rng = StdRng::seed_from_u64(1);
    assert_eq!(simulate(0, &mut rng), [0, 0]);
    let one = simulate(1, &mut rng);
    assert_eq!(one[0] + one[1], 1);
    let many = simulate(257, &mut rng);
    assert_eq!(many[0] + many[1], 257);
}

#[test]
fn simulate_is_the_repeated_step() {
    let mut a = StdRng::seed_from_u64(123);
    let mut b = StdRng::seed_from_u64(123);
    let counts = simulate(500, &mut a);
    let mut sim = Simulation::new();
    for _ in 0..500 {
        sim.step(&mut b);
    }
    assert_eq!(counts, sim.counts);
}

#[test]
fn seeded_run_reports_probabilities_near_one_half() {
    let n_measurements: u64 = 10000;
    let mut rng = StdRng::seed_from_u64(42);
    let counts = simulate(n_measurements, &mut rng);
    assert_eq!(counts[0] + counts[1], n_measurements);
    let mut sum = 0.0;
    let mut lines = Vec::new();
    for i in 0..2 {
        let probability = counts[i] as f64 / n_measurements as f64;
        assert!((probability - 0.5).abs() < 0.02, "outcome {}: {}", i, probability);
        let line = format!("Probability of outcome {}: {:.4}", i, probability);
        let printed: f64 = line.rsplit(' ').next().unwrap().parse().unwrap();
        assert_eq!(line.rsplit('.').next().unwrap().len(), 4);
        sum += printed;
        lines.push(line);
    }
    assert!((sum - 1.0).abs() < 1e-9, "{:?}", lines);
    assert!(lines[0].starts_with("Probability of outcome 0: 0."));
    assert!(lines[1].starts_with("Probability of outcome 1: 0."));
}

#[test]
fn seeded_runs_repeat() {
    let first = simulate(1000, &mut StdRng::seed_from_u64(9));
    let second = simulate(1000, &mut StdRng::seed_from_u64(9));
    assert_eq!(first, second);
}

#[test]
fn the_tally_counts_the_clear_top_bits_of_the_control_words() {
    let mut a = StdRng::seed_from_u64(2718);
    let mut b = StdRng::seed_from_u64(2718);
    let n = 3000;
    let counts = simulate(n, &mut a);
    let mut clear = 0;
    for _ in 0..n {
        let first: u64 = b.gen();
        let _second: u64 = b.gen();
        if first >> 63 == 0 {
            clear += 1;
        }
    }
    assert_eq!(counts, [clear, n - clear]);
}

#[test]
fn simulate_with_tallies_the_given_words() {
    assert_eq!(simulate_with(&Vec::new()), [0, 0]);
    let words = vec![(LOW, HIGH), (HIGH, LOW), (LOW, LOW), (HIGH, HIGH), (HIGH, 7), (1, 2)];
    assert_eq!(simulate_with(&words), [3, 3]);
    assert_eq!(simulate_with(&vec![(HIGH, LOW); 5]), [0, 5]);
    assert_eq!(simulate_with(&vec![((1 << 63) - 1, HIGH); 4]), [4, 0]);
}

#[test]
fn simulate_with_is_the_repeated_step() {
    let mut rng = StdRng::seed_from_u64(808);
    let words: Vec<(u64, u64)> = (0..400).map(|_| (rng.gen(), rng.gen())).collect();
    let mut sim = Simulation::new();
    for (first, second) in &words {
        sim.step_with(*first, *second);
    }
    assert_eq!(simulate_with(&words), sim.counts);
}

#[test]
fn simulate_is_simulate_with_on_the_drawn_words() {
    let mut a = StdRng::seed_from_u64(4242);
    let mut b = StdRng::seed_from_u64(4242);
    let n = 10000;
    let words: Vec<(u64, u64)> = (0..n).map(|_| (b.gen(), b.gen())).collect();
    let counts = simulate(n, &mut a);
    assert_eq!(counts, simulate_with(&words));
    assert_eq!(counts[0] + counts[1], n);
    for count in counts {
        let probability = count as f64 / n as f64;
        assert!((probability - 0.5).abs() < 0.02);
    }
}

#[test]
fn fresh_qubits_measure_zero_exactly_on_clear_top_bits() {
    let mut rng = StdRng::seed_from_u64(515);
    let trials = 10000;
    let mut zeros = 0;
    let mut clear = 0;
    for _ in 0..trials {
        let word: u64 = rng.gen();
        let mut q = Qubit::new();
        q.hadamard_gate();
        let outcome = q.measure_with(word);
        assert_eq!(outcome as u64, word >> 63);
        zeros += (outcome == 0) as u32;
        clear += (word >> 63 == 0) as u32;
    }
    assert_eq!(zeros, clear);
    assert!((zeros as f64 / trials as f64 - 0.5).abs() < 0.02);
}

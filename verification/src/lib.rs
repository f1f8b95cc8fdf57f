//! A two-qubit circuit simulator over exact arithmetic.
//!
//! Amplitudes are complex numbers whose parts are exact members of the ring
//! generated by the integers, `1/2` and `√2`, held with integers of any
//! size, so the gates and the measurement rule are computed without
//! rounding and without a bound on the numbers.
pub mod algebra;
pub mod circuit;
pub mod complex;
pub mod integer;
pub mod natural;
pub mod qubit;
pub mod random;
pub mod reals;
pub mod scalar;
pub mod surd;

pub use crate::circuit::{simulate, simulate_with, Simulation};
pub use crate::complex::Complex;
pub use crate::qubit::Qubit;
pub use crate::scalar::Scalar;

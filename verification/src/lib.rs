//! A Sequential Monte Carlo (particle filter) estimator for nonlinear,
//! non-Gaussian state estimation, together with the probability-density
//! utilities and model contracts it is parameterized over.
//!
//! All quantities that the filter reasons about (weights, states, density
//! values) are exact rational numbers, so the filter's invariants (weights
//! sum to one, systematic resampling selects the specified indices) hold
//! exactly rather than up to floating-point tolerance.

pub mod rational;
pub mod pdfs;
pub mod particles;
pub mod particle_filter;
pub mod simulator;

//! Split-radix discrete Fourier transform over the complex extension of the
//! Mersenne-31 field, computed entirely with integer arithmetic and deferred
//! modular reduction.
pub mod field;
pub mod complex;
pub mod model;
pub mod butterfly;
pub mod kernels;
pub mod pass;
pub mod ladder;
pub mod laws;

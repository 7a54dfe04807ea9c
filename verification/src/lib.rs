//! A streaming, single-channel finite-impulse-response (FIR) filter.
//!
//! The filter owns a tap kernel and a circular history of the most recent
//! input samples; [`FirFilter::process_block`] convolves an input block
//! against the kernel in place, carrying history across calls so that a
//! stream may be processed in blocks of any size without discontinuities.
//!
//! Samples and taps are bounded `i64` values; every contract is stated over
//! the mathematical model in [`model`], where the convolution is defined on
//! unbounded integer sequences.  The classical FIR identities — identity
//! kernel, pure delay, linearity, block-size independence, silence after a
//! clear — are proved of that model in [`laws`].

pub mod fir_filter;
pub mod laws;
pub mod model;

pub use fir_filter::FirFilter;

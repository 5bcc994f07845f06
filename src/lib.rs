//! Drift detection and drift-compensated averaging for stacks of 16-bit
//! grayscale frames, with block-reduction and threshold analysis of single
//! frames.
pub mod error;
pub mod peak;
pub mod frame;
pub mod drift;
pub mod accumulate;
pub mod reduce;
pub mod analyze;
pub mod codec;
pub mod laws;

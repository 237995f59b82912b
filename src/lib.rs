//! Correlation power analysis against the AES substitution layer.
//!
//! Traces are sequences of fixed-point sample codes (`i16`). The library
//! realigns them after their calibration run, predicts the leakage of every
//! key-byte hypothesis with a Hamming-weight model, correlates predictions
//! with sample columns in exact integer arithmetic, and keeps, for each key
//! byte, the hypothesis of largest absolute correlation.
pub mod align;
pub mod correlation;
pub mod power;
pub mod recover;

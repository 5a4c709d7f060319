//! Technical-indicator engine over ordered price series.
//!
//! Series are ordered oldest first. Every windowed result is aligned to the
//! trailing end of its input: output element `i` summarises the window that
//! starts at input index `i`.
//!
//! The verified core fixes when an indicator can be computed, how long each
//! result is, which inputs feed each output element, and how series of
//! different lengths are aligned before they are combined. The arithmetic on
//! prices is supplied by the caller as closures.

pub mod layout;
pub mod series;
pub mod indicators;
pub mod date;

//! Fourier-Motzkin elimination: the integer rounding it relies on, and the
//! expressions it works on.
pub mod expr;
pub mod util;

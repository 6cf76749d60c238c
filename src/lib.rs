//! Normalisation and quantifier elimination for Presburger arithmetic:
//! formulas over integer variables with `+`, `=`, `<=`, the connectives and
//! the quantifiers.
//!
//! - `ast`: the formula tree and its mathematical model;
//! - `nnf`: reduction to negation normal form, with its laws;
//! - `rational`: exact rationals of any size;
//! - `lin_expr`, `lin_rel`: affine expressions and the relations `e = 0`,
//!   `e <= 0`, with substitution by an equality;
//! - `elim`: elimination of a variable from a conjunction of relations, by an
//!   equality or by Fourier-Motzkin;
//! - `fme`: the integer rounding used to tighten bounds.
pub mod ast;
pub mod elim;
pub mod fme;
pub mod lin_expr;
pub mod lin_rel;
pub mod nnf;
pub mod rational;

//! Total-order comparison of numeric values written as text.
//!
//! `numeric_str_cmp` orders two text operands as numbers without parsing
//! them into any fixed-width numeric type, so operands of arbitrary length
//! compare exactly. Malformed operands are not an error: they rank below
//! every well-formed operand, and equal to one another.
mod compare;
pub mod laws;
pub mod model;

pub use compare::numeric_str_cmp;

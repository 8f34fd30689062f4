//! The bit-set backends.
pub mod bv;
pub mod rustc;

//! Sets and sparse binary relations over indexed domains.
//!
//! A domain numbers its values `0, 1, 2, ...`; a set of domain values is a
//! bit-set over those numbers, and a relation is a sparse map from row keys
//! to such sets. Every operation that may grow or shrink a set reports
//! whether it did, which is what a fixed-point computation needs to know
//! when to stop.
pub mod bitset;
pub mod domain;
pub mod fx;
pub mod impls;
pub mod matrix;
pub mod pointer;
pub mod set;

pub use bitset::BitSet;
pub use domain::IndexedDomain;
pub use matrix::IndexMatrix;
pub use pointer::ArcFamily;
pub use pointer::PointerFamily;
pub use pointer::RcFamily;
pub use pointer::RefFamily;
pub use set::IndexSet;
pub use set::ToIndex;

//! Algebraic structures whose laws are checked against the values they see.
//!
//! Sets are described by conditions, and binary operations carry the laws
//! they claim; every use of an operation tests those laws against its
//! history of inputs before it hands back a result.

pub mod algaeset;
pub mod mapping;
pub mod magma;
pub mod group;

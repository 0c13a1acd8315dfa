//! What writes circuits.

pub mod build_gates;
pub mod builder;
pub mod conversion_law;
pub mod from_r1cs;
pub mod from_r1cs_law;
pub mod from_r1cs_refusal;
pub mod sink;
pub mod statement_law;

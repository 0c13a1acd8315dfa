//! Tools around zero-knowledge statements written as SIEVE IR circuits.

pub mod consumers;
pub mod error;
pub mod flat;
pub mod number;
pub mod number_law;
pub mod prime;
pub mod producers;
pub mod structs;
pub mod tools;
pub mod tools_law;

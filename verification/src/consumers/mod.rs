//! What reads circuits.

pub mod backend;
pub mod call_law;
pub mod copy_law;
pub mod coupling;
pub mod evaluator;
pub mod execution;
pub mod flatten;
pub mod flattening;
pub mod flattening_law;
pub mod gate_law;
pub mod invariance;
pub mod iteration_law;
pub mod message_law;
pub mod operations;
pub mod plaintext;
pub mod r1cs_builder;
pub mod r1cs_form_law;
pub mod r1cs_law;
pub mod relation_law;
pub mod scope_law;
pub mod selection_law;
pub mod semantics;
pub mod simulation;
pub mod soundness_law;
pub mod statements;
pub mod switch_law;
pub mod to_r1cs;
pub mod variables_law;
pub mod verifier_law;

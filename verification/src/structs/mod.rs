//! The data that statements are made of.

pub mod copies;
pub mod encoding;
pub mod files;
pub mod function;
pub mod functions;
pub mod gate;
pub mod gates;
pub mod header;
pub mod instance;
pub mod iterators;
pub mod message;
pub mod r1cs;
pub mod relation;
pub mod translation_law;
pub mod value;
pub mod wire;
pub mod wire_law;
pub mod witness;

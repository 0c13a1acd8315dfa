//! The FlatBuffers encoding, in which messages are stored.

pub mod layout;
pub mod model;
pub mod reader;
pub mod reader_law;
pub mod tables;
pub mod writer;

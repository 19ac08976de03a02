//! Cleans text captured from terminal user interfaces: strips box-drawing
//! borders and ANSI escape sequences, recovers Windows-1252 mojibake, and
//! guards the write-back of the result with a snapshot/validate/commit
//! protocol.
pub mod text;
pub mod border;
pub mod frame;
pub mod ansi;
pub mod cp1252;
pub mod pipeline;
pub mod laws;
pub mod transaction;
pub mod transfer;

//! Parser, validator and serializer for the `APRILMDL` speech-model container
//! format: a single binary file bundling model metadata, a runtime parameter
//! block, a token vocabulary and the raw bytes of several embedded neural
//! networks.
//!
//! The parser consumes an in-memory byte source, checks every structural
//! invariant of the format, and either returns a fully validated
//! [`model_file::ModelFile`] or a precise [`errors::ParseError`] naming what
//! was wrong. All reads are bounds-checked: a malformed file is rejected,
//! never read out of range.

pub mod codec;
pub mod container;
pub mod errors;
pub mod model_file;
pub mod proofs;

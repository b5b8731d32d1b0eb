//! A versioned schema compiler core and the readers of the repository that
//! stores compiled schemas.
//!
//! The compiler resolves the version range of every declared type and field,
//! builds one module snapshot per version, and checks names, enum variants
//! and type references in every snapshot. The repository readers decode
//! stored object and definition files.
pub mod analysis;
pub mod decl;
pub mod define;
pub mod definition;
pub mod error;
pub mod graph;
pub mod overlap;
pub mod range;
pub mod repo;
pub mod resolve;
pub mod timeline;

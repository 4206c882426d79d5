//! A structural-schema validator.
//!
//! A schema document (itself a JSON-like value) is compiled once into a flat,
//! linear sequence of validation operations; several interpreters then walk
//! that sequence against input values using an explicit traversal-context
//! stack instead of tree recursion.  A registry stores compiled schemas under
//! names and answers validation requests against them.

pub mod types;
pub mod value;
pub mod ops;
pub mod schema;
pub mod semantics;
pub mod compile;
pub mod scan;
pub mod walk;
pub mod steps;
pub mod engine;
pub mod fragments;
pub mod registry;
pub mod validators;

pub use types::{JsonSchemaTarget, PathSegment, ValidationIssue, ValidationResult};
pub use validators::{StandardJsonSchema, Valrs};

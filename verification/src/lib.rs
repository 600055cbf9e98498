//! Declarative persistent record types: a stable, versioned schema model with
//! merge rules that preserve identifiers across regenerations, per-field
//! property classification, generation of (de)serialization and query-builder
//! code, and runtime relation types (single-target and multi-target) with
//! change tracking.

pub mod classify;
pub mod codegen;
pub mod consts;
pub mod datetime;
pub mod merge;
pub mod model;
pub mod relations;
pub mod text;

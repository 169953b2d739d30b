//! Field-driven code synthesis for record types: the metadata of a record
//! declaration, the identifiers derived from it, the plans of the artifacts
//! generated for it, and the runtime pieces that generated code relies on.

pub mod builder;
pub mod decl;
pub mod group;
pub mod naming;
pub mod plan;
pub mod text;
pub mod values;

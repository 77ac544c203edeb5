//! Inference core of a pointer-permission analysis.
//!
//! The crate finds out, for every raw pointer of a program, which
//! capabilities the pointer needs: reading, writing, freeing, and offsets in
//! either direction.  It has two parts that do not depend on each other.
//!
//! The constraint generator walks the body of a function and gathers
//! constraints between the permission sets of pointer positions:
//!
//! * [`context`]: pointer identities and permission sets;
//! * [`ty`]: types and labelled types;
//! * [`mir`]: function bodies;
//! * [`defs`], [`analysis`]: what is known of the program around a body;
//! * [`util`]: the classification of call targets and value expressions;
//! * [`rules`]: the constraints that each part of a body gives rise to;
//! * [`type_check`]: the walk itself;
//! * [`guarantees`], [`provenance`]: what holds of all that is gathered.
//!
//! The provenance analyzer summarises the pointer-producing events of a
//! function: what each pointer flows to, and whether it is unique.
//!
//! * [`graph`]: the provenance graph;
//! * [`info`]: the summaries and the analysis that computes them;
//! * [`descent`], [`siblings`]: what the summaries mean;
//! * [`render`]: summaries as text.

pub mod analysis;
pub mod constraints;
pub mod context;
pub mod defs;
pub mod descent;
pub mod error;
pub mod graph;
pub mod guarantees;
pub mod info;
pub mod mir;
pub mod provenance;
pub mod render;
pub mod rules;
pub mod siblings;
pub mod ty;
pub mod type_check;
pub mod util;

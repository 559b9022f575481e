//! The lowering layer between parsed ASTs and emitted elements: rule and
//! default seeds, name helpers, and the pieces of resolution and emission
//! that are pure functions of strings.
pub mod bundle;
pub mod collect;
pub mod collect_walk;
pub mod context;
pub mod elaborate;
pub mod emit;
pub mod feature_refs;
pub mod feature_search;
pub mod features;
pub mod ids;
pub mod imports;
pub mod indexes;
pub mod inherit;
pub mod ir;
pub mod local_refs;
pub mod library;
pub mod mappings;
pub mod names;
pub mod resolve;
pub mod rules;
pub mod semantic_defaults;
pub mod types;
pub mod usage_resolution;
pub mod usage_semantics;

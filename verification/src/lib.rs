//! Finds TypeScript function parameters whose declared union types are wider
//! than anything the call sites pass.
//!
//! A project is analyzed in three steps. Each file is parsed and reduced to the
//! facts that matter ([`extract`]); usages are linked across modules onto
//! declarations ([`link`]); and each declared type is held against what the
//! calls pass ([`narrow`]). Whatever cannot be proved degrades to silence.

pub mod annotation;
pub mod bound;
pub mod chains;
pub mod cli;
pub mod composed;
pub mod declared;
pub mod diff;
pub mod entered;
pub mod extract;
pub mod extracted;
pub mod followed;
pub mod genproj;
pub mod json;
pub mod jsonc;
pub mod kept;
pub mod laws;
pub mod link;
pub mod located;
pub mod model;
pub mod narrow;
pub mod number;
pub mod observe;
pub mod order;
pub mod outcome;
pub mod param;
pub mod path;
pub mod prepass;
pub mod probe;
pub mod project;
pub mod reached;
pub mod reading;
pub mod report;
pub mod resolve;
pub mod scope;
pub mod source;
pub mod specifier;
pub mod surrogate;
pub mod syntax;
pub mod taint;
pub mod text;
pub mod textual;
pub mod touched;
pub mod ty;
pub mod usage;
pub mod values;
pub mod visit;
pub mod walked;
pub mod workspace;

pub use model::{Finding, Options};
pub use project::analyze;

//! Compile-time transformer for annotated entry-point declarations.
//!
//! An entry-point function declares, through one annotation per parameter,
//! which external resources it needs. This crate parses such a declaration
//! into an intermediate model (`Loader`) and renders from it the text of an
//! asynchronous bootstrap routine: logging setup, optional secrets-map
//! construction, per-resource provisioning calls in declaration order, and
//! the final call into the original function.

pub mod decl;
pub mod gen;
pub mod level;
pub mod model;
pub mod options;
pub mod template;
pub mod transform;

pub use level::LogLevel;

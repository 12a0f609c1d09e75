//! Core library of a diagnostics pipeline for YAML documents that embed
//! template expressions (`${...}` and `$${...}`).
//!
//! The pipeline locates embedded expressions with a brace-depth, quote-aware
//! scanner, replaces each by a placeholder scalar so that a YAML parser can
//! process the rest of the document, and maps positions reported against the
//! rewritten text back to coordinates in the original text. A parse failure
//! becomes one positioned error diagnostic; a parsed document is checked
//! against the workflow structure rules, whose findings become warnings and
//! hints.

pub mod diagnostics;
pub mod document;
pub mod expressions;
pub mod pipeline;
pub mod preprocessor;
pub mod schema;
pub mod text;
pub mod validator;
pub mod yaml;

use vstd::prelude::*;

verus! {

} // verus!

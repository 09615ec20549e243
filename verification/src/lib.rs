//! Module dependency resolver for a Rust package.
//!
//! The library walks a package's module tree starting from its entry file,
//! flattens every `use` declaration found on the way into single-target
//! import records, and folds those records into a directed dependency graph
//! between modules.  Parsing source text into a syntax tree is delegated to
//! the `syn` crate behind a small trusted adapter; everything the resolver
//! decides — how import trees flatten, how relative-path markers resolve,
//! which file a declared sub-module lives in, how the walk terminates, and
//! how the graph is assembled — is stated in contracts and proved.
//!
//! The index and the graph are this library's whole product.  The extraction
//! step that would consume them — splitting a module out into a package of
//! its own and rewriting the imports that cross the boundary — is a separate
//! collaborator and deliberately no part of this library.

pub mod flatten;
pub mod graph;
pub mod names;
pub mod options;
pub mod syntax;
pub mod transform;
pub mod visit;
pub mod walker;

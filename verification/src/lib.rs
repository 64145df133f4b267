//! Build-and-run pipeline for TypeScript/JavaScript workers: specifier
//! resolution, source loading and type stripping, module-graph construction,
//! content-addressed build caching, and a QuickJS-backed worker runtime that
//! invokes named async handlers with request/response values.

pub mod cache;
pub mod cli;
pub mod errors;
pub mod graph;
pub mod loader;
pub mod options;
pub mod paths;
pub mod resolver;
pub mod strings;
pub mod transpiler;
pub mod worker;

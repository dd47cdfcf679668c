//! Structural queries over source files: grammar loading and caching, the
//! table of language bundles, and the rendering of query matches.
pub mod assoc;
pub mod bundle;
pub mod engine;
pub mod format;
pub mod language_spec;
pub mod pipeline;
pub mod query_match;
pub mod registry;

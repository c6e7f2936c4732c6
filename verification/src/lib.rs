//! Inspects a package manager's installed-package metadata store and answers
//! two relational queries over inter-package dependencies: which dependencies
//! are unique to a given package, and which other installed packages share at
//! least one dependency with it. The crate holds the descriptor parser, the
//! loader's aggregation step and the dependency relation engine; enumerating
//! and reading the on-disk store is left to the caller, who hands in the raw
//! descriptor texts.

pub mod loader;
pub mod normalize;
pub mod package;
pub mod parse;
pub mod relations;
pub mod text;

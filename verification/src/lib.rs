//! Shared, hierarchical, cross-project memory for agents.
//!
//! A project's memory is a flat list of decision units whose `parent` links
//! form a tree. The list is the source of truth; the SQL cache that serves
//! queries is always derivable from it.
//!
//! - [`text`] renders numbers and bytes as text.
//! - [`ident`] makes the stable ids of nodes.
//! - [`source`] holds the decision units and their content hashes.
//! - [`tree`] says which lists of nodes are trees, and checks it.
//! - [`project`] is the registry of projects.
//! - [`store`] writes the cache's statements.
//! - [`cache`] says what each change does to the cached rows, and plans passes.
//! - [`mirror`] relates the cached rows to the sources.
//! - [`tally`] counts the rows that a pass prunes.
//! - [`query`] fetches a node and its subtree from a project's cached rows.
//! - [`command`] decides what each command does with what was read.

pub mod cache;
pub mod command;
pub mod ident;
pub mod mirror;
pub mod project;
pub mod query;
pub mod source;
pub mod store;
pub mod tally;
pub mod text;
pub mod tree;

//! Enumerates the commit history of a version-control repository: a verified
//! depth-first, first-parent-first traversal of the commit graph, with the
//! repository object store as an external collaborator.

pub mod cli;
pub mod engine;
pub mod errors;
pub mod git_ext;
pub mod graph;
pub mod ids;
pub mod laws;
pub mod record;
pub mod repo;

//! Packing files and folders into archives and extracting archives again,
//! with the decisions proved and the work on disk left to the caller.
//!
//! - `paths`: paths as components, entry names, and confinement.
//! - `archive`: the container, read and written in memory.
//! - `zipper`: what goes into an archive, and the entries it becomes.
//! - `unzipper`: the requests of a batch, and the steps of an extraction.
//! - `tree`: what those steps do to a directory tree.
//! - `roundtrip`: what is packed comes back.
//! - `coordinator`: how many extractions run at once, and what a batch
//!   ends with.
//! - `commander`: how a run of commands announces each of them.
//! - `outside`: types of other crates that are handed on as they are.

pub mod archive;
pub mod commander;
pub mod coordinator;
pub mod outside;
pub mod paths;
pub mod roundtrip;
pub mod tree;
pub mod unzipper;
pub mod zipper;

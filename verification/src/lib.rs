//! A versioned, content-addressed file and directory layer.
//!
//! Files are byte streams reconstructed from content references held in a
//! content store; directories are versioned snapshots whose identity changes
//! on every mutation, with the change propagated up the containment tree.

pub mod content_store;
pub mod directory_key;
pub mod directory_listing;
pub mod directory_store;
pub mod errors;
pub mod file_helper;
pub mod file_record;
pub mod laws;
pub mod reader;
pub mod writer;
pub mod utils;

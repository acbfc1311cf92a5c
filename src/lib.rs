//! Detects a filename prefix shared by a set of files and plans the renames
//! that remove or replace it.

pub mod engine;
pub mod error;
pub mod named_path;
pub mod plan;
pub mod prefix;
pub mod resolve;

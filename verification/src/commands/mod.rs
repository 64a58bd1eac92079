//! The commands that the bridge runs for clients: their requests, responses,
//! and the parsing of their output.
pub mod filesystem;
pub mod git;
pub mod slurm;
pub mod validation;

pub use validation::{PathValidator, ValidatedPath};

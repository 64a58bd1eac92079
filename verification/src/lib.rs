//! Verified core of a bridge that lets an agent reach a cluster over SSH
//! within a sandbox of allowed paths and resource limits.
pub mod text;
pub mod paths;
pub mod error;
pub mod config;
pub mod commands;
pub mod shell;
pub mod sbatch;
pub mod ssh;
pub mod rpc;
pub mod o2;
pub mod locations;

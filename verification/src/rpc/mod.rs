//! The RPC methods of the bridge: what each request runs on the remote side,
//! and what each answer holds of what came back.
pub mod dispatch;
pub mod files;
pub mod handlers;
pub mod job_wait;
pub mod jobs;
pub mod sandbox;
pub mod types;

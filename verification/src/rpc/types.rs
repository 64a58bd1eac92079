//! Values that travel between the bridge and its clients.
use crate::commands::filesystem::DownloadTooLargeError;
use crate::commands::filesystem::DownloadTooLargeErrorView;
use vstd::prelude::*;

verus! {

/// Connection status response
#[derive(Debug)]
pub struct ConnectionStatus {
    pub connected: bool,
    pub user: String,
    pub host: String,
    pub socket_path: String,
    pub instructions: Option<String>,
}

/// Generic command result
#[derive(Debug)]
pub struct CommandResult {
    pub success: bool,
    pub exit_code: i32,
    pub stdout: String,
    pub stderr: String,
    pub duration_ms: u64,
}

/// Error response for RPC; `data` carries the details of a refused download.
#[derive(Debug)]
pub struct RpcError {
    pub code: i32,
    pub message: String,
    pub data: Option<DownloadTooLargeError>,
}

/// An RPC error, as values.
pub struct RpcErrorView {
    pub code: i32,
    pub message: Seq<char>,
    pub data: Option<DownloadTooLargeErrorView>,
}

impl View for RpcError {
    type V = RpcErrorView;

    open spec fn view(&self) -> RpcErrorView {
        RpcErrorView {
            code: self.code,
            message: self.message@,
            data: match self.data {
                Some(d) => Some(d@),
                None => None,
            },
        }
    }
}

/// An error with a code and a message and no data.
pub open spec fn rpc_failure(code: i32, message: Seq<char>) -> RpcErrorView {
    RpcErrorView { code, message, data: None }
}

/// Builds an error with a code and a message and no data.
pub fn rpc_error(code: i32, message: String) -> (e: RpcError)
    ensures
        e@ == rpc_failure(code, message@),
{
    RpcError { code, message, data: None }
}

// Error codes
pub const ERR_NOT_CONNECTED: i32 = -32001;
pub const ERR_PERMISSION_DENIED: i32 = -32002;
pub const ERR_INVALID_PATH: i32 = -32003;
pub const ERR_INVALID_REGEX: i32 = -32004;
pub const ERR_COMMAND_FAILED: i32 = -32005;
pub const ERR_TIMEOUT: i32 = -32006;
pub const ERR_VALIDATION: i32 = -32007;

} // verus!

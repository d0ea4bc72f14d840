pub mod json;
pub mod rpc;
pub mod server;
pub mod sse;

use vstd::prelude::*;

verus! {

/// Protocol-level failure conditions that the dispatcher can report,
/// mirroring the JSON-RPC 2.0 error taxonomy this server uses.
#[derive(Clone, Copy, PartialEq, Eq, Structural, Debug)]
pub enum McpError {
    InvalidRequest,
    InvalidParams,
    MethodNotFound,
    ServerError,
}

impl McpError {
    /// The JSON-RPC 2.0 error code for this condition.
    pub fn code(&self) -> (c: i64)
        ensures
            c == self.spec_code(),
    {
        match self {
            McpError::InvalidRequest => -32600,
            McpError::InvalidParams => -32602,
            McpError::MethodNotFound => -32601,
            McpError::ServerError => -32000,
        }
    }

    pub open spec fn spec_code(self) -> i64 {
        match self {
            McpError::InvalidRequest => -32600i64,
            McpError::InvalidParams => -32602i64,
            McpError::MethodNotFound => -32601i64,
            McpError::ServerError => -32000i64,
        }
    }
}

} // verus!

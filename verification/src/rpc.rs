use vstd::prelude::*;

use crate::json::JsonV;
use crate::json::JsonValue;
use crate::McpError;

verus! {

/// Correlation id of a JSON-RPC method call.
pub enum RequestId {
    Num(u64),
    Str(String),
    Null,
}

/// One decoded JSON-RPC call: either a method call, which is owed exactly
/// one response with the matching id, or a notification, which is owed none.
pub enum JsonRpcCall {
    MethodCall { id: RequestId, method: String, params: Option<JsonValue> },
    Notification { method: String, params: Option<JsonValue> },
}

/// A decoded JSON-RPC request. This server handles single calls;
/// anything else is answered with an invalid-request failure.
pub enum JsonRpcRequest {
    Single(JsonRpcCall),
    Batch(Vec<JsonRpcCall>),
}

/// A JSON-RPC response envelope: exactly one of a success payload or a
/// structured error, each carrying the correlation id.
pub enum JsonRpcResponse {
    Success { id: RequestId, result: JsonValue },
    Failure { id: RequestId, error: McpError },
}

/// Model of a response envelope, with the payload as a JSON model value.
pub enum ResponseV {
    Success { id: RequestId, result: JsonV },
    Failure { id: RequestId, error: McpError },
}

impl View for JsonRpcResponse {
    type V = ResponseV;

    open spec fn view(&self) -> ResponseV {
        match *self {
            JsonRpcResponse::Success { id, result } => ResponseV::Success { id, result: result@ },
            JsonRpcResponse::Failure { id, error } => ResponseV::Failure { id, error },
        }
    }
}

impl JsonRpcResponse {
    pub open spec fn spec_is_success(self) -> bool {
        self matches JsonRpcResponse::Success { .. }
    }

    /// Whether this envelope reports success.
    pub fn is_success(&self) -> (b: bool)
        ensures
            b == self.spec_is_success(),
    {
        match self {
            JsonRpcResponse::Success { .. } => true,
            JsonRpcResponse::Failure { .. } => false,
        }
    }
}

} // verus!

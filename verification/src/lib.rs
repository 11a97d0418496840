//! A stdio JSON-RPC tool server: one request per input line, one response per
//! output line. The library holds the verified protocol logic: the wire codec,
//! envelope validation, method dispatch, and the file-creation tool's
//! decisions. The surrounding binary performs the actual I/O.

use vstd::prelude::*;

pub mod json;
pub mod mcp;
pub mod rpc;
pub mod server;

verus! {

/// The JSON-RPC error code for input that is not a well-formed request.
pub const PARSE_ERROR: i64 = -32700;

/// The JSON-RPC error code for a structurally valid but invalid request
/// (wrong protocol version, malformed envelope).
pub const INVALID_REQUEST: i64 = -32600;

/// The JSON-RPC error code for an unknown method or unknown tool name.
pub const METHOD_NOT_FOUND: i64 = -32601;

/// The JSON-RPC error code for missing or malformed parameters.
pub const INVALID_PARAMS: i64 = -32602;

/// The JSON-RPC error code for an underlying I/O or serialization failure.
pub const INTERNAL_ERROR: i64 = -32603;

} // verus!

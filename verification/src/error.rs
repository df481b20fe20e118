//! Caller-facing error taxonomy: transport failures per request kind,
//! response-body and malformed-response failures, per-object delete
//! failures, and the configuration errors raised before any request.

use vstd::prelude::*;

verus! {

/// Terminal failure reported by the transport/retry collaborator after it has
/// exhausted its retries: the final HTTP status, if one was received, and a
/// description of the failure.
#[derive(Debug, PartialEq, Eq)]
pub struct RetryFailure {
    pub status: Option<u16>,
    pub message: Vec<u8>,
}

/// One variant per failure kind, each carrying only the context it needs.
#[derive(Debug, PartialEq, Eq)]
pub enum Error {
    /// A GET/HEAD request failed at the transport; carries the offending path.
    GetRequest { path: Vec<u8>, source: RetryFailure },
    /// A GET response body could not be read.
    GetResponseBody { path: Vec<u8>, message: Vec<u8> },
    /// A PUT request failed at the transport; carries the offending path.
    PutRequest { path: Vec<u8>, source: RetryFailure },
    /// A DELETE request failed at the transport; carries the offending path.
    DeleteRequest { path: Vec<u8>, source: RetryFailure },
    /// A bulk-delete request failed at the transport.
    DeleteObjectsRequest { source: RetryFailure },
    /// The server rejected one key of a batch delete; in-band in the outcome
    /// vector, never aborts sibling items.
    DeleteFailed { path: Vec<u8>, code: Vec<u8>, message: Vec<u8> },
    /// The bulk-delete response body could not be read.
    DeleteObjectsResponse { message: Vec<u8> },
    /// The bulk-delete response body failed to parse against the wire schema.
    InvalidDeleteObjectsResponse { message: Vec<u8> },
    /// A copy request failed at the transport; carries the source path.
    CopyRequest { path: Vec<u8>, source: RetryFailure },
    /// A list request failed at the transport.
    ListRequest { source: RetryFailure },
    /// The list response body could not be read.
    ListResponseBody { message: Vec<u8> },
    /// A multipart-initiate request failed at the transport.
    CreateMultipartRequest { source: RetryFailure },
    /// The multipart-initiate response body could not be read.
    CreateMultipartResponseBody { message: Vec<u8> },
    /// A multipart-completion request failed at the transport.
    CompleteMultipartRequest { source: RetryFailure },
    /// The list response body failed to parse against the wire schema.
    InvalidListResponse { message: Vec<u8> },
    /// The multipart-initiate response body failed to parse.
    InvalidMultipartResponse { message: Vec<u8> },
    /// A copy/put precondition was violated; carries the destination path.
    AlreadyExists { path: Vec<u8> },
    /// The operation cannot be performed by this configuration; raised before
    /// any network call.
    NotSupported { message: Vec<u8> },
    /// A multipart completion was attempted with an incomplete part ledger.
    MissingPart,
    /// A key did not satisfy the path rules.
    InvalidPath { path: Vec<u8> },
}

} // verus!

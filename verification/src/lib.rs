//! A client-side transport core for the Language Server Protocol: JSON-RPC
//! messages framed with `Content-Length` headers over a duplex byte stream.
//!
//! This crate holds the verified protocol logic: the JSON data model and its
//! serializer and parser, the frame encoder, the header/body deframing state
//! machine, and the response-correlation loop, all expressed over plain bytes.
//! Socket I/O lives outside the library; callers hand bytes in and take bytes
//! out.
use vstd::prelude::*;

pub mod address;
pub mod client;
pub mod frame;
pub mod json;
pub mod parse;
pub mod protocol;

verus! {

/// The error taxonomy of the transport core.
#[derive(Debug, Clone, PartialEq, Eq, Structural)]
pub enum ProtocolError {
    /// The connection address is malformed or names an unsupported scheme.
    InvalidAddress,
    /// A header block carried no `Content-Length` line.
    MissingContentLength,
    /// A `Content-Length` line was found but its value does not parse as a
    /// non-negative integer that fits in `usize`.
    MalformedHeader,
    /// A frame body did not parse as a single JSON value of the expected
    /// shape.
    MalformedBody,
}

} // verus!

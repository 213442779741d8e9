//! Error model for the codec.
//!
//! All decode failures are local and recoverable: a caller drops the
//! malformed datagram and keeps serving. Each failure carries a kind that
//! says what went wrong on the wire.

use vstd::prelude::*;

verus! {

/// What went wrong while decoding or building a response.
#[derive(Clone, Copy, Debug, PartialEq, Eq, Structural)]
pub enum ErrorKind {
    /// The buffer is shorter than a field or a declared length requires.
    Truncated,
    /// A label length byte is outside 0..=63 and is not a pointer marker.
    InvalidLabelLength,
    /// Compression-pointer resolution exceeded the jump bound.
    PointerCycle,
    /// The request's opcode is not a standard query.
    UnsupportedOpcode,
}

/// The error type every fallible operation of this crate returns.
#[derive(Clone, Copy, Debug, PartialEq, Eq, Structural)]
pub struct ServerError {
    pub kind: ErrorKind,
}

impl ServerError {
    /// Wraps a kind in the crate's error type.
    pub fn new(kind: ErrorKind) -> (r: ServerError)
        ensures
            r.kind == kind,
    {
        ServerError { kind }
    }
}

} // verus!

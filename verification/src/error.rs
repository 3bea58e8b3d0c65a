//! The error kinds an invocation can fail with.

use vstd::prelude::*;

verus! {

/// Everything that can go wrong between receiving a wire response and
/// emitting the JSON document.  Errors are reported, never panicked on;
/// every one of them is fatal to the invocation except a failure of the
/// best-effort logout, which callers discard.
#[derive(Clone, Copy, Debug, PartialEq, Eq, Structural)]
pub enum ErrorKind {
    /// The RPC channel itself failed (connection, protocol, decoding).
    TransportError,
    /// A structured record was expected but the response is another variant.
    MalformedResponse,
    /// The expected field is absent from a structured record.
    MissingField,
    /// The field is present but of the wrong variant.
    UnexpectedType,
    /// A floating-point value is NaN or infinite, which a JSON number
    /// cannot represent.
    UnrepresentableNumber,
}

} // verus!

use vstd::prelude::*;

verus! {

/// What can go wrong while decoding, negotiating or routing a message.
#[derive(Debug, Clone, Copy, PartialEq, Eq, Structural)]
pub enum Error {
    /// The buffer ran out before a declared length or a fixed-width value.
    TruncatedInput,
    /// Malformed UTF-8, a negative length where none is allowed, an unknown
    /// discriminant, or a number too wide for its target type.
    InvalidEncoding,
    /// The client's and the server's version ranges do not overlap.
    IncompatibleVersion,
    /// A response arrived for a correlation id nobody is waiting on.
    UnexpectedResponse,
    /// The byte stream failed or violated the framing rules.
    TransportFailure,
}

} // verus!

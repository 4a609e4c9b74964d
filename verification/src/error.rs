use vstd::prelude::*;

verus! {

/// Errors of the framing layer and of the transport discipline built on it.
///
/// Every framing failure is surfaced as a distinct, inspectable value; none
/// is swallowed and none triggers an internal retry.
#[derive(Clone, Copy, Debug, PartialEq, Eq, Structural)]
pub enum ProtocolError {
    /// The stream could not be opened, or an operation was attempted on a
    /// connection that is already closed.
    ConnectionError,
    /// The underlying write accepted fewer bytes than the serialized
    /// sentence required; framing state is unrecoverable.
    PartialWrite,
    /// A length-prefix leading byte matches no defined tier; byte alignment
    /// is lost.
    MalformedLength,
    /// The stream ended before a sentence terminator was observed.
    TruncatedStream,
    /// Received content bytes are not valid text where the caller expects
    /// text; the caller may instead treat the content as opaque bytes.
    InvalidEncoding,
}

} // verus!

use vstd::prelude::*;

verus! {

/// Failures that the cluster client reports to its callers.
#[derive(Clone, Copy, Debug, PartialEq, Eq, Structural)]
pub enum ClusterError {
    /// The context id was never registered (or was removed).
    ContextNotFound,
    /// The connection refused to take an outbound request.
    TransportWrite,
    /// No response arrived before the deadline.
    Timeout,
    /// The connection is closed; pending and new requests fail.
    ConnectionClosed,
    /// A response payload could not be decoded.
    Decode,
    /// The backend answered with an error instead of a result.
    Backend,
    /// Every correlation id has been handed out on this connection.
    IdsExhausted,
    /// No result store is wired in.
    NotSupported,
}

} // verus!

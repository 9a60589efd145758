use vstd::prelude::*;

verus! {

/// The ways in which bringing up a connection, or keeping its registry
/// consistent, can fail.
#[derive(Debug, Clone, Copy, PartialEq, Eq, Structural)]
pub enum ConnectionError {
    /// The runtime directory or the display name is not configured.
    ConfigurationMissing,
    /// Nothing accepted a connection at the resolved socket path.
    TransportUnavailable,
    /// The stream was accepted but the peer is not a protocol server.
    ProtocolHandshakeFailed,
    /// A message did not parse against the interface's schema.
    MalformedEvent,
    /// The server named a global inconsistently: it removed a name that is
    /// not live, or announced a name that already is.
    ProtocolConsistencyViolation { name: u32 },
    /// Reading or writing the socket failed while events were pumped.
    RoundtripFailed,
}

} // verus!

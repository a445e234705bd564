//! Error taxonomy of the connectivity layer.
//!
//! Per-connection failures are recoverable and surfaced to the caller;
//! setup-time failures (binding, duplicate registration) are fatal to the
//! attempting process.

use vstd::prelude::*;

verus! {

/// Failure to parse the textual form of an address ticket.
#[derive(Clone, Copy, Debug, PartialEq, Eq, Structural)]
pub enum DecodeError {
    /// The text does not carry the ticket kind prefix.
    WrongKind,
    /// The kind prefix is present but the version tag is unrecognized.
    UnsupportedVersion,
    /// The payload after the version tag is not a well-formed encoding.
    Malformed,
}

/// Failure to acquire local network resources for an endpoint.
#[derive(Clone, Copy, Debug, PartialEq, Eq, Structural)]
pub enum BindError {
    /// No usable local address could be obtained.
    NoLocalAddress,
}

/// Failure to establish an outbound connection.
#[derive(Clone, Copy, Debug, PartialEq, Eq, Structural)]
pub enum ConnectError {
    /// All candidate addresses were exhausted without reaching the peer.
    Unreachable,
    /// A path was found but identity verification failed.
    AuthenticationFailed,
    /// The attempt did not finish within the bounded wait.
    Timeout,
}

/// A protocol identifier was registered twice on one router.
#[derive(Clone, Copy, Debug, PartialEq, Eq, Structural)]
pub enum DuplicateProtocolError {
    /// The identifier is already mapped to a handler.
    AlreadyRegistered,
}

/// Failure of a single ping probe.
#[derive(Clone, Copy, Debug, PartialEq, Eq, Structural)]
pub enum PingError {
    /// The connection to the remote ticket could not be established.
    ConnectFailed,
    /// No matching response arrived within the configured timeout.
    Timeout,
    /// The peer answered with a frame that is not the expected response.
    ProtocolMismatch,
}

} // verus!

//! Endpoints and the outcome of probing them.

use vstd::prelude::*;

verus! {

/// An IP address as its numeric value: 32 bits for version 4, 128 for version 6.
#[derive(Clone, Copy, Debug, PartialEq, Eq, Structural, Hash)]
pub enum IpAddress {
    V4(u32),
    V6(u128),
}

/// One target of a probe: a host and a port on it.
#[derive(Clone, Copy, Debug, PartialEq, Eq, Structural, Hash)]
pub struct Endpoint {
    pub ip: IpAddress,
    pub port: u16,
}

/// A failure on this side of the connection.
#[derive(Clone, Copy, Debug, PartialEq, Eq, Structural, Hash)]
pub enum ProbeIoError {
    /// The address cannot be used from this host.
    AddressUnusable,
    /// No descriptor, port or memory was left for the socket.
    ResourceExhausted,
    /// Any other local failure.
    Other,
}

/// The failures that the operating system reports for a connection attempt.
#[derive(Clone, Copy, Debug, PartialEq, Eq, Structural, Hash)]
pub enum ConnectFailure {
    /// The peer answered with a reset: nothing listens there.
    ConnectionRefused,
    /// The deadline passed without an answer.
    TimedOut,
    /// The socket was not ready when the deadline passed.
    WouldBlock,
    /// No route to the host.
    HostUnreachable,
    /// No route to the network.
    NetworkUnreachable,
    /// The network is down.
    NetworkDown,
    /// The connection was reset on the way.
    ConnectionReset,
    /// The connection was aborted on the way.
    ConnectionAborted,
    /// The address cannot be reached from any local interface.
    AddrNotAvailable,
    /// The address is not one a socket can connect to.
    InvalidInput,
    /// No local port was left to connect from.
    AddrInUse,
    /// No memory was left for the socket.
    OutOfMemory,
    /// No descriptor was left for the socket.
    DescriptorsExhausted,
    /// Anything else.
    Other,
}

/// What a connection attempt ran into.
#[derive(Clone, Copy, Debug, PartialEq, Eq, Structural, Hash)]
pub enum ConnectAttempt {
    /// The handshake completed before the deadline.
    Connected,
    /// The attempt failed.
    Failed(ConnectFailure),
}

/// The classified outcome of one probe.
#[derive(Clone, Copy, Debug, PartialEq, Eq, Structural, Hash)]
pub enum Outcome {
    /// The handshake completed within the timeout.
    Open,
    /// The peer actively refused.
    Closed,
    /// No answer, or an error on the way that looks like a silent drop.
    Filtered,
    /// A local failure; transient, so the endpoint is tried again.
    Error(ProbeIoError),
}

/// An endpoint with the outcome of probing it.
#[derive(Clone, Copy, Debug, PartialEq, Eq, Structural, Hash)]
pub struct ProbeResult {
    pub endpoint: Endpoint,
    pub outcome: Outcome,
}

/// The outcome that a failed attempt stands for: a refusal closes the port,
/// silence and trouble on the way leave it filtered, and trouble on this side
/// is an error of its kind.
pub open spec fn outcome_of_failure(failure: ConnectFailure) -> Outcome {
    match failure {
        ConnectFailure::ConnectionRefused => Outcome::Closed,
        ConnectFailure::TimedOut => Outcome::Filtered,
        ConnectFailure::WouldBlock => Outcome::Filtered,
        ConnectFailure::HostUnreachable => Outcome::Filtered,
        ConnectFailure::NetworkUnreachable => Outcome::Filtered,
        ConnectFailure::NetworkDown => Outcome::Filtered,
        ConnectFailure::ConnectionReset => Outcome::Filtered,
        ConnectFailure::ConnectionAborted => Outcome::Filtered,
        ConnectFailure::AddrNotAvailable => Outcome::Error(ProbeIoError::AddressUnusable),
        ConnectFailure::InvalidInput => Outcome::Error(ProbeIoError::AddressUnusable),
        ConnectFailure::AddrInUse => Outcome::Error(ProbeIoError::ResourceExhausted),
        ConnectFailure::OutOfMemory => Outcome::Error(ProbeIoError::ResourceExhausted),
        ConnectFailure::DescriptorsExhausted => Outcome::Error(ProbeIoError::ResourceExhausted),
        ConnectFailure::Other => Outcome::Error(ProbeIoError::Other),
    }
}

/// The outcome that a connection attempt stands for: a completed handshake
/// alone makes the endpoint open.
pub open spec fn outcome_of(attempt: ConnectAttempt) -> Outcome {
    match attempt {
        ConnectAttempt::Connected => Outcome::Open,
        ConnectAttempt::Failed(failure) => outcome_of_failure(failure),
    }
}

/// Classifies what a connection attempt ran into.
pub fn classify(attempt: ConnectAttempt) -> (outcome: Outcome)
    ensures
        outcome == outcome_of(attempt),
        outcome == Outcome::Open <==> attempt == ConnectAttempt::Connected,
{
    match attempt {
        ConnectAttempt::Connected => Outcome::Open,
        ConnectAttempt::Failed(failure) => match failure {
            ConnectFailure::ConnectionRefused => Outcome::Closed,
            ConnectFailure::TimedOut
            | ConnectFailure::WouldBlock
            | ConnectFailure::HostUnreachable
            | ConnectFailure::NetworkUnreachable
            | ConnectFailure::NetworkDown
            | ConnectFailure::ConnectionReset
            | ConnectFailure::ConnectionAborted => Outcome::Filtered,
            ConnectFailure::AddrNotAvailable | ConnectFailure::InvalidInput => Outcome::Error(
                ProbeIoError::AddressUnusable,
            ),
            ConnectFailure::AddrInUse
            | ConnectFailure::OutOfMemory
            | ConnectFailure::DescriptorsExhausted => Outcome::Error(
                ProbeIoError::ResourceExhausted,
            ),
            ConnectFailure::Other => Outcome::Error(ProbeIoError::Other),
        },
    }
}

impl Outcome {
    /// Whether the endpoint accepted the connection.
    pub fn is_open(&self) -> (open: bool)
        ensures
            open <==> *self == Outcome::Open,
    {
        match self {
            Outcome::Open => true,
            _ => false,
        }
    }

    /// Whether a later try probes the endpoint again: every outcome but `Open`.
    pub fn is_retried(&self) -> (retried: bool)
        ensures
            retried <==> *self != Outcome::Open,
    {
        !self.is_open()
    }
}

/// Whether `endpoint` occurs in `list`.
pub fn contains_endpoint(list: &Vec<Endpoint>, endpoint: Endpoint) -> (found: bool)
    ensures
        found == list@.contains(endpoint),
{
    let mut i: usize = 0;
    while i < list.len()
        invariant
            i <= list.len(),
            forall|k: int| 0 <= k < i ==> list@[k] != endpoint,
        decreases list.len() - i,
    {
        if list[i] == endpoint {
            return true;
        }
        i += 1;
    }
    false
}

/// Whether `ip` occurs in `list`.
pub fn contains_ip(list: &Vec<IpAddress>, ip: IpAddress) -> (found: bool)
    ensures
        found == list@.contains(ip),
{
    let mut i: usize = 0;
    while i < list.len()
        invariant
            i <= list.len(),
            forall|k: int| 0 <= k < i ==> list@[k] != ip,
        decreases list.len() - i,
    {
        if list[i] == ip {
            return true;
        }
        i += 1;
    }
    false
}

} // verus!

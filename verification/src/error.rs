use vstd::prelude::*;

verus! {

/// Errors reported by the PD client logic.
#[derive(Debug, Clone, PartialEq, Eq)]
pub enum PdError {
    /// No PD endpoint was given.
    EmptyEndpoints,
    /// The same endpoint appears twice in the endpoint list.
    DuplicateEndpoint(String),
    /// Two PD endpoints answered with different cluster ids.
    ClusterIdMismatch { want: u64, got: u64 },
    /// No PD endpoint answered.
    NoResponse,
    /// No member of the PD cluster could be reached.
    LeaderUnreachable,
    /// A request failed on every attempt.
    RequestFailed,
    /// The PD server answered with an error header carrying this message.
    Server(String),
    /// The endpoint URL names no host.
    UnknownHost,
    /// The endpoint URL names no port.
    UnknownPort,
    /// The endpoint is not a valid URL.
    InvalidUrl,
}

} // verus!

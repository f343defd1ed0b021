use vstd::prelude::*;

verus! {

/// What a host closure did wrong while it ran on the host thread.
#[derive(Debug, Clone, PartialEq, Eq)]
pub enum HostError {
    /// The closure raised; the host's message is kept.
    Raised(String),
    /// The closure returned a value whose shape the request did not ask for.
    UnexpectedShape,
}

/// The errors that cross the bridge.
#[derive(Debug, Clone, PartialEq, Eq)]
pub enum BridgeError {
    /// The protocol was broken: a response of the wrong kind, an endpoint used
    /// by a thread that does not own it, or a step taken out of turn.
    ProtocolViolation,
    /// The session was torn down before the request was answered.
    ChannelClosed,
    /// The host closure failed; the failure is confined to its own request.
    Host(HostError),
    /// The closure holds state that cannot outlive the call that made it.
    NotSerializable,
    /// The background queue holds as many jobs as it was sized for.
    QueueFull,
    /// A background worker panicked while it ran the job.
    WorkerPanicked,
}

} // verus!

//! Error kinds surfaced by the protocol engine.

use vstd::prelude::*;

verus! {

/// Why establishing a connection to the host module failed.
#[derive(Debug, Clone, Copy, PartialEq, Eq, Structural)]
pub enum ConnectFault {
    /// The host module's window could not be found.
    WindowNotFound,
    /// Registering the exchange's window message failed.
    MessageRegistration,
    /// Creating the shared-memory mapping failed.
    MappingCreation,
    /// Mapping a view of the shared-memory region failed.
    MappingView,
}

/// A malformed wire stream noticed while decoding a response.
#[derive(Debug, Clone, Copy, PartialEq, Eq, Structural)]
pub enum FramingFault {
    /// A header carried an operation tag other than the three known ones;
    /// the offending tag word is reported for diagnosis.
    UnknownTag(u32),
    /// A read header referenced a destination-table index that was never
    /// issued; the offending index is reported.
    InvalidIndex(u32),
}

/// Every failure the protocol engine can surface.
#[derive(Debug)]
pub enum IpcError {
    /// Connecting to the host module failed, with the step that failed.
    ConnectionRefused(ConnectFault),
    /// A response buffer did not parse as a well-formed batch.
    FramingError(FramingFault),
    /// The host returned a non-success status for the batch; the sent
    /// buffer is kept for postmortem diagnosis.
    RejectedBatch { status: u32, buffer: Vec<u8> },
    /// The host did not answer within the bounded wait.
    Timeout,
    /// A byte source ran out before the requested bytes were produced.
    UnexpectedEof,
    /// A byte sink had no room for the bytes it was asked to take.
    WriteZero,
}

} // verus!

//! Errors that end a debugging session.

use vstd::prelude::*;

verus! {

/// Every error is fatal to the session that raised it.
#[derive(Debug, Clone, Copy, PartialEq, Eq, Structural)]
pub enum GdbServerError {
    /// Reading from or writing to the connection failed.
    IoError,
    /// The peer closed the connection.
    ConnectionClosed,
    /// A numeric or enumerated field of a command was malformed.
    ParseIntError,
    /// The CPU collaborator reported a failure.
    CpuError,
    /// The transport beneath the CPU reported a failure.
    BridgeError,
}

} // verus!

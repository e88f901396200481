//! What can go wrong on a connection.
use vstd::prelude::*;

verus! {

/// Why a connection is given up, or why the whole network has to stop.
#[derive(Clone, Copy, Debug, PartialEq, Eq, Structural)]
pub enum NetworkError {
    /// The peer closed the connection.
    TransportClosed,
    /// The transport failed for another reason than not being ready.
    TransportIo,
    /// A batch ends in the middle of a message, or holds a message that is
    /// too short for what its type id announces.
    MalformedBatch,
    /// The peer sent a frame that is not binary.
    NonBinaryFrame,
    /// A packet is addressed to an actor type without an inbox on this
    /// machine. Fatal: the peers do not run the same program.
    UnknownInbox(usize),
    /// The configured address of a peer does not give a WebSocket address.
    /// Fatal: the network cannot be brought up.
    OutboundDialFailure(usize),
}

impl NetworkError {
    /// Whether the error stops the whole network and not just one connection.
    pub open spec fn fatal(self) -> bool {
        self is UnknownInbox || self is OutboundDialFailure
    }

    /// Whether the error stops the whole network and not just one connection.
    pub fn is_fatal(&self) -> (fatal: bool)
        ensures
            fatal == self.fatal(),
    {
        match self {
            NetworkError::UnknownInbox(_) => true,
            NetworkError::OutboundDialFailure(_) => true,
            _ => false,
        }
    }
}

} // verus!

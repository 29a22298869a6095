use vstd::prelude::*;

verus! {

/// What a message service reports when it cannot do what it was asked.
#[derive(Debug, PartialEq, Eq, Clone, Copy, Structural)]
pub enum IPeerMessageServiceError {
    /// The handshake could not be sent, or the answer was not accepted.
    PeerHandshakeError,
    /// A message could not be sent.
    SendingMessageError,
    /// No message could be read: the stream failed, timed out, or delivered
    /// bytes that are no frame.
    ReceivingMessageError,
}

/// Why a piece could not be had from a peer.
#[derive(Debug, PartialEq, Eq, Clone, Copy, Structural)]
pub enum PieceRequestFault {
    /// The content has no piece of that index.
    NoSuchPiece,
    /// The session was closed before.
    Closed,
    /// A request could not be sent.
    SendFailed,
    /// The stream failed while an answer was awaited.
    WaitFailed,
    /// The peer kept sending other messages and never the block asked for.
    Stalled,
    /// The peer choked us while a block was outstanding.
    Choked,
    /// A block came for another piece or another offset than was asked.
    InvalidBlock,
    /// The blocks together do not have the length of the piece.
    InvalidPiece,
}

/// What a session reports when it fails.
#[derive(Debug, PartialEq, Eq, Clone, Copy, Structural)]
pub enum PeerConnectionError {
    /// The session was closed before.
    Closed,
    /// The handshake failed.
    HandshakeFailed,
    /// A message that opens the session could not be sent.
    SendingMessageError,
    /// The stream failed before the peer was ready.
    WaitFailed,
    /// The peer never became ready: it did not unchoke us, or sent no
    /// bitfield.
    PeerNotReady,
    /// A piece could not be had.
    PieceRequestingError(PieceRequestFault),
}

impl PieceRequestFault {
    /// Whether the fault lies with the connection rather than with what the
    /// peer delivered: the session is lost, not just the piece.
    pub open spec fn spec_is_transport(self) -> bool {
        self == PieceRequestFault::Closed || self == PieceRequestFault::SendFailed || self
            == PieceRequestFault::WaitFailed || self == PieceRequestFault::Stalled
    }

    /// Whether the fault lies with the connection rather than with what the
    /// peer delivered.
    #[verifier::when_used_as_spec(spec_is_transport)]
    pub fn is_transport(self) -> (answer: bool)
        ensures
            answer == self.spec_is_transport(),
    {
        match self {
            PieceRequestFault::Closed => true,
            PieceRequestFault::SendFailed => true,
            PieceRequestFault::WaitFailed => true,
            PieceRequestFault::Stalled => true,
            _ => false,
        }
    }
}

} // verus!

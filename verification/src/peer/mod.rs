//! The peer wire protocol: bitfields, messages, frames and peer sessions.
pub mod connection;
pub mod download;
pub mod errors;
pub mod fetching;
pub mod opening;
pub mod service;
pub mod types;
pub mod utils;
pub mod wire;

pub use types::{Bitfield, Peer, PeerMessage, PeerMessageId, PeerMessageView};
pub use wire::{
    check_handshake_response, create_handshake_message, FrameError, HandshakeError,
    HANDSHAKE_LENGTH, PSTRLEN,
};
pub use download::{BlockVerdict, PieceDownload, BLOCK_SIZE};
pub use errors::{IPeerMessageServiceError, PeerConnectionError, PieceRequestFault};
pub use utils::valid_block;

pub use service::{PeerMessageService, PeerMessageStreamMock};
pub use connection::{PeerConnection, SessionEvent, SessionView, DEFAULT_PATIENCE};
pub use opening::{OpeningAction, OpeningPhase, StreamAnswer};
pub use fetching::{conclude, FetchAction, FetchPhase};

//! The piece verifier: it holds each piece to its digest before the piece
//! is written.
pub mod content;
pub mod sender;
pub mod types;
pub mod worker;

pub use sender::PieceSaverSender;
pub use types::{PieceSaverMessage, SaveOrder};
pub use worker::{new_piece_saver, Halt, ListenReport, PieceSaverWorker};

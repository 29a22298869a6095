//! The piece scheduler: which pieces remain, which peer can deliver which,
//! and which piece each peer fetches next.
pub mod laws;
pub mod model;
pub mod policy;
pub mod progress;
pub mod sender;
pub mod types;
pub mod worker;

pub use model::{DownloadStatus, Event, Order, PeerModel, PieceStatus, SchedulerModel};
pub use types::{new_piece_manager, PeerId, PieceId, PieceManagerMessage, PieceState};
pub use worker::{PieceManagerWorker, Reaction};
pub use sender::PieceManagerSender;

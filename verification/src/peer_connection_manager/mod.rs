//! The connection manager: the sessions that are open, and the work the
//! scheduler orders on them.
pub mod laws;
pub mod model;
pub mod sender;
pub mod types;
pub mod worker;

pub use model::ManagerView;
pub use types::PeerConnectionManagerMessage;
pub use sender::PeerConnectionManagerSender;
pub use worker::{new_peer_connection_manager, PeerConnectionManagerWorker};

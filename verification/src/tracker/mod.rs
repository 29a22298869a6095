//! What the core takes from a tracker: the peers to try.
pub mod types;

pub use crate::peer::types::Peer;
pub use types::{
    store_minutes, ActivePeers, AnnounceMessage, AnnounceRequest, MetricsMessage, PeerEntry,
    TrackerError, TrackerEvent, TrackerResponse,
};

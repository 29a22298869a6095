use crate::peer::types::Peer;
use vstd::prelude::*;
use vstd::string::StringExecFns;

verus! {

/// Why the tracker gave no peers.
#[derive(Debug, PartialEq, Eq, Clone, Copy, Structural)]
pub enum TrackerError {
    /// The tracker could not be reached.
    Unreachable,
    /// The tracker answered with something that is no response.
    MalformedResponse,
}

impl TrackerError {
    /// The error in words.
    pub open spec fn text(self) -> Seq<char> {
        match self {
            TrackerError::Unreachable => "The tracker could not be reached"@,
            TrackerError::MalformedResponse => "The tracker's response is malformed"@,
        }
    }

    /// The error in words.
    pub fn to_text(&self) -> (text: String)
        ensures
            text@ == self.text(),
    {
        match self {
            TrackerError::Unreachable => String::from_str("The tracker could not be reached"),
            TrackerError::MalformedResponse => String::from_str(
                "The tracker's response is malformed",
            ),
        }
    }
}

/// Where a peer stands when it announces itself to a tracker.
#[derive(Debug, PartialEq, Eq, Clone, Copy, Structural)]
pub enum TrackerEvent {
    /// The peer wants to start the download.
    Started,
    /// The peer is leaving the swarm.
    Stopped,
    /// The peer has completed the download.
    Completed,
    /// The peer only says that it is still there.
    KeepAlive,
}

/// What a peer tells a tracker when it announces itself.
#[derive(Debug)]
pub struct AnnounceRequest {
    /// The 20-byte identifier of the torrent.
    pub info_hash: Vec<u8>,
    /// The 20-byte identifier of the peer.
    pub peer_id: Vec<u8>,
    /// The port on which the peer listens.
    pub port: u16,
    /// Where the peer stands.
    pub event: TrackerEvent,
    /// The address of the peer.
    pub ip: String,
    /// How many peers the peer wants to be given.
    pub numwant: u32,
    /// How many bytes the peer has sent to others.
    pub uploaded: u32,
    /// How many bytes the peer has received from others.
    pub downloaded: u32,
    /// How many bytes the peer still lacks.
    pub left: u32,
}

/// A peer in a swarm, as a tracker keeps it.
#[derive(Debug)]
pub struct PeerEntry {
    /// Where to reach the peer and what it goes by.
    pub peer: Peer,
    /// When the peer last announced itself, in seconds since the epoch.
    pub last_announce: i64,
    /// Whether the peer has the whole content.
    pub is_seeder: bool,
}

/// The peers of a swarm, some of which may be gone.
#[derive(Debug)]
pub struct ActivePeers {
    pub peers: Vec<PeerEntry>,
}

/// What a tracker answers to an announce.
#[derive(Debug)]
pub struct TrackerResponse {
    /// After how many seconds the tracker expects the next announce.
    pub interval_in_seconds: u32,
    /// The identifier the tracker goes by.
    pub tracker_id: String,
    /// How many peers have the whole content.
    pub complete: u32,
    /// How many peers do not.
    pub incomplete: u32,
    /// The peers to try.
    pub peers: Vec<Peer>,
}

/// What the announce manager of a tracker is told.
#[derive(Debug)]
pub enum AnnounceMessage {
    /// A peer announced itself with this request; the answer is to go to
    /// the connection of this number.
    Announce(AnnounceRequest, u32),
    /// The active peers of every torrent are to be gone through.
    Update,
    /// The announce manager is to stop.
    Stop,
}

/// What the keeper of a tracker's metrics is told.
#[derive(Debug)]
pub enum MetricsMessage {
    /// The metric of this name is asked for.
    SendMetric(String),
    /// These counts, each under its name, were taken at this time, in
    /// seconds since the epoch.
    Update(Vec<(String, i32)>, i64),
    /// The keeper is to stop.
    Stop,
}

/// How many minutes `store_days` days have.
pub open spec fn minutes_in(store_days: u32) -> int {
    store_days * 24 * 60
}

/// For how many minutes metrics are kept when they are kept for
/// `store_days` days.
pub fn store_minutes(store_days: u32) -> (minutes: usize)
    requires
        minutes_in(store_days) <= u32::MAX,
    ensures
        minutes == minutes_in(store_days),
{
    (store_days * 24 * 60) as usize
}

} // verus!

use crate::peer::types::Bitfield;
use crate::piece_manager::model::{Event, PieceStatus, SchedulerModel};
use crate::piece_manager::sender::PieceManagerSender;
use crate::piece_manager::worker::PieceManagerWorker;
use vstd::prelude::*;

verus! {

/// The identifier a peer goes by.
pub type PeerId = Vec<u8>;

/// The index of a piece.
pub type PieceId = u32;

/// Where a piece stands.
#[derive(Debug)]
pub enum PieceState {
    /// Nobody is fetching the piece and it is not on disk.
    Missing,
    /// The peer `peer_id` was told to fetch the piece at time `since`.
    Assigned { peer_id: PeerId, since: u64 },
    /// The piece was verified and written.
    Complete,
}

impl View for PieceState {
    type V = PieceStatus;

    open spec fn view(&self) -> PieceStatus {
        match self {
            PieceState::Missing => PieceStatus::Missing,
            PieceState::Assigned { peer_id, since } => PieceStatus::Assigned {
                peer: peer_id@,
                since: *since,
            },
            PieceState::Complete => PieceStatus::Complete,
        }
    }
}

/// An event for the scheduler.
pub enum PieceManagerMessage {
    /// The peer opened a session and advertised this bitfield.
    PeerPieces(PeerId, Bitfield),
    /// The piece, fetched by the peer, was verified and written.
    SuccessfulDownload(PieceId, PeerId),
    /// The piece, fetched by the peer, could not be had or was corrupt.
    FailedDownload(PieceId, PeerId),
    /// The peer's session is gone.
    FailedConnection(PeerId),
    /// The peer announced that it now has the piece.
    Have(PeerId, PieceId),
    /// The tracker was asked again: a new wave of sessions is on its way.
    ReaskedTracker(),
    /// Every session of the current wave was attempted; so many were opened.
    FinishedEstablishingConnections(usize),
}

impl View for PieceManagerMessage {
    type V = Event;

    open spec fn view(&self) -> Event {
        match self {
            PieceManagerMessage::PeerPieces(peer_id, bitfield) => Event::PeerPieces(
                peer_id@,
                bitfield@,
            ),
            PieceManagerMessage::SuccessfulDownload(piece, peer_id) => Event::SuccessfulDownload(
                *piece,
                peer_id@,
            ),
            PieceManagerMessage::FailedDownload(piece, peer_id) => Event::FailedDownload(
                *piece,
                peer_id@,
            ),
            PieceManagerMessage::FailedConnection(peer_id) => Event::FailedConnection(peer_id@),
            PieceManagerMessage::Have(peer_id, piece) => Event::Have(peer_id@, *piece),
            PieceManagerMessage::ReaskedTracker() => Event::ReaskedTracker,
            PieceManagerMessage::FinishedEstablishingConnections(count) => {
                Event::FinishedEstablishingConnections(*count)
            },
        }
    }
}

/// Makes a scheduler for a torrent of `number_of_pieces` pieces, of which
/// those listed in `initial_pieces` are on disk already, together with the
/// sending end of its inbox. Every other piece is missing, no session is
/// open, and nothing waits in the inbox.
pub fn new_piece_manager(number_of_pieces: u32, initial_pieces: Vec<u32>) -> (made: (
    PieceManagerSender,
    PieceManagerWorker,
))
    ensures
        made.0@ == Seq::<Event>::empty(),
        made.1@ == SchedulerModel::initial(number_of_pieces, initial_pieces@),
        made.1.wf(),
{
    (PieceManagerSender::new(), PieceManagerWorker::new(number_of_pieces, &initial_pieces))
}

} // verus!

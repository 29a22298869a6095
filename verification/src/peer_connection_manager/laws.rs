//! What a failure of the connection comes to, from the stream to the
//! scheduler.
use crate::peer::connection::SessionView;
use crate::peer::download::PieceDownloadView;
use crate::peer::errors::{PeerConnectionError, PieceRequestFault};
use crate::peer::fetching::{
    FetchActionView, FetchPhase, fetch_action, fetch_download, fetch_outcome, fetch_phase,
    fetch_state,
};
use crate::peer::opening::StreamAnswerView;
use crate::peer_connection_manager::worker::{
    announcements, scheduler_reports, session_survives, verifier_reports,
};
use crate::piece_manager::model::Event;
use crate::piece_saver::types::SaverEvent;
use vstd::prelude::*;

verus! {

/// A connection that drops while a block is awaited is reported as a
/// failed connection. Whatever came before: the fetching ends as a failed
/// wait and the session is over; nothing more is asked of the stream; no
/// bytes come back, not even those that had come; the scheduler is told
/// what the peer had announced and that the connection failed; and the
/// verifier is handed nothing.
pub proof fn lemma_dropped_connection_is_reported(
    state: SessionView,
    download: PieceDownloadView,
    left: u32,
    patience: u32,
    peer: Seq<u8>,
    piece: u32,
    announced: Seq<u32>,
)
    ensures
        fetch_phase(download, FetchPhase::Awaiting { left }, StreamAnswerView::Failed, patience)
            == FetchPhase::Ended(PieceRequestFault::WaitFailed),
        fetch_download(download, FetchPhase::Awaiting { left }, StreamAnswerView::Failed)
            == download,
        fetch_state(
            state,
            download,
            FetchPhase::Awaiting { left },
            StreamAnswerView::Failed,
            patience,
        ) == state.ended(),
        fetch_action(download, FetchPhase::Ended(PieceRequestFault::WaitFailed))
            == FetchActionView::Finish,
        fetch_outcome(download, FetchPhase::Ended(PieceRequestFault::WaitFailed)) == Err::<
            Seq<u8>,
            PeerConnectionError,
        >(PeerConnectionError::PieceRequestingError(PieceRequestFault::WaitFailed)),
        !session_survives(
            fetch_outcome(download, FetchPhase::Ended(PieceRequestFault::WaitFailed)),
        ),
        scheduler_reports(
            peer,
            piece,
            announced,
            fetch_outcome(download, FetchPhase::Ended(PieceRequestFault::WaitFailed)),
        ) == announcements(peer, announced).push(Event::FailedConnection(peer)),
        verifier_reports(
            peer,
            piece,
            fetch_outcome(download, FetchPhase::Ended(PieceRequestFault::WaitFailed)),
        ) == Seq::<SaverEvent>::empty(),
{
    assert(announcements(peer, announced) + seq![Event::FailedConnection(peer)]
        =~= announcements(peer, announced).push(Event::FailedConnection(peer)));
}

} // verus!

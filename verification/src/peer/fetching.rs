//! The fetching of a piece, step by step: what is asked of the stream next,
//! and what each of the stream's answers leads to.
use crate::peer::connection::SessionView;
use crate::peer::download::{BlockVerdict, PieceDownload, PieceDownloadView};
use crate::peer::errors::{PeerConnectionError, PieceRequestFault};
use crate::peer::opening::StreamAnswerView;
use crate::peer::types::{PeerMessage, PeerMessageView};
use vstd::prelude::*;

verus! {

/// Where the fetching of a piece stands.
#[derive(Debug, PartialEq, Eq, Clone, Copy, Structural)]
pub enum FetchPhase {
    /// The next block is to be asked for.
    Asking,
    /// A block was asked for; `left` more messages may come before the peer
    /// is given up as stalled.
    Awaiting { left: u32 },
    /// Every block was asked for and has come.
    Complete,
    /// The fetching failed, and this is why.
    Ended(PieceRequestFault),
}

/// What is to be asked of the stream next.
#[derive(Debug)]
pub enum FetchAction {
    /// Send this request.
    Send(PeerMessage),
    /// Wait for a message.
    Wait,
    /// Nothing: the fetching is over.
    Finish,
}

/// What is to be asked of the stream next, as plain values.
pub enum FetchActionView {
    Send(PeerMessageView),
    Wait,
    Finish,
}

impl View for FetchAction {
    type V = FetchActionView;

    open spec fn view(&self) -> FetchActionView {
        match self {
            FetchAction::Send(message) => FetchActionView::Send(message@),
            FetchAction::Wait => FetchActionView::Wait,
            FetchAction::Finish => FetchActionView::Finish,
        }
    }
}

/// Where the fetching of a piece of `size` bytes begins for a session in the
/// state `state`: a session that is over fetches nothing, a piece without
/// bytes is no piece of the torrent, and any other fetching begins by asking
/// for the first block.
pub open spec fn fetch_start(state: SessionView, size: int) -> FetchPhase {
    if state.closed {
        FetchPhase::Ended(PieceRequestFault::Closed)
    } else if size == 0 {
        FetchPhase::Ended(PieceRequestFault::NoSuchPiece)
    } else {
        FetchPhase::Asking
    }
}

/// What is asked of the stream in the phase `phase`: to send the request
/// for the next block, or to deliver a message.
pub open spec fn fetch_action(download: PieceDownloadView, phase: FetchPhase) -> FetchActionView {
    match phase {
        FetchPhase::Asking => match download.next_request() {
            Some(request) => FetchActionView::Send(request),
            None => FetchActionView::Finish,
        },
        FetchPhase::Awaiting { left } => FetchActionView::Wait,
        _ => FetchActionView::Finish,
    }
}

/// Where the fetching stands after one more message that was not the block
/// asked for, when `left` such messages might still come: the peer is given
/// up as stalled with the last of them.
pub open spec fn fetch_tick(left: u32) -> FetchPhase {
    if left <= 1 {
        FetchPhase::Ended(PieceRequestFault::Stalled)
    } else {
        FetchPhase::Awaiting { left: (left - 1) as u32 }
    }
}

/// Where the fetching stands after the stream's answer. A request that
/// cannot be sent ends it, and so does a wait that fails. After a request,
/// the session takes in as many messages as it has patience for; the block
/// asked for brings the fetching on to the next block, or completes it; a
/// block for another piece or offset ends it, and so does a choke; any other
/// message counts against the patience, and when the patience is used up
/// the peer is given up as stalled. With no patience at all, the peer is
/// given up as soon as the request is out.
pub open spec fn fetch_phase(
    download: PieceDownloadView,
    phase: FetchPhase,
    answer: StreamAnswerView,
    patience: u32,
) -> FetchPhase {
    match phase {
        FetchPhase::Asking => if answer is Failed {
            FetchPhase::Ended(PieceRequestFault::SendFailed)
        } else if patience == 0 {
            FetchPhase::Ended(PieceRequestFault::Stalled)
        } else {
            FetchPhase::Awaiting { left: patience }
        },
        FetchPhase::Awaiting { left } => match answer {
            StreamAnswerView::Failed => FetchPhase::Ended(PieceRequestFault::WaitFailed),
            StreamAnswerView::Done => fetch_tick(left),
            StreamAnswerView::Message(message) => match download.verdict(message) {
                BlockVerdict::Accepted => if download.after(message).is_complete() {
                    FetchPhase::Complete
                } else {
                    FetchPhase::Asking
                },
                BlockVerdict::InvalidBlock => FetchPhase::Ended(PieceRequestFault::InvalidBlock),
                BlockVerdict::Choked => FetchPhase::Ended(PieceRequestFault::Choked),
                BlockVerdict::Ignored => fetch_tick(left),
            },
        },
        _ => phase,
    }
}

/// The download after the stream's answer: a message that came while a
/// block was awaited is taken in.
pub open spec fn fetch_download(
    download: PieceDownloadView,
    phase: FetchPhase,
    answer: StreamAnswerView,
) -> PieceDownloadView {
    match (phase, answer) {
        (FetchPhase::Awaiting { left }, StreamAnswerView::Message(message)) => download.after(
            message,
        ),
        _ => download,
    }
}

/// The state of the session after the stream's answer: a message that came
/// while a block was awaited is taken in, and the session is over if the
/// fetching ended because the connection failed.
pub open spec fn fetch_state(
    state: SessionView,
    download: PieceDownloadView,
    phase: FetchPhase,
    answer: StreamAnswerView,
    patience: u32,
) -> SessionView {
    let taken = match (phase, answer) {
        (FetchPhase::Awaiting { left }, StreamAnswerView::Message(message)) => state.after(
            message,
        ),
        _ => state,
    };
    match (phase, fetch_phase(download, phase, answer, patience)) {
        (FetchPhase::Asking, FetchPhase::Ended(fault)) => if fault.is_transport() {
            taken.ended()
        } else {
            taken
        },
        (FetchPhase::Awaiting { left }, FetchPhase::Ended(fault)) => if fault.is_transport() {
            taken.ended()
        } else {
            taken
        },
        _ => taken,
    }
}

/// What the fetching comes to once it is over: the piece, if every block
/// has come and the bytes have the piece's length; else the fault.
pub open spec fn fetch_outcome(download: PieceDownloadView, phase: FetchPhase) -> Result<
    Seq<u8>,
    PeerConnectionError,
> {
    match phase {
        FetchPhase::Complete => download.outcome(),
        FetchPhase::Ended(fault) => Err(PeerConnectionError::PieceRequestingError(fault)),
        _ => Err(PeerConnectionError::PieceRequestingError(PieceRequestFault::Stalled)),
    }
}

/// Ends a fetching that is over: the piece, if every block has come and the
/// bytes have the piece's length; else the fault.
pub fn conclude(download: PieceDownload, phase: FetchPhase) -> (outcome: Result<
    Vec<u8>,
    PeerConnectionError,
>)
    ensures
        match outcome {
            Ok(piece) => fetch_outcome(download@, phase) == Ok::<Seq<u8>, PeerConnectionError>(
                piece@,
            ),
            Err(error) => fetch_outcome(download@, phase) == Err::<Seq<u8>, PeerConnectionError>(
                error,
            ),
        },
{
    match phase {
        FetchPhase::Complete => download.finish(),
        FetchPhase::Ended(fault) => Err(PeerConnectionError::PieceRequestingError(fault)),
        _ => Err(PeerConnectionError::PieceRequestingError(PieceRequestFault::Stalled)),
    }
}

/// Whether a fetching of a piece of `size` bytes that began with the session
/// in the state `origin` can have got to the phase `phase` with the session
/// in the state `now` and the download as `download` says.
pub open spec fn fetch_reached(
    origin: SessionView,
    now: SessionView,
    download: PieceDownloadView,
    phase: FetchPhase,
    size: int,
    patience: u32,
) -> bool {
    let going = !origin.closed && !now.closed && size > 0 && download.wf()
        && download.piece_length == size;
    match phase {
        FetchPhase::Asking => going && !download.is_complete(),
        FetchPhase::Awaiting { left } => going && !download.is_complete() && 0 < left <= patience,
        FetchPhase::Complete => going && download.is_complete() && patience > 0,
        FetchPhase::Ended(PieceRequestFault::Closed) => origin.closed && now == origin,
        FetchPhase::Ended(PieceRequestFault::NoSuchPiece) => !origin.closed && size == 0 && now
            == origin,
        FetchPhase::Ended(PieceRequestFault::SendFailed) => !origin.closed && size > 0
            && now.closed,
        FetchPhase::Ended(PieceRequestFault::Stalled) => !origin.closed && size > 0 && now.closed,
        FetchPhase::Ended(PieceRequestFault::WaitFailed) => !origin.closed && size > 0
            && now.closed && patience > 0,
        FetchPhase::Ended(PieceRequestFault::Choked) => going && patience > 0,
        FetchPhase::Ended(PieceRequestFault::InvalidBlock) => going && patience > 0,
        FetchPhase::Ended(PieceRequestFault::InvalidPiece) => false,
    }
}

/// Where a fetching that stood in the phase `phase`, with the session in
/// the state `state` and the download as `download` says, stands after the
/// stream has given the answers `answers`, one to each thing asked of it;
/// and the state of the session and the download then.
pub open spec fn fetch_run(
    state: SessionView,
    download: PieceDownloadView,
    phase: FetchPhase,
    answers: Seq<StreamAnswerView>,
    patience: u32,
) -> (SessionView, PieceDownloadView, FetchPhase)
    decreases answers.len(),
{
    if answers.len() == 0 {
        (state, download, phase)
    } else {
        let (before, had, at) = fetch_run(state, download, phase, answers.drop_last(), patience);
        (
            fetch_state(before, had, at, answers.last(), patience),
            fetch_download(had, at, answers.last()),
            fetch_phase(had, at, answers.last(), patience),
        )
    }
}

/// Whether some answers of the stream lead a fetching from the phase
/// `phase`, with the session in the state `state` and the download as
/// `download` says, to its end, with the session in the state `end_state`
/// and with the outcome `outcome`.
pub open spec fn fetch_leads(
    state: SessionView,
    download: PieceDownloadView,
    phase: FetchPhase,
    end_state: SessionView,
    outcome: Result<Seq<u8>, PeerConnectionError>,
    patience: u32,
) -> bool {
    exists|answers: Seq<StreamAnswerView>|
        {
            &&& (#[trigger] fetch_run(state, download, phase, answers, patience)).0 == end_state
            &&& fetch_run(state, download, phase, answers, patience).2 is Complete || fetch_run(
                state,
                download,
                phase,
                answers,
                patience,
            ).2 is Ended
            &&& outcome == fetch_outcome(
                fetch_run(state, download, phase, answers, patience).1,
                fetch_run(state, download, phase, answers, patience).2,
            )
        }
}

/// One more answer leads the fetching on by one step.
pub proof fn lemma_fetch_run_goes_on(
    state: SessionView,
    download: PieceDownloadView,
    phase: FetchPhase,
    answers: Seq<StreamAnswerView>,
    answer: StreamAnswerView,
    patience: u32,
)
    ensures
        fetch_run(state, download, phase, answers.push(answer), patience) == (
            fetch_state(
                fetch_run(state, download, phase, answers, patience).0,
                fetch_run(state, download, phase, answers, patience).1,
                fetch_run(state, download, phase, answers, patience).2,
                answer,
                patience,
            ),
            fetch_download(
                fetch_run(state, download, phase, answers, patience).1,
                fetch_run(state, download, phase, answers, patience).2,
                answer,
            ),
            fetch_phase(
                fetch_run(state, download, phase, answers, patience).1,
                fetch_run(state, download, phase, answers, patience).2,
                answer,
                patience,
            ),
        ),
{
    assert(answers.push(answer).drop_last() =~= answers);
    assert(answers.push(answer).last() == answer);
}

/// How many more answers a fetching in the phase `phase` can take before the
/// next block comes or the fetching ends.
pub open spec fn fetch_rank(phase: FetchPhase, patience: u32) -> nat {
    match phase {
        FetchPhase::Asking => (patience + 1) as nat,
        FetchPhase::Awaiting { left } => left as nat,
        _ => 0,
    }
}

/// Each answer brings the fetching on: from wherever a fetching has got to,
/// the stream's answer leads to where a fetching can get to; and either a
/// block has come in, or fewer answers are needed before one does.
pub proof fn lemma_fetching_goes_on(
    origin: SessionView,
    now: SessionView,
    download: PieceDownloadView,
    phase: FetchPhase,
    answer: StreamAnswerView,
    size: int,
    patience: u32,
)
    requires
        fetch_reached(origin, now, download, phase, size, patience),
        phase is Asking || phase is Awaiting,
    ensures
        fetch_reached(
            origin,
            fetch_state(now, download, phase, answer, patience),
            fetch_download(download, phase, answer),
            fetch_phase(download, phase, answer, patience),
            size,
            patience,
        ),
        fetch_download(download, phase, answer).offset > download.offset || (fetch_download(
            download,
            phase,
            answer,
        ).offset == download.offset && fetch_rank(
            fetch_phase(download, phase, answer, patience),
            patience,
        ) < fetch_rank(phase, patience)),
        fetch_download(download, phase, answer).offset <= download.piece_length,
{
}

} // verus!

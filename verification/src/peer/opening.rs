//! The opening of a session, step by step: what is asked of the stream next,
//! and what each of the stream's answers leads to.
use crate::peer::connection::SessionView;
use crate::peer::errors::PeerConnectionError;
use crate::peer::types::{PeerMessage, PeerMessageId, PeerMessageView};
use vstd::prelude::*;

verus! {

/// What the stream answered to what was asked of it.
#[derive(Debug)]
pub enum StreamAnswer {
    /// It did what was asked.
    Done,
    /// It failed.
    Failed,
    /// It delivered this message.
    Message(PeerMessage),
}

/// What the stream answered, as plain values.
pub enum StreamAnswerView {
    Done,
    Failed,
    Message(PeerMessageView),
}

impl View for StreamAnswer {
    type V = StreamAnswerView;

    open spec fn view(&self) -> StreamAnswerView {
        match self {
            StreamAnswer::Done => StreamAnswerView::Done,
            StreamAnswer::Failed => StreamAnswerView::Failed,
            StreamAnswer::Message(message) => StreamAnswerView::Message(message@),
        }
    }
}

/// Where the opening of a session stands.
#[derive(Debug, PartialEq, Eq, Clone, Copy)]
pub enum OpeningPhase {
    /// The handshake is to be made.
    ShakingHands,
    /// The peer is to be told that it is unchoked.
    Unchoking,
    /// The peer is to be told that we are interested.
    Declaring,
    /// Messages are taken in until the peer is ready; `left` more may come
    /// before the peer is given up.
    Waiting { left: u32 },
    /// The opening is over, and this is how it ended.
    Finished(Result<(), PeerConnectionError>),
}

/// What is to be asked of the stream next.
#[derive(Debug)]
pub enum OpeningAction {
    /// Shake hands for the torrent `info_hash` under the identifier
    /// `peer_id`.
    ShakeHands { info_hash: Vec<u8>, peer_id: Vec<u8> },
    /// Send this message.
    Send(PeerMessage),
    /// Wait for a message.
    Wait,
    /// Nothing: the opening is over, and this is how it ended.
    Finish(Result<(), PeerConnectionError>),
}

/// What is to be asked of the stream next, as plain values.
pub enum OpeningActionView {
    ShakeHands { info_hash: Seq<u8>, peer_id: Seq<u8> },
    Send(PeerMessageView),
    Wait,
    Finish(Result<(), PeerConnectionError>),
}

impl View for OpeningAction {
    type V = OpeningActionView;

    open spec fn view(&self) -> OpeningActionView {
        match self {
            OpeningAction::ShakeHands { info_hash, peer_id } => OpeningActionView::ShakeHands {
                info_hash: info_hash@,
                peer_id: peer_id@,
            },
            OpeningAction::Send(message) => OpeningActionView::Send(message@),
            OpeningAction::Wait => OpeningActionView::Wait,
            OpeningAction::Finish(outcome) => OpeningActionView::Finish(*outcome),
        }
    }
}

/// Where the opening of a session in the state `state` begins: a session
/// that is over is not opened again, and any other begins with the
/// handshake.
pub open spec fn opening_start(state: SessionView) -> OpeningPhase {
    if state.closed {
        OpeningPhase::Finished(Err(PeerConnectionError::Closed))
    } else {
        OpeningPhase::ShakingHands
    }
}

/// What is asked of the stream in the phase `phase`: the handshake for the
/// torrent under our identifier, then the unchoke message, then the
/// interested message, then one message after the other.
pub open spec fn opening_action(
    phase: OpeningPhase,
    info_hash: Seq<u8>,
    client_peer_id: Seq<u8>,
) -> OpeningActionView {
    match phase {
        OpeningPhase::ShakingHands => OpeningActionView::ShakeHands {
            info_hash,
            peer_id: client_peer_id,
        },
        OpeningPhase::Unchoking => OpeningActionView::Send(
            PeerMessageView::of(PeerMessageId::Unchoke, Seq::<u8>::empty()),
        ),
        OpeningPhase::Declaring => OpeningActionView::Send(
            PeerMessageView::of(PeerMessageId::Interested, Seq::<u8>::empty()),
        ),
        OpeningPhase::Waiting { left } => OpeningActionView::Wait,
        OpeningPhase::Finished(outcome) => OpeningActionView::Finish(outcome),
    }
}

/// Where a session in the state `state` stands that is to wait for the peer
/// to get ready and may take in `left` more messages: it is done if the peer
/// is ready; the peer is given up if it is not and no more message may come;
/// else the session waits.
pub open spec fn waiting_phase(state: SessionView, left: u32) -> OpeningPhase {
    if state.is_ready() {
        OpeningPhase::Finished(Ok(()))
    } else if left == 0 {
        OpeningPhase::Finished(Err(PeerConnectionError::PeerNotReady))
    } else {
        OpeningPhase::Waiting { left }
    }
}

/// The state after the stream's answer was taken in, before the opening
/// decides how to go on: an unchoke that went out means that we no longer
/// choke the peer, an interested that went out means that we are interested,
/// and a message that came in is taken in as any message is.
pub open spec fn opening_taken(
    state: SessionView,
    phase: OpeningPhase,
    answer: StreamAnswerView,
) -> SessionView {
    match phase {
        OpeningPhase::Unchoking => if answer is Failed {
            state
        } else {
            SessionView { am_choking: false, ..state }
        },
        OpeningPhase::Declaring => if answer is Failed {
            state
        } else {
            SessionView { am_interested: true, ..state }
        },
        OpeningPhase::Waiting { left } => match answer {
            StreamAnswerView::Message(message) => state.after(message),
            _ => state,
        },
        _ => state,
    }
}

/// Where the opening stands after the stream's answer. A handshake that
/// fails ends it as a failed handshake, and a message that cannot be sent as
/// such; after the handshake comes the unchoke, after the unchoke the
/// interested, and after that the wait for the peer to get ready, for which
/// the session takes in as many messages as it has patience for. A wait that
/// fails ends the opening as a failed wait.
pub open spec fn opening_phase(
    state: SessionView,
    phase: OpeningPhase,
    answer: StreamAnswerView,
    patience: u32,
) -> OpeningPhase {
    match phase {
        OpeningPhase::ShakingHands => if answer is Failed {
            OpeningPhase::Finished(Err(PeerConnectionError::HandshakeFailed))
        } else {
            OpeningPhase::Unchoking
        },
        OpeningPhase::Unchoking => if answer is Failed {
            OpeningPhase::Finished(Err(PeerConnectionError::SendingMessageError))
        } else {
            OpeningPhase::Declaring
        },
        OpeningPhase::Declaring => if answer is Failed {
            OpeningPhase::Finished(Err(PeerConnectionError::SendingMessageError))
        } else {
            waiting_phase(opening_taken(state, phase, answer), patience)
        },
        OpeningPhase::Waiting { left } => if answer is Failed {
            OpeningPhase::Finished(Err(PeerConnectionError::WaitFailed))
        } else {
            waiting_phase(
                opening_taken(state, phase, answer),
                if left == 0 {
                    0u32
                } else {
                    (left - 1) as u32
                },
            )
        },
        OpeningPhase::Finished(outcome) => OpeningPhase::Finished(outcome),
    }
}

/// The state of the session after the stream's answer: what was taken in,
/// and the session is over if the opening ended in failure. An opening that
/// is over takes nothing in.
pub open spec fn opening_state(
    state: SessionView,
    phase: OpeningPhase,
    answer: StreamAnswerView,
    patience: u32,
) -> SessionView {
    if phase is Finished {
        state
    } else if opening_phase(state, phase, answer, patience) matches OpeningPhase::Finished(Err(_)) {
        opening_taken(state, phase, answer).ended()
    } else {
        opening_taken(state, phase, answer)
    }
}

/// Whether an opening that began in the state `origin` can have got to the
/// phase `phase` with the session in the state `now`.
pub open spec fn opening_reached(
    origin: SessionView,
    now: SessionView,
    phase: OpeningPhase,
    patience: u32,
) -> bool {
    match phase {
        OpeningPhase::ShakingHands => !origin.closed && now == origin,
        OpeningPhase::Unchoking => !origin.closed && now == origin,
        OpeningPhase::Declaring => !origin.closed && now == (SessionView {
            am_choking: false,
            ..origin
        }),
        OpeningPhase::Waiting { left } => !origin.closed && !now.closed && !now.is_ready() && 0
            < left <= patience,
        OpeningPhase::Finished(Ok(_)) => !origin.closed && now.is_ready(),
        OpeningPhase::Finished(Err(PeerConnectionError::Closed)) => origin.closed && now == origin,
        OpeningPhase::Finished(Err(PeerConnectionError::HandshakeFailed)) => !origin.closed && now
            == origin.ended(),
        OpeningPhase::Finished(Err(PeerConnectionError::SendingMessageError)) => !origin.closed
            && (now == origin.ended() || now == (SessionView {
            am_choking: false,
            ..origin
        }).ended()),
        OpeningPhase::Finished(Err(PeerConnectionError::WaitFailed)) => !origin.closed
            && now.closed,
        OpeningPhase::Finished(Err(PeerConnectionError::PeerNotReady)) => !origin.closed
            && now.closed,
        OpeningPhase::Finished(Err(PeerConnectionError::PieceRequestingError(_))) => false,
    }
}

/// How many more answers an opening in the phase `phase` can take.
pub open spec fn opening_rank(phase: OpeningPhase, patience: u32) -> nat {
    match phase {
        OpeningPhase::ShakingHands => (patience + 3) as nat,
        OpeningPhase::Unchoking => (patience + 2) as nat,
        OpeningPhase::Declaring => (patience + 1) as nat,
        OpeningPhase::Waiting { left } => left as nat,
        OpeningPhase::Finished(_) => 0,
    }
}

/// Each answer brings the opening on: from wherever an opening has got to,
/// the stream's answer leads to where an opening can get to, and to a phase
/// from which fewer answers are needed.
pub proof fn lemma_opening_goes_on(
    origin: SessionView,
    now: SessionView,
    phase: OpeningPhase,
    answer: StreamAnswerView,
    patience: u32,
)
    requires
        opening_reached(origin, now, phase, patience),
        !(phase is Finished),
    ensures
        opening_reached(
            origin,
            opening_state(now, phase, answer, patience),
            opening_phase(now, phase, answer, patience),
            patience,
        ),
        opening_rank(opening_phase(now, phase, answer, patience), patience) < opening_rank(
            phase,
            patience,
        ),
        phase is Waiting ==> opening_phase(now, phase, answer, patience) is Waiting
            || opening_phase(now, phase, answer, patience) == OpeningPhase::Finished(Ok(()))
            || opening_phase(now, phase, answer, patience) == OpeningPhase::Finished(
            Err(PeerConnectionError::WaitFailed),
        ) || opening_phase(now, phase, answer, patience) == OpeningPhase::Finished(
            Err(PeerConnectionError::PeerNotReady),
        ),
{
}

/// Where an opening that stood in the phase `phase`, with the session in
/// the state `state`, stands after the stream has given the answers
/// `answers`, one to each thing asked of it, and the state of the session
/// then.
pub open spec fn opening_run(
    state: SessionView,
    phase: OpeningPhase,
    answers: Seq<StreamAnswerView>,
    patience: u32,
) -> (SessionView, OpeningPhase)
    decreases answers.len(),
{
    if answers.len() == 0 {
        (state, phase)
    } else {
        let (before, at) = opening_run(state, phase, answers.drop_last(), patience);
        (
            opening_state(before, at, answers.last(), patience),
            opening_phase(before, at, answers.last(), patience),
        )
    }
}

/// Whether some answers of the stream lead an opening from the phase
/// `phase`, with the session in the state `state`, to the phase `end` with
/// the session in the state `end_state`.
pub open spec fn opening_leads(
    state: SessionView,
    phase: OpeningPhase,
    end_state: SessionView,
    end: OpeningPhase,
    patience: u32,
) -> bool {
    exists|answers: Seq<StreamAnswerView>|
        #[trigger] opening_run(state, phase, answers, patience) == (end_state, end)
}

/// The state in which a session begins to wait for the peer to get ready:
/// as it is, or over, if the peer is given up before any message.
pub open spec fn waiting_state(state: SessionView, left: u32) -> SessionView {
    if waiting_phase(state, left) matches OpeningPhase::Finished(Err(_)) {
        state.ended()
    } else {
        state
    }
}

/// One more answer leads the opening on by one step.
pub proof fn lemma_opening_run_goes_on(
    state: SessionView,
    phase: OpeningPhase,
    answers: Seq<StreamAnswerView>,
    answer: StreamAnswerView,
    patience: u32,
)
    ensures
        opening_run(state, phase, answers.push(answer), patience) == (
            opening_state(
                opening_run(state, phase, answers, patience).0,
                opening_run(state, phase, answers, patience).1,
                answer,
                patience,
            ),
            opening_phase(
                opening_run(state, phase, answers, patience).0,
                opening_run(state, phase, answers, patience).1,
                answer,
                patience,
            ),
        ),
{
    assert(answers.push(answer).drop_last() =~= answers);
    assert(answers.push(answer).last() == answer);
}

/// A handshake that fails ends the opening then and there: the opening
/// is over as a failed handshake and so is the session, nothing more is
/// asked of the stream, and the flags and the bitfield are as they were.
pub proof fn lemma_failed_handshake_ends_opening(
    state: SessionView,
    info_hash: Seq<u8>,
    client_peer_id: Seq<u8>,
    patience: u32,
)
    ensures
        opening_phase(state, OpeningPhase::ShakingHands, StreamAnswerView::Failed, patience)
            == OpeningPhase::Finished(Err(PeerConnectionError::HandshakeFailed)),
        opening_state(state, OpeningPhase::ShakingHands, StreamAnswerView::Failed, patience)
            == state.ended(),
        state.ended().bitfield == state.bitfield,
        state.ended().peer_choking == state.peer_choking,
        state.ended().closed,
        opening_action(
            OpeningPhase::Finished(Err(PeerConnectionError::HandshakeFailed)),
            info_hash,
            client_peer_id,
        ) == OpeningActionView::Finish(Err(PeerConnectionError::HandshakeFailed)),
{
}

/// The order of an opening that goes well: the handshake carries the
/// torrent's identifier and ours; when it is done, the unchoke message is
/// sent; when that is out, the interested message; and after that nothing
/// is asked of the stream but messages, until the opening is over.
pub proof fn lemma_opening_order(
    state: SessionView,
    info_hash: Seq<u8>,
    client_peer_id: Seq<u8>,
    patience: u32,
)
    requires
        !state.closed,
    ensures
        opening_start(state) == OpeningPhase::ShakingHands,
        opening_action(OpeningPhase::ShakingHands, info_hash, client_peer_id) == (
        OpeningActionView::ShakeHands { info_hash, peer_id: client_peer_id }),
        opening_phase(state, OpeningPhase::ShakingHands, StreamAnswerView::Done, patience)
            == OpeningPhase::Unchoking,
        opening_action(OpeningPhase::Unchoking, info_hash, client_peer_id)
            == OpeningActionView::Send(
            PeerMessageView::of(PeerMessageId::Unchoke, Seq::<u8>::empty()),
        ),
        opening_phase(state, OpeningPhase::Unchoking, StreamAnswerView::Done, patience)
            == OpeningPhase::Declaring,
        opening_action(OpeningPhase::Declaring, info_hash, client_peer_id)
            == OpeningActionView::Send(
            PeerMessageView::of(PeerMessageId::Interested, Seq::<u8>::empty()),
        ),
        opening_phase(state, OpeningPhase::Declaring, StreamAnswerView::Done, patience) is Waiting
            || opening_phase(
            state,
            OpeningPhase::Declaring,
            StreamAnswerView::Done,
            patience,
        ) is Finished,
        forall|now: SessionView, left: u32, answer: StreamAnswerView|
            #![trigger opening_phase(now, OpeningPhase::Waiting { left }, answer, patience)]
            opening_phase(now, OpeningPhase::Waiting { left }, answer, patience) is Waiting
                || opening_phase(now, OpeningPhase::Waiting { left }, answer, patience) is Finished,
        forall|left: u32|
            #![trigger opening_action(OpeningPhase::Waiting { left }, info_hash, client_peer_id)]
            opening_action(OpeningPhase::Waiting { left }, info_hash, client_peer_id)
                == OpeningActionView::Wait,
{
}

} // verus!

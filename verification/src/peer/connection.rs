//! A session with one peer: the handshake, the protocol flags, the peer's
//! bitfield, and the download of pieces block by block.
use crate::bytes::{copy_range, read_u32_be, u32_from_be};
use crate::metainfo::{Metainfo, MetainfoView, piece_size};
use crate::peer::download::{BlockVerdict, PieceDownload, PieceDownloadView};
use crate::peer::errors::{IPeerMessageServiceError, PeerConnectionError, PieceRequestFault};
use crate::peer::fetching::{
    FetchAction, FetchPhase, conclude, fetch_action, fetch_download, fetch_leads, fetch_phase,
    fetch_rank, fetch_reached, fetch_run, fetch_start, fetch_state, fetch_tick,
    lemma_fetch_run_goes_on, lemma_fetching_goes_on,
};
use crate::peer::opening::{
    OpeningAction, OpeningPhase, StreamAnswer, StreamAnswerView, lemma_opening_goes_on,
    lemma_opening_run_goes_on, opening_action, opening_leads, opening_phase, opening_rank,
    opening_reached, opening_run, opening_start, opening_state, waiting_phase, waiting_state,
};
use crate::peer::service::PeerMessageService;
use crate::peer::types::{
    Bitfield, Peer, PeerMessage, PeerMessageId, PeerMessageView, bitfield_with,
};
use vstd::prelude::*;

verus! {

/// How many messages a session takes in, while it waits for one answer,
/// before it gives the peer up. How long a read may take is the stream's
/// affair: a read that takes too long fails there, and the session takes
/// that as a failed wait. The patience bounds what no time limit on a read
/// does: a peer that keeps sending, but never what is waited for. Such a
/// peer is given up as not ready while the session is opened, and as
/// stalled while a block is awaited. By default the patience is as large as
/// its type allows, so that a session gives no peer up for the number of
/// its messages unless it was told to with `set_patience`.
pub const DEFAULT_PATIENCE: u32 = u32::MAX;

/// What a message from the peer means for those who watch the session.
#[derive(Debug, PartialEq, Eq, Clone, Copy, Structural)]
pub enum SessionEvent {
    /// Nothing that others need to know.
    Nothing,
    /// The peer choked us.
    Choked,
    /// The peer unchoked us.
    Unchoked,
    /// The peer announced that it now has this piece.
    Have(u32),
    /// The peer advertised its bitfield.
    PeerPieces,
}

/// The state of a session, as plain values.
#[verifier::ext_equal]
pub struct SessionView {
    /// Whether we choke the peer.
    pub am_choking: bool,
    /// Whether we want what the peer has.
    pub am_interested: bool,
    /// Whether the peer chokes us.
    pub peer_choking: bool,
    /// Whether the peer wants what we have.
    pub peer_interested: bool,
    /// Whether the peer advertised a bitfield.
    pub bitfield_received: bool,
    /// The packed bits of the peer's bitfield.
    pub bitfield: Seq<u8>,
    /// The pieces the peer announced one by one and that nobody has
    /// collected yet.
    pub announced: Seq<u32>,
    /// Whether the session is over: it was closed, or its connection
    /// failed.
    pub closed: bool,
}

impl SessionView {
    /// The state of a session that has heard nothing from its peer.
    pub open spec fn fresh() -> SessionView {
        SessionView {
            am_choking: true,
            am_interested: true,
            peer_choking: true,
            peer_interested: false,
            bitfield_received: false,
            bitfield: Seq::empty(),
            announced: Seq::empty(),
            closed: false,
        }
    }

    /// Whether pieces can be asked for: the session is not over, the peer
    /// does not choke us and has advertised its bitfield.
    pub open spec fn is_ready(self) -> bool {
        !self.closed && !self.peer_choking && self.bitfield_received
    }

    /// The state of the session once it is over.
    pub open spec fn ended(self) -> SessionView {
        SessionView { closed: true, ..self }
    }

    /// Whether `message` announces a piece: it is a have-message with a
    /// payload of four bytes.
    pub open spec fn announces(message: PeerMessageView) -> bool {
        message.length != 0 && message.id == PeerMessageId::Have && message.payload.len() == 4
    }

    /// What `message` means for those who watch the session.
    pub open spec fn event(message: PeerMessageView) -> SessionEvent {
        if message.length == 0 {
            SessionEvent::Nothing
        } else if message.id == PeerMessageId::Choke {
            SessionEvent::Choked
        } else if message.id == PeerMessageId::Unchoke {
            SessionEvent::Unchoked
        } else if SessionView::announces(message) {
            SessionEvent::Have(u32_from_be(message.payload, 0) as u32)
        } else if message.id == PeerMessageId::Bitfield {
            SessionEvent::PeerPieces
        } else {
            SessionEvent::Nothing
        }
    }

    /// The state after `message` was taken in. A choke and an unchoke set
    /// whether the peer chokes us; interest and its withdrawal set whether
    /// the peer is interested; a bitfield replaces the one held; an announced
    /// piece is switched on in the bitfield and noted for collection. A
    /// keep-alive and every other message change nothing.
    pub open spec fn after(self, message: PeerMessageView) -> SessionView {
        if message.length == 0 {
            self
        } else if message.id == PeerMessageId::Choke {
            SessionView { peer_choking: true, ..self }
        } else if message.id == PeerMessageId::Unchoke {
            SessionView { peer_choking: false, ..self }
        } else if message.id == PeerMessageId::Interested {
            SessionView { peer_interested: true, ..self }
        } else if message.id == PeerMessageId::NotInterested {
            SessionView { peer_interested: false, ..self }
        } else if SessionView::announces(message) {
            SessionView {
                bitfield: bitfield_with(self.bitfield, u32_from_be(message.payload, 0)),
                announced: self.announced.push(u32_from_be(message.payload, 0) as u32),
                ..self
            }
        } else if message.id == PeerMessageId::Bitfield {
            SessionView { bitfield: message.payload, bitfield_received: true, ..self }
        } else {
            self
        }
    }
}

/// A session that is over stays over, and ending it again changes nothing.
pub proof fn lemma_ended_is_final(state: SessionView, message: PeerMessageView)
    ensures
        state.ended().ended() == state.ended(),
        state.ended().after(message).closed,
        !state.ended().is_ready(),
{
}

/// A session with one peer, over the stream `S`.
pub struct PeerConnection<S: PeerMessageService> {
    am_choking: bool,
    am_interested: bool,
    peer_choking: bool,
    peer_interested: bool,
    bitfield_received: bool,
    message_service: S,
    metainfo: Metainfo,
    client_peer_id: Vec<u8>,
    bitfield: Bitfield,
    announced: Vec<u32>,
    closed: bool,
    peer_id: Vec<u8>,
    peer: Peer,
    patience: u32,
}

impl<S: PeerMessageService> View for PeerConnection<S> {
    type V = SessionView;

    closed spec fn view(&self) -> SessionView {
        SessionView {
            am_choking: self.am_choking,
            am_interested: self.am_interested,
            peer_choking: self.peer_choking,
            peer_interested: self.peer_interested,
            bitfield_received: self.bitfield_received,
            bitfield: self.bitfield@,
            announced: self.announced@,
            closed: self.closed,
        }
    }
}

impl<S: PeerMessageService> PeerConnection<S> {
    /// The identifier of the peer.
    pub closed spec fn spec_peer_id(&self) -> Seq<u8> {
        self.peer_id@
    }

    /// The address of the peer.
    pub closed spec fn spec_peer_ip(&self) -> Seq<char> {
        self.peer.ip@
    }

    /// The port of the peer.
    pub closed spec fn spec_peer_port(&self) -> u16 {
        self.peer.port
    }

    /// The torrent the session is for.
    pub closed spec fn spec_metainfo(&self) -> MetainfoView {
        self.metainfo@
    }

    /// The identifier we go by towards the peer.
    pub closed spec fn spec_client_peer_id(&self) -> Seq<u8> {
        self.client_peer_id@
    }

    /// How many messages the session takes in while it waits for one answer.
    pub closed spec fn spec_patience(&self) -> u32 {
        self.patience
    }

    /// What stays the same for as long as the session lives: the peer, the
    /// torrent, our own identifier and the patience.
    pub open spec fn same_session(&self, other: &Self) -> bool {
        &&& self.spec_peer_id() == other.spec_peer_id()
        &&& self.spec_client_peer_id() == other.spec_client_peer_id()
        &&& self.spec_peer_ip() == other.spec_peer_ip()
        &&& self.spec_peer_port() == other.spec_peer_port()
        &&& self.spec_metainfo() == other.spec_metainfo()
        &&& self.spec_patience() == other.spec_patience()
    }

    /// A session with `peer` for the torrent `metainfo`, over
    /// `message_service`, that has heard nothing from the peer yet.
    pub fn new(
        peer: Peer,
        client_peer_id: &[u8],
        metainfo: &Metainfo,
        message_service: S,
    ) -> (session: Self)
        ensures
            session@ == SessionView::fresh(),
            session.spec_peer_id() == peer.peer_id@,
            session.spec_peer_ip() == peer.ip@,
            session.spec_peer_port() == peer.port,
            session.spec_metainfo() == metainfo@,
            session.spec_client_peer_id() == client_peer_id@,
            session.spec_patience() == DEFAULT_PATIENCE,
    {
        let bitfield = Bitfield::new();
        let peer_id = copy_range(peer.peer_id.as_slice(), 0, peer.peer_id.len());
        let session = PeerConnection {
            am_choking: true,
            am_interested: true,
            peer_choking: true,
            peer_interested: false,
            bitfield_received: false,
            client_peer_id: copy_range(client_peer_id, 0, client_peer_id.len()),
            metainfo: metainfo.clone(),
            message_service,
            bitfield,
            announced: Vec::new(),
            closed: false,
            peer_id,
            peer,
            patience: DEFAULT_PATIENCE,
        };
        assert(session@ =~= SessionView::fresh());
        session
    }

    /// Sets how many messages the session takes in while it waits for one
    /// answer.
    pub fn set_patience(&mut self, patience: u32)
        ensures
            final(self)@ == old(self)@,
            final(self).spec_patience() == patience,
            final(self).spec_peer_id() == old(self).spec_peer_id(),
            final(self).spec_client_peer_id() == old(self).spec_client_peer_id(),
            final(self).spec_peer_ip() == old(self).spec_peer_ip(),
            final(self).spec_metainfo() == old(self).spec_metainfo(),
    {
        self.patience = patience;
    }

    /// The identifier of the peer.
    pub fn get_peer_id(&self) -> (id: Vec<u8>)
        ensures
            id@ == self.spec_peer_id(),
    {
        copy_range(self.peer_id.as_slice(), 0, self.peer_id.len())
    }

    /// The address of the peer.
    pub fn get_peer_ip(&self) -> (ip: String)
        ensures
            ip@ == self.spec_peer_ip(),
    {
        self.peer.ip.clone()
    }

    /// The bitfield of the peer, as far as it is known.
    pub fn get_bitfield(&self) -> (bitfield: Bitfield)
        ensures
            bitfield@ == self@.bitfield,
    {
        self.bitfield.clone()
    }

    /// Whether the peer chokes us.
    pub fn is_choked(&self) -> (choked: bool)
        ensures
            choked == self@.peer_choking,
    {
        self.peer_choking
    }

    /// Whether pieces can be asked for.
    pub fn is_ready(&self) -> (ready: bool)
        ensures
            ready == self@.is_ready(),
    {
        !self.closed && !self.peer_choking && self.bitfield_received
    }

    /// Whether the session is over.
    pub fn is_closed(&self) -> (closed: bool)
        ensures
            closed == self@.closed,
    {
        self.closed
    }

    /// Ends the session. Nothing is asked of the stream any more, and every
    /// later request fails at once. Closing a closed session changes
    /// nothing.
    pub fn close(&mut self)
        ensures
            final(self)@ == old(self)@.ended(),
            final(self).same_session(old(self)),
    {
        self.closed = true;
    }

    /// Hands over the pieces that the peer announced one by one since they
    /// were last collected.
    pub fn take_announced(&mut self) -> (announced: Vec<u32>)
        ensures
            announced@ == old(self)@.announced,
            final(self)@ == (SessionView { announced: Seq::empty(), ..old(self)@ }),
            final(self).same_session(old(self)),
    {
        let mut announced: Vec<u32> = Vec::new();
        std::mem::swap(&mut announced, &mut self.announced);
        announced
    }

    /// Takes in a message from the peer and says what it means for those who
    /// watch the session.
    pub fn absorb(&mut self, message: &PeerMessage) -> (event: SessionEvent)
        ensures
            final(self)@ == old(self)@.after(message@),
            event == SessionView::event(message@),
            final(self).same_session(old(self)),
    {
        if message.length == 0 {
            return SessionEvent::Nothing;
        }
        match message.id {
            PeerMessageId::Choke => {
                self.peer_choking = true;
                SessionEvent::Choked
            },
            PeerMessageId::Unchoke => {
                self.peer_choking = false;
                SessionEvent::Unchoked
            },
            PeerMessageId::Interested => {
                self.peer_interested = true;
                SessionEvent::Nothing
            },
            PeerMessageId::NotInterested => {
                self.peer_interested = false;
                SessionEvent::Nothing
            },
            PeerMessageId::Have => {
                if message.payload.len() == 4 {
                    let index: u32 = read_u32_be(message.payload.as_slice(), 0);
                    self.bitfield.set_piece(index as usize);
                    self.announced.push(index);
                    SessionEvent::Have(index)
                } else {
                    SessionEvent::Nothing
                }
            },
            PeerMessageId::Bitfield => {
                self.bitfield.set_bitfield(message.payload.as_slice());
                self.bitfield_received = true;
                SessionEvent::PeerPieces
            },
            _ => SessionEvent::Nothing,
        }
    }

    /// Waits for the next message from the peer and takes it in. A closed
    /// session waits for nothing and fails. Whatever the stream delivers: a
    /// message that comes back was taken in, and a failure ends the session.
    pub fn wait_for_message(&mut self) -> (outcome: Result<PeerMessage, IPeerMessageServiceError>)
        ensures
            match outcome {
                Ok(message) => !old(self)@.closed && final(self)@ == old(self)@.after(message@),
                Err(_) => final(self)@ == old(self)@.ended(),
            },
            old(self)@.closed ==> outcome is Err,
            final(self).same_session(old(self)),
    {
        if self.closed {
            return Err(IPeerMessageServiceError::ReceivingMessageError);
        }
        match self.message_service.wait_for_message() {
            Ok(message) => {
                self.absorb(&message);
                Ok(message)
            },
            Err(error) => {
                self.closed = true;
                Err(error)
            },
        }
    }

    /// Where the opening of the session begins: a session that is over is
    /// not opened again, and any other begins with the handshake.
    pub fn opening_start(&self) -> (phase: OpeningPhase)
        ensures
            phase == opening_start(self@),
    {
        if self.closed {
            OpeningPhase::Finished(Err(PeerConnectionError::Closed))
        } else {
            OpeningPhase::ShakingHands
        }
    }

    /// Where a session stands that is to wait for the peer to get ready and
    /// may take in `left` more messages. If the peer is not ready and no
    /// more message may come, the peer is given up and the session is over.
    fn settle_waiting(&mut self, left: u32) -> (phase: OpeningPhase)
        ensures
            phase == waiting_phase(old(self)@, left),
            final(self)@ == if phase matches OpeningPhase::Finished(Err(_)) {
                old(self)@.ended()
            } else {
                old(self)@
            },
            final(self).same_session(old(self)),
    {
        if self.is_ready() {
            OpeningPhase::Finished(Ok(()))
        } else if left == 0 {
            self.closed = true;
            OpeningPhase::Finished(Err(PeerConnectionError::PeerNotReady))
        } else {
            OpeningPhase::Waiting { left }
        }
    }

    /// What is to be asked of the stream in the phase `phase` of the
    /// opening: the handshake for the session's torrent under our
    /// identifier, then the unchoke message, then the interested message,
    /// then one message after the other.
    pub fn opening_action(&self, phase: OpeningPhase) -> (action: OpeningAction)
        ensures
            action@ == opening_action(
                phase,
                self.spec_metainfo().info_hash,
                self.spec_client_peer_id(),
            ),
    {
        match phase {
            OpeningPhase::ShakingHands => {
                let info_hash = copy_range(
                    self.metainfo.info_hash.as_slice(),
                    0,
                    self.metainfo.info_hash.len(),
                );
                let peer_id = copy_range(
                    self.client_peer_id.as_slice(),
                    0,
                    self.client_peer_id.len(),
                );
                assert(info_hash@ =~= self.metainfo@.info_hash);
                assert(peer_id@ =~= self.client_peer_id@);
                OpeningAction::ShakeHands { info_hash, peer_id }
            },
            OpeningPhase::Unchoking => OpeningAction::Send(PeerMessage::unchoke()),
            OpeningPhase::Declaring => OpeningAction::Send(PeerMessage::interested()),
            OpeningPhase::Waiting { left } => OpeningAction::Wait,
            OpeningPhase::Finished(outcome) => OpeningAction::Finish(outcome),
        }
    }

    /// Takes the stream's answer to what the opening asked of it in the
    /// phase `phase`, and says where the opening stands after it. A
    /// handshake that fails ends the opening as a failed handshake, and a
    /// message that cannot be sent as such; an unchoke that went out means
    /// that we no longer choke the peer, and an interested that went out that
    /// we are interested; a message that came in is taken in, and the peer is
    /// given up if it is not ready after as many messages as the session has
    /// patience for; a wait that fails ends the opening as a failed wait.
    /// An opening that ends in failure ends the session.
    pub fn opening_step(&mut self, phase: OpeningPhase, answer: StreamAnswer) -> (next:
        OpeningPhase)
        ensures
            next == opening_phase(old(self)@, phase, answer@, old(self).spec_patience()),
            final(self)@ == opening_state(old(self)@, phase, answer@, old(self).spec_patience()),
            final(self).same_session(old(self)),
    {
        let failed = match &answer {
            StreamAnswer::Failed => true,
            _ => false,
        };
        match phase {
            OpeningPhase::Finished(outcome) => OpeningPhase::Finished(outcome),
            OpeningPhase::ShakingHands => {
                if failed {
                    self.closed = true;
                    OpeningPhase::Finished(Err(PeerConnectionError::HandshakeFailed))
                } else {
                    OpeningPhase::Unchoking
                }
            },
            OpeningPhase::Unchoking => {
                if failed {
                    self.closed = true;
                    OpeningPhase::Finished(Err(PeerConnectionError::SendingMessageError))
                } else {
                    self.am_choking = false;
                    OpeningPhase::Declaring
                }
            },
            OpeningPhase::Declaring => {
                if failed {
                    self.closed = true;
                    OpeningPhase::Finished(Err(PeerConnectionError::SendingMessageError))
                } else {
                    self.am_interested = true;
                    self.settle_waiting(self.patience)
                }
            },
            OpeningPhase::Waiting { left } => {
                if failed {
                    self.closed = true;
                    OpeningPhase::Finished(Err(PeerConnectionError::WaitFailed))
                } else {
                    match answer {
                        StreamAnswer::Message(message) => {
                            self.absorb(&message);
                        },
                        _ => {},
                    }
                    let rest: u32 = if left == 0 {
                        0
                    } else {
                        left - 1
                    };
                    self.settle_waiting(rest)
                }
            },
        }
    }

    /// Asks the stream what the opening asks for, phase after phase, and
    /// takes each answer, until the opening is over.
    fn drive_opening(&mut self, start: OpeningPhase, Ghost(origin): Ghost<SessionView>) -> (outcome:
        Result<(), PeerConnectionError>)
        requires
            opening_reached(origin, old(self)@, start, old(self).spec_patience()),
        ensures
            opening_reached(
                origin,
                final(self)@,
                OpeningPhase::Finished(outcome),
                old(self).spec_patience(),
            ),
            opening_leads(
                old(self)@,
                start,
                final(self)@,
                OpeningPhase::Finished(outcome),
                old(self).spec_patience(),
            ),
            start is Waiting ==> outcome is Ok || outcome == Err::<(), PeerConnectionError>(
                PeerConnectionError::WaitFailed,
            ) || outcome == Err::<(), PeerConnectionError>(PeerConnectionError::PeerNotReady),
            final(self).same_session(old(self)),
    {
        let mut phase = start;
        let ghost answers = Seq::<StreamAnswerView>::empty();
        loop
            invariant
                self.same_session(old(self)),
                opening_reached(origin, self@, phase, self.spec_patience()),
                opening_run(old(self)@, start, answers, self.spec_patience()) == (self@, phase),
                start is Waiting ==> phase is Waiting || phase == OpeningPhase::Finished(Ok(()))
                    || phase == OpeningPhase::Finished(Err(PeerConnectionError::WaitFailed))
                    || phase == OpeningPhase::Finished(Err(PeerConnectionError::PeerNotReady)),
            decreases opening_rank(phase, self.spec_patience()),
        {
            let answer = match self.opening_action(phase) {
                OpeningAction::Finish(outcome) => {
                    return outcome;
                },
                OpeningAction::ShakeHands { info_hash, peer_id } => {
                    match self.message_service.handshake(info_hash.as_slice(), peer_id.as_slice()) {
                        Ok(()) => StreamAnswer::Done,
                        Err(_) => StreamAnswer::Failed,
                    }
                },
                OpeningAction::Send(message) => {
                    match self.message_service.send_message(&message) {
                        Ok(()) => StreamAnswer::Done,
                        Err(_) => StreamAnswer::Failed,
                    }
                },
                OpeningAction::Wait => {
                    match self.message_service.wait_for_message() {
                        Ok(message) => StreamAnswer::Message(message),
                        Err(_) => StreamAnswer::Failed,
                    }
                },
            };
            proof {
                lemma_opening_goes_on(origin, self@, phase, answer@, self.spec_patience());
                lemma_opening_run_goes_on(
                    old(self)@,
                    start,
                    answers,
                    answer@,
                    self.spec_patience(),
                );
                answers = answers.push(answer@);
            }
            phase = self.opening_step(phase, answer);
        }
    }

    /// Takes in messages until pieces can be asked for. A session that is
    /// over is refused, and it alone; a session that is ready already waits
    /// for nothing. The stream is asked for one message after the other, and
    /// each is taken in as `opening_step` says for the waiting phase.
    /// Whatever the stream delivers: success means that the session is
    /// ready; a failure ends the session, be it the stream's or that the peer
    /// is not ready after as many messages as the session has patience for.
    /// With no patience at all, a peer that is not ready is given up at
    /// once. In every case the outcome and the state of the session are what
    /// the steps of the waiting phase come to for some answers of the stream.
    pub fn wait_until_ready(&mut self) -> (outcome: Result<(), PeerConnectionError>)
        ensures
            outcome is Ok ==> final(self)@.is_ready(),
            outcome is Err ==> final(self)@.closed,
            old(self)@.is_ready() ==> outcome is Ok && final(self)@ == old(self)@,
            old(self)@.closed <==> outcome == Err::<(), PeerConnectionError>(
                PeerConnectionError::Closed,
            ),
            old(self)@.closed ==> final(self)@ == old(self)@,
            !old(self)@.closed && !old(self)@.is_ready() && old(self).spec_patience() == 0
                ==> outcome == Err::<(), PeerConnectionError>(PeerConnectionError::PeerNotReady)
                && final(self)@ == old(self)@.ended(),
            outcome matches Err(error) ==> error == PeerConnectionError::Closed || error
                == PeerConnectionError::WaitFailed || error == PeerConnectionError::PeerNotReady,
            !old(self)@.closed ==> opening_leads(
                waiting_state(old(self)@, old(self).spec_patience()),
                waiting_phase(old(self)@, old(self).spec_patience()),
                final(self)@,
                OpeningPhase::Finished(outcome),
                old(self).spec_patience(),
            ),
            final(self).same_session(old(self)),
    {
        if self.closed {
            return Err(PeerConnectionError::Closed);
        }
        proof {
            let no_answers = Seq::<StreamAnswerView>::empty();
            assert(opening_run(
                waiting_state(self@, self.spec_patience()),
                waiting_phase(self@, self.spec_patience()),
                no_answers,
                self.spec_patience(),
            ) == (
                waiting_state(self@, self.spec_patience()),
                waiting_phase(self@, self.spec_patience()),
            ));
        }
        match self.settle_waiting(self.patience) {
            OpeningPhase::Waiting { left } => self.drive_opening(
                OpeningPhase::Waiting { left },
                Ghost(self@),
            ),
            OpeningPhase::Finished(outcome) => outcome,
            _ => Err(PeerConnectionError::PeerNotReady),
        }
    }

    /// Where the fetching of piece `piece_index` begins: a session that is
    /// over fetches nothing, a piece that the torrent does not have is
    /// refused, and any other fetching begins by asking for the first block.
    pub fn fetch_start(&self, piece_index: u32) -> (phase: FetchPhase)
        ensures
            phase == fetch_start(
                self@,
                piece_size(
                    self.spec_metainfo().piece_length,
                    self.spec_metainfo().length,
                    piece_index,
                ) as int,
            ),
    {
        if self.closed {
            FetchPhase::Ended(PieceRequestFault::Closed)
        } else if self.metainfo.piece_size(piece_index) == 0 {
            FetchPhase::Ended(PieceRequestFault::NoSuchPiece)
        } else {
            FetchPhase::Asking
        }
    }

    /// What is to be asked of the stream in the phase `phase` of the
    /// fetching: to send the request for the next block of `download`, or to
    /// deliver a message.
    pub fn fetch_action(&self, download: &PieceDownload, phase: FetchPhase) -> (action: FetchAction)
        requires
            download@.wf(),
        ensures
            action@ == fetch_action(download@, phase),
    {
        match phase {
            FetchPhase::Asking => match download.next_request() {
                Some(request) => FetchAction::Send(request),
                None => FetchAction::Finish,
            },
            FetchPhase::Awaiting { left } => FetchAction::Wait,
            _ => FetchAction::Finish,
        }
    }

    /// Where the fetching stands after one more message that was not the
    /// block asked for. With the last message that the session has patience
    /// for the peer is given up, and the session is over.
    fn settle_awaiting(&mut self, left: u32) -> (phase: FetchPhase)
        ensures
            phase == fetch_tick(left),
            final(self)@ == if phase is Ended {
                old(self)@.ended()
            } else {
                old(self)@
            },
            final(self).same_session(old(self)),
    {
        if left <= 1 {
            self.closed = true;
            FetchPhase::Ended(PieceRequestFault::Stalled)
        } else {
            FetchPhase::Awaiting { left: left - 1 }
        }
    }

    /// Takes the stream's answer to what the fetching asked of it in the
    /// phase `phase`, and says where the fetching stands after it. A request
    /// that cannot be sent ends the fetching as a failed send, and a wait
    /// that fails as a failed wait. A message that came in is taken in by
    /// the session and by `download`: the block asked for brings the
    /// fetching on to the next block or completes it, a block for another
    /// piece or offset ends it as an invalid block, a choke ends it as
    /// choked, and any other message counts against the session's patience.
    /// When the patience is used up, and at once after the request where
    /// there is none, the fetching ends as stalled. A fetching that ends
    /// because the connection failed or the peer stalled ends the session.
    pub fn fetch_step(
        &mut self,
        download: &mut PieceDownload,
        phase: FetchPhase,
        answer: StreamAnswer,
    ) -> (next: FetchPhase)
        requires
            old(download)@.wf(),
        ensures
            next == fetch_phase(old(download)@, phase, answer@, old(self).spec_patience()),
            final(download)@ == fetch_download(old(download)@, phase, answer@),
            final(download)@.wf(),
            final(self)@ == fetch_state(
                old(self)@,
                old(download)@,
                phase,
                answer@,
                old(self).spec_patience(),
            ),
            final(self).same_session(old(self)),
    {
        match phase {
            FetchPhase::Asking => {
                match answer {
                    StreamAnswer::Failed => {
                        self.closed = true;
                        FetchPhase::Ended(PieceRequestFault::SendFailed)
                    },
                    _ => {
                        if self.patience == 0 {
                            self.closed = true;
                            FetchPhase::Ended(PieceRequestFault::Stalled)
                        } else {
                            FetchPhase::Awaiting { left: self.patience }
                        }
                    },
                }
            },
            FetchPhase::Awaiting { left } => {
                match answer {
                    StreamAnswer::Failed => {
                        self.closed = true;
                        FetchPhase::Ended(PieceRequestFault::WaitFailed)
                    },
                    StreamAnswer::Done => self.settle_awaiting(left),
                    StreamAnswer::Message(message) => {
                        self.absorb(&message);
                        match download.accept(&message) {
                            BlockVerdict::Accepted => {
                                if download.is_complete() {
                                    FetchPhase::Complete
                                } else {
                                    FetchPhase::Asking
                                }
                            },
                            BlockVerdict::InvalidBlock => FetchPhase::Ended(
                                PieceRequestFault::InvalidBlock,
                            ),
                            BlockVerdict::Choked => FetchPhase::Ended(PieceRequestFault::Choked),
                            BlockVerdict::Ignored => self.settle_awaiting(left),
                        }
                    },
                }
            },
            FetchPhase::Complete => FetchPhase::Complete,
            FetchPhase::Ended(fault) => FetchPhase::Ended(fault),
        }
    }

    /// Asks the stream what the fetching asks for, phase after phase, and
    /// takes each answer, until the fetching is over.
    fn drive_fetching(
        &mut self,
        download: &mut PieceDownload,
        start: FetchPhase,
        Ghost(origin): Ghost<SessionView>,
    ) -> (end: FetchPhase)
        requires
            fetch_reached(
                origin,
                old(self)@,
                old(download)@,
                start,
                old(download)@.piece_length as int,
                old(self).spec_patience(),
            ),
            old(download)@.wf(),
        ensures
            fetch_reached(
                origin,
                final(self)@,
                final(download)@,
                end,
                old(download)@.piece_length as int,
                old(self).spec_patience(),
            ),
            end is Complete || end is Ended,
            exists|answers: Seq<StreamAnswerView>|
                #[trigger] fetch_run(
                    old(self)@,
                    old(download)@,
                    start,
                    answers,
                    old(self).spec_patience(),
                ) == (final(self)@, final(download)@, end),
            final(download)@.wf(),
            final(self).same_session(old(self)),
    {
        let mut phase = start;
        let ghost answers = Seq::<StreamAnswerView>::empty();
        loop
            invariant
                self.same_session(old(self)),
                download@.wf(),
                fetch_run(old(self)@, old(download)@, start, answers, self.spec_patience()) == (
                    self@,
                    download@,
                    phase,
                ),
                fetch_reached(
                    origin,
                    self@,
                    download@,
                    phase,
                    old(download)@.piece_length as int,
                    self.spec_patience(),
                ),
            decreases download@.piece_length - download@.offset,
                fetch_rank(phase, self.spec_patience()),
        {
            let answer = match self.fetch_action(download, phase) {
                FetchAction::Finish => {
                    return phase;
                },
                FetchAction::Send(request) => {
                    match self.message_service.send_message(&request) {
                        Ok(()) => StreamAnswer::Done,
                        Err(_) => StreamAnswer::Failed,
                    }
                },
                FetchAction::Wait => {
                    match self.message_service.wait_for_message() {
                        Ok(message) => StreamAnswer::Message(message),
                        Err(_) => StreamAnswer::Failed,
                    }
                },
            };
            proof {
                lemma_fetching_goes_on(
                    origin,
                    self@,
                    download@,
                    phase,
                    answer@,
                    old(download)@.piece_length as int,
                    self.spec_patience(),
                );
            }
            proof {
                lemma_fetch_run_goes_on(
                    old(self)@,
                    old(download)@,
                    start,
                    answers,
                    answer@,
                    self.spec_patience(),
                );
                answers = answers.push(answer@);
            }
            phase = self.fetch_step(download, phase, answer);
        }
    }

    /// Fetches piece `piece_index` from the peer, in blocks of `block_size`
    /// bytes, the last one as long as what is left of the piece. The blocks
    /// are asked for in order, each after the one before it has come, and
    /// are strung together. What is asked of the stream is what
    /// `fetch_action` says phase by phase, and each answer is taken as
    /// `fetch_step` says. A closed session, and it alone, is refused as
    /// closed, and a piece that the torrent does not have, and it alone, as
    /// no such piece, both before anything is asked of the stream. Whatever
    /// the stream delivers: a piece that comes back has the length that the
    /// torrent gives that piece, and the session is over afterwards exactly
    /// if its connection failed or the peer stalled. The peer has stalled
    /// when it has sent as many messages as the session has patience for
    /// after a request, and none of them was the block asked for; with no
    /// patience at all, nothing comes of a request but that it could not be
    /// sent or that the peer has stalled. In every case the outcome and the
    /// state of the session are what the steps of the fetching come to for
    /// some answers of the stream. The digest of the piece is not checked
    /// here.
    pub fn request_piece(&mut self, piece_index: u32, block_size: u32) -> (outcome: Result<
        Vec<u8>,
        PeerConnectionError,
    >)
        requires
            block_size > 0,
        ensures
            outcome matches Ok(piece) ==> piece@.len() == piece_size(
                old(self).spec_metainfo().piece_length,
                old(self).spec_metainfo().length,
                piece_index,
            ) && piece@.len() > 0,
            old(self)@.closed <==> outcome == Err::<Vec<u8>, PeerConnectionError>(
                PeerConnectionError::PieceRequestingError(PieceRequestFault::Closed),
            ),
            (!old(self)@.closed && piece_size(
                old(self).spec_metainfo().piece_length,
                old(self).spec_metainfo().length,
                piece_index,
            ) == 0) <==> outcome == Err::<Vec<u8>, PeerConnectionError>(
                PeerConnectionError::PieceRequestingError(PieceRequestFault::NoSuchPiece),
            ),
            old(self)@.closed || piece_size(
                old(self).spec_metainfo().piece_length,
                old(self).spec_metainfo().length,
                piece_index,
            ) == 0 ==> final(self)@ == old(self)@,
            !old(self)@.closed && piece_size(
                old(self).spec_metainfo().piece_length,
                old(self).spec_metainfo().length,
                piece_index,
            ) > 0 && old(self).spec_patience() == 0 ==> final(self)@.closed && (outcome == Err::<
                Vec<u8>,
                PeerConnectionError,
            >(PeerConnectionError::PieceRequestingError(PieceRequestFault::SendFailed)) || outcome
                == Err::<Vec<u8>, PeerConnectionError>(
                PeerConnectionError::PieceRequestingError(PieceRequestFault::Stalled),
            )),
            outcome matches Err(error) ==> error is PieceRequestingError,
            final(self)@.closed <==> (outcome matches Err(
                PeerConnectionError::PieceRequestingError(fault),
            ) && fault.is_transport()),
            fetch_leads(
                old(self)@,
                PieceDownloadView::begun(
                    piece_index,
                    piece_size(
                        old(self).spec_metainfo().piece_length,
                        old(self).spec_metainfo().length,
                        piece_index,
                    ) as u32,
                    block_size,
                ),
                fetch_start(
                    old(self)@,
                    piece_size(
                        old(self).spec_metainfo().piece_length,
                        old(self).spec_metainfo().length,
                        piece_index,
                    ) as int,
                ),
                final(self)@,
                match outcome {
                    Ok(piece) => Ok(piece@),
                    Err(error) => Err(error),
                },
                old(self).spec_patience(),
            ),
            final(self).same_session(old(self)),
    {
        let start = self.fetch_start(piece_index);
        let piece_length: u32 = self.metainfo.piece_size(piece_index);
        let mut download = PieceDownload::new(piece_index, piece_length, block_size);
        let end = self.drive_fetching(&mut download, start, Ghost(self@));
        conclude(download, end)
    }

    /// Opens the session: shakes hands for the torrent under our
    /// identifier, tells the peer that it is unchoked and that we are
    /// interested, and takes in messages until pieces can be asked for. What
    /// is asked of the stream, and in which order, is what `opening_action`
    /// says phase by phase, and each answer is taken as `opening_step` says.
    /// A session that is over is refused, and it alone, before anything is
    /// asked of the stream. Whatever the stream delivers: success means that
    /// the peer does not choke us and has advertised its bitfield; a failure
    /// ends the session. A failed handshake is reported as such and leaves
    /// flags and bitfield as they were; a message that cannot be sent is
    /// reported as such, and nothing has changed by then but that we may no
    /// longer choke the peer. In every case the outcome and the state of the
    /// session are what the steps of the opening come to for some answers of
    /// the stream.
    pub fn open_connection(&mut self) -> (outcome: Result<(), PeerConnectionError>)
        ensures
            opening_reached(
                old(self)@,
                final(self)@,
                OpeningPhase::Finished(outcome),
                old(self).spec_patience(),
            ),
            outcome is Ok ==> final(self)@.is_ready(),
            outcome is Err ==> final(self)@.closed,
            old(self)@.closed <==> outcome == Err::<(), PeerConnectionError>(
                PeerConnectionError::Closed,
            ),
            old(self)@.closed ==> final(self)@ == old(self)@,
            outcome == Err::<(), PeerConnectionError>(PeerConnectionError::HandshakeFailed)
                ==> final(self)@ == old(self)@.ended(),
            outcome == Err::<(), PeerConnectionError>(PeerConnectionError::SendingMessageError)
                ==> final(self)@ == old(self)@.ended() || final(self)@ == (SessionView {
                am_choking: false,
                ..old(self)@
            }).ended(),
            outcome matches Err(error) ==> !(error is PieceRequestingError),
            opening_leads(
                old(self)@,
                opening_start(old(self)@),
                final(self)@,
                OpeningPhase::Finished(outcome),
                old(self).spec_patience(),
            ),
            final(self).same_session(old(self)),
    {
        let start = self.opening_start();
        self.drive_opening(start, Ghost(self@))
    }
}

} // verus!

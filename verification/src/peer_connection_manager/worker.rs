use crate::bytes::{bytes_equal, copy_range};
use crate::metainfo::{Metainfo, MetainfoView};
use crate::peer::connection::{PeerConnection, SessionView};
use crate::peer::download::BLOCK_SIZE;
use crate::peer::errors::PeerConnectionError;
use crate::peer::service::PeerMessageService;
use crate::peer::types::Peer;
use crate::peer_connection_manager::model::{
    ManagerView, lemma_listen_goes_on, lemma_ran_adds, lemma_ran_nothing, until_close,
};
use crate::peer_connection_manager::sender::PeerConnectionManagerSender;
use crate::peer_connection_manager::types::{PeerConnectionManagerMessage, orders_view};
use crate::piece_manager::model::{Event, Order};
use crate::piece_manager::sender::PieceManagerSender;
use crate::piece_saver::sender::PieceSaverSender;
use crate::piece_saver::types::SaverEvent;
use vstd::prelude::*;

verus! {

/// The reports that the announcements `announced` of the peer `peer` make
/// for the scheduler, one for each piece, in order.
pub open spec fn announcements(peer: Seq<u8>, announced: Seq<u32>) -> Seq<Event> {
    Seq::new(announced.len(), |i: int| Event::Have(peer, announced[i]))
}

/// Whether a session is kept after a piece was asked of it with this
/// outcome: it is, unless the connection itself failed.
pub open spec fn session_survives(outcome: Result<Seq<u8>, PeerConnectionError>) -> bool {
    match outcome {
        Ok(_) => true,
        Err(PeerConnectionError::PieceRequestingError(fault)) => !fault.is_transport(),
        Err(_) => false,
    }
}

/// What the scheduler is told after piece `piece` was asked of the peer
/// `peer`: first the pieces the peer announced meanwhile; then nothing if
/// the piece came, for the verifier speaks for it; that the download failed
/// if the peer delivered something wrong or choked us; and that the
/// connection failed if it did.
pub open spec fn scheduler_reports(
    peer: Seq<u8>,
    piece: u32,
    announced: Seq<u32>,
    outcome: Result<Seq<u8>, PeerConnectionError>,
) -> Seq<Event> {
    announcements(peer, announced) + match outcome {
        Ok(_) => Seq::<Event>::empty(),
        Err(_) => if session_survives(outcome) {
            seq![Event::FailedDownload(piece, peer)]
        } else {
            seq![Event::FailedConnection(peer)]
        },
    }
}

/// What the verifier is handed after piece `piece` was asked of the peer
/// `peer`: the bytes, if they came.
pub open spec fn verifier_reports(
    peer: Seq<u8>,
    piece: u32,
    outcome: Result<Seq<u8>, PeerConnectionError>,
) -> Seq<SaverEvent> {
    match outcome {
        Ok(bytes) => seq![SaverEvent::ValidateAndSavePiece(piece, bytes, peer)],
        Err(_) => Seq::<SaverEvent>::empty(),
    }
}

/// The outcome of a request as plain values.
pub open spec fn outcome_view(outcome: Result<Vec<u8>, PeerConnectionError>) -> Result<
    Seq<u8>,
    PeerConnectionError,
> {
    match outcome {
        Ok(bytes) => Ok(bytes@),
        Err(error) => Err(error),
    }
}

/// The connection manager: the sessions that are open, and the sending ends
/// of the scheduler's and the verifier's inboxes.
pub struct PeerConnectionManagerWorker<S: PeerMessageService> {
    /// The sending end of the scheduler's inbox.
    pub piece_manager_sender: PieceManagerSender,
    /// The sending end of the verifier's inbox.
    pub piece_saver_sender: PieceSaverSender,
    open_peer_connections: Vec<PeerConnection<S>>,
    metainfo: Metainfo,
    client_peer_id: Vec<u8>,
    block_size: u32,
}

impl<S: PeerMessageService> View for PeerConnectionManagerWorker<S> {
    type V = ManagerView;

    open spec fn view(&self) -> ManagerView {
        ManagerView {
            peer_ids: self.peer_ids(),
            sessions: Seq::new(self.peer_ids().len(), |slot: int| self.session(slot)),
            scheduler_outbox: self.scheduler_outbox(),
            verifier_outbox: self.verifier_outbox(),
            metainfo: self.spec_metainfo(),
            client_peer_id: self.spec_client_peer_id(),
            block_size: self.spec_block_size(),
        }
    }
}

impl<S: PeerMessageService> PeerConnectionManagerWorker<S> {
    /// The peers with an open session, in the order in which the sessions
    /// were opened.
    pub closed spec fn peer_ids(&self) -> Seq<Seq<u8>> {
        Seq::new(
            self.open_peer_connections@.len(),
            |slot: int| self.open_peer_connections@[slot].spec_peer_id(),
        )
    }

    /// The state of the session in slot `slot`.
    pub closed spec fn session(&self, slot: int) -> SessionView {
        self.open_peer_connections@[slot]@
    }

    /// What waits for the scheduler, oldest first.
    pub closed spec fn scheduler_outbox(&self) -> Seq<Event> {
        self.piece_manager_sender@
    }

    /// What waits for the verifier, oldest first.
    pub closed spec fn verifier_outbox(&self) -> Seq<SaverEvent> {
        self.piece_saver_sender@
    }

    /// The torrent.
    pub closed spec fn spec_metainfo(&self) -> MetainfoView {
        self.metainfo@
    }

    /// The identifier the manager's sessions go by towards their peers.
    pub closed spec fn spec_client_peer_id(&self) -> Seq<u8> {
        self.client_peer_id@
    }

    /// The length of the blocks that pieces are asked for in.
    pub closed spec fn spec_block_size(&self) -> u32 {
        self.block_size
    }

    /// Whether the manager is in a state it can be in: blocks have a
    /// length; every session it holds is for the manager's torrent, under
    /// the manager's identifier, and is not over; and no peer has two
    /// sessions.
    pub closed spec fn wf(&self) -> bool {
        &&& self.block_size > 0
        &&& forall|slot: int|
            0 <= slot < self.open_peer_connections@.len() ==> (
            #[trigger] self.open_peer_connections@[slot]).spec_metainfo() == self.metainfo@
                && self.open_peer_connections@[slot].spec_client_peer_id()
                == self.client_peer_id@ && !self.open_peer_connections@[slot]@.closed
        &&& forall|a: int, b: int|
            0 <= a < b < self.open_peer_connections@.len() ==> (
            #[trigger] self.open_peer_connections@[a]).spec_peer_id() != (
            #[trigger] self.open_peer_connections@[b]).spec_peer_id()
    }

    /// A manager in a state it can be in holds no two sessions with one
    /// peer, asks for blocks that have a length, and holds no session that
    /// is over.
    pub proof fn lemma_no_peer_twice(&self)
        requires
            self.wf(),
        ensures
            self@.ids_distinct(),
            self@.block_size > 0,
            forall|slot: int|
                0 <= slot < self@.sessions.len() ==> !(#[trigger] self@.sessions[slot]).closed,
    {
    }

    /// How many sessions are open.
    pub fn session_count(&self) -> (count: usize)
        ensures
            count == self.peer_ids().len(),
    {
        self.open_peer_connections.len()
    }

    /// Sets the length of the blocks that pieces are asked for in.
    pub fn set_block_size(&mut self, block_size: u32)
        requires
            old(self).wf(),
            block_size > 0,
        ensures
            final(self).wf(),
            final(self).spec_block_size() == block_size,
            final(self).peer_ids() == old(self).peer_ids(),
            final(self).spec_metainfo() == old(self).spec_metainfo(),
            final(self).spec_client_peer_id() == old(self).spec_client_peer_id(),
            final(self).scheduler_outbox() == old(self).scheduler_outbox(),
            final(self).verifier_outbox() == old(self).verifier_outbox(),
    {
        self.block_size = block_size;
    }

    /// The slot of the first session with the peer `peer_id`.
    fn find_session(&self, peer_id: &[u8]) -> (found: Option<usize>)
        ensures
            match found {
                Some(slot) => slot < self.peer_ids().len() && self.peer_ids()[slot as int]
                    == peer_id@,
                None => !self.peer_ids().contains(peer_id@),
            },
    {
        let mut slot: usize = 0;
        while slot < self.open_peer_connections.len()
            invariant
                slot <= self.open_peer_connections@.len(),
                forall|s: int| 0 <= s < slot ==> self.peer_ids()[s] != peer_id@,
            decreases self.open_peer_connections@.len() - slot,
        {
            let id = self.open_peer_connections[slot].get_peer_id();
            if bytes_equal(id.as_slice(), peer_id) {
                return Some(slot);
            }
            slot += 1;
        }
        None
    }

    /// Tells the scheduler and the verifier what came of asking the peer
    /// `peer_id` for piece `piece`: the pieces the peer announced meanwhile
    /// go to the scheduler; the bytes, if they came, go to the verifier; a
    /// failure goes to the scheduler, as a failed download if the session
    /// lives on and as a failed connection if it does not.
    pub fn settle(
        &mut self,
        peer_id: &[u8],
        piece: u32,
        announced: Vec<u32>,
        outcome: Result<Vec<u8>, PeerConnectionError>,
    )
        ensures
            final(self).scheduler_outbox() == old(self).scheduler_outbox() + scheduler_reports(
                peer_id@,
                piece,
                announced@,
                outcome_view(outcome),
            ),
            final(self).verifier_outbox() == old(self).verifier_outbox() + verifier_reports(
                peer_id@,
                piece,
                outcome_view(outcome),
            ),
            final(self).peer_ids() == old(self).peer_ids(),
            final(self)@.sessions == old(self)@.sessions,
            final(self).spec_metainfo() == old(self).spec_metainfo(),
            final(self).spec_client_peer_id() == old(self).spec_client_peer_id(),
            final(self).spec_block_size() == old(self).spec_block_size(),
            old(self).wf() ==> final(self).wf(),
    {
        let ghost peer = peer_id@;
        let ghost before = self.piece_manager_sender@;
        let mut at: usize = 0;
        assert(before + announcements(peer, announced@).take(0) =~= before);
        while at < announced.len()
            invariant
                at <= announced@.len(),
                peer == peer_id@,
                self.piece_manager_sender@ == before + announcements(peer, announced@).take(
                    at as int,
                ),
                self.piece_saver_sender == old(self).piece_saver_sender,
                self.open_peer_connections == old(self).open_peer_connections,
                self.metainfo == old(self).metainfo,
                self.client_peer_id == old(self).client_peer_id,
                self.block_size == old(self).block_size,
            decreases announced@.len() - at,
        {
            let id = copy_range(peer_id, 0, peer_id.len());
            assert(id@ =~= peer);
            self.piece_manager_sender.have(id, announced[at]);
            assert(before + announcements(peer, announced@).take(at + 1) =~= (before
                + announcements(peer, announced@).take(at as int)).push(
                Event::Have(peer, announced@[at as int]),
            ));
            at += 1;
        }
        assert(announcements(peer, announced@).take(at as int) =~= announcements(
            peer,
            announced@,
        ));
        let id = copy_range(peer_id, 0, peer_id.len());
        assert(id@ =~= peer);
        let ghost told = self.piece_manager_sender@;
        let ghost handed = self.piece_saver_sender@;
        match outcome {
            Ok(bytes) => {
                self.piece_saver_sender.validate_and_save_piece(piece, bytes, id);
                assert(told + Seq::<Event>::empty() =~= told);
                assert(self.piece_saver_sender@ =~= handed + verifier_reports(
                    peer,
                    piece,
                    outcome_view(outcome),
                ));
            },
            Err(error) => {
                let survives = match error {
                    PeerConnectionError::PieceRequestingError(fault) => !fault.is_transport(),
                    _ => false,
                };
                if survives {
                    self.piece_manager_sender.failed_download(piece, id);
                } else {
                    self.piece_manager_sender.failed_connection(id);
                }
                assert(handed + Seq::<SaverEvent>::empty() =~= handed);
                assert(self.piece_manager_sender@ =~= before + scheduler_reports(
                    peer,
                    piece,
                    announced@,
                    outcome_view(outcome),
                ));
            },
        }
    }

    /// Takes a session in, or turns it away, by how its opening ended. A
    /// session whose opening succeeded, that is not over, and whose peer has
    /// no session yet, is kept as the last of the open sessions, and the
    /// scheduler is told the peer and its bitfield. Any other session is
    /// dropped, and nothing else changes.
    pub fn take_in(
        &mut self,
        session: PeerConnection<S>,
        outcome: Result<(), PeerConnectionError>,
    ) -> (kept: bool)
        requires
            old(self).wf(),
            session.spec_metainfo() == old(self).spec_metainfo(),
            session.spec_client_peer_id() == old(self).spec_client_peer_id(),
        ensures
            kept == (outcome is Ok && !session@.closed && !old(self).peer_ids().contains(
                session.spec_peer_id(),
            )),
            final(self).wf(),
            final(self).spec_metainfo() == old(self).spec_metainfo(),
            final(self).spec_client_peer_id() == old(self).spec_client_peer_id(),
            final(self).spec_block_size() == old(self).spec_block_size(),
            final(self).verifier_outbox() == old(self).verifier_outbox(),
            forall|slot: int|
                0 <= slot < old(self).peer_ids().len() ==> #[trigger] final(self).session(slot)
                    == old(self).session(slot),
            kept ==> final(self).peer_ids() == old(self).peer_ids().push(
                session.spec_peer_id(),
            ) && final(self).session(old(self).peer_ids().len() as int) == session@
                && final(self).scheduler_outbox() == old(self).scheduler_outbox().push(
                Event::PeerPieces(session.spec_peer_id(), session@.bitfield),
            ),
            !kept ==> final(self).peer_ids() == old(self).peer_ids()
                && final(self).scheduler_outbox() == old(self).scheduler_outbox(),
    {
        if outcome.is_err() || session.is_closed() {
            return false;
        }
        let id = session.get_peer_id();
        if self.find_session(id.as_slice()).is_some() {
            return false;
        }
        self.piece_manager_sender.peer_pieces(id, session.get_bitfield());
        self.open_peer_connections.push(session);
        proof {
            assert(self.peer_ids() =~= old(self).peer_ids().push(session.spec_peer_id()));
            assert forall|a: int| 0 <= a < old(self).peer_ids().len() implies (
            #[trigger] self.open_peer_connections@[a]).spec_peer_id()
                != session.spec_peer_id() by {
                assert(old(self).peer_ids()[a] == self.open_peer_connections@[a].spec_peer_id());
            }
        }
        true
    }

    /// Opens a session with `peer` over `stream`: makes the session for the
    /// manager's torrent under the manager's identifier, opens it, and takes
    /// it in or turns it away by how the opening ended. A peer that has a
    /// session already gets no second one: its stream is dropped before
    /// anything is asked of it. Whatever the stream delivers: if the session
    /// opens, it is ready, it is kept as the last of the open sessions, and
    /// the scheduler is told the peer's bitfield; if it does not, the stream
    /// is dropped and nothing else changes.
    pub fn open_session(&mut self, peer: Peer, stream: S) -> (opened: bool)
        requires
            old(self).wf(),
        ensures
            final(self).wf(),
            final(self).spec_metainfo() == old(self).spec_metainfo(),
            final(self).spec_client_peer_id() == old(self).spec_client_peer_id(),
            final(self).spec_block_size() == old(self).spec_block_size(),
            final(self).verifier_outbox() == old(self).verifier_outbox(),
            old(self).peer_ids().contains(peer.peer_id@) ==> !opened,
            opened ==> final(self).peer_ids() == old(self).peer_ids().push(peer.peer_id@)
                && final(self).session(old(self).peer_ids().len() as int).is_ready()
                && final(self).scheduler_outbox() == old(self).scheduler_outbox().push(
                Event::PeerPieces(
                    peer.peer_id@,
                    final(self).session(old(self).peer_ids().len() as int).bitfield,
                ),
            ),
            forall|slot: int|
                0 <= slot < old(self).peer_ids().len() ==> #[trigger] final(self).session(slot)
                    == old(self).session(slot),
            !opened ==> final(self).peer_ids() == old(self).peer_ids()
                && final(self).scheduler_outbox() == old(self).scheduler_outbox(),
    {
        if self.find_session(peer.peer_id.as_slice()).is_some() {
            return false;
        }
        let mut session = PeerConnection::new(
            peer,
            self.client_peer_id.as_slice(),
            &self.metainfo,
            stream,
        );
        let outcome = session.open_connection();
        self.take_in(session, outcome)
    }

    /// Opens a session with each of `candidates`, in order, and then tells
    /// the scheduler that the wave has settled and how many sessions it
    /// opened. Whatever the streams deliver: the count that comes back is
    /// the number of sessions that were added, no more than there were
    /// candidates, and the scheduler is told one bitfield for each of them
    /// and then that count.
    pub fn start(&mut self, candidates: Vec<(Peer, S)>) -> (opened: usize)
        requires
            old(self).wf(),
        ensures
            final(self).wf(),
            final(self).spec_metainfo() == old(self).spec_metainfo(),
            final(self).spec_client_peer_id() == old(self).spec_client_peer_id(),
            final(self).spec_block_size() == old(self).spec_block_size(),
            final(self).verifier_outbox() == old(self).verifier_outbox(),
            opened <= candidates@.len(),
            final(self).peer_ids().len() == old(self).peer_ids().len() + opened,
            final(self).peer_ids().take(old(self).peer_ids().len() as int) == old(self).peer_ids(),
            final(self).scheduler_outbox().len() == old(self).scheduler_outbox().len() + opened + 1,
            final(self).scheduler_outbox().take(old(self).scheduler_outbox().len() as int)
                == old(self).scheduler_outbox(),
            forall|k: int|
                0 <= k < opened ==> #[trigger] final(self).scheduler_outbox()[
                    old(self).scheduler_outbox().len() + k
                ] == Event::PeerPieces(
                    final(self).peer_ids()[old(self).peer_ids().len() + k],
                    final(self).session(old(self).peer_ids().len() + k).bitfield,
                ),
            final(self).scheduler_outbox().last() == Event::FinishedEstablishingConnections(opened),
    {
        let ghost ids = self.peer_ids();
        let ghost told = self.scheduler_outbox();
        let total: usize = candidates.len();
        let mut candidates = candidates;
        let mut opened: usize = 0;
        let mut tried: usize = 0;
        assert(self.peer_ids().take(ids.len() as int) =~= ids);
        assert(self.scheduler_outbox().take(told.len() as int) =~= told);
        while candidates.len() > 0
            invariant
                self.wf(),
                self.spec_metainfo() == old(self).spec_metainfo(),
                self.spec_client_peer_id() == old(self).spec_client_peer_id(),
                self.spec_block_size() == old(self).spec_block_size(),
                self.verifier_outbox() == old(self).verifier_outbox(),
                ids == old(self).peer_ids(),
                told == old(self).scheduler_outbox(),
                tried + candidates@.len() == total,
                opened <= tried,
                self.peer_ids().len() == ids.len() + opened,
                self.peer_ids().take(ids.len() as int) == ids,
                self.scheduler_outbox().len() == told.len() + opened,
                self.scheduler_outbox().take(told.len() as int) == told,
                forall|k: int|
                    0 <= k < opened ==> #[trigger] self.scheduler_outbox()[told.len() + k]
                        == Event::PeerPieces(
                        self.peer_ids()[ids.len() + k],
                        self.session(ids.len() + k).bitfield,
                    ),
            decreases candidates@.len(),
        {
            let ghost before_ids = self.peer_ids();
            let ghost before_told = self.scheduler_outbox();
            let ghost before = *self;
            let (peer, stream) = candidates.remove(0);
            if self.open_session(peer, stream) {
                assert(self.peer_ids().take(ids.len() as int) =~= before_ids.take(
                    ids.len() as int,
                ));
                assert(self.scheduler_outbox().take(told.len() as int) =~= before_told.take(
                    told.len() as int,
                ));
                assert forall|k: int|
                    0 <= k < opened + 1 implies #[trigger] self.scheduler_outbox()[told.len()
                    + k] == Event::PeerPieces(
                    self.peer_ids()[ids.len() + k],
                    self.session(ids.len() + k).bitfield,
                ) by {
                    if k < opened {
                        assert(before_told[told.len() + k] == Event::PeerPieces(
                            before_ids[ids.len() + k],
                            before.session(ids.len() + k).bitfield,
                        ));
                        assert(self.session(ids.len() + k) == before.session(ids.len() + k));
                    }
                }
                opened += 1;
            }
            tried += 1;
        }
        let ghost before_told = self.scheduler_outbox();
        self.piece_manager_sender.finished_establishing_connections(opened);
        assert(self.scheduler_outbox().take(told.len() as int) =~= before_told.take(
            told.len() as int,
        ));
        assert forall|k: int| 0 <= k < opened implies #[trigger] self.scheduler_outbox()[told.len()
            + k] == Event::PeerPieces(
            self.peer_ids()[ids.len() + k],
            self.session(ids.len() + k).bitfield,
        ) by {
            assert(self.scheduler_outbox()[told.len() + k] == before_told[told.len() + k]);
        }
        opened
    }

    /// Carries out one order. An order to close drops every session and
    /// says that the manager is done. An order to fetch a piece from a peer
    /// without a session tells the scheduler that the connection failed. An
    /// order to fetch a piece from a peer with a session asks that session
    /// for the piece, in blocks of the manager's block size; whatever the
    /// stream delivers, the scheduler and the verifier are told what came of
    /// it, and the session is dropped if its connection failed.
    pub fn handle(&mut self, message: PeerConnectionManagerMessage) -> (running: bool)
        requires
            old(self).wf(),
        ensures
            final(self).wf(),
            final(self).spec_metainfo() == old(self).spec_metainfo(),
            final(self).spec_client_peer_id() == old(self).spec_client_peer_id(),
            final(self).spec_block_size() == old(self).spec_block_size(),
            running == !(message@ is CloseConnections),
            old(self)@.carried_out(final(self)@, message@),
    {
        let ghost order = message@;
        match message {
            PeerConnectionManagerMessage::CloseConnections => {
                self.open_peer_connections.clear();
                assert(self.peer_ids() =~= Seq::<Seq<u8>>::empty());
                assert(old(self)@.carried_out(self@, order));
                false
            },
            PeerConnectionManagerMessage::DownloadPiece(peer_id, piece) => {
                let ghost ids = self.peer_ids();
                let ghost peer = peer_id@;
                assert(order == Order::DownloadPiece(peer, piece));
                match self.find_session(peer_id.as_slice()) {
                    None => {
                        let ghost told = self.scheduler_outbox();
                        let ghost handed = self.verifier_outbox();
                        self.piece_manager_sender.failed_connection(peer_id);
                        assert(self.scheduler_outbox() == told.push(Event::FailedConnection(peer)));
                        assert(self.verifier_outbox() == handed);
                        assert(self.peer_ids() == ids);
                        assert(!ids.contains(peer));
                        assert(self@.sessions =~= old(self)@.sessions);
                        assert(old(self)@.carried_out(self@, order));
                        true
                    },
                    Some(slot) => {
                        let block_size = self.block_size;
                        let outcome = self.open_peer_connections[slot].request_piece(
                            piece,
                            block_size,
                        );
                        let announced = self.open_peer_connections[slot].take_announced();
                        let survives = !self.open_peer_connections[slot].is_closed();
                        assert(survives == session_survives(outcome_view(outcome)));
                        assert(self.peer_ids() =~= ids);
                        proof {
                            assert(self@.sessions.len() == old(self)@.sessions.len());
                            assert forall|other: int|
                                0 <= other < old(self)@.sessions.len() && other
                                    != slot implies #[trigger] self@.sessions[other] == old(
                                self,
                            )@.sessions[other] by {
                                assert(self.open_peer_connections@[other] == old(
                                    self,
                                ).open_peer_connections@[other]);
                            }
                        }
                        let ghost asked = self@.sessions;
                        if !survives {
                            self.open_peer_connections.remove(slot);
                            assert(self.peer_ids() =~= ids.remove(slot as int));
                            assert(self@.sessions =~= asked.remove(slot as int));
                            assert(asked.remove(slot as int) =~= old(self)@.sessions.remove(
                                slot as int,
                            ));
                        }
                        let ghost shown = outcome_view(outcome);
                        let ghost heard = announced@;
                        self.settle(peer_id.as_slice(), piece, announced, outcome);
                        proof {
                            assert(ids[slot as int] == peer);
                            assert(ids.contains(peer));
                            assert(old(self)@.handled_as(
                                self@,
                                slot as int,
                                piece,
                                heard,
                                shown,
                            ));
                            assert(old(self)@.handled_somehow(self@, peer, piece));
                            assert(old(self)@.carried_out(self@, order));
                        }
                        true
                    },
                }
            },
        }
    }

    /// Carries out the orders of `inbox`, in order, until one of them is to
    /// close or the inbox runs dry, and says whether an order to close came.
    /// The orders up to the first one to close, that one included, are
    /// carried out one after the other, each as `carried_out` says, and no
    /// order after it is looked at. So what waits for the scheduler and the
    /// verifier only grows, by at least one report for each order to fetch a
    /// piece; an empty inbox changes nothing; and after an order to close no
    /// session is left.
    pub fn listen(&mut self, inbox: Vec<PeerConnectionManagerMessage>) -> (closed: bool)
        requires
            old(self).wf(),
        ensures
            final(self).wf(),
            final(self).spec_metainfo() == old(self).spec_metainfo(),
            final(self).spec_client_peer_id() == old(self).spec_client_peer_id(),
            final(self).spec_block_size() == old(self).spec_block_size(),
            closed == orders_view(inbox@).contains(Order::CloseConnections),
            closed ==> final(self).peer_ids().len() == 0,
            old(self)@.ran(
                final(self)@,
                orders_view(inbox@).take(until_close(orders_view(inbox@))),
            ),
            old(self).scheduler_outbox().is_prefix_of(final(self).scheduler_outbox()),
            old(self).verifier_outbox().is_prefix_of(final(self).verifier_outbox()),
            !closed ==> final(self).scheduler_outbox().len() + final(self).verifier_outbox().len()
                >= old(self).scheduler_outbox().len() + old(self).verifier_outbox().len()
                + inbox@.len(),
            inbox@.len() == 0 ==> final(self)@ == old(self)@,
    {
        let ghost orders = orders_view(inbox@);
        let total: usize = inbox.len();
        assert(orders.len() == total);
        let mut queue = inbox;
        let mut done: usize = 0;
        proof {
            assert(orders.take(0) =~= Seq::<Order>::empty());
            assert(orders.skip(0) =~= orders);
            lemma_ran_nothing(self@);
        }
        while queue.len() > 0
            invariant
                self.wf(),
                self.spec_metainfo() == old(self).spec_metainfo(),
                self.spec_client_peer_id() == old(self).spec_client_peer_id(),
                self.spec_block_size() == old(self).spec_block_size(),
                orders.len() == total,
                orders == orders_view(inbox@),
                done + queue@.len() == total,
                forall|i: int|
                    0 <= i < queue@.len() ==> (#[trigger] queue@[i])@ == orders[done + i],
                forall|i: int| 0 <= i < done ==> #[trigger] orders[i] is DownloadPiece,
                until_close(orders) == done + until_close(orders.skip(done as int)),
                old(self)@.ran(self@, orders.take(done as int)),
            decreases queue@.len(),
        {
            let ghost before = self@;
            let message = queue.remove(0);
            assert(message@ == orders[done as int]);
            let running = self.handle(message);
            proof {
                lemma_listen_goes_on(old(self)@, before, self@, orders, done as int);
            }
            if !running {
                proof {
                    assert(orders[done as int] == Order::CloseConnections);
                    assert(orders.contains(Order::CloseConnections));
                    lemma_ran_adds(old(self)@, self@, orders.take(done + 1));
                }
                return true;
            }
            done += 1;
        }
        proof {
            assert(orders.skip(total as int) =~= Seq::<Order>::empty());
            assert(orders.take(total as int) =~= orders);
            lemma_ran_adds(old(self)@, self@, orders);
            if orders.contains(Order::CloseConnections) {
                let k = choose|k: int|
                    0 <= k < orders.len() && orders[k] == Order::CloseConnections;
                assert(orders[k] is DownloadPiece);
            }
        }
        false
    }
}

/// Makes a connection manager for the torrent `metainfo`, together with the
/// sending end of its inbox. No session is open; what the manager learns
/// goes to the scheduler through `piece_manager_sender` and to the verifier
/// through `piece_saver_sender`; pieces are asked for in blocks of 16384
/// bytes.
pub fn new_peer_connection_manager<S: PeerMessageService>(
    piece_manager_sender: PieceManagerSender,
    piece_saver_sender: PieceSaverSender,
    metainfo: &Metainfo,
    client_peer_id: &[u8],
) -> (made: (PeerConnectionManagerSender, PeerConnectionManagerWorker<S>))
    ensures
        made.0@ == Seq::<Order>::empty(),
        made.1.wf(),
        made.1.peer_ids() == Seq::<Seq<u8>>::empty(),
        made.1.scheduler_outbox() == piece_manager_sender@,
        made.1.verifier_outbox() == piece_saver_sender@,
        made.1.spec_metainfo() == metainfo@,
        made.1.spec_client_peer_id() == client_peer_id@,
        made.1.spec_block_size() == BLOCK_SIZE,
{
    let worker = PeerConnectionManagerWorker {
        piece_manager_sender,
        piece_saver_sender,
        open_peer_connections: Vec::new(),
        metainfo: metainfo.clone(),
        client_peer_id: copy_range(client_peer_id, 0, client_peer_id.len()),
        block_size: BLOCK_SIZE,
    };
    assert(worker.peer_ids() =~= Seq::<Seq<u8>>::empty());
    (PeerConnectionManagerSender::new(), worker)
}

} // verus!

use crate::bytes::{bytes_equal, copy_range};
use crate::peer::types::Bitfield;
use crate::peer_connection_manager::types::{PeerConnectionManagerMessage, orders_view};
use crate::piece_manager::laws::{
    lemma_after_wf, lemma_assign_wf, lemma_complete_is_final, lemma_step_wf,
    lemma_failed_connection_wf, lemma_failed_download_wf, lemma_have_wf, lemma_initial_wf,
    lemma_peer_pieces_wf, lemma_pick_none, lemma_pick_unique, lemma_slot_unique,
    lemma_successful_download_wf,
};
use crate::piece_manager::model::{
    DownloadStatus, Order, PeerModel, PieceStatus, SchedulerModel, bump, count_holders,
};
use crate::piece_manager::types::{PieceManagerMessage, PieceState};
use vstd::prelude::*;

verus! {

/// What the scheduler keeps for one peer with an open session.
struct PeerRecord {
    peer_id: Vec<u8>,
    has: Vec<bool>,
    assigned: Option<u32>,
}

impl View for PeerRecord {
    type V = PeerModel;

    closed spec fn view(&self) -> PeerModel {
        PeerModel { id: self.peer_id@, has: self.has@, assigned: self.assigned }
    }
}

/// The scheduler's answer to an event.
pub struct Reaction {
    /// The orders for the connection manager, in the order in which they
    /// were given.
    pub orders: Vec<PeerConnectionManagerMessage>,
    /// The piece that the event completed, if it completed one.
    pub progress: Option<u32>,
    /// How the download stands after the event.
    pub status: DownloadStatus,
}

/// The scheduler: the state of every piece and what every open session can
/// deliver.
pub struct PieceManagerWorker {
    pieces: Vec<PieceState>,
    peers: Vec<PeerRecord>,
    bitfields_received: usize,
    connections_established: usize,
    is_downloading: bool,
    latched: bool,
}

impl View for PieceManagerWorker {
    type V = SchedulerModel;

    closed spec fn view(&self) -> SchedulerModel {
        SchedulerModel {
            pieces: self.pieces@.map_values(|piece: PieceState| piece@),
            peers: self.peers@.map_values(|peer: PeerRecord| peer@),
            bitfields_received: self.bitfields_received,
            connections_established: self.connections_established,
            is_downloading: self.is_downloading,
            latched: self.latched,
        }
    }
}

impl PieceManagerWorker {
    /// Whether the scheduler is in a state it can be in.
    pub open spec fn wf(&self) -> bool {
        self@.wf()
    }

    /// The scheduler before any event: the pieces of `initial_pieces` are
    /// complete, the others missing, and no session is open.
    pub fn new(number_of_pieces: u32, initial_pieces: &Vec<u32>) -> (worker: Self)
        ensures
            worker@ == SchedulerModel::initial(number_of_pieces, initial_pieces@),
            worker.wf(),
    {
        let mut pieces: Vec<PieceState> = Vec::new();
        let mut piece: u32 = 0;
        while piece < number_of_pieces
            invariant
                piece <= number_of_pieces,
                pieces@.len() == piece,
                forall|p: int|
                    0 <= p < piece ==> (#[trigger] pieces@[p])@ == if initial_pieces@.contains(
                        p as u32,
                    ) {
                        PieceStatus::Complete
                    } else {
                        PieceStatus::Missing
                    },
            decreases number_of_pieces - piece,
        {
            if contains_piece(initial_pieces, piece) {
                pieces.push(PieceState::Complete);
            } else {
                pieces.push(PieceState::Missing);
            }
            piece += 1;
        }
        let worker = PieceManagerWorker {
            pieces,
            peers: Vec::new(),
            bitfields_received: 0,
            connections_established: 0,
            is_downloading: false,
            latched: false,
        };
        proof {
            let model = SchedulerModel::initial(number_of_pieces, initial_pieces@);
            assert(worker@.pieces =~= model.pieces);
            assert(worker@.peers =~= model.peers);
            lemma_initial_wf(number_of_pieces, initial_pieces@);
        }
        worker
    }

    /// How many pieces the torrent has.
    pub fn number_of_pieces(&self) -> (count: usize)
        ensures
            count == self@.pieces.len(),
    {
        self.pieces.len()
    }

    /// How many peers have an open session.
    pub fn peer_count(&self) -> (count: usize)
        ensures
            count == self@.peers.len(),
    {
        self.peers.len()
    }

    /// How many bitfields were received.
    pub fn bitfields_received(&self) -> (count: usize)
        ensures
            count == self@.bitfields_received,
    {
        self.bitfields_received
    }

    /// How many sessions the current wave opened; 0 until that is known.
    pub fn connections_established(&self) -> (count: usize)
        ensures
            count == self@.connections_established,
    {
        self.connections_established
    }

    /// Whether pieces are being handed out.
    pub fn is_downloading(&self) -> (downloading: bool)
        ensures
            downloading == self@.is_downloading,
    {
        self.is_downloading
    }

    /// Where piece `piece` stands, if the torrent has such a piece.
    pub fn piece_state(&self, piece: usize) -> (state: Option<PieceState>)
        ensures
            piece < self@.pieces.len() ==> state is Some && state->Some_0@
                == self@.pieces[piece as int],
            piece >= self@.pieces.len() ==> state is None,
    {
        if piece >= self.pieces.len() {
            return None;
        }
        match &self.pieces[piece] {
            PieceState::Missing => Some(PieceState::Missing),
            PieceState::Assigned { peer_id, since } => {
                let copy = copy_range(peer_id.as_slice(), 0, peer_id.len());
                assert(copy@ =~= peer_id@);
                Some(PieceState::Assigned { peer_id: copy, since: *since })
            },
            PieceState::Complete => Some(PieceState::Complete),
        }
    }

    /// Whether the peer `id` has an open session.
    pub fn knows_peer(&self, id: &[u8]) -> (known: bool)
        requires
            self.wf(),
        ensures
            known == self@.live_peers().contains(id@),
    {
        self.find_peer(id).is_some()
    }

    /// The piece that the peer `id` is fetching, if it has an open session
    /// and is fetching one.
    pub fn assignment_of(&self, id: &[u8]) -> (piece: Option<u32>)
        requires
            self.wf(),
        ensures
            piece == if self@.knows(id@) {
                self@.peers[self@.slot_of(id@)].assigned
            } else {
                None
            },
    {
        match self.find_peer(id) {
            Some(slot) => self.peers[slot].assigned,
            None => None,
        }
    }

    /// Whether `piece` is ready: it is missing and some open session can
    /// deliver it.
    pub fn is_ready(&self, piece: usize) -> (ready: bool)
        requires
            self.wf(),
        ensures
            ready == self@.ready().contains(piece as int),
    {
        piece < self.pieces.len() && self.is_missing(piece) && self.has_holder(piece)
    }

    /// Whether `piece` is an orphan: it is missing and no open session can
    /// deliver it.
    pub fn is_orphan(&self, piece: usize) -> (orphan: bool)
        requires
            self.wf(),
        ensures
            orphan == self@.orphans().contains(piece as int),
    {
        piece < self.pieces.len() && self.is_missing(piece) && !self.has_holder(piece)
    }

    /// The slot of the peer `id`, if it has an open session.
    fn find_peer(&self, id: &[u8]) -> (found: Option<usize>)
        requires
            self.wf(),
        ensures
            match found {
                Some(slot) => self@.is_slot_of(slot as int, id@) && self@.knows(id@)
                    && self@.slot_of(id@) == slot,
                None => !self@.knows(id@),
            },
    {
        let mut slot: usize = 0;
        while slot < self.peers.len()
            invariant
                self.wf(),
                slot <= self.peers@.len(),
                forall|s: int| 0 <= s < slot ==> !self@.is_slot_of(s, id@),
            decreases self.peers@.len() - slot,
        {
            if bytes_equal(self.peers[slot].peer_id.as_slice(), id) {
                proof {
                    lemma_slot_unique(self@, slot as int, id@);
                }
                return Some(slot);
            }
            slot += 1;
        }
        None
    }

    /// How many open sessions can deliver `piece`.
    pub fn holder_count(&self, piece: usize) -> (count: usize)
        requires
            self.wf(),
            piece < self@.pieces.len(),
        ensures
            count == self@.holder_count(piece as int),
    {
        let mut count: usize = 0;
        let mut slot: usize = 0;
        while slot < self.peers.len()
            invariant
                self.wf(),
                piece < self@.pieces.len(),
                slot <= self.peers@.len(),
                count <= slot,
                count == count_holders(self@.peers.subrange(0, slot as int), piece as int),
            decreases self.peers@.len() - slot,
        {
            proof {
                let upto = self@.peers.subrange(0, slot + 1);
                assert(upto.drop_last() =~= self@.peers.subrange(0, slot as int));
                assert(upto.last() == self@.peers[slot as int]);
                assert(self@.peers[slot as int].has.len() == self@.pieces.len());
            }
            if self.peers[slot].has[piece] {
                count += 1;
            }
            slot += 1;
        }
        assert(self@.peers.subrange(0, slot as int) =~= self@.peers);
        count
    }

    /// Whether some open session can deliver `piece`.
    pub fn has_holder(&self, piece: usize) -> (found: bool)
        requires
            self.wf(),
            piece < self@.pieces.len(),
        ensures
            found == self@.has_holder(piece as int),
    {
        let mut slot: usize = 0;
        while slot < self.peers.len()
            invariant
                self.wf(),
                piece < self@.pieces.len(),
                slot <= self.peers@.len(),
                forall|s: int| 0 <= s < slot ==> !self@.slot_has(s, piece as int),
            decreases self.peers@.len() - slot,
        {
            assert(self@.peers[slot as int].has.len() == self@.pieces.len());
            if self.peers[slot].has[piece] {
                assert(self@.slot_has(slot as int, piece as int));
                return true;
            }
            slot += 1;
        }
        false
    }

    /// Whether `piece` is missing.
    fn is_missing(&self, piece: usize) -> (missing: bool)
        requires
            piece < self@.pieces.len(),
        ensures
            missing == (self@.pieces[piece as int] is Missing),
    {
        match &self.pieces[piece] {
            PieceState::Missing => true,
            _ => false,
        }
    }

    /// Whether `piece` is complete.
    fn is_complete(&self, piece: usize) -> (complete: bool)
        requires
            piece < self@.pieces.len(),
        ensures
            complete == (self@.pieces[piece as int] is Complete),
    {
        match &self.pieces[piece] {
            PieceState::Complete => true,
            _ => false,
        }
    }

    /// Whether `piece` is assigned to the peer `id`.
    fn assigned_to(&self, piece: u32, id: &[u8]) -> (assigned: bool)
        ensures
            assigned == self@.is_assigned_to(piece as int, id@),
    {
        if piece as usize >= self.pieces.len() {
            return false;
        }
        match &self.pieces[piece as usize] {
            PieceState::Assigned { peer_id, .. } => bytes_equal(peer_id.as_slice(), id),
            _ => false,
        }
    }

    /// The piece to give the peer in slot `slot`: among the missing pieces
    /// it can deliver, the one with the fewest holders, and among those the
    /// one with the lowest index.
    fn select_piece(&self, slot: usize) -> (choice: Option<u32>)
        requires
            self.wf(),
            slot < self@.peers.len(),
        ensures
            choice == match self@.pick(slot as int) {
                Some(piece) => Some(piece as u32),
                None => None::<u32>,
            },
            choice matches Some(piece) ==> self@.is_pick(slot as int, piece as int),
            choice is None ==> forall|piece: int| !self@.is_candidate(slot as int, piece),
    {
        let mut best: Option<(u32, usize)> = None;
        let mut piece: usize = 0;
        assert(self@.peers[slot as int].has.len() == self@.pieces.len());
        while piece < self.pieces.len()
            invariant
                self.wf(),
                slot < self@.peers.len(),
                self@.peers[slot as int].has.len() == self@.pieces.len(),
                piece <= self@.pieces.len(),
                match best {
                    Some((chosen, holders)) => {
                        &&& chosen < piece
                        &&& self@.is_candidate(slot as int, chosen as int)
                        &&& holders == self@.holder_count(chosen as int)
                        &&& forall|other: int|
                            0 <= other < piece && #[trigger] self@.is_candidate(slot as int, other)
                                ==> self@.goes_before(chosen as int, other)
                    },
                    None => forall|other: int|
                        0 <= other < piece ==> !self@.is_candidate(slot as int, other),
                },
            decreases self@.pieces.len() - piece,
        {
            if self.is_missing(piece) && self.peers[slot].has[piece] {
                assert(self@.is_candidate(slot as int, piece as int));
                let holders = self.holder_count(piece);
                match best {
                    Some((_, fewest)) => {
                        if holders < fewest {
                            best = Some((piece as u32, holders));
                        }
                    },
                    None => {
                        best = Some((piece as u32, holders));
                    },
                }
            }
            piece += 1;
        }
        match best {
            Some((chosen, _)) => {
                proof {
                    assert(self@.is_pick(slot as int, chosen as int));
                    lemma_pick_unique(self@, slot as int, chosen as int);
                }
                Some(chosen)
            },
            None => {
                proof {
                    lemma_pick_none(self@, slot as int);
                }
                None
            },
        }
    }

    /// Takes in the bitfield that the peer `id` advertised.
    fn apply_peer_pieces(&mut self, id: Vec<u8>, bitfield: &Bitfield)
        requires
            old(self).wf(),
        ensures
            final(self)@ == old(self)@.after_peer_pieces(id@, bitfield@),
            final(self).wf(),
    {
        let ghost start = self@;
        let count: usize = self.pieces.len();
        match self.find_peer(id.as_slice()) {
            Some(slot) => {
                let mut piece: usize = 0;
                assert(start.peers[slot as int].has.len() == start.pieces.len());
                while piece < count
                    invariant
                        piece <= count,
                        count == start.pieces.len(),
                        slot < start.peers.len(),
                        self.pieces == old(self).pieces,
                        self.bitfields_received == old(self).bitfields_received,
                        self.connections_established == old(self).connections_established,
                        self.is_downloading == old(self).is_downloading,
                        self.latched == old(self).latched,
                        start == old(self)@,
                        self.peers@.len() == start.peers.len(),
                        forall|s: int|
                            0 <= s < self.peers@.len() && s != slot ==> #[trigger] self.peers@[s]
                                == old(self).peers@[s],
                        self.peers@[slot as int].peer_id == old(self).peers@[slot as int].peer_id,
                        self.peers@[slot as int].assigned == old(self).peers@[slot as int].assigned,
                        self.peers@[slot as int].has@.len() == count,
                        forall|p: int|
                            0 <= p < count ==> #[trigger] self.peers@[slot as int].has@[p] == (
                            start.peers[slot as int].has[p] || (p < piece && start.claims(
                                bitfield@,
                                p,
                            ))),
                    decreases count - piece,
                {
                    if bitfield.has_piece(piece) && !self.is_complete(piece) {
                        self.peers[slot].has[piece] = true;
                    }
                    piece += 1;
                }
                self.bitfields_received = bump_counter(self.bitfields_received);
                proof {
                    let next = start.after_peer_pieces(id@, bitfield@);
                    assert(self@.peers[slot as int].has =~= next.peers[slot as int].has);
                    assert(self@.peers =~= next.peers);
                    assert(self@.pieces =~= next.pieces);
                }
            },
            None => {
                let mut row: Vec<bool> = Vec::new();
                let mut piece: usize = 0;
                while piece < count
                    invariant
                        piece <= count,
                        count == start.pieces.len(),
                        start == self@,
                        row@.len() == piece,
                        forall|p: int|
                            0 <= p < piece ==> #[trigger] row@[p] == start.claims(bitfield@, p),
                    decreases count - piece,
                {
                    let claimed = bitfield.has_piece(piece) && !self.is_complete(piece);
                    row.push(claimed);
                    piece += 1;
                }
                let ghost fresh = PeerModel { id: id@, has: row@, assigned: None };
                self.peers.push(PeerRecord { peer_id: id, has: row, assigned: None });
                self.bitfields_received = bump_counter(self.bitfields_received);
                proof {
                    let next = start.after_peer_pieces(id@, bitfield@);
                    assert(fresh.has =~= Seq::new(
                        start.pieces.len(),
                        |p: int| start.claims(bitfield@, p),
                    ));
                    assert(self@.peers =~= start.peers.push(fresh));
                    assert(self@.pieces =~= next.pieces);
                }
            },
        }
        proof {
            lemma_peer_pieces_wf(start, id@, bitfield@);
        }
    }

    /// Takes in that the peer `id` announced `piece`.
    fn apply_have(&mut self, id: &[u8], piece: u32)
        requires
            old(self).wf(),
        ensures
            final(self)@ == old(self)@.after_have(id@, piece),
            final(self).wf(),
    {
        let ghost start = self@;
        if (piece as usize) < self.pieces.len() && !self.is_complete(piece as usize) {
            match self.find_peer(id) {
                Some(slot) => {
                    assert(start.peers[slot as int].has.len() == start.pieces.len());
                    self.peers[slot].has[piece as usize] = true;
                    proof {
                        let next = start.after_have(id@, piece);
                        assert(self@.peers =~= next.peers);
                        assert(self@.pieces =~= next.pieces);
                    }
                },
                None => {},
            }
        }
        proof {
            lemma_have_wf(start, id@, piece);
        }
    }

    /// Takes in that `piece`, fetched by the peer `id`, was verified and
    /// written.
    fn apply_successful_download(&mut self, piece: u32, id: &[u8])
        requires
            old(self).wf(),
        ensures
            final(self)@ == old(self)@.after_successful_download(piece, id@),
            final(self).wf(),
    {
        let ghost start = self@;
        if self.assigned_to(piece, id) {
            self.pieces[piece as usize] = PieceState::Complete;
            let mut slot: usize = 0;
            while slot < self.peers.len()
                invariant
                    start.wf(),
                    start == old(self)@,
                    piece < start.pieces.len(),
                    slot <= self.peers@.len(),
                    self.peers@.len() == start.peers.len(),
                    self.pieces@ == old(self).pieces@.update(piece as int, PieceState::Complete),
                    self.bitfields_received == old(self).bitfields_received,
                    self.connections_established == old(self).connections_established,
                    self.is_downloading == old(self).is_downloading,
                    self.latched == old(self).latched,
                    forall|s: int|
                        slot <= s < self.peers@.len() ==> #[trigger] self.peers@[s]
                            == old(self).peers@[s],
                    forall|s: int|
                        0 <= s < slot ==> (#[trigger] self.peers@[s])@ == (PeerModel {
                            id: start.peers[s].id,
                            has: start.peers[s].has.update(piece as int, false),
                            assigned: if start.peers[s].id == id@ {
                                None
                            } else {
                                start.peers[s].assigned
                            },
                        }),
                decreases self.peers@.len() - slot,
            {
                assert(start.peers[slot as int].has.len() == start.pieces.len());
                self.peers[slot].has[piece as usize] = false;
                if bytes_equal(self.peers[slot].peer_id.as_slice(), id) {
                    self.peers[slot].assigned = None;
                }
                slot += 1;
            }
            proof {
                let next = start.after_successful_download(piece, id@);
                assert(self@.peers =~= next.peers);
                assert(self@.pieces =~= next.pieces);
            }
        }
        proof {
            lemma_successful_download_wf(start, piece, id@);
        }
    }

    /// Takes in that the peer `id` failed to deliver `piece`.
    fn apply_failed_download(&mut self, piece: u32, id: &[u8])
        requires
            old(self).wf(),
        ensures
            final(self)@ == old(self)@.after_failed_download(piece, id@),
            final(self).wf(),
    {
        let ghost start = self@;
        if self.assigned_to(piece, id) {
            let found = self.find_peer(id);
            self.pieces[piece as usize] = PieceState::Missing;
            match found {
                Some(slot) => {
                    assert(start.peers[slot as int].has.len() == start.pieces.len());
                    self.peers[slot].has[piece as usize] = false;
                    self.peers[slot].assigned = None;
                    proof {
                        let next = start.after_failed_download(piece, id@);
                        assert forall|s: int|
                            0 <= s < start.peers.len() implies #[trigger] self@.peers[s]
                            == next.peers[s] by {
                            if s != slot {
                                assert(start.peers[s].id != start.peers[slot as int].id);
                            }
                        }
                        assert(self@.peers =~= next.peers);
                        assert(self@.pieces =~= next.pieces);
                    }
                },
                None => {
                    proof {
                        let next = start.after_failed_download(piece, id@);
                        assert forall|s: int|
                            0 <= s < start.peers.len() implies #[trigger] self@.peers[s]
                            == next.peers[s] by {
                            assert(!start.is_slot_of(s, id@));
                        }
                        assert(self@.peers =~= next.peers);
                        assert(self@.pieces =~= next.pieces);
                    }
                },
            }
        }
        proof {
            lemma_failed_download_wf(start, piece, id@);
        }
    }

    /// Takes in that the session of the peer `id` is gone.
    fn apply_failed_connection(&mut self, id: &[u8])
        requires
            old(self).wf(),
        ensures
            final(self)@ == old(self)@.after_failed_connection(id@),
            final(self).wf(),
    {
        let ghost start = self@;
        match self.find_peer(id) {
            Some(slot) => {
                let gone = self.peers.remove(slot);
                match gone.assigned {
                    Some(piece) => {
                        assert(start.assignment_fits(slot as int));
                        self.pieces[piece as usize] = PieceState::Missing;
                    },
                    None => {},
                }
                proof {
                    let next = start.after_failed_connection(id@);
                    assert(self@.peers =~= next.peers);
                    assert(self@.pieces =~= next.pieces);
                }
            },
            None => {},
        }
        proof {
            lemma_failed_connection_wf(start, id@);
        }
    }

    /// Gives every free peer its pick, in the order of the slots.
    fn dispatch(&mut self, now: u64) -> (orders: Vec<PeerConnectionManagerMessage>)
        requires
            old(self).wf(),
        ensures
            final(self)@ == old(self)@.dispatch_from(0, now).0,
            orders_view(orders@) == old(self)@.dispatch_from(0, now).1,
            final(self).wf(),
    {
        let ghost start = self@;
        let mut orders: Vec<PeerConnectionManagerMessage> = Vec::new();
        let mut slot: usize = 0;
        assert(orders_view(orders@) + start.dispatch_from(0, now).1 =~= start.dispatch_from(
            0,
            now,
        ).1);
        while slot < self.peers.len()
            invariant
                self.wf(),
                slot <= self@.peers.len(),
                start.dispatch_from(0, now).0 == self@.dispatch_from(slot as int, now).0,
                start.dispatch_from(0, now).1 == orders_view(orders@) + self@.dispatch_from(
                    slot as int,
                    now,
                ).1,
            decreases self@.peers.len() - slot,
        {
            let ghost before = self@;
            let ghost given = orders@;
            if self.peers[slot].assigned.is_none() {
                match self.select_piece(slot) {
                    Some(piece) => {
                        let peer_id = copy_range(
                            self.peers[slot].peer_id.as_slice(),
                            0,
                            self.peers[slot].peer_id.len(),
                        );
                        let holder = copy_range(peer_id.as_slice(), 0, peer_id.len());
                        assert(peer_id@ =~= before.peers[slot as int].id);
                        assert(holder@ =~= before.peers[slot as int].id);
                        self.pieces[piece as usize] = PieceState::Assigned {
                            peer_id: holder,
                            since: now,
                        };
                        self.peers[slot].assigned = Some(piece);
                        orders.push(PeerConnectionManagerMessage::DownloadPiece(peer_id, piece));
                        proof {
                            let next = before.assign(slot as int, piece as int, now);
                            assert(self@.peers =~= next.peers);
                            assert(self@.pieces =~= next.pieces);
                            assert(self@ == next);
                            lemma_assign_wf(before, slot as int, piece as int, now);
                            let first = seq![
                                Order::DownloadPiece(before.peers[slot as int].id, piece),
                            ];
                            assert(orders_view(orders@) =~= orders_view(given) + first);
                            assert(before.dispatch_from(slot as int, now).1 == first
                                + next.dispatch_from(slot + 1, now).1);
                            assert(orders_view(given) + (first + next.dispatch_from(
                                slot + 1,
                                now,
                            ).1) =~= orders_view(orders@) + self@.dispatch_from(slot + 1, now).1);
                        }
                    },
                    None => {},
                }
            }
            slot += 1;
        }
        assert(orders_view(orders@) + Seq::<Order>::empty() =~= orders_view(orders@));
        orders
    }

    /// Whether every piece is complete.
    pub fn all_complete(&self) -> (done: bool)
        ensures
            done == self@.all_complete(),
    {
        let mut piece: usize = 0;
        while piece < self.pieces.len()
            invariant
                piece <= self@.pieces.len(),
                forall|p: int| 0 <= p < piece ==> self@.pieces[p] is Complete,
            decreases self@.pieces.len() - piece,
        {
            if !self.is_complete(piece) {
                return false;
            }
            piece += 1;
        }
        true
    }

    /// Whether pieces remain, and each of them is missing and no open
    /// session can deliver it.
    fn only_orphans_remain(&self) -> (stuck: bool)
        requires
            self.wf(),
        ensures
            stuck == self@.only_orphans_remain(),
    {
        if self.all_complete() {
            return false;
        }
        let mut piece: usize = 0;
        while piece < self.pieces.len()
            invariant
                self.wf(),
                piece <= self@.pieces.len(),
                !self@.all_complete(),
                forall|p: int| 0 <= p < piece ==> #[trigger] self@.is_at_rest(p),
            decreases self@.pieces.len() - piece,
        {
            if !self.is_complete(piece) {
                if !self.is_missing(piece) || self.has_holder(piece) {
                    assert(!self@.is_at_rest(piece as int));
                    return false;
                }
            }
            assert(self@.is_at_rest(piece as int));
            piece += 1;
        }
        true
    }

    /// How the download stands.
    pub fn status(&self) -> (status: DownloadStatus)
        requires
            self.wf(),
        ensures
            status == self@.status(),
    {
        if self.all_complete() {
            DownloadStatus::AllDone
        } else if self.latched && self.only_orphans_remain() {
            DownloadStatus::Stalled
        } else if self.is_downloading {
            DownloadStatus::Downloading
        } else {
            DownloadStatus::Waiting
        }
    }

    /// Handles one event at time `now`: takes the event in, then, once
    /// pieces are being handed out, gives every free peer the rarest missing
    /// piece it can deliver, the lowest index first among equals. The answer
    /// holds the orders given, the piece the event completed, and how the
    /// download stands. A piece that was complete stays complete.
    pub fn handle(&mut self, message: PieceManagerMessage, now: u64) -> (reaction: Reaction)
        requires
            old(self).wf(),
        ensures
            final(self).wf(),
            final(self)@ == old(self)@.step(message@, now).0,
            orders_view(reaction.orders@) == old(self)@.orders(message@, now),
            reaction.progress == old(self)@.progress(message@),
            reaction.status == final(self)@.status(),
            final(self)@.pieces.len() == old(self)@.pieces.len(),
            forall|piece: int|
                0 <= piece < old(self)@.pieces.len() && old(self)@.pieces[piece] is Complete
                    ==> final(self)@.pieces[piece] is Complete,
    {
        let ghost start = self@;
        let ghost event = message@;
        let mut progress: Option<u32> = None;
        match message {
            PieceManagerMessage::PeerPieces(peer_id, bitfield) => {
                self.apply_peer_pieces(peer_id, &bitfield);
            },
            PieceManagerMessage::SuccessfulDownload(piece, peer_id) => {
                if self.assigned_to(piece, peer_id.as_slice()) {
                    progress = Some(piece);
                }
                self.apply_successful_download(piece, peer_id.as_slice());
            },
            PieceManagerMessage::FailedDownload(piece, peer_id) => {
                self.apply_failed_download(piece, peer_id.as_slice());
            },
            PieceManagerMessage::FailedConnection(peer_id) => {
                self.apply_failed_connection(peer_id.as_slice());
            },
            PieceManagerMessage::Have(peer_id, piece) => {
                self.apply_have(peer_id.as_slice(), piece);
            },
            PieceManagerMessage::ReaskedTracker() => {
                self.latched = false;
                self.connections_established = 0;
            },
            PieceManagerMessage::FinishedEstablishingConnections(count) => {
                self.latched = true;
                self.connections_established = count;
                self.is_downloading = true;
            },
        }
        proof {
            lemma_after_wf(start, event);
            assert(self@.pieces =~= start.after(event).pieces);
            assert(self@.peers =~= start.after(event).peers);
            assert(self@ == start.after(event));
        }
        let mut orders: Vec<PeerConnectionManagerMessage> = Vec::new();
        if self.is_downloading {
            orders = self.dispatch(now);
        }
        proof {
            lemma_step_wf(start, event, now);
            assert(orders_view(orders@) =~= start.step(event, now).1);
            assert forall|piece: int|
                0 <= piece < start.pieces.len()
                    && start.pieces[piece] is Complete implies self@.pieces[piece] is Complete by {
                lemma_complete_is_final(start, event, now, piece);
            }
        }
        if self.all_complete() {
            let ghost given = orders@;
            orders.push(PeerConnectionManagerMessage::CloseConnections);
            assert(orders_view(orders@) =~= orders_view(given).push(Order::CloseConnections));
        }
        let status = self.status();
        Reaction { orders, progress, status }
    }
}

/// A counter one higher, unless it is at its limit.
fn bump_counter(counter: usize) -> (next: usize)
    ensures
        next == bump(counter),
{
    if counter < usize::MAX {
        counter + 1
    } else {
        counter
    }
}

/// Whether `pieces` lists `piece`.
fn contains_piece(pieces: &Vec<u32>, piece: u32) -> (found: bool)
    ensures
        found == pieces@.contains(piece),
{
    let mut i: usize = 0;
    while i < pieces.len()
        invariant
            i <= pieces@.len(),
            forall|j: int| 0 <= j < i ==> pieces@[j] != piece,
        decreases pieces@.len() - i,
    {
        if pieces[i] == piece {
            return true;
        }
        i += 1;
    }
    false
}

} // verus!

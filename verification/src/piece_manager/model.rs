//! The scheduler as mathematics: what its state is, what each event does to
//! it, and what holds of every state it can reach.
use crate::peer::types::bitfield_has;
use vstd::prelude::*;

verus! {

/// Where a piece stands.
#[verifier::ext_equal]
pub enum PieceStatus {
    /// Nobody is fetching the piece and it is not on disk.
    Missing,
    /// The peer `peer` was told to fetch the piece at time `since`.
    Assigned { peer: Seq<u8>, since: u64 },
    /// The piece was verified and written.
    Complete,
}

/// What the scheduler knows of one peer with an open session.
#[verifier::ext_equal]
pub struct PeerModel {
    /// The peer's identifier.
    pub id: Seq<u8>,
    /// For each piece, whether the peer is counted among those that can
    /// deliver it.
    pub has: Seq<bool>,
    /// The piece the peer is fetching, if any.
    pub assigned: Option<u32>,
}

/// An order from the scheduler to the connection manager.
#[verifier::ext_equal]
pub enum Order {
    /// Fetch the piece from the peer.
    DownloadPiece(Seq<u8>, u32),
    /// The download is over: close every session.
    CloseConnections,
}

/// An event as the scheduler sees it.
#[verifier::ext_equal]
pub enum Event {
    /// The peer opened a session and advertised these packed bits.
    PeerPieces(Seq<u8>, Seq<u8>),
    /// The piece, fetched by the peer, was verified and written.
    SuccessfulDownload(u32, Seq<u8>),
    /// The piece, fetched by the peer, could not be had or was corrupt.
    FailedDownload(u32, Seq<u8>),
    /// The peer's session is gone.
    FailedConnection(Seq<u8>),
    /// The peer announced that it now has the piece.
    Have(Seq<u8>, u32),
    /// The tracker was asked again: a new wave of sessions is on its way.
    ReaskedTracker,
    /// Every session of the current wave was attempted; so many were opened.
    FinishedEstablishingConnections(usize),
}

/// How the download as a whole stands.
#[derive(Debug, PartialEq, Eq, Clone, Copy, Structural)]
pub enum DownloadStatus {
    /// Sessions are still being opened; nothing was handed out yet.
    Waiting,
    /// Pieces are being handed out.
    Downloading,
    /// Every piece is complete.
    AllDone,
    /// Pieces remain, none of them can be had from an open session, and no
    /// new session is on its way. Sessions may still be open: a peer that is
    /// connected but can deliver nothing that remains does not keep the
    /// download from being stalled.
    Stalled,
}

/// The scheduler's state.
#[verifier::ext_equal]
pub struct SchedulerModel {
    /// The state of each piece, by index.
    pub pieces: Seq<PieceStatus>,
    /// The peers with an open session, in the order in which they came.
    pub peers: Seq<PeerModel>,
    /// How many bitfields were received.
    pub bitfields_received: usize,
    /// How many sessions the current wave opened, once that is known.
    pub connections_established: usize,
    /// Whether pieces are being handed out.
    pub is_downloading: bool,
    /// Whether the current wave of sessions has settled.
    pub latched: bool,
}

/// A counter one higher, unless it is at its limit.
pub open spec fn bump(counter: usize) -> usize {
    if counter < usize::MAX {
        (counter + 1) as usize
    } else {
        counter
    }
}

/// How many of `peers` are counted as holders of piece `piece`.
pub open spec fn count_holders(peers: Seq<PeerModel>, piece: int) -> nat
    decreases peers.len(),
{
    if peers.len() == 0 {
        0
    } else {
        count_holders(peers.drop_last(), piece) + if peers.last().has[piece] {
            1nat
        } else {
            0nat
        }
    }
}

impl SchedulerModel {
    // ---------------------------------------------------------------
    // Reading the state
    // ---------------------------------------------------------------
    /// Whether slot `slot` holds the peer `id`.
    pub open spec fn is_slot_of(self, slot: int, id: Seq<u8>) -> bool {
        0 <= slot < self.peers.len() && self.peers[slot].id == id
    }

    /// Whether `id` has an open session.
    pub open spec fn knows(self, id: Seq<u8>) -> bool {
        exists|slot: int| self.is_slot_of(slot, id)
    }

    /// The slot of the peer `id`, where it has an open session.
    pub open spec fn slot_of(self, id: Seq<u8>) -> int {
        choose|slot: int| self.is_slot_of(slot, id)
    }

    /// Whether piece `piece` is assigned to the peer `id`.
    pub open spec fn is_assigned_to(self, piece: int, id: Seq<u8>) -> bool {
        &&& 0 <= piece < self.pieces.len()
        &&& self.pieces[piece] is Assigned
        &&& self.pieces[piece]->peer == id
    }

    /// Whether the peer in slot `slot` is counted as a holder of `piece`.
    pub open spec fn slot_has(self, slot: int, piece: int) -> bool {
        0 <= slot < self.peers.len() && self.peers[slot].has[piece]
    }

    /// Whether some open session can deliver `piece`.
    pub open spec fn has_holder(self, piece: int) -> bool {
        exists|slot: int| self.slot_has(slot, piece)
    }

    /// The peers with an open session.
    pub open spec fn live_peers(self) -> Set<Seq<u8>> {
        Set::new(|id: Seq<u8>| self.knows(id))
    }

    /// The peers with an open session that can deliver `piece`.
    pub open spec fn availability(self, piece: int) -> Set<Seq<u8>> {
        Set::new(
            |id: Seq<u8>|
                exists|slot: int| self.is_slot_of(slot, id) && self.slot_has(slot, piece),
        )
    }

    /// The missing pieces that some open session can deliver.
    pub open spec fn ready(self) -> Set<int> {
        Set::new(
            |piece: int|
                0 <= piece < self.pieces.len() && self.pieces[piece] is Missing && self.has_holder(
                    piece,
                ),
        )
    }

    /// The missing pieces that no open session can deliver.
    pub open spec fn orphans(self) -> Set<int> {
        Set::new(
            |piece: int|
                0 <= piece < self.pieces.len() && self.pieces[piece] is Missing && !self.has_holder(
                    piece,
                ),
        )
    }

    /// The pieces that some peer is fetching.
    pub open spec fn assigned_pieces(self) -> Set<int> {
        Set::new(|piece: int| 0 <= piece < self.pieces.len() && self.pieces[piece] is Assigned)
    }

    /// The pieces that are verified and written.
    pub open spec fn complete_pieces(self) -> Set<int> {
        Set::new(|piece: int| 0 <= piece < self.pieces.len() && self.pieces[piece] is Complete)
    }

    /// Whether every piece is complete.
    pub open spec fn all_complete(self) -> bool {
        forall|piece: int| 0 <= piece < self.pieces.len() ==> self.pieces[piece] is Complete
    }

    /// Whether nothing is to be done for `piece`: it is complete, or it is
    /// missing and no open session can deliver it.
    pub open spec fn is_at_rest(self, piece: int) -> bool {
        self.pieces[piece] is Complete || (self.pieces[piece] is Missing && !self.has_holder(piece))
    }

    /// Whether pieces remain, and all that remain are orphans.
    pub open spec fn only_orphans_remain(self) -> bool {
        &&& !self.all_complete()
        &&& forall|piece: int| 0 <= piece < self.pieces.len() ==> #[trigger] self.is_at_rest(piece)
    }

    /// How the download stands. It is stalled once the wave of sessions has
    /// settled and all that remains are orphans: no session is fetching
    /// then, and none that is still open can deliver a piece that is wanted.
    /// A session that is open but idle for want of such a piece counts for
    /// nothing here; a peer that advertised no piece at all is the plainest
    /// case.
    pub open spec fn status(self) -> DownloadStatus {
        if self.all_complete() {
            DownloadStatus::AllDone
        } else if self.latched && self.only_orphans_remain() {
            DownloadStatus::Stalled
        } else if self.is_downloading {
            DownloadStatus::Downloading
        } else {
            DownloadStatus::Waiting
        }
    }

    // ---------------------------------------------------------------
    // Validity
    // ---------------------------------------------------------------
    /// Every peer's row has one entry per piece.
    pub open spec fn rows_fit(self) -> bool {
        forall|slot: int|
            0 <= slot < self.peers.len() ==> (#[trigger] self.peers[slot]).has.len()
                == self.pieces.len()
    }

    /// No peer occurs twice.
    pub open spec fn ids_distinct(self) -> bool {
        forall|a: int, b: int|
            0 <= a < self.peers.len() && 0 <= b < self.peers.len() && a != b ==> (
            #[trigger] self.peers[a]).id != (#[trigger] self.peers[b]).id
    }

    /// Whether what the peer in slot `slot` is recorded to fetch, if
    /// anything, is a piece assigned to it, and one it is counted as a holder
    /// of.
    pub open spec fn assignment_fits(self, slot: int) -> bool {
        match self.peers[slot].assigned {
            Some(piece) => self.is_assigned_to(piece as int, self.peers[slot].id)
                && self.peers[slot].has[piece as int],
            None => true,
        }
    }

    /// What each peer is recorded to fetch fits.
    pub open spec fn assignments_recorded(self) -> bool {
        forall|slot: int| 0 <= slot < self.peers.len() ==> #[trigger] self.assignment_fits(slot)
    }

    /// Whether slot `slot` holds the peer that piece `piece` is assigned to,
    /// and records that assignment.
    pub open spec fn fetches(self, slot: int, piece: int) -> bool {
        &&& self.is_slot_of(slot, self.pieces[piece]->peer)
        &&& self.peers[slot].assigned == Some(piece as u32)
    }

    /// Whether a peer with an open session is fetching `piece`.
    pub open spec fn is_fetched(self, piece: int) -> bool {
        exists|slot: int| self.fetches(slot, piece)
    }

    /// Every assigned piece is being fetched by a peer with an open session.
    pub open spec fn assigned_pieces_fetched(self) -> bool {
        forall|piece: int|
            0 <= piece < self.pieces.len() && self.pieces[piece] is Assigned
                ==> #[trigger] self.is_fetched(piece)
    }

    /// Nobody is counted as a holder of a complete piece.
    pub open spec fn complete_unlisted(self) -> bool {
        forall|slot: int, piece: int|
            0 <= slot < self.peers.len() && 0 <= piece < self.pieces.len()
                && self.pieces[piece] is Complete ==> !(#[trigger] self.peers[slot].has[piece])
    }

    /// Whether the state is one the scheduler can be in.
    pub open spec fn wf(self) -> bool {
        &&& self.pieces.len() <= u32::MAX
        &&& self.rows_fit()
        &&& self.ids_distinct()
        &&& self.assignments_recorded()
        &&& self.assigned_pieces_fetched()
        &&& self.complete_unlisted()
    }

    // ---------------------------------------------------------------
    // The events
    // ---------------------------------------------------------------
    /// The state before any event: the pieces of `initial_pieces` are
    /// complete, the others missing, and no session is open.
    pub open spec fn initial(number_of_pieces: u32, initial_pieces: Seq<u32>) -> SchedulerModel {
        SchedulerModel {
            pieces: Seq::new(
                number_of_pieces as nat,
                |piece: int|
                    if initial_pieces.contains(piece as u32) {
                        PieceStatus::Complete
                    } else {
                        PieceStatus::Missing
                    },
            ),
            peers: Seq::empty(),
            bitfields_received: 0,
            connections_established: 0,
            is_downloading: false,
            latched: false,
        }
    }

    /// Whether the packed bits `bits` add piece `piece` to a peer's row: they
    /// claim it, and it is not complete.
    pub open spec fn claims(self, bits: Seq<u8>, piece: int) -> bool {
        bitfield_has(bits, piece) && !(self.pieces[piece] is Complete)
    }

    /// A peer advertised `bits`. A new peer gets a session and the row that
    /// the bits claim; a known peer has the claims added to its row.
    pub open spec fn after_peer_pieces(self, id: Seq<u8>, bits: Seq<u8>) -> SchedulerModel {
        let counted = SchedulerModel { bitfields_received: bump(self.bitfields_received), ..self };
        if self.knows(id) {
            let slot = self.slot_of(id);
            let merged = PeerModel {
                has: Seq::new(
                    self.pieces.len(),
                    |piece: int| self.peers[slot].has[piece] || self.claims(bits, piece),
                ),
                ..self.peers[slot]
            };
            SchedulerModel { peers: self.peers.update(slot, merged), ..counted }
        } else {
            let fresh = PeerModel {
                id,
                has: Seq::new(self.pieces.len(), |piece: int| self.claims(bits, piece)),
                assigned: None,
            };
            SchedulerModel { peers: self.peers.push(fresh), ..counted }
        }
    }

    /// A peer announced one more piece. It counts if the peer has a session
    /// and the piece exists and is not complete.
    pub open spec fn after_have(self, id: Seq<u8>, piece: u32) -> SchedulerModel {
        if self.knows(id) && piece < self.pieces.len() && !(self.pieces[piece as int] is Complete) {
            let slot = self.slot_of(id);
            let row = PeerModel {
                has: self.peers[slot].has.update(piece as int, true),
                ..self.peers[slot]
            };
            SchedulerModel { peers: self.peers.update(slot, row), ..self }
        } else {
            self
        }
    }

    /// A piece was verified and written. If it was assigned to that peer it
    /// becomes complete, leaves every row, and the peer is free again.
    pub open spec fn after_successful_download(self, piece: u32, id: Seq<u8>) -> SchedulerModel {
        if self.is_assigned_to(piece as int, id) {
            SchedulerModel {
                pieces: self.pieces.update(piece as int, PieceStatus::Complete),
                peers: Seq::new(
                    self.peers.len(),
                    |slot: int|
                        PeerModel {
                            id: self.peers[slot].id,
                            has: self.peers[slot].has.update(piece as int, false),
                            assigned: if self.peers[slot].id == id {
                                None
                            } else {
                                self.peers[slot].assigned
                            },
                        },
                ),
                ..self
            }
        } else {
            self
        }
    }

    /// A peer failed to deliver a piece. If the piece was assigned to it, the
    /// piece is missing again, the peer no longer counts as a holder of it,
    /// and the peer is free again.
    pub open spec fn after_failed_download(self, piece: u32, id: Seq<u8>) -> SchedulerModel {
        if self.is_assigned_to(piece as int, id) {
            SchedulerModel {
                pieces: self.pieces.update(piece as int, PieceStatus::Missing),
                peers: Seq::new(
                    self.peers.len(),
                    |slot: int|
                        if self.peers[slot].id == id {
                            PeerModel {
                                id: self.peers[slot].id,
                                has: self.peers[slot].has.update(piece as int, false),
                                assigned: None,
                            }
                        } else {
                            self.peers[slot]
                        },
                ),
                ..self
            }
        } else {
            self
        }
    }

    /// A session is gone. The peer is forgotten, and the piece it was
    /// fetching, if any, is missing again.
    pub open spec fn after_failed_connection(self, id: Seq<u8>) -> SchedulerModel {
        if self.knows(id) {
            let slot = self.slot_of(id);
            SchedulerModel {
                pieces: match self.peers[slot].assigned {
                    Some(piece) => self.pieces.update(piece as int, PieceStatus::Missing),
                    None => self.pieces,
                },
                peers: self.peers.remove(slot),
                ..self
            }
        } else {
            self
        }
    }

    /// The tracker was asked again: the count of sessions is open again.
    pub open spec fn after_reasked_tracker(self) -> SchedulerModel {
        SchedulerModel { latched: false, connections_established: 0, ..self }
    }

    /// The wave of sessions has settled with `count` of them open. From now
    /// on pieces are handed out.
    pub open spec fn after_finished_establishing(self, count: usize) -> SchedulerModel {
        SchedulerModel {
            latched: true,
            connections_established: count,
            is_downloading: true,
            ..self
        }
    }

    /// The state after `event`, before any piece is handed out.
    pub open spec fn after(self, event: Event) -> SchedulerModel {
        match event {
            Event::PeerPieces(id, bits) => self.after_peer_pieces(id, bits),
            Event::SuccessfulDownload(piece, id) => self.after_successful_download(piece, id),
            Event::FailedDownload(piece, id) => self.after_failed_download(piece, id),
            Event::FailedConnection(id) => self.after_failed_connection(id),
            Event::Have(id, piece) => self.after_have(id, piece),
            Event::ReaskedTracker => self.after_reasked_tracker(),
            Event::FinishedEstablishingConnections(count) => self.after_finished_establishing(
                count,
            ),
        }
    }

    // ---------------------------------------------------------------
    // Handing out pieces
    // ---------------------------------------------------------------
    /// How many open sessions can deliver `piece`.
    pub open spec fn holder_count(self, piece: int) -> nat {
        count_holders(self.peers, piece)
    }

    /// Whether the peer in slot `slot` could be given `piece`: the piece is
    /// missing and the peer is counted as a holder of it.
    pub open spec fn is_candidate(self, slot: int, piece: int) -> bool {
        &&& 0 <= piece < self.pieces.len()
        &&& self.pieces[piece] is Missing
        &&& self.slot_has(slot, piece)
    }

    /// Whether `piece` goes before `other`: fewer holders first, and among
    /// equals the lower index.
    pub open spec fn goes_before(self, piece: int, other: int) -> bool {
        self.holder_count(piece) < self.holder_count(other) || (self.holder_count(piece)
            == self.holder_count(other) && piece <= other)
    }

    /// Whether `piece` is the one to give the peer in slot `slot`: among the
    /// pieces it could be given, the rarest, and among those the lowest.
    pub open spec fn is_pick(self, slot: int, piece: int) -> bool {
        &&& self.is_candidate(slot, piece)
        &&& forall|other: int| #[trigger]
            self.is_candidate(slot, other) ==> self.goes_before(piece, other)
    }

    /// The piece to give the peer in slot `slot`, if there is one.
    pub open spec fn pick(self, slot: int) -> Option<int> {
        if exists|piece: int| self.is_pick(slot, piece) {
            Some(choose|piece: int| self.is_pick(slot, piece))
        } else {
            None
        }
    }

    /// The state after `piece` was given to the peer in slot `slot` at time
    /// `now`.
    pub open spec fn assign(self, slot: int, piece: int, now: u64) -> SchedulerModel {
        SchedulerModel {
            pieces: self.pieces.update(
                piece,
                PieceStatus::Assigned { peer: self.peers[slot].id, since: now },
            ),
            peers: self.peers.update(
                slot,
                PeerModel { assigned: Some(piece as u32), ..self.peers[slot] },
            ),
            ..self
        }
    }

    /// Goes through the peers from slot `slot` on, in order, and gives each
    /// free peer its pick. Returns the state after that and the orders given.
    pub open spec fn dispatch_from(self, slot: int, now: u64) -> (SchedulerModel, Seq<Order>)
        decreases self.peers.len() - slot,
    {
        if slot < 0 || slot >= self.peers.len() {
            (self, Seq::empty())
        } else if self.peers[slot].assigned is None && self.pick(slot) is Some {
            let piece = self.pick(slot)->Some_0;
            let (last, rest) = self.assign(slot, piece, now).dispatch_from(slot + 1, now);
            (last, seq![Order::DownloadPiece(self.peers[slot].id, piece as u32)] + rest)
        } else {
            self.dispatch_from(slot + 1, now)
        }
    }

    /// The state after `event`, handled at time `now`, and the orders given
    /// in answer: once pieces are being handed out, every free peer gets its
    /// pick after each event.
    pub open spec fn step(self, event: Event, now: u64) -> (SchedulerModel, Seq<Order>) {
        let changed = self.after(event);
        if changed.is_downloading {
            changed.dispatch_from(0, now)
        } else {
            (changed, Seq::empty())
        }
    }

    /// The orders that go out in answer to `event`: the pieces handed out,
    /// and after them the order to close every session once no piece is left
    /// to fetch.
    pub open spec fn orders(self, event: Event, now: u64) -> Seq<Order> {
        let (next, given) = self.step(event, now);
        if next.all_complete() {
            given.push(Order::CloseConnections)
        } else {
            given
        }
    }

    /// The piece whose completion `event` brings, if it brings one.
    pub open spec fn progress(self, event: Event) -> Option<u32> {
        match event {
            Event::SuccessfulDownload(piece, id) => if self.is_assigned_to(piece as int, id) {
                Some(piece)
            } else {
                None
            },
            _ => None,
        }
    }
}

} // verus!

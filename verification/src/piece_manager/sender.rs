use crate::peer::types::Bitfield;
use crate::piece_manager::model::Event;
use crate::piece_manager::types::PieceManagerMessage;
use vstd::prelude::*;

verus! {

/// What a queue of events holds, as plain values.
pub open spec fn events_view(events: Seq<PieceManagerMessage>) -> Seq<Event> {
    events.map_values(|event: PieceManagerMessage| event@)
}

/// The sending end of the scheduler's inbox: events wait here, in the order
/// in which they were sent, until they are carried over.
pub struct PieceManagerSender {
    /// The events that wait, oldest first.
    pub queue: Vec<PieceManagerMessage>,
}

impl View for PieceManagerSender {
    type V = Seq<Event>;

    open spec fn view(&self) -> Seq<Event> {
        events_view(self.queue@)
    }
}

impl PieceManagerSender {
    /// A sending end with nothing waiting.
    pub fn new() -> (sender: Self)
        ensures
            sender@ == Seq::<Event>::empty(),
    {
        let sender = PieceManagerSender { queue: Vec::new() };
        assert(sender@ =~= Seq::<Event>::empty());
        sender
    }

    /// Sends an event.
    pub fn send(&mut self, message: PieceManagerMessage)
        ensures
            final(self)@ == old(self)@.push(message@),
    {
        self.queue.push(message);
        assert(self@ =~= old(self)@.push(message@));
    }

    /// Reports that a peer opened a session and advertised `bitfield`.
    pub fn peer_pieces(&mut self, peer_id: Vec<u8>, bitfield: Bitfield)
        ensures
            final(self)@ == old(self)@.push(Event::PeerPieces(peer_id@, bitfield@)),
    {
        self.send(PieceManagerMessage::PeerPieces(peer_id, bitfield));
    }

    /// Reports that `piece`, fetched by `peer_id`, was verified and written.
    pub fn successful_download(&mut self, piece: u32, peer_id: Vec<u8>)
        ensures
            final(self)@ == old(self)@.push(Event::SuccessfulDownload(piece, peer_id@)),
    {
        self.send(PieceManagerMessage::SuccessfulDownload(piece, peer_id));
    }

    /// Reports that `peer_id` failed to deliver `piece`.
    pub fn failed_download(&mut self, piece: u32, peer_id: Vec<u8>)
        ensures
            final(self)@ == old(self)@.push(Event::FailedDownload(piece, peer_id@)),
    {
        self.send(PieceManagerMessage::FailedDownload(piece, peer_id));
    }

    /// Reports that the session of `peer_id` is gone.
    pub fn failed_connection(&mut self, peer_id: Vec<u8>)
        ensures
            final(self)@ == old(self)@.push(Event::FailedConnection(peer_id@)),
    {
        self.send(PieceManagerMessage::FailedConnection(peer_id));
    }

    /// Reports that `peer_id` announced `piece`.
    pub fn have(&mut self, peer_id: Vec<u8>, piece: u32)
        ensures
            final(self)@ == old(self)@.push(Event::Have(peer_id@, piece)),
    {
        self.send(PieceManagerMessage::Have(peer_id, piece));
    }

    /// Reports that the tracker was asked again.
    pub fn reasked_tracker(&mut self)
        ensures
            final(self)@ == old(self)@.push(Event::ReaskedTracker),
    {
        self.send(PieceManagerMessage::ReaskedTracker());
    }

    /// Reports that every session of the wave was attempted and `count` of
    /// them were opened.
    pub fn finished_establishing_connections(&mut self, count: usize)
        ensures
            final(self)@ == old(self)@.push(Event::FinishedEstablishingConnections(count)),
    {
        self.send(PieceManagerMessage::FinishedEstablishingConnections(count));
    }
}

} // verus!

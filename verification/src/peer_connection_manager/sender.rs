use crate::peer_connection_manager::types::{PeerConnectionManagerMessage, orders_view};
use crate::piece_manager::model::Order;
use vstd::prelude::*;

verus! {

/// The sending end of the connection manager's inbox: orders wait here, in
/// the order in which they were given, until they are carried over.
pub struct PeerConnectionManagerSender {
    /// The orders that wait, oldest first.
    pub queue: Vec<PeerConnectionManagerMessage>,
}

impl View for PeerConnectionManagerSender {
    type V = Seq<Order>;

    open spec fn view(&self) -> Seq<Order> {
        orders_view(self.queue@)
    }
}

impl PeerConnectionManagerSender {
    /// A sending end with nothing waiting.
    pub fn new() -> (sender: Self)
        ensures
            sender@ == Seq::<Order>::empty(),
    {
        let sender = PeerConnectionManagerSender { queue: Vec::new() };
        assert(sender@ =~= Seq::<Order>::empty());
        sender
    }

    /// Orders piece `piece` to be fetched from the peer `peer_id`.
    pub fn download_piece(&mut self, peer_id: Vec<u8>, piece: u32)
        ensures
            final(self)@ == old(self)@.push(Order::DownloadPiece(peer_id@, piece)),
    {
        self.queue.push(PeerConnectionManagerMessage::DownloadPiece(peer_id, piece));
        assert(self@ =~= old(self)@.push(Order::DownloadPiece(peer_id@, piece)));
    }

    /// Orders every session to be closed.
    pub fn close_connections(&mut self)
        ensures
            final(self)@ == old(self)@.push(Order::CloseConnections),
    {
        self.queue.push(PeerConnectionManagerMessage::CloseConnections);
        assert(self@ =~= old(self)@.push(Order::CloseConnections));
    }
}

} // verus!

use crate::piece_manager::model::Order;
use vstd::prelude::*;

verus! {

/// An order to the connection manager.
#[derive(Debug)]
pub enum PeerConnectionManagerMessage {
    /// Fetch the piece from the peer with this identifier.
    DownloadPiece(Vec<u8>, u32),
    /// Close every session.
    CloseConnections,
}

impl View for PeerConnectionManagerMessage {
    type V = Order;

    open spec fn view(&self) -> Order {
        match self {
            PeerConnectionManagerMessage::DownloadPiece(peer_id, piece) => Order::DownloadPiece(
                peer_id@,
                *piece,
            ),
            PeerConnectionManagerMessage::CloseConnections => Order::CloseConnections,
        }
    }
}

/// What a queue of orders holds, as plain values.
pub open spec fn orders_view(orders: Seq<PeerConnectionManagerMessage>) -> Seq<Order> {
    orders.map_values(|order: PeerConnectionManagerMessage| order@)
}

} // verus!

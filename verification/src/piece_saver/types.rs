use crate::download_manager::types::PieceWrite;
use vstd::prelude::*;

verus! {

/// A message for the piece verifier.
#[derive(Debug)]
pub enum PieceSaverMessage {
    /// Stop: take in nothing more.
    StopSaving,
    /// Check the bytes against the digest of the piece of this index and
    /// save them if they match; the last field is the peer they came from.
    ValidateAndSavePiece(u32, Vec<u8>, Vec<u8>),
}

/// A message for the piece verifier, as plain values.
#[verifier::ext_equal]
pub enum SaverEvent {
    /// Stop.
    StopSaving,
    /// Check and save the bytes of the piece, fetched by the peer.
    ValidateAndSavePiece(u32, Seq<u8>, Seq<u8>),
}

impl View for PieceSaverMessage {
    type V = SaverEvent;

    open spec fn view(&self) -> SaverEvent {
        match self {
            PieceSaverMessage::StopSaving => SaverEvent::StopSaving,
            PieceSaverMessage::ValidateAndSavePiece(piece, bytes, peer_id) => {
                SaverEvent::ValidateAndSavePiece(*piece, bytes@, peer_id@)
            },
        }
    }
}

/// What a queue of messages for the verifier holds, as plain values.
pub open spec fn saver_events_view(messages: Seq<PieceSaverMessage>) -> Seq<SaverEvent> {
    messages.map_values(|message: PieceSaverMessage| message@)
}

/// A verified piece that is to be written, and the peer it came from.
#[derive(Debug)]
pub struct SaveOrder {
    /// What to write, and where.
    pub write: PieceWrite,
    /// The peer that delivered the piece.
    pub peer_id: Vec<u8>,
}

/// A verified piece that is to be written, as plain values.
#[verifier::ext_equal]
pub struct SaveOrderView {
    /// The index of the piece.
    pub piece: u32,
    /// Where in the file the first byte goes.
    pub offset: u64,
    /// The bytes to write.
    pub data: Seq<u8>,
    /// The peer that delivered the piece.
    pub peer_id: Seq<u8>,
}

impl View for SaveOrder {
    type V = SaveOrderView;

    open spec fn view(&self) -> SaveOrderView {
        SaveOrderView {
            piece: self.write.piece_number,
            offset: self.write.offset,
            data: self.write.data@,
            peer_id: self.peer_id@,
        }
    }
}

/// What a list of save orders holds, as plain values.
pub open spec fn save_orders_view(orders: Seq<SaveOrder>) -> Seq<SaveOrderView> {
    orders.map_values(|order: SaveOrder| order@)
}

} // verus!

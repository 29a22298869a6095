use crate::piece_saver::types::{PieceSaverMessage, SaverEvent, saver_events_view};
use vstd::prelude::*;

verus! {

/// The sending end of the verifier's inbox: messages wait here, in the order
/// in which they were sent, until they are carried over.
pub struct PieceSaverSender {
    /// The messages that wait, oldest first.
    pub queue: Vec<PieceSaverMessage>,
}

impl View for PieceSaverSender {
    type V = Seq<SaverEvent>;

    open spec fn view(&self) -> Seq<SaverEvent> {
        saver_events_view(self.queue@)
    }
}

impl PieceSaverSender {
    /// A sending end with nothing waiting.
    pub fn new() -> (sender: Self)
        ensures
            sender@ == Seq::<SaverEvent>::empty(),
    {
        let sender = PieceSaverSender { queue: Vec::new() };
        assert(sender@ =~= Seq::<SaverEvent>::empty());
        sender
    }

    /// Tells the verifier to stop.
    pub fn stop_saving(&mut self)
        ensures
            final(self)@ == old(self)@.push(SaverEvent::StopSaving),
    {
        self.queue.push(PieceSaverMessage::StopSaving);
        assert(self@ =~= old(self)@.push(SaverEvent::StopSaving));
    }

    /// Hands the verifier the bytes that `peer_id` delivered as piece
    /// `piece_index`.
    pub fn validate_and_save_piece(
        &mut self,
        piece_index: u32,
        piece_bytes: Vec<u8>,
        peer_id: Vec<u8>,
    )
        ensures
            final(self)@ == old(self)@.push(
                SaverEvent::ValidateAndSavePiece(piece_index, piece_bytes@, peer_id@),
            ),
    {
        self.queue.push(PieceSaverMessage::ValidateAndSavePiece(piece_index, piece_bytes, peer_id));
        assert(self@ =~= old(self)@.push(
            SaverEvent::ValidateAndSavePiece(piece_index, piece_bytes@, peer_id@),
        ));
    }
}

} // verus!

//! What a session needs from the stream beneath it, and a scripted stand-in
//! for that stream.
use crate::bytes::{copy_range, u32_be};
use crate::peer::errors::IPeerMessageServiceError;
use crate::peer::types::{PeerMessage, PeerMessageId, PeerMessageView};
use vstd::prelude::*;

verus! {

/// The stream a session talks through. A session asks nothing else of its
/// transport, and nothing is known of what a stream answers: every session
/// is verified for whatever comes back.
pub trait PeerMessageService {
    /// Sends our handshake for the torrent `info_hash` under the identifier
    /// `peer_id`, and accepts the peer's answer if it is for the same
    /// torrent.
    fn handshake(&mut self, info_hash: &[u8], peer_id: &[u8]) -> Result<
        (),
        IPeerMessageServiceError,
    >;

    /// Waits for the next message from the peer.
    fn wait_for_message(&mut self) -> Result<PeerMessage, IPeerMessageServiceError>;

    /// Sends `message` to the peer.
    fn send_message(&mut self, message: &PeerMessage) -> Result<(), IPeerMessageServiceError>;
}

/// A stream that plays a peer which has the whole of `file` as piece 0 and
/// delivers it in blocks of `block_size`, one block for each message waited
/// for, whatever was asked.
pub struct PeerMessageStreamMock {
    /// How many blocks were delivered.
    pub counter: u32,
    /// The bytes the peer has.
    pub file: Vec<u8>,
    /// The length of the blocks it delivers.
    pub block_size: u32,
}

impl PeerMessageStreamMock {
    /// Whether the peer has another block to deliver: the next block lies
    /// within the file, and its message can be framed.
    pub open spec fn has_next(&self) -> bool {
        &&& (self.counter + 1) * self.block_size <= self.file@.len()
        &&& (self.counter + 1) * self.block_size <= u32::MAX
        &&& self.block_size + 9 <= u32::MAX
        &&& self.counter < u32::MAX
    }

    /// The message the peer delivers next.
    pub open spec fn next_message(&self) -> PeerMessageView {
        PeerMessageView::of(
            PeerMessageId::Piece,
            u32_be(0) + u32_be((self.counter * self.block_size) as u32) + self.file@.subrange(
                self.counter * self.block_size,
                (self.counter + 1) * self.block_size,
            ),
        )
    }
}

impl PeerMessageService for PeerMessageStreamMock {
    /// Accepts any handshake.
    fn handshake(&mut self, info_hash: &[u8], peer_id: &[u8]) -> (outcome: Result<
        (),
        IPeerMessageServiceError,
    >)
        ensures
            outcome is Ok,
            *final(self) == *old(self),
    {
        Ok(())
    }

    /// Delivers the next block of the file as a block of piece 0, while
    /// there is one; after that, fails.
    fn wait_for_message(&mut self) -> (outcome: Result<PeerMessage, IPeerMessageServiceError>)
        ensures
            old(self).has_next() ==> outcome is Ok && outcome->Ok_0@ == old(self).next_message()
                && final(self).counter == old(self).counter + 1,
            !old(self).has_next() ==> outcome == Err::<PeerMessage, IPeerMessageServiceError>(
                IPeerMessageServiceError::ReceivingMessageError,
            ) && final(self).counter == old(self).counter,
            final(self).file == old(self).file,
            final(self).block_size == old(self).block_size,
    {
        assert(self.counter * self.block_size <= u64::MAX - u32::MAX) by (nonlinear_arith)
            requires
                self.counter <= u32::MAX,
                self.block_size <= u32::MAX,
        ;
        let start: u64 = self.counter as u64 * self.block_size as u64;
        let end: u64 = start + self.block_size as u64;
        assert(end == (self.counter + 1) * self.block_size) by (nonlinear_arith)
            requires
                end == self.counter * self.block_size + self.block_size,
        ;
        if end > self.file.len() as u64 || end > u32::MAX as u64 || self.block_size > u32::MAX - 9
            || self.counter == u32::MAX {
            return Err(IPeerMessageServiceError::ReceivingMessageError);
        }
        let block = copy_range(self.file.as_slice(), start as usize, end as usize);
        let message = PeerMessage::piece(0, start as u32, block);
        self.counter = self.counter + 1;
        Ok(message)
    }

    /// Swallows any message.
    fn send_message(&mut self, message: &PeerMessage) -> (outcome: Result<
        (),
        IPeerMessageServiceError,
    >)
        ensures
            outcome is Ok,
            *final(self) == *old(self),
    {
        Ok(())
    }
}

} // verus!

//! The download of one piece, block by block.
use crate::bytes::{append_bytes, copy_range, lemma_u32_be_round_trip, u32_be};
use crate::peer::errors::{PeerConnectionError, PieceRequestFault};
use crate::peer::types::{PeerMessage, PeerMessageId, PeerMessageView};
use crate::peer::utils::{block_matches, valid_block};
use vstd::prelude::*;

verus! {

/// The size of a block, the unit a piece is requested in.
pub const BLOCK_SIZE: u32 = 16384;

/// What a message does to a download.
#[derive(Debug, PartialEq, Eq, Clone, Copy, Structural)]
pub enum BlockVerdict {
    /// The message carried the block that was asked for; it was taken in.
    Accepted,
    /// The message does not concern the download.
    Ignored,
    /// The peer choked us: the download is off.
    Choked,
    /// The message carried a block for another piece or offset.
    InvalidBlock,
}

/// The state of the download of one piece.
pub struct PieceDownload {
    index: u32,
    piece_length: u32,
    block_size: u32,
    offset: u32,
    received: Vec<u8>,
}

/// The state of the download of one piece, as plain values.
pub struct PieceDownloadView {
    /// The piece.
    pub index: u32,
    /// The length of the piece.
    pub piece_length: u32,
    /// The length of a block.
    pub block_size: u32,
    /// Where the block to ask for next starts.
    pub offset: u32,
    /// The bytes taken in so far.
    pub received: Seq<u8>,
}

impl PieceDownloadView {
    /// The download of piece `index`, of `piece_length` bytes, in blocks of
    /// `block_size`, before anything was asked for.
    pub open spec fn begun(index: u32, piece_length: u32, block_size: u32) -> PieceDownloadView {
        PieceDownloadView { index, piece_length, block_size, offset: 0, received: Seq::empty() }
    }

    /// Whether the state is one a download can be in.
    pub open spec fn wf(self) -> bool {
        self.block_size > 0 && self.offset <= self.piece_length
    }

    /// Whether every block was asked for and answered.
    pub open spec fn is_complete(self) -> bool {
        self.offset >= self.piece_length
    }

    /// The length of the block to ask for next: a full block, or what is
    /// left of the piece.
    pub open spec fn next_length(self) -> u32 {
        if self.piece_length - self.offset < self.block_size {
            (self.piece_length - self.offset) as u32
        } else {
            self.block_size
        }
    }

    /// The request to send next, if a block is left to ask for.
    pub open spec fn next_request(self) -> Option<PeerMessageView> {
        if self.is_complete() {
            None
        } else {
            Some(
                PeerMessageView::of(
                    PeerMessageId::Request,
                    u32_be(self.index) + u32_be(self.offset) + u32_be(self.next_length()),
                ),
            )
        }
    }

    /// What `message` does to the download.
    pub open spec fn verdict(self, message: PeerMessageView) -> BlockVerdict {
        if self.is_complete() || message.length == 0 {
            BlockVerdict::Ignored
        } else if message.id == PeerMessageId::Piece {
            if block_matches(message.payload, self.index, self.offset) {
                BlockVerdict::Accepted
            } else {
                BlockVerdict::InvalidBlock
            }
        } else if message.id == PeerMessageId::Choke {
            BlockVerdict::Choked
        } else {
            BlockVerdict::Ignored
        }
    }

    /// The download after `message`: an accepted block is appended and the
    /// next block is up; anything else changes nothing.
    pub open spec fn after(self, message: PeerMessageView) -> PieceDownloadView {
        if self.verdict(message) == BlockVerdict::Accepted {
            PieceDownloadView {
                offset: (self.offset + self.next_length()) as u32,
                received: self.received + message.payload.subrange(8, message.payload.len() as int),
                ..self
            }
        } else {
            self
        }
    }

    /// The piece, if the bytes taken in have its length.
    pub open spec fn outcome(self) -> Result<Seq<u8>, PeerConnectionError> {
        if self.received.len() == self.piece_length {
            Ok(self.received)
        } else {
            Err(PeerConnectionError::PieceRequestingError(PieceRequestFault::InvalidPiece))
        }
    }
}

impl View for PieceDownload {
    type V = PieceDownloadView;

    closed spec fn view(&self) -> PieceDownloadView {
        PieceDownloadView {
            index: self.index,
            piece_length: self.piece_length,
            block_size: self.block_size,
            offset: self.offset,
            received: self.received@,
        }
    }
}

impl PieceDownload {
    /// The download of piece `index`, of `piece_length` bytes, in blocks of
    /// `block_size`, before anything was asked for.
    pub fn new(index: u32, piece_length: u32, block_size: u32) -> (download: Self)
        requires
            block_size > 0,
        ensures
            download@ == PieceDownloadView::begun(index, piece_length, block_size),
            download@.wf(),
    {
        PieceDownload { index, piece_length, block_size, offset: 0, received: Vec::new() }
    }

    /// Whether every block was asked for and answered.
    pub fn is_complete(&self) -> (complete: bool)
        ensures
            complete == self@.is_complete(),
    {
        self.offset >= self.piece_length
    }

    /// The request to send next, if a block is left to ask for.
    pub fn next_request(&self) -> (request: Option<PeerMessage>)
        requires
            self@.wf(),
        ensures
            match request {
                Some(message) => self@.next_request() == Some(message@),
                None => self@.next_request() is None,
            },
    {
        if self.offset >= self.piece_length {
            return None;
        }
        let left: u32 = self.piece_length - self.offset;
        let length: u32 = if left < self.block_size {
            left
        } else {
            self.block_size
        };
        Some(PeerMessage::request(self.index, self.offset, length))
    }

    /// Takes `message` in. A block that answers the outstanding request is
    /// appended; a block for another piece or offset, and a choke, are
    /// reported; every other message is ignored.
    pub fn accept(&mut self, message: &PeerMessage) -> (verdict: BlockVerdict)
        requires
            old(self)@.wf(),
        ensures
            verdict == old(self)@.verdict(message@),
            final(self)@ == old(self)@.after(message@),
            final(self)@.wf(),
            verdict == BlockVerdict::Accepted ==> final(self)@.offset > old(self)@.offset,
    {
        if self.offset >= self.piece_length || message.length == 0 {
            return BlockVerdict::Ignored;
        }
        match message.id {
            PeerMessageId::Piece => {
                if valid_block(message.payload.as_slice(), self.index, self.offset) {
                    let left: u32 = self.piece_length - self.offset;
                    let length: u32 = if left < self.block_size {
                        left
                    } else {
                        self.block_size
                    };
                    let block = copy_range(message.payload.as_slice(), 8, message.payload.len());
                    append_bytes(&mut self.received, block.as_slice());
                    self.offset = self.offset + length;
                    BlockVerdict::Accepted
                } else {
                    BlockVerdict::InvalidBlock
                }
            },
            PeerMessageId::Choke => BlockVerdict::Choked,
            _ => BlockVerdict::Ignored,
        }
    }

    /// Ends the download: the bytes taken in are the piece if they have its
    /// length, and no piece otherwise.
    pub fn finish(self) -> (outcome: Result<Vec<u8>, PeerConnectionError>)
        ensures
            match outcome {
                Ok(piece) => self@.outcome() == Ok::<Seq<u8>, PeerConnectionError>(piece@),
                Err(error) => self@.outcome() == Err::<Seq<u8>, PeerConnectionError>(error),
            },
    {
        if self.received.len() == self.piece_length as usize {
            Ok(self.received)
        } else {
            Err(PeerConnectionError::PieceRequestingError(PieceRequestFault::InvalidPiece))
        }
    }
}

/// The message an honest peer answers the next request with: the block
/// asked for, cut from `piece`.
pub open spec fn honest_answer(download: PieceDownloadView, piece: Seq<u8>) -> PeerMessageView {
    PeerMessageView::of(
        PeerMessageId::Piece,
        u32_be(download.index) + u32_be(download.offset) + piece.subrange(
            download.offset as int,
            download.offset + download.next_length(),
        ),
    )
}

/// A peer that answers each request with the block asked for delivers the
/// piece. While the bytes taken in are the front of `piece`, the honest
/// answer to the next request is accepted, moves the download on, and leaves
/// the bytes taken in the front of `piece`; and once the download is
/// complete, its outcome is `piece`.
pub proof fn lemma_honest_peer_delivers(download: PieceDownloadView, piece: Seq<u8>)
    requires
        download.wf(),
        download.block_size <= u32::MAX - 9,
        piece.len() == download.piece_length,
        download.received == piece.subrange(0, download.offset as int),
    ensures
        download.is_complete() ==> download.outcome() == Ok::<Seq<u8>, PeerConnectionError>(piece),
        !download.is_complete() ==> ({
            let next = download.after(honest_answer(download, piece));
            &&& download.verdict(honest_answer(download, piece)) == BlockVerdict::Accepted
            &&& next.wf()
            &&& next.offset > download.offset
            &&& next.received == piece.subrange(0, next.offset as int)
        }),
{
    if download.is_complete() {
        assert(piece.subrange(0, download.offset as int) =~= piece);
    } else {
        let block = piece.subrange(
            download.offset as int,
            download.offset + download.next_length(),
        );
        let payload = u32_be(download.index) + u32_be(download.offset) + block;
        lemma_u32_be_round_trip(
            download.index,
            Seq::<u8>::empty(),
            u32_be(download.offset) + block,
        );
        assert(Seq::<u8>::empty() + u32_be(download.index) + (u32_be(download.offset) + block)
            =~= payload);
        lemma_u32_be_round_trip(download.offset, u32_be(download.index), block);
        assert(payload.subrange(8, payload.len() as int) =~= block);
        let next = download.after(honest_answer(download, piece));
        assert(next.received =~= piece.subrange(0, next.offset as int));
    }
}

} // verus!

use crate::bytes::copy_range;
use crate::download_manager::errors::DownloadManagerError;
use crate::metainfo::piece_offset;
use vstd::prelude::*;

verus! {

/// A piece that was fetched and verified.
#[derive(Debug)]
pub struct Piece {
    /// The index of the piece.
    pub piece_number: u32,
    /// Its bytes.
    pub data: Vec<u8>,
}

/// Bytes to write into the content file, and where.
#[derive(Debug)]
pub struct PieceWrite {
    /// The index of the piece the bytes belong to.
    pub piece_number: u32,
    /// Where in the file the first byte goes.
    pub offset: u64,
    /// The bytes.
    pub data: Vec<u8>,
}

/// How many bytes of a piece with `available` bytes go into a file of
/// `length` bytes from `offset` on: all of them, or as many as the file has
/// room for.
pub open spec fn region_length(length: u64, offset: int, available: int) -> int {
    if offset >= length {
        0
    } else if length - offset < available {
        length - offset
    } else {
        available
    }
}

/// Says where in the content file `piece` goes: at the piece's index times
/// the length of a piece, cut off where the content ends. A piece without
/// bytes is not saved.
pub fn plan_piece_write(piece: Piece, piece_length: u32, length: u64) -> (plan: Result<
    PieceWrite,
    DownloadManagerError,
>)
    ensures
        piece.data@.len() == 0 <==> plan is Err,
        plan matches Err(error) ==> error is EmptyPieceError,
        plan matches Ok(write) ==> {
            &&& write.piece_number == piece.piece_number
            &&& write.offset == piece_offset(piece_length, piece.piece_number)
            &&& write.data@ == piece.data@.subrange(
                0,
                region_length(
                    length,
                    piece_offset(piece_length, piece.piece_number),
                    piece.data@.len() as int,
                ),
            )
            &&& write.offset + write.data@.len() <= length || write.data@.len() == 0
        },
{
    if piece.data.len() == 0 {
        return Err(DownloadManagerError::EmptyPieceError);
    }
    assert(piece.piece_number * piece_length <= u64::MAX) by (nonlinear_arith)
        requires
            piece.piece_number <= u32::MAX,
            piece_length <= u32::MAX,
    ;
    let offset: u64 = piece.piece_number as u64 * piece_length as u64;
    let room: usize = if offset >= length {
        0
    } else if length - offset < piece.data.len() as u64 {
        (length - offset) as usize
    } else {
        piece.data.len()
    };
    let data = copy_range(piece.data.as_slice(), 0, room);
    Ok(PieceWrite { piece_number: piece.piece_number, offset, data })
}

} // verus!

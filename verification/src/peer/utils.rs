use crate::bytes::{read_u32_be, u32_from_be};
use vstd::prelude::*;

verus! {

/// Whether the payload of a piece message is a block of piece `index` that
/// starts `begin` bytes into the piece: its first four bytes are the index
/// and its next four the offset.
pub open spec fn block_matches(payload: Seq<u8>, index: u32, begin: u32) -> bool {
    &&& payload.len() >= 8
    &&& u32_from_be(payload, 0) == index
    &&& u32_from_be(payload, 4) == begin
}

/// Whether the payload of a piece message is a block of piece `index` that
/// starts `begin` bytes into the piece.
pub fn valid_block(payload: &[u8], index: u32, begin: u32) -> (valid: bool)
    ensures
        valid == block_matches(payload@, index, begin),
{
    if payload.len() < 8 {
        return false;
    }
    read_u32_be(payload, 0) == index && read_u32_be(payload, 4) == begin
}

} // verus!

//! The content file as the verifier's orders leave it.
use crate::hashing::sha1_digest;
use crate::metainfo::{piece_offset, piece_size};
use crate::piece_saver::types::SaveOrderView;
use crate::piece_saver::worker::SaverModel;
use vstd::prelude::*;

verus! {

/// The content file after `order` was carried out: from the order's offset
/// on it holds the order's bytes, and elsewhere what it held before.
pub open spec fn written(file: Seq<u8>, order: SaveOrderView) -> Seq<u8> {
    Seq::new(
        file.len(),
        |at: int|
            if order.offset <= at < order.offset + order.data.len() {
                order.data[at - order.offset]
            } else {
                file[at]
            },
    )
}

/// The content file after the orders `saves` were carried out, in order.
pub open spec fn file_after(file: Seq<u8>, saves: Seq<SaveOrderView>) -> Seq<u8>
    decreases saves.len(),
{
    if saves.len() == 0 {
        file
    } else {
        written(file_after(file, saves.drop_last()), saves.last())
    }
}

/// The part of the content file where piece `piece` lies.
pub open spec fn region(model: SaverModel, file: Seq<u8>, piece: u32) -> Seq<u8> {
    file.subrange(
        piece_offset(model.piece_length, piece),
        piece_offset(model.piece_length, piece) + piece_size(
            model.piece_length,
            model.length,
            piece,
        ),
    )
}

/// Whether `order` is the order for bytes that pass as the piece it names
/// and have the length the torrent gives that piece.
pub open spec fn is_whole_piece(model: SaverModel, order: SaveOrderView) -> bool {
    &&& model.passes(order.piece, order.data)
    &&& order.data.len() == piece_size(model.piece_length, model.length, order.piece)
    &&& order.offset == piece_offset(model.piece_length, order.piece)
}

/// Two pieces do not overlap: the one with the lower index ends before the
/// other begins.
pub proof fn lemma_pieces_apart(model: SaverModel, lower: u32, upper: u32)
    requires
        lower < upper,
    ensures
        piece_offset(model.piece_length, lower) + piece_size(
            model.piece_length,
            model.length,
            lower,
        ) <= piece_offset(model.piece_length, upper),
{
    let p = model.piece_length as int;
    assert(lower * p + p <= upper * p) by (nonlinear_arith)
        requires
            lower + 1 <= upper,
            p >= 0,
    ;
}

/// An order for a whole piece fills that piece's part of the file with its
/// bytes and leaves the part of every other piece of the torrent as it was.
pub proof fn lemma_write_fills_its_region(
    model: SaverModel,
    file: Seq<u8>,
    order: SaveOrderView,
    piece: u32,
)
    requires
        file.len() == model.length,
        is_whole_piece(model, order),
    ensures
        written(file, order).len() == file.len(),
        region(model, written(file, order), order.piece) == order.data,
        piece != order.piece && piece_size(model.piece_length, model.length, piece) > 0
            ==> region(model, written(file, order), piece) == region(model, file, piece),
{
    let after = written(file, order);
    let start = piece_offset(model.piece_length, order.piece);
    let size = piece_size(model.piece_length, model.length, order.piece);
    assert(start + size <= model.length);
    assert(region(model, after, order.piece) =~= order.data);
    if piece != order.piece && piece_size(model.piece_length, model.length, piece) > 0 {
        if piece < order.piece {
            lemma_pieces_apart(model, piece, order.piece);
        } else {
            lemma_pieces_apart(model, order.piece, piece);
        }
        let from = piece_offset(model.piece_length, piece);
        let len = piece_size(model.piece_length, model.length, piece);
        assert(from + len <= model.length);
        assert(region(model, after, piece) =~= region(model, file, piece));
    }
}

/// Every piece that was written has its digest on disk: after any run of
/// orders, each for a whole piece that passed, the part of the content file
/// where a piece lies that some order names has the SHA-1 digest that the
/// torrent gives for that piece.
pub proof fn lemma_file_regions_have_their_digests(
    model: SaverModel,
    file: Seq<u8>,
    saves: Seq<SaveOrderView>,
    named: int,
)
    requires
        file.len() == model.length,
        forall|k: int| 0 <= k < saves.len() ==> is_whole_piece(model, #[trigger] saves[k]),
        0 <= named < saves.len(),
    ensures
        file_after(file, saves).len() == file.len(),
        sha1_digest(region(model, file_after(file, saves), saves[named].piece))
            == model.digests[saves[named].piece as int],
    decreases saves.len(),
{
    let before = file_after(file, saves.drop_last());
    lemma_file_length(model, file, saves.drop_last());
    lemma_write_fills_its_region(model, before, saves.last(), saves[named].piece);
    if saves[named].piece != saves.last().piece {
        assert(saves.drop_last()[named] == saves[named]);
        lemma_file_regions_have_their_digests(model, file, saves.drop_last(), named);
    }
}

/// Carrying out orders for whole pieces leaves the file as long as it was.
pub proof fn lemma_file_length(model: SaverModel, file: Seq<u8>, saves: Seq<SaveOrderView>)
    ensures
        file_after(file, saves).len() == file.len(),
    decreases saves.len(),
{
    if saves.len() > 0 {
        lemma_file_length(model, file, saves.drop_last());
    }
}

} // verus!

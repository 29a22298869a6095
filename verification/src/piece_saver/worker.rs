use crate::bytes::{bytes_equal, copy_range};
use crate::download_manager::errors::DownloadManagerError;
use crate::download_manager::types::{Piece, plan_piece_write, region_length};
use crate::hashing::{sha1_digest, sha1_of};
use crate::metainfo::{Metainfo, piece_offset};
use crate::peer_connection_manager::types::PeerConnectionManagerMessage;
use crate::piece_manager::model::Order;
use crate::piece_manager::model::Event;
use crate::piece_manager::sender::PieceManagerSender;
use crate::piece_saver::sender::PieceSaverSender;
use crate::piece_saver::types::{
    PieceSaverMessage, SaveOrder, SaveOrderView, SaverEvent, save_orders_view, saver_events_view,
};
use vstd::prelude::*;

verus! {

/// The piece verifier: it checks each piece it is handed against the digest
/// the torrent gives for it, and says where a piece that passes is to be
/// written.
pub struct PieceSaverWorker {
    /// The sending end of the scheduler's inbox.
    pub piece_manager_sender: PieceManagerSender,
    /// The digest of each piece, by index.
    pub sha1_pieces: Vec<Vec<u8>>,
    /// The length of a piece.
    pub piece_length: u32,
    /// The length of the content.
    pub length: u64,
    /// The directory the content file lies in.
    pub download_path: String,
}

/// What the verifier judges by: the digest of each piece, the length of a
/// piece and the length of the content.
#[verifier::ext_equal]
pub struct SaverModel {
    /// The digest of each piece, by index.
    pub digests: Seq<Seq<u8>>,
    /// The length of a piece.
    pub piece_length: u32,
    /// The length of the content.
    pub length: u64,
}

/// What the verifier does with a run of messages: the pieces to write, the
/// failures to report, and whether it was told to stop.
#[verifier::ext_equal]
pub struct ListenModel {
    /// The pieces that passed, in the order in which they came.
    pub saves: Seq<SaveOrderView>,
    /// The reports of the pieces that did not pass, in the order in which
    /// they came.
    pub failures: Seq<Event>,
    /// Whether a message told the verifier to stop.
    pub stopped: bool,
}

/// What came of a run of messages.
pub struct ListenReport {
    /// The pieces that passed and are to be written, in the order in which
    /// they came.
    pub saves: Vec<SaveOrder>,
    /// Whether a message told the verifier to stop. If none did, the inbox
    /// ran dry.
    pub stopped: bool,
}

/// The end of the whole download, called by the verifier when a piece
/// could not be written: why, and what tells each of the other workers to
/// stop.
#[derive(Debug)]
pub struct Halt {
    /// Why the piece could not be written.
    pub error: DownloadManagerError,
    /// The piece that could not be written.
    pub piece: u32,
    /// The order that stops the connection manager: to close every
    /// session.
    pub to_connection_manager: PeerConnectionManagerMessage,
    /// The message that stops the verifier itself.
    pub to_verifier: PieceSaverMessage,
}

impl SaverModel {
    /// Whether `digest` is the digest that the torrent gives for piece
    /// `piece_index`. A piece that the torrent does not have has none.
    pub open spec fn expects(self, piece_index: u32, digest: Seq<u8>) -> bool {
        piece_index < self.digests.len() && self.digests[piece_index as int] == digest
    }

    /// Whether `piece_bytes` pass as piece `piece_index`: their SHA-1 digest
    /// is the one the torrent gives for that piece, and they are not empty.
    pub open spec fn passes(self, piece_index: u32, piece_bytes: Seq<u8>) -> bool {
        self.expects(piece_index, sha1_digest(piece_bytes)) && piece_bytes.len() > 0
    }

    /// The order to write `piece_bytes` as piece `piece_index`: at the
    /// piece's place in the content, cut off where the content ends.
    pub open spec fn order_for(
        self,
        piece_index: u32,
        piece_bytes: Seq<u8>,
        peer_id: Seq<u8>,
    ) -> SaveOrderView {
        SaveOrderView {
            piece: piece_index,
            offset: piece_offset(self.piece_length, piece_index) as u64,
            data: piece_bytes.subrange(
                0,
                region_length(
                    self.length,
                    piece_offset(self.piece_length, piece_index),
                    piece_bytes.len() as int,
                ),
            ),
            peer_id,
        }
    }

    /// What the verifier does with the messages from `from` on: it takes
    /// them in order until one tells it to stop; each piece that passes is
    /// to be written, and each that does not is reported as failed.
    pub open spec fn run(self, messages: Seq<SaverEvent>, from: int) -> ListenModel
        decreases messages.len() - from,
    {
        if from < 0 || from >= messages.len() {
            ListenModel { saves: Seq::empty(), failures: Seq::empty(), stopped: false }
        } else {
            match messages[from] {
                SaverEvent::StopSaving => ListenModel {
                    saves: Seq::empty(),
                    failures: Seq::empty(),
                    stopped: true,
                },
                SaverEvent::ValidateAndSavePiece(piece, bytes, peer_id) => {
                    let rest = self.run(messages, from + 1);
                    if self.passes(piece, bytes) {
                        ListenModel {
                            saves: seq![self.order_for(piece, bytes, peer_id)] + rest.saves,
                            ..rest
                        }
                    } else {
                        ListenModel {
                            failures: seq![Event::FailedDownload(piece, peer_id)] + rest.failures,
                            ..rest
                        }
                    }
                },
            }
        }
    }
}

/// What is written has the digest the torrent gives for it: the bytes of a
/// save order, when they fit where they go, are bytes whose SHA-1 digest is
/// the digest of the piece they are written as, and they go where that
/// piece starts.
pub proof fn lemma_written_bytes_have_their_digest(
    model: SaverModel,
    piece_index: u32,
    piece_bytes: Seq<u8>,
    peer_id: Seq<u8>,
)
    requires
        model.passes(piece_index, piece_bytes),
        piece_offset(model.piece_length, piece_index) + piece_bytes.len() <= model.length,
    ensures
        model.order_for(piece_index, piece_bytes, peer_id).offset == piece_index
            * model.piece_length,
        sha1_digest(model.order_for(piece_index, piece_bytes, peer_id).data)
            == model.digests[piece_index as int],
{
    let order = model.order_for(piece_index, piece_bytes, peer_id);
    assert(order.data =~= piece_bytes);
    assert(piece_index * model.piece_length <= u64::MAX) by (nonlinear_arith)
        requires
            piece_index <= u32::MAX,
            model.piece_length <= u32::MAX,
    ;
}

/// The verifier orders nothing to be written but what passed: every save
/// order that comes out of a run of messages is the order for a piece of
/// that run whose bytes have the digest the torrent gives for it.
pub proof fn lemma_saves_passed(model: SaverModel, messages: Seq<SaverEvent>, from: int, place: int)
    requires
        0 <= from,
        0 <= place < model.run(messages, from).saves.len(),
    ensures
        exists|at: int|
            from <= at < messages.len() && #[trigger] messages[at] is ValidateAndSavePiece
                && model.passes(
                messages[at]->ValidateAndSavePiece_0,
                messages[at]->ValidateAndSavePiece_1,
            ) && model.run(messages, from).saves[place] == model.order_for(
                messages[at]->ValidateAndSavePiece_0,
                messages[at]->ValidateAndSavePiece_1,
                messages[at]->ValidateAndSavePiece_2,
            ),
    decreases messages.len() - from,
{
    if from < messages.len() {
        match messages[from] {
            SaverEvent::StopSaving => {},
            SaverEvent::ValidateAndSavePiece(piece, bytes, peer_id) => {
                if model.passes(piece, bytes) {
                    if place == 0 {
                        assert(messages[from] is ValidateAndSavePiece);
                    } else {
                        lemma_saves_passed(model, messages, from + 1, place - 1);
                    }
                } else {
                    lemma_saves_passed(model, messages, from + 1, place);
                }
            },
        }
    }
}

impl PieceSaverWorker {
    /// What the verifier judges by.
    pub open spec fn model(&self) -> SaverModel {
        SaverModel {
            digests: self.sha1_pieces@.map_values(|digest: Vec<u8>| digest@),
            piece_length: self.piece_length,
            length: self.length,
        }
    }

    /// Whether `digest` is the digest that the torrent gives for piece
    /// `piece_index`.
    pub fn digest_is_expected(&self, piece_index: u32, digest: &[u8]) -> (expected: bool)
        ensures
            expected == self.model().expects(piece_index, digest@),
    {
        if piece_index as usize >= self.sha1_pieces.len() {
            return false;
        }
        bytes_equal(self.sha1_pieces[piece_index as usize].as_slice(), digest)
    }

    /// Whether the SHA-1 digest of `piece_bytes` is the one the torrent
    /// gives for piece `piece_index`.
    pub fn valid_piece(&self, piece_bytes: &[u8], piece_index: u32) -> (valid: bool)
        ensures
            valid == self.model().expects(piece_index, sha1_digest(piece_bytes@)),
    {
        let digest = sha1_of(piece_bytes);
        self.digest_is_expected(piece_index, digest.as_slice())
    }

    /// Checks the bytes that `peer_id` delivered as piece `piece_index`. If
    /// they pass, the order to write them comes back, and nothing is
    /// reported yet: the piece counts once it is written. If they do not,
    /// the failure is reported to the scheduler and nothing is to be
    /// written.
    pub fn make_validation_and_save_piece(
        &mut self,
        piece_index: u32,
        piece_bytes: Vec<u8>,
        peer_id: Vec<u8>,
    ) -> (order: Option<SaveOrder>)
        ensures
            old(self).model().passes(piece_index, piece_bytes@) ==> order is Some && order->Some_0@
                == old(self).model().order_for(piece_index, piece_bytes@, peer_id@)
                && final(self).piece_manager_sender@ == old(self).piece_manager_sender@,
            !old(self).model().passes(piece_index, piece_bytes@) ==> order is None
                && final(self).piece_manager_sender@ == old(self).piece_manager_sender@.push(
                Event::FailedDownload(piece_index, peer_id@),
            ),
            final(self).model() == old(self).model(),
            final(self).download_path == old(self).download_path,
    {
        if self.valid_piece(piece_bytes.as_slice(), piece_index) {
            let piece = Piece { piece_number: piece_index, data: piece_bytes };
            match plan_piece_write(piece, self.piece_length, self.length) {
                Ok(write) => {
                    return Some(SaveOrder { write, peer_id });
                },
                Err(_) => {},
            }
        }
        self.piece_manager_sender.failed_download(piece_index, peer_id);
        None
    }

    /// Reports to the scheduler that the piece of `order` was written.
    pub fn confirm_saved(&mut self, order: &SaveOrder)
        ensures
            final(self).piece_manager_sender@ == old(self).piece_manager_sender@.push(
                Event::SuccessfulDownload(order@.piece, order@.peer_id),
            ),
            final(self).model() == old(self).model(),
            final(self).download_path == old(self).download_path,
    {
        let peer_id = copy_range(order.peer_id.as_slice(), 0, order.peer_id.len());
        assert(peer_id@ =~= order.peer_id@);
        self.piece_manager_sender.successful_download(order.write.piece_number, peer_id);
    }

    /// Takes what came of writing the piece of `order`. A piece that was
    /// written is reported to the scheduler as verified, and the download
    /// goes on. A piece that could not be written ends the whole download:
    /// nothing is reported to the scheduler, so the piece never counts as
    /// complete, and what comes back holds the failure together with the
    /// order that closes every session and the message that stops the
    /// verifier.
    pub fn settle_write(
        &mut self,
        order: &SaveOrder,
        written: Result<(), DownloadManagerError>,
    ) -> (halt: Option<Halt>)
        ensures
            halt is None <==> written is Ok,
            written is Ok ==> final(self).piece_manager_sender@ == old(
                self,
            ).piece_manager_sender@.push(Event::SuccessfulDownload(order@.piece, order@.peer_id)),
            written is Err ==> final(self).piece_manager_sender@ == old(
                self,
            ).piece_manager_sender@,
            (written, halt) matches (Err(error), Some(stop)) ==> stop.error == error && stop.piece
                == order@.piece && stop.to_connection_manager@ == Order::CloseConnections
                && stop.to_verifier@ == SaverEvent::StopSaving,
            final(self).model() == old(self).model(),
            final(self).download_path == old(self).download_path,
    {
        match written {
            Ok(()) => {
                self.confirm_saved(order);
                None
            },
            Err(error) => Some(
                Halt {
                    error,
                    piece: order.write.piece_number,
                    to_connection_manager: PeerConnectionManagerMessage::CloseConnections,
                    to_verifier: PieceSaverMessage::StopSaving,
                },
            ),
        }
    }

    /// Takes in the messages of `inbox` in order, until one tells the
    /// verifier to stop or the inbox runs dry. The pieces that pass come
    /// back as orders to write them, in the order in which they came; the
    /// pieces that do not pass are reported to the scheduler as failed, in
    /// the order in which they came.
    pub fn listen(&mut self, inbox: Vec<PieceSaverMessage>) -> (report: ListenReport)
        ensures
            save_orders_view(report.saves@) == old(self).model().run(
                saver_events_view(inbox@),
                0,
            ).saves,
            report.stopped == old(self).model().run(saver_events_view(inbox@), 0).stopped,
            final(self).piece_manager_sender@ == old(self).piece_manager_sender@
                + old(self).model().run(saver_events_view(inbox@), 0).failures,
            final(self).model() == old(self).model(),
            final(self).download_path == old(self).download_path,
    {
        let ghost messages = saver_events_view(inbox@);
        let ghost whole = self.model().run(messages, 0);
        let ghost reported = self.piece_manager_sender@;
        let total: usize = inbox.len();
        assert(messages.len() == total);
        let mut queue = inbox;
        let mut saves: Vec<SaveOrder> = Vec::new();
        let mut done: usize = 0;
        assert(save_orders_view(saves@) + whole.saves =~= whole.saves);
        while queue.len() > 0
            invariant
                messages == saver_events_view(inbox@),
                messages.len() == total,
                done + queue@.len() == total,
                forall|i: int|
                    0 <= i < queue@.len() ==> (#[trigger] queue@[i])@ == messages[done + i],
                self.model() == old(self).model(),
                self.download_path == old(self).download_path,
                whole == old(self).model().run(messages, 0),
                reported == old(self).piece_manager_sender@,
                whole.saves == save_orders_view(saves@) + self.model().run(
                    messages,
                    done as int,
                ).saves,
                reported + whole.failures == self.piece_manager_sender@ + self.model().run(
                    messages,
                    done as int,
                ).failures,
                whole.stopped == self.model().run(messages, done as int).stopped,
            decreases queue@.len(),
        {
            let ghost told = self.piece_manager_sender@;
            let ghost saved = saves@;
            let ghost later = self.model().run(messages, done + 1);
            let message = queue.remove(0);
            assert(message@ == messages[done as int]);
            match message {
                PieceSaverMessage::StopSaving => {
                    assert(save_orders_view(saves@) + Seq::<SaveOrderView>::empty()
                        =~= save_orders_view(saves@));
                    assert(told + Seq::<Event>::empty() =~= told);
                    return ListenReport { saves, stopped: true };
                },
                PieceSaverMessage::ValidateAndSavePiece(piece, bytes, peer_id) => {
                    let ghost order = self.model().order_for(piece, bytes@, peer_id@);
                    let ghost failure = Event::FailedDownload(piece, peer_id@);
                    match self.make_validation_and_save_piece(piece, bytes, peer_id) {
                        Some(passed) => {
                            saves.push(passed);
                            assert(save_orders_view(saves@) =~= save_orders_view(saved).push(
                                order,
                            ));
                            assert(save_orders_view(saved) + (seq![order] + later.saves)
                                =~= save_orders_view(saves@) + later.saves);
                        },
                        None => {
                            assert(told + (seq![failure] + later.failures)
                                =~= self.piece_manager_sender@ + later.failures);
                        },
                    }
                },
            }
            done += 1;
        }
        assert(save_orders_view(saves@) + Seq::<SaveOrderView>::empty() =~= save_orders_view(
            saves@,
        ));
        assert(self.piece_manager_sender@ + Seq::<Event>::empty() =~= self.piece_manager_sender@);
        ListenReport { saves, stopped: false }
    }
}

/// Makes a verifier for the torrent `metainfo`, whose content is saved below
/// `download_path`, together with the sending end of its inbox. Failures and
/// successes go to the scheduler through `piece_manager_sender`.
pub fn new_piece_saver(
    piece_manager_sender: PieceManagerSender,
    metainfo: &Metainfo,
    download_path: String,
) -> (made: (PieceSaverSender, PieceSaverWorker))
    ensures
        made.0@ == Seq::<SaverEvent>::empty(),
        made.1.piece_manager_sender == piece_manager_sender,
        made.1.model() == (SaverModel {
            digests: metainfo@.pieces,
            piece_length: metainfo@.piece_length,
            length: metainfo@.length,
        }),
        made.1.download_path == download_path,
{
    let copy = metainfo.clone();
    let worker = PieceSaverWorker {
        piece_manager_sender,
        sha1_pieces: copy.info.pieces,
        piece_length: copy.info.piece_length,
        length: copy.info.length,
        download_path,
    };
    (PieceSaverSender::new(), worker)
}

} // verus!

//! What the scheduler's policy comes to: which piece a peer is given, what
//! a failure does to the piece that was being fetched, and when the
//! download counts as stalled.
use crate::piece_manager::laws::{
    lemma_after_wf, lemma_assign_wf, lemma_assignee_is_live_holder, lemma_dispatch_serves_everyone,
    lemma_dispatch_wf, lemma_failed_connection_wf, lemma_failed_download_wf,
    lemma_holder_count_is_availability, lemma_pick_is_candidate, lemma_slot_unique,
};
use crate::piece_manager::model::{DownloadStatus, Event, Order, PieceStatus, SchedulerModel};
use vstd::prelude::*;

verus! {

/// Rarest first, lowest index among equals: the piece a peer is given is
/// ready and among those the peer can deliver; no other such piece can be
/// delivered by fewer peers, and none that can be delivered by as many has a
/// lower index.
pub proof fn lemma_pick_is_rarest_first(state: SchedulerModel, slot: int, piece: int, other: int)
    requires
        state.wf(),
        0 <= slot < state.peers.len(),
        state.pick(slot) == Some(piece),
        state.ready().contains(other),
        state.availability(other).contains(state.peers[slot].id),
    ensures
        state.ready().contains(piece),
        state.availability(piece).contains(state.peers[slot].id),
        state.availability(piece).len() <= state.availability(other).len(),
        state.availability(piece).len() == state.availability(other).len() ==> piece <= other,
{
    lemma_pick_is_candidate(state, slot);
    let id = state.peers[slot].id;
    assert(state.is_slot_of(slot, id));
    assert(state.slot_has(slot, piece));
    let holder = choose|holder: int|
        state.is_slot_of(holder, id) && state.slot_has(holder, other);
    lemma_slot_unique(state, holder, id);
    lemma_slot_unique(state, slot, id);
    assert(holder == slot);
    assert(state.is_candidate(slot, other));
    assert(state.goes_before(piece, other));
    lemma_holder_count_is_availability(state, piece);
    lemma_holder_count_is_availability(state, other);
}

/// After every event, once pieces are handed out, no peer is idle while it
/// could fetch: a peer without an assignment can deliver no missing piece.
pub proof fn lemma_no_idle_holder(
    state: SchedulerModel,
    event: Event,
    now: u64,
    slot: int,
    piece: int,
)
    requires
        state.wf(),
        state.after(event).is_downloading,
        0 <= slot < state.step(event, now).0.peers.len(),
        state.step(event, now).0.peers[slot].assigned is None,
        0 <= piece < state.pieces.len(),
        state.step(event, now).0.pieces[piece] is Missing,
    ensures
        !state.step(event, now).0.slot_has(slot, piece),
{
    lemma_after_wf(state, event);
    let changed = state.after(event);
    lemma_dispatch_wf(changed, 0, now);
    lemma_dispatch_serves_everyone(changed, 0, now);
    let next = state.step(event, now).0;
    assert(!next.is_candidate(slot, piece));
}

/// The orders and the assignments agree: each order that goes out when
/// pieces are handed out names a piece that was missing and a peer that the
/// piece is assigned to afterwards, and each piece that was missing and is
/// assigned afterwards was ordered from the peer it is assigned to.
pub proof fn lemma_dispatch_orders_what_it_assigns(state: SchedulerModel, from: int, now: u64)
    requires
        state.wf(),
        0 <= from,
    ensures
        forall|k: int|
            0 <= k < state.dispatch_from(from, now).1.len() ==> (
            #[trigger] state.dispatch_from(from, now).1[k] matches Order::DownloadPiece(id, piece)
                && piece < state.pieces.len() && state.pieces[piece as int] is Missing
                && state.dispatch_from(from, now).0.is_assigned_to(piece as int, id)),
        forall|piece: int|
            0 <= piece < state.pieces.len() && state.pieces[piece] is Missing && (
            #[trigger] state.dispatch_from(from, now).0.pieces[piece]) is Assigned
                ==> state.dispatch_from(from, now).1.contains(
                Order::DownloadPiece(
                    state.dispatch_from(from, now).0.pieces[piece]->peer,
                    piece as u32,
                ),
            ),
    decreases state.peers.len() - from,
{
    let (last, orders) = state.dispatch_from(from, now);
    if from >= state.peers.len() {
    } else if state.peers[from].assigned is None && state.pick(from) is Some {
        let chosen = state.pick(from)->Some_0;
        lemma_pick_is_candidate(state, from);
        lemma_assign_wf(state, from, chosen, now);
        let next = state.assign(from, chosen, now);
        lemma_dispatch_orders_what_it_assigns(next, from + 1, now);
        lemma_dispatch_wf(next, from + 1, now);
        let rest = next.dispatch_from(from + 1, now).1;
        let first = Order::DownloadPiece(state.peers[from].id, chosen as u32);
        assert(orders == seq![first] + rest);
        assert(last.pieces[chosen] == next.pieces[chosen]);
        assert forall|k: int| 0 <= k < orders.len() implies (
        #[trigger] orders[k] matches Order::DownloadPiece(id, piece) && piece < state.pieces.len()
            && state.pieces[piece as int] is Missing && last.is_assigned_to(piece as int, id)) by {
            if k > 0 {
                assert(orders[k] == rest[k - 1]);
                let named = rest[k - 1]->DownloadPiece_1;
                assert(named != chosen);
                assert(next.pieces[named as int] == state.pieces[named as int]);
            }
        }
        assert forall|piece: int|
            0 <= piece < state.pieces.len() && state.pieces[piece] is Missing && (
            #[trigger] last.pieces[piece]) is Assigned implies orders.contains(
            Order::DownloadPiece(last.pieces[piece]->peer, piece as u32),
        ) by {
            if piece == chosen {
                assert(orders[0] == first);
            } else {
                assert(next.pieces[piece] == state.pieces[piece]);
                let wanted = Order::DownloadPiece(last.pieces[piece]->peer, piece as u32);
                let k = choose|k: int| 0 <= k < rest.len() && rest[k] == wanted;
                assert(orders[k + 1] == wanted);
            }
        }
    } else {
        lemma_dispatch_orders_what_it_assigns(state, from + 1, now);
    }
}

/// A lost session gives its piece back. When the session of a peer that
/// was fetching a piece is gone, the peer is forgotten, and the piece is not
/// left lying: either it was ordered from another peer that can deliver it,
/// and is assigned to that peer, or it is missing and every peer that can
/// deliver it is busy with another piece.
pub proof fn lemma_lost_session_frees_its_piece(
    state: SchedulerModel,
    id: Seq<u8>,
    piece: int,
    now: u64,
)
    requires
        state.wf(),
        state.is_downloading,
        state.is_assigned_to(piece, id),
    ensures
        !state.step(Event::FailedConnection(id), now).0.knows(id),
        state.step(Event::FailedConnection(id), now).0.pieces[piece] matches PieceStatus::Assigned {
            peer,
            since,
        } ==> peer != id && state.step(Event::FailedConnection(id), now).0.availability(
            piece,
        ).contains(peer) && state.step(Event::FailedConnection(id), now).1.contains(
            Order::DownloadPiece(peer, piece as u32),
        ),
        !(state.step(Event::FailedConnection(id), now).0.pieces[piece] is Assigned) ==> state.step(
            Event::FailedConnection(id),
            now,
        ).0.pieces[piece] is Missing && forall|slot: int| #[trigger]
            state.step(Event::FailedConnection(id), now).0.slot_has(slot, piece) ==> state.step(
                Event::FailedConnection(id),
                now,
            ).0.peers[slot].assigned is Some,
{
    let event = Event::FailedConnection(id);
    let changed = state.after(event);
    let (next, orders) = state.step(event, now);
    lemma_failed_connection_wf(state, id);
    lemma_dispatch_wf(changed, 0, now);
    lemma_dispatch_serves_everyone(changed, 0, now);
    lemma_dispatch_orders_what_it_assigns(changed, 0, now);
    assert(changed.pieces[piece] is Missing);
    assert(!next.knows(id)) by {
        if next.knows(id) {
            let slot = choose|slot: int| next.is_slot_of(slot, id);
            assert(changed.is_slot_of(slot, id));
        }
    }
    if next.pieces[piece] is Assigned {
        lemma_assignee_is_live_holder(next, piece);
        assert(next.knows(next.pieces[piece]->peer));
    } else {
        assert forall|slot: int| #[trigger]
            next.slot_has(slot, piece) implies next.peers[slot].assigned is Some by {
            if next.peers[slot].assigned is None {
                assert(!next.is_candidate(slot, piece));
            }
        }
    }
}

/// A failed piece is not asked of the same peer again. When a peer fails
/// to deliver the piece it was fetching, the peer no longer counts among
/// those that can deliver the piece: the piece is not assigned to it and
/// not ordered from it. The pieces that were complete stay complete, and
/// no other is. If the peer was the only one that could deliver the piece,
/// the piece is an orphan afterwards and is ordered from nobody.
pub proof fn lemma_failed_piece_leaves_its_peer(
    state: SchedulerModel,
    id: Seq<u8>,
    piece: u32,
    now: u64,
)
    requires
        state.wf(),
        state.is_downloading,
        state.is_assigned_to(piece as int, id),
    ensures
        !state.step(Event::FailedDownload(piece, id), now).0.availability(piece as int).contains(
            id,
        ),
        !state.step(Event::FailedDownload(piece, id), now).0.is_assigned_to(piece as int, id),
        !state.step(Event::FailedDownload(piece, id), now).1.contains(
            Order::DownloadPiece(id, piece),
        ),
        state.step(Event::FailedDownload(piece, id), now).0.complete_pieces()
            == state.complete_pieces(),
        state.availability(piece as int) == set![id] ==> state.step(
            Event::FailedDownload(piece, id),
            now,
        ).0.orphans().contains(piece as int) && forall|any: Seq<u8>|
            !(#[trigger] state.step(Event::FailedDownload(piece, id), now).1.contains(
                Order::DownloadPiece(any, piece),
            )),
{
    let event = Event::FailedDownload(piece, id);
    let changed = state.after(event);
    let (next, orders) = state.step(event, now);
    lemma_failed_download_wf(state, piece, id);
    lemma_dispatch_wf(changed, 0, now);
    lemma_dispatch_orders_what_it_assigns(changed, 0, now);
    assert(changed.pieces[piece as int] is Missing);
    assert(!next.availability(piece as int).contains(id)) by {
        if next.availability(piece as int).contains(id) {
            let slot = choose|slot: int|
                next.is_slot_of(slot, id) && next.slot_has(slot, piece as int);
            assert(next.peers[slot].has == changed.peers[slot].has);
            assert(changed.peers[slot].id == id);
            assert(state.peers[slot].id == id);
        }
    }
    if next.pieces[piece as int] is Assigned {
        lemma_assignee_is_live_holder(next, piece as int);
    }
    if orders.contains(Order::DownloadPiece(id, piece)) {
        let k = choose|k: int|
            0 <= k < orders.len() && orders[k] == Order::DownloadPiece(id, piece);
        assert(next.is_assigned_to(piece as int, id));
    }
    assert(next.complete_pieces() =~= state.complete_pieces()) by {
        assert forall|p: int|
            next.complete_pieces().contains(p) == state.complete_pieces().contains(p) by {
            if 0 <= p < state.pieces.len() {
                if p != piece {
                    assert(changed.pieces[p] == state.pieces[p]);
                }
                if changed.pieces[p] is Complete {
                    assert(next.pieces[p] == changed.pieces[p]);
                }
            }
        }
    }
    if state.availability(piece as int) == set![id] {
        assert forall|slot: int| !changed.slot_has(slot, piece as int) by {
            if changed.slot_has(slot, piece as int) {
                assert(state.slot_has(slot, piece as int));
                assert(state.is_slot_of(slot, state.peers[slot].id));
                assert(state.availability(piece as int).contains(state.peers[slot].id));
                assert(state.peers[slot].id == id);
            }
        }
        assert forall|slot: int| !next.slot_has(slot, piece as int) by {
            if next.slot_has(slot, piece as int) {
                assert(next.peers[slot].has == changed.peers[slot].has);
                assert(changed.slot_has(slot, piece as int));
            }
        }
        if next.pieces[piece as int] is Assigned {
            lemma_assignee_is_live_holder(next, piece as int);
            let peer = next.pieces[piece as int]->peer;
            let slot = choose|slot: int|
                next.is_slot_of(slot, peer) && next.slot_has(slot, piece as int);
            assert(next.slot_has(slot, piece as int));
        }
        assert(next.pieces[piece as int] is Missing);
        assert(!next.has_holder(piece as int));
        assert forall|any: Seq<u8>|
            !(#[trigger] orders.contains(Order::DownloadPiece(any, piece))) by {
            if orders.contains(Order::DownloadPiece(any, piece)) {
                let k = choose|k: int|
                    0 <= k < orders.len() && orders[k] == Order::DownloadPiece(any, piece);
                assert(next.is_assigned_to(piece as int, any));
            }
        }
    }
}

/// When the download counts as stalled: the wave of sessions has settled,
/// pieces remain, and every piece that remains is an orphan. No piece is
/// being fetched then, and no open session can deliver a piece that is
/// wanted. Sessions may still be open: a peer that is connected but can
/// deliver nothing that remains does not keep the download from being
/// stalled, whether it advertised nothing or failed at what it advertised.
pub proof fn lemma_stalled_is_orphans_only(state: SchedulerModel)
    requires
        state.wf(),
    ensures
        state.status() == DownloadStatus::Stalled <==> state.latched && !state.all_complete()
            && forall|piece: int|
            0 <= piece < state.pieces.len() && !(state.pieces[piece] is Complete)
                ==> #[trigger] state.orphans().contains(piece),
        state.status() == DownloadStatus::Stalled ==> state.assigned_pieces() == Set::<
            int,
        >::empty() && state.ready() == Set::<int>::empty() && forall|slot: int, piece: int|
            0 <= piece < state.pieces.len() && #[trigger] state.slot_has(slot, piece)
                ==> state.pieces[piece] is Assigned || state.pieces[piece] is Complete,
{
    if state.status() == DownloadStatus::Stalled {
        assert forall|piece: int|
            0 <= piece < state.pieces.len() && !(state.pieces[piece] is Complete)
                implies #[trigger] state.orphans().contains(piece) by {
            assert(state.is_at_rest(piece));
        }
        assert(state.assigned_pieces() =~= Set::<int>::empty()) by {
            assert forall|piece: int| !state.assigned_pieces().contains(piece) by {
                if 0 <= piece < state.pieces.len() {
                    assert(state.is_at_rest(piece));
                }
            }
        }
        assert(state.ready() =~= Set::<int>::empty()) by {
            assert forall|piece: int| !state.ready().contains(piece) by {
                if 0 <= piece < state.pieces.len() {
                    assert(state.is_at_rest(piece));
                }
            }
        }
        assert forall|slot: int, piece: int|
            0 <= piece < state.pieces.len() && #[trigger] state.slot_has(
                slot,
                piece,
            ) implies state.pieces[piece] is Assigned || state.pieces[piece] is Complete by {
            assert(state.is_at_rest(piece));
        }
    }
    if state.latched && !state.all_complete() && (forall|piece: int|
        0 <= piece < state.pieces.len() && !(state.pieces[piece] is Complete)
            ==> #[trigger] state.orphans().contains(piece)) {
        assert forall|piece: int|
            0 <= piece < state.pieces.len() implies #[trigger] state.is_at_rest(piece) by {
            if !(state.pieces[piece] is Complete) {
                assert(state.orphans().contains(piece));
            }
        }
    }
}

} // verus!

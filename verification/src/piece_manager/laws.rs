//! What holds of every state the scheduler can reach, proved from the
//! definitions of its events.
use crate::peer::types::bitfield_has;
use crate::piece_manager::model::{Event, PieceStatus, SchedulerModel, count_holders};
use vstd::prelude::*;

verus! {

/// A peer with an open session sits in one slot only, and that is the slot
/// `slot_of` names.
pub proof fn lemma_slot_unique(state: SchedulerModel, slot: int, id: Seq<u8>)
    requires
        state.ids_distinct(),
        state.is_slot_of(slot, id),
    ensures
        state.knows(id),
        state.slot_of(id) == slot,
{
    let chosen = state.slot_of(id);
    assert(state.is_slot_of(chosen, id));
    if chosen != slot {
        assert(state.peers[chosen].id != state.peers[slot].id);
    }
}

/// The slot of the peer that fetches an assigned piece.
proof fn lemma_fetcher(state: SchedulerModel, piece: int) -> (slot: int)
    requires
        state.assigned_pieces_fetched(),
        0 <= piece < state.pieces.len(),
        state.pieces[piece] is Assigned,
    ensures
        state.fetches(slot, piece),
{
    assert(state.is_fetched(piece));
    choose|slot: int| state.fetches(slot, piece)
}

/// The slot of the peer that a piece is assigned to is the slot that
/// fetches it.
proof fn lemma_assignee_fetches(state: SchedulerModel, piece: int, slot: int)
    requires
        state.wf(),
        state.is_assigned_to(piece, state.peers[slot].id),
        0 <= slot < state.peers.len(),
    ensures
        state.fetches(slot, piece),
{
    let fetcher = lemma_fetcher(state, piece);
    if fetcher != slot {
        assert(state.peers[fetcher].id != state.peers[slot].id);
    }
}

/// A state whose peers go by the same names and fetch the same pieces as
/// those of a valid state, over the same pieces, has every assigned piece
/// fetched and every assignment fitting, if its rows still hold what is
/// fetched.
proof fn lemma_same_assignments(state: SchedulerModel, next: SchedulerModel)
    requires
        state.wf(),
        next.pieces == state.pieces,
        next.peers.len() == state.peers.len(),
        forall|slot: int|
            0 <= slot < state.peers.len() ==> (#[trigger] next.peers[slot]).id
                == state.peers[slot].id && next.peers[slot].assigned == state.peers[slot].assigned,
        forall|slot: int, piece: int|
            0 <= slot < state.peers.len() && 0 <= piece < state.pieces.len()
                && state.peers[slot].has[piece] ==> #[trigger] next.peers[slot].has[piece],
    ensures
        next.ids_distinct(),
        next.assignments_recorded(),
        next.assigned_pieces_fetched(),
{
    assert forall|a: int, b: int|
        0 <= a < next.peers.len() && 0 <= b < next.peers.len() && a != b implies (
    #[trigger] next.peers[a]).id != (#[trigger] next.peers[b]).id by {
        assert(state.peers[a].id != state.peers[b].id);
    }
    assert forall|slot: int|
            0 <= slot < next.peers.len() implies #[trigger] next.assignment_fits(slot) by {
        assert(state.assignment_fits(slot));
    }
    assert forall|piece: int|
        0 <= piece < next.pieces.len()
            && next.pieces[piece] is Assigned implies #[trigger] next.is_fetched(piece) by {
        let slot = lemma_fetcher(state, piece);
        assert(next.fetches(slot, piece));
    }
}

/// The state before any event is valid.
pub proof fn lemma_initial_wf(number_of_pieces: u32, initial_pieces: Seq<u32>)
    ensures
        SchedulerModel::initial(number_of_pieces, initial_pieces).wf(),
        SchedulerModel::initial(number_of_pieces, initial_pieces).pieces.len() == number_of_pieces,
{
}

/// An advertised bitfield leaves the state valid and every piece as it was.
pub proof fn lemma_peer_pieces_wf(state: SchedulerModel, id: Seq<u8>, bits: Seq<u8>)
    requires
        state.wf(),
    ensures
        state.after_peer_pieces(id, bits).wf(),
        state.after_peer_pieces(id, bits).pieces == state.pieces,
{
    let next = state.after_peer_pieces(id, bits);
    if state.knows(id) {
        let slot = state.slot_of(id);
        assert(state.is_slot_of(slot, id));
        lemma_same_assignments(state, next);
    } else {
        let last = state.peers.len() as int;
        assert forall|a: int, b: int|
            0 <= a < next.peers.len() && 0 <= b < next.peers.len() && a != b implies (
        #[trigger] next.peers[a]).id != (#[trigger] next.peers[b]).id by {
            if a == last {
                assert(!state.is_slot_of(b, id));
            } else if b == last {
                assert(!state.is_slot_of(a, id));
            } else {
                assert(state.peers[a].id != state.peers[b].id);
            }
        }
        assert forall|slot: int|
            0 <= slot < next.peers.len() implies #[trigger] next.assignment_fits(slot) by {
            if slot < last {
                assert(state.assignment_fits(slot));
            }
        }
        assert forall|piece: int|
            0 <= piece < next.pieces.len()
                && next.pieces[piece] is Assigned implies #[trigger] next.is_fetched(piece) by {
            let slot = lemma_fetcher(state, piece);
            assert(next.fetches(slot, piece));
        }
    }
}

/// An announced piece leaves the state valid and every piece as it was.
pub proof fn lemma_have_wf(state: SchedulerModel, id: Seq<u8>, piece: u32)
    requires
        state.wf(),
    ensures
        state.after_have(id, piece).wf(),
        state.after_have(id, piece).pieces == state.pieces,
{
    let next = state.after_have(id, piece);
    if state.knows(id) && piece < state.pieces.len() && !(state.pieces[piece as int] is Complete) {
        let slot = state.slot_of(id);
        assert(state.is_slot_of(slot, id));
        lemma_same_assignments(state, next);
    }
}

/// To announce a piece is to advertise a bitfield with that one bit: for a
/// peer with an open session, both leave the same pieces and the same peers.
pub proof fn lemma_have_is_one_bit(state: SchedulerModel, id: Seq<u8>, piece: u32, bits: Seq<u8>)
    requires
        state.wf(),
        state.knows(id),
        forall|other: int| bitfield_has(bits, other) <==> other == piece,
    ensures
        state.after_have(id, piece).pieces == state.after_peer_pieces(id, bits).pieces,
        state.after_have(id, piece).peers == state.after_peer_pieces(id, bits).peers,
{
    let slot = state.slot_of(id);
    assert(state.is_slot_of(slot, id));
    assert(state.peers[slot].has.len() == state.pieces.len());
    let announced = state.after_have(id, piece);
    let advertised = state.after_peer_pieces(id, bits);
    assert(bitfield_has(bits, piece as int));
    assert(piece < 8 * bits.len());
    assert(advertised.peers[slot].has =~= announced.peers[slot].has) by {
        assert forall|p: int| 0 <= p < state.pieces.len() implies advertised.peers[slot].has[p]
            == announced.peers[slot].has[p] by {
            assert(bitfield_has(bits, p) <==> p == piece);
        }
    }
    assert(advertised.peers =~= announced.peers);
}

/// A verified piece leaves the state valid. The piece is complete, if it
/// was assigned to that peer, and every other piece is as it was.
pub proof fn lemma_successful_download_wf(state: SchedulerModel, piece: u32, id: Seq<u8>)
    requires
        state.wf(),
    ensures
        state.after_successful_download(piece, id).wf(),
        state.after_successful_download(piece, id).pieces.len() == state.pieces.len(),
        forall|p: int|
            0 <= p < state.pieces.len() && p != piece
                ==> #[trigger] state.after_successful_download(piece, id).pieces[p]
                == state.pieces[p],
        state.is_assigned_to(piece as int, id) ==> state.after_successful_download(
            piece,
            id,
        ).pieces[piece as int] is Complete,
{
    let next = state.after_successful_download(piece, id);
    if state.is_assigned_to(piece as int, id) {
        let fetcher = lemma_fetcher(state, piece as int);
        assert forall|a: int, b: int|
            0 <= a < next.peers.len() && 0 <= b < next.peers.len() && a != b implies (
        #[trigger] next.peers[a]).id != (#[trigger] next.peers[b]).id by {
            assert(state.peers[a].id != state.peers[b].id);
        }
        assert forall|slot: int|
            0 <= slot < next.peers.len() implies #[trigger] next.assignment_fits(slot) by {
            assert(state.assignment_fits(slot));
        }
        assert forall|p: int|
            0 <= p < next.pieces.len()
                && next.pieces[p] is Assigned implies #[trigger] next.is_fetched(p) by {
            let slot = lemma_fetcher(state, p);
            if slot == fetcher {
                assert(state.peers[slot].assigned == Some(piece));
            } else {
                assert(state.peers[slot].id != state.peers[fetcher].id);
            }
            assert(next.fetches(slot, p));
        }
        assert forall|slot: int, p: int|
            0 <= slot < next.peers.len() && 0 <= p < next.pieces.len()
                && next.pieces[p] is Complete implies !(#[trigger] next.peers[slot].has[p]) by {
            if p != piece {
                assert(!state.peers[slot].has[p]);
            }
        }
    }
}

/// A failed piece leaves the state valid. The piece is missing again, if it
/// was assigned to that peer, and every other piece is as it was; a report
/// about a piece that was not assigned to that peer changes nothing.
pub proof fn lemma_failed_download_wf(state: SchedulerModel, piece: u32, id: Seq<u8>)
    requires
        state.wf(),
    ensures
        state.after_failed_download(piece, id).wf(),
        state.after_failed_download(piece, id).pieces.len() == state.pieces.len(),
        forall|p: int|
            0 <= p < state.pieces.len() && p != piece ==> #[trigger] state.after_failed_download(
                piece,
                id,
            ).pieces[p] == state.pieces[p],
        state.is_assigned_to(piece as int, id) ==> state.after_failed_download(
            piece,
            id,
        ).pieces[piece as int] is Missing,
        !state.is_assigned_to(piece as int, id) ==> state.after_failed_download(piece, id)
            == state,
{
    let next = state.after_failed_download(piece, id);
    if state.is_assigned_to(piece as int, id) {
        let fetcher = lemma_fetcher(state, piece as int);
        assert forall|a: int, b: int|
            0 <= a < next.peers.len() && 0 <= b < next.peers.len() && a != b implies (
        #[trigger] next.peers[a]).id != (#[trigger] next.peers[b]).id by {
            assert(state.peers[a].id != state.peers[b].id);
        }
        assert forall|slot: int|
            0 <= slot < next.peers.len() implies #[trigger] next.assignment_fits(slot) by {
            assert(state.assignment_fits(slot));
        }
        assert forall|p: int|
            0 <= p < next.pieces.len()
                && next.pieces[p] is Assigned implies #[trigger] next.is_fetched(p) by {
            let slot = lemma_fetcher(state, p);
            if slot == fetcher {
                assert(state.peers[slot].assigned == Some(piece));
            } else {
                assert(state.peers[slot].id != state.peers[fetcher].id);
            }
            assert(next.fetches(slot, p));
        }
        assert forall|slot: int, p: int|
            0 <= slot < next.peers.len() && 0 <= p < next.pieces.len()
                && next.pieces[p] is Complete implies !(#[trigger] next.peers[slot].has[p]) by {
            assert(!state.peers[slot].has[p]);
        }
        assert forall|slot: int| 0 <= slot < next.peers.len() implies (
        #[trigger] next.peers[slot]).has.len() == next.pieces.len() by {
            assert(state.peers[slot].has.len() == state.pieces.len());
        }
    }
}

/// A lost session leaves the state valid. The piece that the peer was
/// fetching is missing again, every other piece is as it was, and the peer
/// has no session any more.
pub proof fn lemma_failed_connection_wf(state: SchedulerModel, id: Seq<u8>)
    requires
        state.wf(),
    ensures
        state.after_failed_connection(id).wf(),
        state.after_failed_connection(id).pieces.len() == state.pieces.len(),
        forall|p: int|
            0 <= p < state.pieces.len() ==> #[trigger] state.after_failed_connection(id).pieces[p]
                == if state.is_assigned_to(p, id) {
                PieceStatus::Missing
            } else {
                state.pieces[p]
            },
        !state.after_failed_connection(id).knows(id),
{
    let next = state.after_failed_connection(id);
    if state.knows(id) {
        let slot = state.slot_of(id);
        assert(state.is_slot_of(slot, id));
        assert(state.assignment_fits(slot));
        // Where each slot of the new state came from.
        let origin = |s: int| if s < slot { s } else { s + 1 };
        assert forall|s: int| 0 <= s < next.peers.len() implies #[trigger] next.peers[s]
            == state.peers[origin(s)] && state.peers[origin(s)].id != id by {
            assert(state.peers[origin(s)].id != state.peers[slot].id);
        }
        assert forall|p: int| 0 <= p < state.pieces.len() implies #[trigger] next.pieces[p]
            == if state.is_assigned_to(p, id) {
            PieceStatus::Missing
        } else {
            state.pieces[p]
        } by {
            if state.is_assigned_to(p, id) {
                lemma_assignee_fetches(state, p, slot);
            }
        }
        assert forall|a: int, b: int|
            0 <= a < next.peers.len() && 0 <= b < next.peers.len() && a != b implies (
        #[trigger] next.peers[a]).id != (#[trigger] next.peers[b]).id by {
            assert(state.peers[origin(a)].id != state.peers[origin(b)].id);
        }
        assert forall|s: int| 0 <= s < next.peers.len() implies #[trigger] next.assignment_fits(
            s,
        ) by {
            assert(state.assignment_fits(origin(s)));
        }
        assert forall|p: int|
            0 <= p < next.pieces.len()
                && next.pieces[p] is Assigned implies #[trigger] next.is_fetched(p) by {
            let from = lemma_fetcher(state, p);
            let to = if from < slot { from } else { from - 1 };
            assert(next.peers[to] == state.peers[origin(to)]);
            assert(next.fetches(to, p));
        }
        assert forall|s: int, p: int|
            0 <= s < next.peers.len() && 0 <= p < next.pieces.len()
                && next.pieces[p] is Complete implies !(#[trigger] next.peers[s].has[p]) by {
            assert(!state.peers[origin(s)].has[p]);
        }
        assert forall|s: int| 0 <= s < next.peers.len() implies (#[trigger] next.peers[s]).has.len()
            == next.pieces.len() by {
            assert(state.peers[origin(s)].has.len() == state.pieces.len());
        }
        assert(!next.knows(id)) by {
            if next.knows(id) {
                let s = choose|s: int| next.is_slot_of(s, id);
                assert(next.peers[s] == state.peers[origin(s)]);
            }
        }
    } else {
        assert forall|p: int| 0 <= p < state.pieces.len() implies !state.is_assigned_to(p, id) by {
            if state.is_assigned_to(p, id) {
                let fetcher = lemma_fetcher(state, p);
                assert(state.is_slot_of(fetcher, id));
            }
        }
    }
}

/// Of the pieces a peer could be given, only one is its pick.
pub proof fn lemma_pick_unique(state: SchedulerModel, slot: int, piece: int)
    requires
        state.is_pick(slot, piece),
    ensures
        state.pick(slot) == Some(piece),
{
    let chosen = choose|p: int| state.is_pick(slot, p);
    assert(state.is_pick(slot, chosen));
    assert(state.is_candidate(slot, chosen));
    assert(state.is_candidate(slot, piece));
    assert(state.goes_before(piece, chosen));
    assert(state.goes_before(chosen, piece));
}

/// A peer that could be given no piece has no pick.
pub proof fn lemma_pick_none(state: SchedulerModel, slot: int)
    requires
        forall|piece: int| !state.is_candidate(slot, piece),
    ensures
        state.pick(slot) is None,
{
    assert forall|piece: int| !state.is_pick(slot, piece) by {
        assert(!state.is_candidate(slot, piece));
    }
}

/// A pick is a missing piece that the peer is counted as a holder of.
pub proof fn lemma_pick_is_candidate(state: SchedulerModel, slot: int)
    requires
        state.pick(slot) is Some,
    ensures
        state.is_pick(slot, state.pick(slot)->Some_0),
        state.is_candidate(slot, state.pick(slot)->Some_0),
{
}

/// Giving a free peer a piece it could be given leaves the state valid.
/// Only that piece changes: it is now assigned to that peer.
pub proof fn lemma_assign_wf(state: SchedulerModel, slot: int, piece: int, now: u64)
    requires
        state.wf(),
        0 <= slot < state.peers.len(),
        state.peers[slot].assigned is None,
        state.is_candidate(slot, piece),
    ensures
        state.assign(slot, piece, now).wf(),
        state.assign(slot, piece, now).pieces.len() == state.pieces.len(),
        state.assign(slot, piece, now).peers.len() == state.peers.len(),
        state.assign(slot, piece, now).is_assigned_to(piece, state.peers[slot].id),
        forall|p: int|
            0 <= p < state.pieces.len() && p != piece ==> #[trigger] state.assign(
                slot,
                piece,
                now,
            ).pieces[p] == state.pieces[p],
{
    let next = state.assign(slot, piece, now);
    assert forall|a: int, b: int|
        0 <= a < next.peers.len() && 0 <= b < next.peers.len() && a != b implies (
    #[trigger] next.peers[a]).id != (#[trigger] next.peers[b]).id by {
        assert(state.peers[a].id != state.peers[b].id);
    }
    assert forall|s: int| 0 <= s < next.peers.len() implies #[trigger] next.assignment_fits(s) by {
        assert(state.assignment_fits(s));
    }
    assert forall|p: int|
        0 <= p < next.pieces.len()
            && next.pieces[p] is Assigned implies #[trigger] next.is_fetched(p) by {
        if p == piece {
            assert(next.fetches(slot, p));
        } else {
            let fetcher = lemma_fetcher(state, p);
            assert(next.fetches(fetcher, p));
        }
    }
    assert forall|s: int, p: int|
        0 <= s < next.peers.len() && 0 <= p < next.pieces.len()
            && next.pieces[p] is Complete implies !(#[trigger] next.peers[s].has[p]) by {
        assert(!state.peers[s].has[p]);
    }
    assert forall|s: int| 0 <= s < next.peers.len() implies (#[trigger] next.peers[s]).has.len()
        == next.pieces.len() by {
        assert(state.peers[s].has.len() == state.pieces.len());
    }
}

/// Handing out pieces leaves the state valid. It only turns missing pieces
/// into assigned ones: complete pieces stay complete, assigned pieces stay
/// with their peer, and nothing but the pieces and the peers' assignments
/// changes.
pub proof fn lemma_dispatch_wf(state: SchedulerModel, slot: int, now: u64)
    requires
        state.wf(),
        0 <= slot,
    ensures
        state.dispatch_from(slot, now).0.wf(),
        state.dispatch_from(slot, now).0.pieces.len() == state.pieces.len(),
        state.dispatch_from(slot, now).0.peers.len() == state.peers.len(),
        forall|p: int|
            0 <= p < state.pieces.len() && !(state.pieces[p] is Missing)
                ==> #[trigger] state.dispatch_from(slot, now).0.pieces[p] == state.pieces[p],
        forall|p: int|
            0 <= p < state.pieces.len() ==> !(#[trigger] state.dispatch_from(
                slot,
                now,
            ).0.pieces[p] is Complete) || state.pieces[p] is Complete,
        forall|s: int|
            0 <= s < state.peers.len() ==> (#[trigger] state.dispatch_from(slot, now).0.peers[s]).id
                == state.peers[s].id && state.dispatch_from(slot, now).0.peers[s].has
                == state.peers[s].has,
        state.dispatch_from(slot, now).0.bitfields_received == state.bitfields_received,
        state.dispatch_from(slot, now).0.connections_established == state.connections_established,
        state.dispatch_from(slot, now).0.is_downloading == state.is_downloading,
        state.dispatch_from(slot, now).0.latched == state.latched,
    decreases state.peers.len() - slot,
{
    if slot >= state.peers.len() {
    } else if state.peers[slot].assigned is None && state.pick(slot) is Some {
        let piece = state.pick(slot)->Some_0;
        lemma_pick_is_candidate(state, slot);
        lemma_assign_wf(state, slot, piece, now);
        let next = state.assign(slot, piece, now);
        lemma_dispatch_wf(next, slot + 1, now);
        let last = next.dispatch_from(slot + 1, now).0;
        assert forall|s: int| 0 <= s < state.peers.len() implies (#[trigger] last.peers[s]).id
            == state.peers[s].id && last.peers[s].has == state.peers[s].has by {
            assert(next.peers[s].id == state.peers[s].id);
            assert(next.peers[s].has == state.peers[s].has);
        }
        assert forall|p: int|
            0 <= p < state.pieces.len()
                && !(state.pieces[p] is Missing) implies #[trigger] last.pieces[p]
            == state.pieces[p] by {
            assert(p != piece);
            assert(next.pieces[p] == state.pieces[p]);
        }
        assert forall|p: int|
            0 <= p < state.pieces.len() implies !(#[trigger] last.pieces[p] is Complete)
            || state.pieces[p] is Complete by {
            if p != piece {
                assert(next.pieces[p] == state.pieces[p]);
            } else {
                assert(next.pieces[p] is Assigned);
                assert(last.pieces[p] == next.pieces[p]);
            }
        }
    } else {
        lemma_dispatch_wf(state, slot + 1, now);
    }
}

/// Each event leaves the state valid, whatever the event.
pub proof fn lemma_after_wf(state: SchedulerModel, event: Event)
    requires
        state.wf(),
    ensures
        state.after(event).wf(),
        state.after(event).pieces.len() == state.pieces.len(),
        forall|p: int|
            0 <= p < state.pieces.len() && state.pieces[p] is Complete ==> #[trigger] state.after(
                event,
            ).pieces[p] is Complete,
{
    match event {
        Event::PeerPieces(id, bits) => lemma_peer_pieces_wf(state, id, bits),
        Event::SuccessfulDownload(piece, id) => lemma_successful_download_wf(state, piece, id),
        Event::FailedDownload(piece, id) => lemma_failed_download_wf(state, piece, id),
        Event::FailedConnection(id) => {
            lemma_failed_connection_wf(state, id);
            assert forall|p: int|
                0 <= p < state.pieces.len()
                    && state.pieces[p] is Complete implies #[trigger] state.after(
                event,
            ).pieces[p] is Complete by {
                assert(!state.is_assigned_to(p, id));
            }
        },
        Event::Have(id, piece) => lemma_have_wf(state, id, piece),
        Event::ReaskedTracker => {
            lemma_flags_keep_wf(state, state.after_reasked_tracker());
        },
        Event::FinishedEstablishingConnections(count) => {
            lemma_flags_keep_wf(state, state.after_finished_establishing(count));
        },
    }
}

/// Validity speaks of the pieces and the peers only.
proof fn lemma_flags_keep_wf(state: SchedulerModel, other: SchedulerModel)
    requires
        state.wf(),
        other.pieces == state.pieces,
        other.peers == state.peers,
    ensures
        other.wf(),
{
    lemma_same_assignments(state, other);
}

/// The scheduler's states are closed under its events: from a valid state,
/// handling any event at any time gives a valid state over the same pieces.
pub proof fn lemma_step_wf(state: SchedulerModel, event: Event, now: u64)
    requires
        state.wf(),
    ensures
        state.step(event, now).0.wf(),
        state.step(event, now).0.pieces.len() == state.pieces.len(),
{
    lemma_after_wf(state, event);
    lemma_dispatch_wf(state.after(event), 0, now);
}

/// A complete piece stays complete, whatever event is handled.
pub proof fn lemma_complete_is_final(state: SchedulerModel, event: Event, now: u64, piece: int)
    requires
        state.wf(),
        0 <= piece < state.pieces.len(),
        state.pieces[piece] is Complete,
    ensures
        state.step(event, now).0.pieces[piece] is Complete,
{
    lemma_after_wf(state, event);
    let changed = state.after(event);
    assert(changed.pieces[piece] is Complete);
    lemma_dispatch_wf(changed, 0, now);
    assert(changed.dispatch_from(0, now).0.pieces[piece] == changed.pieces[piece]);
}

/// No piece is being fetched by two peers: two sessions that each record
/// an assignment record different pieces.
pub proof fn lemma_one_peer_per_piece(state: SchedulerModel, slot: int, other: int)
    requires
        state.wf(),
        0 <= slot < state.peers.len(),
        0 <= other < state.peers.len(),
        slot != other,
        state.peers[slot].assigned is Some,
    ensures
        state.peers[other].assigned != state.peers[slot].assigned,
{
    if state.peers[other].assigned == state.peers[slot].assigned {
        assert(state.assignment_fits(slot));
        assert(state.assignment_fits(other));
        assert(state.peers[slot].id != state.peers[other].id);
    }
}

/// A piece is assigned to one peer at most: whoever it is assigned to is
/// the same peer.
pub proof fn lemma_assignee_unique(state: SchedulerModel, piece: int, id: Seq<u8>, other: Seq<u8>)
    requires
        state.is_assigned_to(piece, id),
        state.is_assigned_to(piece, other),
    ensures
        id == other,
{
}

/// The ready pieces, the orphans, the assigned pieces and the complete
/// pieces are pairwise disjoint, and together they are all the pieces.
pub proof fn lemma_partition(state: SchedulerModel)
    ensures
        state.ready().disjoint(state.orphans()),
        state.ready().disjoint(state.assigned_pieces()),
        state.ready().disjoint(state.complete_pieces()),
        state.orphans().disjoint(state.assigned_pieces()),
        state.orphans().disjoint(state.complete_pieces()),
        state.assigned_pieces().disjoint(state.complete_pieces()),
        state.ready().union(state.orphans()).union(state.assigned_pieces()).union(
            state.complete_pieces(),
        ) == Set::new(|piece: int| 0 <= piece < state.pieces.len()),
{
    assert(state.ready().union(state.orphans()).union(state.assigned_pieces()).union(
        state.complete_pieces(),
    ) =~= Set::new(|piece: int| 0 <= piece < state.pieces.len()));
}

/// Whoever a piece is assigned to has an open session and is among the
/// peers that can deliver the piece.
pub proof fn lemma_assignee_is_live_holder(state: SchedulerModel, piece: int)
    requires
        state.wf(),
        0 <= piece < state.pieces.len(),
        state.pieces[piece] is Assigned,
    ensures
        state.live_peers().contains(state.pieces[piece]->peer),
        state.availability(piece).contains(state.pieces[piece]->peer),
{
    let id = state.pieces[piece]->peer;
    let slot = lemma_fetcher(state, piece);
    assert(state.assignment_fits(slot));
    assert(state.is_slot_of(slot, id));
    assert(state.slot_has(slot, piece));
}

/// Handing out pieces leaves no free peer with a piece it could be given:
/// after it, from slot `from` on, whoever is free holds no missing piece.
pub proof fn lemma_dispatch_serves_everyone(state: SchedulerModel, from: int, now: u64)
    requires
        state.wf(),
        0 <= from,
    ensures
        forall|slot: int, piece: int|
            from <= slot < state.peers.len() && state.dispatch_from(
                from,
                now,
            ).0.peers[slot].assigned is None ==> !#[trigger] state.dispatch_from(
                from,
                now,
            ).0.is_candidate(slot, piece),
        forall|slot: int|
            0 <= slot < from && slot < state.peers.len() ==> (#[trigger] state.dispatch_from(
                from,
                now,
            ).0.peers[slot]) == state.peers[slot],
    decreases state.peers.len() - from,
{
    let last = state.dispatch_from(from, now).0;
    if from >= state.peers.len() {
    } else if state.peers[from].assigned is None && state.pick(from) is Some {
        let piece = state.pick(from)->Some_0;
        lemma_pick_is_candidate(state, from);
        lemma_assign_wf(state, from, piece, now);
        let next = state.assign(from, piece, now);
        lemma_dispatch_serves_everyone(next, from + 1, now);
        lemma_dispatch_wf(next, from + 1, now);
        assert(last.peers[from] == next.peers[from]);
        assert forall|slot: int| 0 <= slot < from implies (#[trigger] last.peers[slot])
            == state.peers[slot] by {
            assert(last.peers[slot] == next.peers[slot]);
        }
    } else {
        lemma_dispatch_serves_everyone(state, from + 1, now);
        lemma_dispatch_wf(state, from + 1, now);
        assert(last.peers[from] == state.peers[from]);
        assert forall|piece: int|
            last.peers[from].assigned is None implies !#[trigger] last.is_candidate(
            from,
            piece,
        ) by {
            if last.is_candidate(from, piece) {
                // What is missing at the end was missing all along, so the
                // peer could have been given it.
                assert(state.pieces[piece] is Missing) by {
                    if !(state.pieces[piece] is Missing) {
                        assert(last.pieces[piece] == state.pieces[piece]);
                    }
                }
                assert(last.peers[from].has == state.peers[from].has);
                assert(state.is_candidate(from, piece));
                lemma_candidate_has_pick(state, from, piece);
            }
        }
    }
}

/// A peer that could be given a piece has a pick.
pub proof fn lemma_candidate_has_pick(state: SchedulerModel, slot: int, piece: int)
    requires
        state.wf(),
        state.is_candidate(slot, piece),
    ensures
        state.pick(slot) is Some,
{
    lemma_least_candidate(state, slot, piece, state.pieces.len() as int);
    let best = choose|best: int|
        state.is_candidate(slot, best) && forall|other: int|
            0 <= other < state.pieces.len() && #[trigger] state.is_candidate(slot, other)
                ==> state.goes_before(best, other);
    assert(state.is_pick(slot, best));
}

/// Among the first `upto` pieces, if a peer could be given one of them, one
/// of those it could be given goes before all the others.
proof fn lemma_least_candidate(state: SchedulerModel, slot: int, piece: int, upto: int)
    requires
        state.is_candidate(slot, piece),
        piece < upto <= state.pieces.len(),
    ensures
        exists|best: int|
            state.is_candidate(slot, best) && forall|other: int|
                0 <= other < upto && #[trigger] state.is_candidate(slot, other)
                    ==> state.goes_before(best, other),
    decreases upto,
{
    if upto == piece + 1 {
        if exists|earlier: int| 0 <= earlier < piece && state.is_candidate(slot, earlier) {
            let earlier = choose|earlier: int|
                0 <= earlier < piece && state.is_candidate(slot, earlier);
            lemma_least_candidate(state, slot, earlier, piece);
            let best = choose|best: int|
                state.is_candidate(slot, best) && forall|other: int|
                    0 <= other < piece && #[trigger] state.is_candidate(slot, other)
                        ==> state.goes_before(best, other);
            if state.goes_before(best, piece) {
                assert(forall|other: int|
                    0 <= other < upto && #[trigger] state.is_candidate(slot, other)
                        ==> state.goes_before(best, other));
            } else {
                assert(forall|other: int|
                    0 <= other < upto && #[trigger] state.is_candidate(slot, other)
                        ==> state.goes_before(piece, other));
            }
        } else {
            assert(forall|other: int|
                0 <= other < upto && #[trigger] state.is_candidate(slot, other)
                    ==> state.goes_before(piece, other));
        }
    } else {
        lemma_least_candidate(state, slot, piece, upto - 1);
        let best = choose|best: int|
            state.is_candidate(slot, best) && forall|other: int|
                0 <= other < upto - 1 && #[trigger] state.is_candidate(slot, other)
                    ==> state.goes_before(best, other);
        let last = upto - 1;
        if state.is_candidate(slot, last) && !state.goes_before(best, last) {
            assert(forall|other: int|
                0 <= other < upto && #[trigger] state.is_candidate(slot, other)
                    ==> state.goes_before(last, other));
        } else {
            assert(forall|other: int|
                0 <= other < upto && #[trigger] state.is_candidate(slot, other)
                    ==> state.goes_before(best, other));
        }
    }
}

/// The download never stands still in silence: once pieces are handed out,
/// after every event, a piece that is ready means that some piece is being
/// fetched. So either a piece is on its way, or all that remains are
/// orphans, or nothing remains.
pub proof fn lemma_no_silent_standstill(state: SchedulerModel, event: Event, now: u64)
    requires
        state.wf(),
        state.after(event).is_downloading,
    ensures
        forall|piece: int|
            state.step(event, now).0.ready().contains(piece) ==> exists|fetched: int|
                #[trigger] state.step(event, now).0.assigned_pieces().contains(fetched),
{
    lemma_after_wf(state, event);
    let changed = state.after(event);
    lemma_dispatch_wf(changed, 0, now);
    lemma_dispatch_serves_everyone(changed, 0, now);
    let next = state.step(event, now).0;
    assert forall|piece: int| next.ready().contains(piece) implies exists|fetched: int|
        #[trigger] next.assigned_pieces().contains(fetched) by {
        let slot = choose|slot: int| next.slot_has(slot, piece);
        assert(next.slot_has(slot, piece));
        assert(next.is_candidate(slot, piece));
        assert(next.peers[slot].assigned is Some);
        assert(next.assignment_fits(slot));
        let fetched = next.peers[slot].assigned->Some_0 as int;
        assert(next.assigned_pieces().contains(fetched));
    }
}

/// With a peer that can deliver every piece that is not complete, the
/// download goes on until it is done: once pieces are handed out, after
/// every event, either every piece is complete or some piece is being
/// fetched.
pub proof fn lemma_seeder_keeps_download_going(
    state: SchedulerModel,
    event: Event,
    now: u64,
    slot: int,
)
    requires
        state.wf(),
        state.after(event).is_downloading,
        0 <= slot < state.step(event, now).0.peers.len(),
        forall|piece: int|
            0 <= piece < state.pieces.len() && !(state.step(event, now).0.pieces[piece] is Complete)
                ==> #[trigger] state.step(event, now).0.peers[slot].has[piece],
    ensures
        state.step(event, now).0.all_complete() || exists|fetched: int|
            #[trigger] state.step(event, now).0.assigned_pieces().contains(fetched),
{
    let next = state.step(event, now).0;
    lemma_step_wf(state, event, now);
    lemma_no_silent_standstill(state, event, now);
    if !next.all_complete() {
        let piece = choose|piece: int|
            0 <= piece < next.pieces.len() && !(next.pieces[piece] is Complete);
        assert(next.peers[slot].has[piece]);
        if next.pieces[piece] is Missing {
            assert(next.slot_has(slot, piece));
            assert(next.ready().contains(piece));
        } else {
            assert(next.assigned_pieces().contains(piece));
        }
    }
}

/// A successful attempt completes exactly one more piece: when a piece that
/// was assigned to a peer is reported verified by that peer, the complete
/// pieces afterwards are those from before and that piece, which was not
/// among them. A torrent of N pieces is therefore complete after N
/// successful attempts and no fewer.
pub proof fn lemma_success_completes_one_piece(
    state: SchedulerModel,
    piece: u32,
    id: Seq<u8>,
    now: u64,
)
    requires
        state.wf(),
        state.is_assigned_to(piece as int, id),
    ensures
        !state.complete_pieces().contains(piece as int),
        state.step(Event::SuccessfulDownload(piece, id), now).0.complete_pieces()
            == state.complete_pieces().insert(piece as int),
{
    let event = Event::SuccessfulDownload(piece, id);
    lemma_successful_download_wf(state, piece, id);
    let changed = state.after(event);
    lemma_dispatch_wf(changed, 0, now);
    let next = state.step(event, now).0;
    assert forall|p: int| next.complete_pieces().contains(p) == state.complete_pieces().insert(
        piece as int,
    ).contains(p) by {
        if 0 <= p < state.pieces.len() {
            if p == piece {
                assert(changed.pieces[p] is Complete);
                assert(next.pieces[p] == changed.pieces[p]);
            } else {
                assert(changed.pieces[p] == state.pieces[p]);
                if state.pieces[p] is Complete {
                    assert(next.pieces[p] == changed.pieces[p]);
                }
            }
        }
    }
    assert(next.complete_pieces() =~= state.complete_pieces().insert(piece as int));
}

/// No event but a successful attempt completes a piece.
pub proof fn lemma_only_success_completes(state: SchedulerModel, event: Event, now: u64)
    requires
        state.wf(),
        !(event is SuccessfulDownload),
    ensures
        state.step(event, now).0.complete_pieces() == state.complete_pieces(),
{
    lemma_after_wf(state, event);
    let changed = state.after(event);
    match event {
        Event::PeerPieces(id, bits) => lemma_peer_pieces_wf(state, id, bits),
        Event::FailedDownload(piece, id) => lemma_failed_download_wf(state, piece, id),
        Event::FailedConnection(id) => lemma_failed_connection_wf(state, id),
        Event::Have(id, piece) => lemma_have_wf(state, id, piece),
        _ => {},
    }
    assert forall|p: int| 0 <= p < state.pieces.len() implies (changed.pieces[p] is Complete
        <==> state.pieces[p] is Complete) by {
        match event {
            Event::FailedDownload(piece, id) => {
                if p != piece {
                    assert(changed.pieces[p] == state.pieces[p]);
                }
            },
            Event::FailedConnection(id) => {
                assert(changed.pieces[p] == if state.is_assigned_to(p, id) {
                    PieceStatus::Missing
                } else {
                    state.pieces[p]
                });
            },
            _ => {},
        }
    }
    let next = state.step(event, now).0;
    if changed.is_downloading {
        lemma_dispatch_wf(changed, 0, now);
        assert forall|p: int| 0 <= p < state.pieces.len() implies (next.pieces[p] is Complete
            <==> changed.pieces[p] is Complete) by {
            if changed.pieces[p] is Complete {
                assert(next.pieces[p] == changed.pieces[p]);
            }
        }
    }
    assert(next.complete_pieces() =~= state.complete_pieces());
}

/// The peers among the first `upto` that are counted as holders of `piece`.
pub open spec fn holders_among(state: SchedulerModel, piece: int, upto: int) -> Set<Seq<u8>> {
    Set::new(
        |id: Seq<u8>|
            exists|slot: int|
                0 <= slot < upto && state.is_slot_of(slot, id) && state.slot_has(slot, piece),
    )
}

/// The holders counted among the first `upto` peers are as many as the
/// peers among them that can deliver the piece.
proof fn lemma_count_holders_among(state: SchedulerModel, piece: int, upto: int)
    requires
        state.ids_distinct(),
        0 <= upto <= state.peers.len(),
    ensures
        holders_among(state, piece, upto).finite(),
        holders_among(state, piece, upto).len() == count_holders(state.peers.take(upto), piece),
    decreases upto,
{
    if upto == 0 {
        assert(holders_among(state, piece, 0) =~= Set::<Seq<u8>>::empty());
    } else {
        lemma_count_holders_among(state, piece, upto - 1);
        let before = holders_among(state, piece, upto - 1);
        let now = holders_among(state, piece, upto);
        assert(state.peers.take(upto).drop_last() =~= state.peers.take(upto - 1));
        assert(state.peers.take(upto).last() == state.peers[upto - 1]);
        let id = state.peers[upto - 1].id;
        if state.peers[upto - 1].has[piece] {
            assert(state.is_slot_of(upto - 1, id) && state.slot_has(upto - 1, piece));
            assert(!before.contains(id)) by {
                if before.contains(id) {
                    let slot = choose|slot: int|
                        0 <= slot < upto - 1 && state.is_slot_of(slot, id) && state.slot_has(
                            slot,
                            piece,
                        );
                    assert(state.peers[slot].id != state.peers[upto - 1].id);
                }
            }
            assert(now =~= before.insert(id)) by {
                assert forall|other: Seq<u8>| now.contains(other) == before.insert(id).contains(
                    other,
                ) by {
                    if now.contains(other) {
                        let slot = choose|slot: int|
                            0 <= slot < upto && state.is_slot_of(slot, other) && state.slot_has(
                                slot,
                                piece,
                            );
                        if slot < upto - 1 {
                            assert(before.contains(other));
                        }
                    }
                    if before.contains(other) {
                        let slot = choose|slot: int|
                            0 <= slot < upto - 1 && state.is_slot_of(slot, other)
                                && state.slot_has(slot, piece);
                        assert(0 <= slot < upto && state.is_slot_of(slot, other) && state.slot_has(
                            slot,
                            piece,
                        ));
                    }
                }
            }
        } else {
            assert(now =~= before) by {
                assert forall|other: Seq<u8>| now.contains(other) == before.contains(other) by {
                    if now.contains(other) {
                        let slot = choose|slot: int|
                            0 <= slot < upto && state.is_slot_of(slot, other) && state.slot_has(
                                slot,
                                piece,
                            );
                        assert(slot < upto - 1);
                    }
                    if before.contains(other) {
                        let slot = choose|slot: int|
                            0 <= slot < upto - 1 && state.is_slot_of(slot, other)
                                && state.slot_has(slot, piece);
                        assert(0 <= slot < upto && state.is_slot_of(slot, other) && state.slot_has(
                            slot,
                            piece,
                        ));
                    }
                }
            }
        }
    }
}

/// The count that decides which piece is the rarest is the size of the
/// piece's availability: the number of peers with an open session that can
/// deliver it.
pub proof fn lemma_holder_count_is_availability(state: SchedulerModel, piece: int)
    requires
        state.wf(),
    ensures
        state.availability(piece).finite(),
        state.availability(piece).len() == state.holder_count(piece),
        state.holder_count(piece) > 0 <==> state.has_holder(piece),
{
    lemma_count_holders_among(state, piece, state.peers.len() as int);
    assert(state.peers.take(state.peers.len() as int) =~= state.peers);
    assert(holders_among(state, piece, state.peers.len() as int) =~= state.availability(piece)) by {
        assert forall|id: Seq<u8>| holders_among(state, piece, state.peers.len() as int).contains(
            id,
        ) == state.availability(piece).contains(id) by {
            if state.availability(piece).contains(id) {
                let slot = choose|slot: int|
                    state.is_slot_of(slot, id) && state.slot_has(slot, piece);
                assert(0 <= slot < state.peers.len() && state.is_slot_of(slot, id)
                    && state.slot_has(slot, piece));
            }
        }
    }
    if state.has_holder(piece) {
        let slot = choose|slot: int| state.slot_has(slot, piece);
        assert(state.is_slot_of(slot, state.peers[slot].id) && state.slot_has(slot, piece));
        assert(state.availability(piece).contains(state.peers[slot].id));
        if state.availability(piece).len() == 0 {
            state.availability(piece).lemma_len0_is_empty();
        }
    }
    if state.holder_count(piece) > 0 {
        let id = state.availability(piece).choose();
        assert(state.availability(piece).contains(id));
        let slot = choose|slot: int| state.is_slot_of(slot, id) && state.slot_has(slot, piece);
        assert(state.slot_has(slot, piece));
    }
}

} // verus!

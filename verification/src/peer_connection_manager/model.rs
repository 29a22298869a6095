//! The connection manager as plain values, and what carrying out orders
//! does to it.
use crate::metainfo::{MetainfoView, piece_size};
use crate::peer::connection::SessionView;
use crate::peer::errors::PeerConnectionError;
use crate::peer_connection_manager::worker::{
    scheduler_reports, session_survives, verifier_reports,
};
use crate::piece_manager::model::{Event, Order};
use crate::piece_saver::types::SaverEvent;
use vstd::prelude::*;

verus! {

/// The connection manager as plain values.
#[verifier::ext_equal]
pub struct ManagerView {
    /// The peers with an open session, in the order in which the sessions
    /// were opened.
    pub peer_ids: Seq<Seq<u8>>,
    /// The state of each open session, in the same order.
    pub sessions: Seq<SessionView>,
    /// What waits for the scheduler, oldest first.
    pub scheduler_outbox: Seq<Event>,
    /// What waits for the verifier, oldest first.
    pub verifier_outbox: Seq<SaverEvent>,
    /// The torrent.
    pub metainfo: MetainfoView,
    /// The identifier the manager's sessions go by towards their peers.
    pub client_peer_id: Seq<u8>,
    /// The length of the blocks that pieces are asked for in.
    pub block_size: u32,
}

impl ManagerView {
    /// Whether no peer has two sessions.
    pub open spec fn ids_distinct(self) -> bool {
        forall|a: int, b: int|
            0 <= a < b < self.peer_ids.len() ==> #[trigger] self.peer_ids[a]
                != #[trigger] self.peer_ids[b]
    }

    /// Whether `other` is set up as this manager is: for the same torrent,
    /// under the same identifier, with blocks of the same length.
    pub open spec fn same_setup(self, other: ManagerView) -> bool {
        &&& self.metainfo == other.metainfo
        &&& self.client_peer_id == other.client_peer_id
        &&& self.block_size == other.block_size
    }

    /// Whether `after` is what the manager becomes when piece `piece` is
    /// asked of the peer in slot `slot`, the peer announces `announced`
    /// meanwhile, and the request ends in `outcome`: the reports go out, the
    /// session is dropped if the connection failed, and every other session
    /// is as it was.
    pub open spec fn handled_as(
        self,
        after: ManagerView,
        slot: int,
        piece: u32,
        announced: Seq<u32>,
        outcome: Result<Seq<u8>, PeerConnectionError>,
    ) -> bool {
        let peer = self.peer_ids[slot];
        &&& after.scheduler_outbox == self.scheduler_outbox + scheduler_reports(
            peer,
            piece,
            announced,
            outcome,
        )
        &&& after.verifier_outbox == self.verifier_outbox + verifier_reports(peer, piece, outcome)
        &&& after.peer_ids == if session_survives(outcome) {
            self.peer_ids
        } else {
            self.peer_ids.remove(slot)
        }
        &&& if session_survives(outcome) {
            &&& after.sessions.len() == self.sessions.len()
            &&& forall|other: int|
                0 <= other < self.sessions.len() && other != slot
                    ==> #[trigger] after.sessions[other] == self.sessions[other]
        } else {
            after.sessions == self.sessions.remove(slot)
        }
        &&& outcome matches Ok(bytes) ==> bytes.len() == piece_size(
            self.metainfo.piece_length,
            self.metainfo.length,
            piece,
        )
    }

    /// Whether `after` is what the manager becomes when piece `piece` is
    /// asked of a session with the peer `peer`, whatever the peer announces
    /// meanwhile and whatever the outcome.
    pub open spec fn handled_somehow(self, after: ManagerView, peer: Seq<u8>, piece: u32) -> bool {
        exists|slot: int, announced: Seq<u32>, outcome: Result<Seq<u8>, PeerConnectionError>|
            0 <= slot < self.peer_ids.len() && self.peer_ids[slot] == peer
                && #[trigger] self.handled_as(after, slot, piece, announced, outcome)
    }

    /// Whether `after` is what the manager becomes by carrying out `order`.
    /// An order to close leaves no session and sends nothing. An order to
    /// fetch a piece from a peer without a session tells the scheduler that
    /// the connection failed, and changes nothing else. An order to fetch a
    /// piece from a peer with a session is handled as some outcome of asking
    /// that session. Whatever the order, the manager stays set up as it was.
    pub open spec fn carried_out(self, after: ManagerView, order: Order) -> bool {
        &&& after.same_setup(self)
        &&& match order {
            Order::CloseConnections => {
                &&& after.peer_ids.len() == 0
                &&& after.sessions.len() == 0
                &&& after.scheduler_outbox == self.scheduler_outbox
                &&& after.verifier_outbox == self.verifier_outbox
            },
            Order::DownloadPiece(peer, piece) => {
                if self.peer_ids.contains(peer) {
                    self.handled_somehow(after, peer, piece)
                } else {
                    &&& after.scheduler_outbox == self.scheduler_outbox.push(
                        Event::FailedConnection(peer),
                    )
                    &&& after.verifier_outbox == self.verifier_outbox
                    &&& after.peer_ids == self.peer_ids
                    &&& after.sessions == self.sessions
                }
            },
        }
    }

    /// Whether `after` is what the manager becomes by carrying out the
    /// orders `orders`, one after the other, each as `carried_out` says:
    /// whether there are states of the manager, one before each order and
    /// one after the last, that lead from this one to `after`.
    pub open spec fn ran(self, after: ManagerView, orders: Seq<Order>) -> bool {
        exists|states: Seq<ManagerView>| #[trigger]
            is_run(states, orders) && states[0] == self && states.last() == after
    }
}

/// Whether `states` are the states of a manager that carries out the
/// orders `orders` one after the other: one state before each order and one
/// after the last, each order leading from its state to the next as
/// `carried_out` says.
pub open spec fn is_run(states: Seq<ManagerView>, orders: Seq<Order>) -> bool {
    &&& states.len() == orders.len() + 1
    &&& forall|at: int|
        0 <= at < orders.len() ==> (#[trigger] states[at]).carried_out(states[at + 1], orders[at])
}

/// How many of the orders `orders` are carried out: those up to the first
/// order to close, that order included, or all of them if none is to close.
pub open spec fn until_close(orders: Seq<Order>) -> int
    decreases orders.len(),
{
    if orders.len() == 0 {
        0
    } else if orders[0] is CloseConnections {
        1
    } else {
        1 + until_close(orders.drop_first())
    }
}

/// No more orders are carried out than there are, and all of them are
/// exactly when none but the last is to close.
pub proof fn lemma_until_close(orders: Seq<Order>)
    ensures
        0 <= until_close(orders) <= orders.len(),
        forall|i: int|
            0 <= i < until_close(orders) - 1 ==> !(#[trigger] orders[i] is CloseConnections),
        orders.contains(Order::CloseConnections) <==> (until_close(orders) > 0 && orders[
            until_close(orders) - 1
        ] is CloseConnections),
    decreases orders.len(),
{
    if orders.len() > 0 {
        let rest = orders.drop_first();
        lemma_until_close(rest);
        if orders[0] is CloseConnections {
            assert(orders[0] == Order::CloseConnections);
        } else {
            assert forall|i: int| 0 <= i < until_close(orders) - 1 implies !(
            #[trigger] orders[i] is CloseConnections) by {
                if i > 0 {
                    assert(orders[i] == rest[i - 1]);
                }
            }
            if orders.contains(Order::CloseConnections) {
                let k = choose|k: int|
                    0 <= k < orders.len() && orders[k] == Order::CloseConnections;
                assert(rest[k - 1] == Order::CloseConnections);
                assert(rest.contains(Order::CloseConnections));
            }
            if until_close(rest) > 0 && rest[until_close(rest) - 1] is CloseConnections {
                assert(orders[until_close(rest)] == rest[until_close(rest) - 1]);
                assert(orders[until_close(rest)] == Order::CloseConnections);
            }
        }
    }
}

/// Carrying out one order only adds to what waits for the scheduler and
/// the verifier, and an order to fetch a piece adds at least one report.
pub proof fn lemma_carried_out_adds(before: ManagerView, after: ManagerView, order: Order)
    requires
        before.carried_out(after, order),
    ensures
        before.scheduler_outbox.is_prefix_of(after.scheduler_outbox),
        before.verifier_outbox.is_prefix_of(after.verifier_outbox),
        order is DownloadPiece ==> after.scheduler_outbox.len() + after.verifier_outbox.len()
            > before.scheduler_outbox.len() + before.verifier_outbox.len(),
{
    match order {
        Order::CloseConnections => {},
        Order::DownloadPiece(peer, piece) => {
            if before.peer_ids.contains(peer) {
                let (slot, announced, outcome) = choose|
                    slot: int,
                    announced: Seq<u32>,
                    outcome: Result<Seq<u8>, PeerConnectionError>,
                |
                    0 <= slot < before.peer_ids.len() && before.peer_ids[slot] == peer
                        && #[trigger] before.handled_as(after, slot, piece, announced, outcome);
                assert(before.handled_as(after, slot, piece, announced, outcome));
            }
        },
    }
}

/// Along a run, what waits for the scheduler and the verifier only grows,
/// by at least one report for each order to fetch a piece, and the manager
/// stays set up as it was.
pub proof fn lemma_run_adds(states: Seq<ManagerView>, orders: Seq<Order>, upto: int)
    requires
        is_run(states, orders),
        0 <= upto <= orders.len(),
    ensures
        states[upto].same_setup(states[0]),
        states[0].scheduler_outbox.is_prefix_of(states[upto].scheduler_outbox),
        states[0].verifier_outbox.is_prefix_of(states[upto].verifier_outbox),
        (forall|i: int| 0 <= i < upto ==> #[trigger] orders[i] is DownloadPiece)
            ==> states[upto].scheduler_outbox.len() + states[upto].verifier_outbox.len()
            >= states[0].scheduler_outbox.len() + states[0].verifier_outbox.len() + upto,
    decreases upto,
{
    if upto > 0 {
        lemma_run_adds(states, orders, upto - 1);
        assert(states[upto - 1].carried_out(states[upto - 1 + 1], orders[upto - 1]));
        lemma_carried_out_adds(states[upto - 1], states[upto], orders[upto - 1]);
    }
}

/// Carrying out orders only adds to what waits for the scheduler and the
/// verifier, at least one report for each order to fetch a piece, and leaves
/// the manager set up as it was; carrying out no order changes nothing.
pub proof fn lemma_ran_adds(before: ManagerView, after: ManagerView, orders: Seq<Order>)
    requires
        before.ran(after, orders),
    ensures
        after.same_setup(before),
        before.scheduler_outbox.is_prefix_of(after.scheduler_outbox),
        before.verifier_outbox.is_prefix_of(after.verifier_outbox),
        (forall|i: int| 0 <= i < orders.len() ==> #[trigger] orders[i] is DownloadPiece)
            ==> after.scheduler_outbox.len() + after.verifier_outbox.len()
            >= before.scheduler_outbox.len() + before.verifier_outbox.len() + orders.len(),
        orders.len() == 0 ==> after == before,
{
    let states = choose|states: Seq<ManagerView>| #[trigger]
        is_run(states, orders) && states[0] == before && states.last() == after;
    lemma_run_adds(states, orders, orders.len() as int);
}

/// One more order carried out makes a run one order longer.
pub proof fn lemma_ran_goes_on(
    before: ManagerView,
    mid: ManagerView,
    after: ManagerView,
    orders: Seq<Order>,
    order: Order,
)
    requires
        before.ran(mid, orders),
        mid.carried_out(after, order),
    ensures
        before.ran(after, orders.push(order)),
{
    let states = choose|states: Seq<ManagerView>| #[trigger]
        is_run(states, orders) && states[0] == before && states.last() == mid;
    let longer = states.push(after);
    assert forall|at: int| 0 <= at < orders.push(order).len() implies (
    #[trigger] longer[at]).carried_out(longer[at + 1], orders.push(order)[at]) by {
        if at < orders.len() {
            assert(states[at].carried_out(states[at + 1], orders[at]));
        }
    }
    assert(is_run(longer, orders.push(order)) && longer[0] == before && longer.last() == after);
}

/// Carrying out no order is a run that changes nothing.
pub proof fn lemma_ran_nothing(before: ManagerView)
    ensures
        before.ran(before, Seq::<Order>::empty()),
{
    let states = seq![before];
    assert(is_run(states, Seq::<Order>::empty()) && states[0] == before && states.last() == before);
}

/// One more order carried out, counted: the run is one order longer, and
/// the orders still to carry out are those after it, or none if it was to
/// close.
pub proof fn lemma_listen_goes_on(
    start: ManagerView,
    before: ManagerView,
    after: ManagerView,
    orders: Seq<Order>,
    done: int,
)
    requires
        0 <= done < orders.len(),
        start.ran(before, orders.take(done)),
        before.carried_out(after, orders[done]),
        until_close(orders) == done + until_close(orders.skip(done)),
    ensures
        start.ran(after, orders.take(done + 1)),
        orders[done] is CloseConnections ==> until_close(orders) == done + 1,
        !(orders[done] is CloseConnections) ==> until_close(orders) == done + 1 + until_close(
            orders.skip(done + 1),
        ),
{
    lemma_ran_goes_on(start, before, after, orders.take(done), orders[done]);
    assert(orders.take(done).push(orders[done]) =~= orders.take(done + 1));
    assert(orders.skip(done)[0] == orders[done]);
    assert(orders.skip(done).drop_first() =~= orders.skip(done + 1));
}

} // verus!

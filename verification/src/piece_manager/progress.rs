//! How far a download gets: what a run of events does to the number of
//! complete pieces.
use crate::application_errors::{ApplicationError, spec_exit_code};
use crate::piece_manager::laws::{
    lemma_dispatch_wf, lemma_only_success_completes, lemma_step_wf,
    lemma_success_completes_one_piece,
};
use crate::piece_manager::model::{DownloadStatus, Event, SchedulerModel};
use vstd::prelude::*;
use vstd::set_lib::{lemma_int_range, lemma_len_subset, lemma_subset_equality, set_int_range};

verus! {

/// The state after the events `events`, handled in order, each at the time
/// `now`.
pub open spec fn run(state: SchedulerModel, events: Seq<Event>, now: u64) -> SchedulerModel
    decreases events.len(),
{
    if events.len() == 0 {
        state
    } else {
        run(state, events.drop_last(), now).step(events.last(), now).0
    }
}

/// Whether `event` is a successful attempt in the state `state`: the report
/// that a piece was verified, from the peer the piece is assigned to.
pub open spec fn is_success(state: SchedulerModel, event: Event) -> bool {
    event matches Event::SuccessfulDownload(piece, id) && state.is_assigned_to(piece as int, id)
}

/// How many of the events `events`, handled in order from the state
/// `state`, are successful attempts.
pub open spec fn successes(state: SchedulerModel, events: Seq<Event>, now: u64) -> nat
    decreases events.len(),
{
    if events.len() == 0 {
        0
    } else {
        successes(state, events.drop_last(), now) + if is_success(
            run(state, events.drop_last(), now),
            events.last(),
        ) {
            1nat
        } else {
            0nat
        }
    }
}

/// The complete pieces are finitely many, no more than the torrent has
/// pieces, and they are all of them exactly when there are as many.
pub proof fn lemma_complete_count(state: SchedulerModel)
    ensures
        state.complete_pieces().finite(),
        state.complete_pieces().len() <= state.pieces.len(),
        state.all_complete() <==> state.complete_pieces().len() == state.pieces.len(),
{
    let all = set_int_range(0, state.pieces.len() as int);
    lemma_int_range(0, state.pieces.len() as int);
    assert(state.complete_pieces().subset_of(all));
    lemma_len_subset(state.complete_pieces(), all);
    if state.all_complete() {
        assert(state.complete_pieces() =~= all);
    }
    if state.complete_pieces().len() == state.pieces.len() {
        lemma_subset_equality(state.complete_pieces(), all);
        assert forall|piece: int|
            0 <= piece < state.pieces.len() implies state.pieces[piece] is Complete by {
            assert(all.contains(piece));
            assert(state.complete_pieces().contains(piece));
        }
    }
}

/// An event completes one more piece if it is a successful attempt, and
/// none if it is not.
pub proof fn lemma_step_counts(state: SchedulerModel, event: Event, now: u64)
    requires
        state.wf(),
    ensures
        state.step(event, now).0.complete_pieces().len() == state.complete_pieces().len()
            + if is_success(state, event) {
            1nat
        } else {
            0nat
        },
{
    lemma_complete_count(state);
    match event {
        Event::SuccessfulDownload(piece, id) => {
            if state.is_assigned_to(piece as int, id) {
                lemma_success_completes_one_piece(state, piece, id, now);
            } else {
                let changed = state.after(event);
                assert(changed == state);
                let next = state.step(event, now).0;
                if changed.is_downloading {
                    lemma_dispatch_wf(changed, 0, now);
                    assert forall|p: int| 0 <= p < state.pieces.len() implies (
                    next.pieces[p] is Complete <==> changed.pieces[p] is Complete) by {
                        if changed.pieces[p] is Complete {
                            assert(next.pieces[p] == changed.pieces[p]);
                        }
                    }
                }
                assert(next.complete_pieces() =~= state.complete_pieces());
            }
        },
        _ => {
            lemma_only_success_completes(state, event, now);
        },
    }
}

/// Every successful attempt is one piece, and nothing else is: after any
/// run of events, there are as many more complete pieces as there were
/// successful attempts. So a torrent of N pieces, none of them complete at
/// first, takes no more than N successful attempts, and it is complete
/// exactly when there were N.
pub proof fn lemma_each_success_is_one_piece(state: SchedulerModel, events: Seq<Event>, now: u64)
    requires
        state.wf(),
    ensures
        run(state, events, now).wf(),
        run(state, events, now).pieces.len() == state.pieces.len(),
        run(state, events, now).complete_pieces().len() == state.complete_pieces().len()
            + successes(state, events, now),
        state.complete_pieces().len() + successes(state, events, now) <= state.pieces.len(),
        run(state, events, now).all_complete() <==> state.complete_pieces().len() + successes(
            state,
            events,
            now,
        ) == state.pieces.len(),
    decreases events.len(),
{
    if events.len() > 0 {
        let before = run(state, events.drop_last(), now);
        lemma_each_success_is_one_piece(state, events.drop_last(), now);
        lemma_step_wf(before, events.last(), now);
        lemma_step_counts(before, events.last(), now);
    }
    lemma_complete_count(run(state, events, now));
}

/// The process ends with code 0 only on a complete download: a download
/// that ended with the scheduler in the state `state` gives the code 0
/// exactly when every piece is complete, and the code 3 otherwise, so a
/// piece that is missing at the end never passes for success.
pub proof fn lemma_exit_code_tells_completion(state: SchedulerModel)
    ensures
        spec_exit_code(Ok::<DownloadStatus, ApplicationError>(state.status())) == 0
            <==> state.all_complete(),
        !state.all_complete() ==> spec_exit_code(
            Ok::<DownloadStatus, ApplicationError>(state.status()),
        ) == 3,
{
}

} // verus!

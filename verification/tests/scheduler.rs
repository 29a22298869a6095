use bittorrent_rustico::peer::Bitfield;
use bittorrent_rustico::peer_connection_manager::PeerConnectionManagerMessage;
use bittorrent_rustico::piece_manager::{
    new_piece_manager, DownloadStatus, PieceManagerMessage, PieceManagerWorker, PieceState,
    Reaction,
};

const A: u8 = b'A';
const B: u8 = b'B';
const C: u8 = b'C';

fn id(name: u8) -> Vec<u8> {
    vec![name; 20]
}

fn bits(bytes: &[u8]) -> Bitfield {
    let mut bitfield = Bitfield::new();
    bitfield.set_bitfield(bytes);
    bitfield
}

fn peer_pieces(name: u8, bytes: &[u8]) -> PieceManagerMessage {
    PieceManagerMessage::PeerPieces(id(name), bits(bytes))
}

/// The orders of a reaction as (peer, piece) pairs; `None` stands for the
/// order to close.
fn orders(reaction: &Reaction) -> Vec<Option<(u8, u32)>> {
    reaction
        .orders
        .iter()
        .map(|order| match order {
            PeerConnectionManagerMessage::DownloadPiece(peer, piece) => Some((peer[0], *piece)),
            PeerConnectionManagerMessage::CloseConnections => None,
        })
        .collect()
}

fn is_complete(worker: &PieceManagerWorker, piece: usize) -> bool {
    matches!(worker.piece_state(piece), Some(PieceState::Complete))
}

fn is_missing(worker: &PieceManagerWorker, piece: usize) -> bool {
    matches!(worker.piece_state(piece), Some(PieceState::Missing))
}

fn assignee(worker: &PieceManagerWorker, piece: usize) -> Option<Vec<u8>> {
    match worker.piece_state(piece) {
        Some(PieceState::Assigned { peer_id, .. }) => Some(peer_id),
        _ => None,
    }
}

/// Checks, on the state as it stands, what must hold between any two
/// events.
fn check_invariants(worker: &PieceManagerWorker, peers: &[u8]) {
    let count = worker.number_of_pieces();
    for piece in 0..count {
        let kinds = [
            worker.is_ready(piece),
            worker.is_orphan(piece),
            assignee(worker, piece).is_some(),
            is_complete(worker, piece),
        ];
        assert_eq!(
            kinds.iter().filter(|kind| **kind).count(),
            1,
            "piece {} is in exactly one of ready, orphans, assigned, complete",
            piece
        );
        if let Some(peer) = assignee(worker, piece) {
            assert!(worker.knows_peer(&peer), "the assignee has an open session");
            assert_eq!(worker.assignment_of(&peer), Some(piece as u32));
            assert!(worker.holder_count(piece) >= 1);
        }
        if is_complete(worker, piece) {
            assert_eq!(worker.holder_count(piece), 0);
        }
    }
    assert!(!worker.is_ready(count));
    assert!(!worker.is_orphan(count));
    assert!(worker.piece_state(count).is_none());
    for first in peers {
        for second in peers {
            if first != second {
                let one = worker.assignment_of(&id(*first));
                let other = worker.assignment_of(&id(*second));
                assert!(one.is_none() || one != other, "one peer per piece");
            }
        }
    }
}

/// Handles an event and checks that nothing complete was demoted.
fn step(
    worker: &mut PieceManagerWorker,
    message: PieceManagerMessage,
    now: u64,
    peers: &[u8],
) -> Reaction {
    let count = worker.number_of_pieces();
    let complete_before: Vec<bool> = (0..count).map(|piece| is_complete(worker, piece)).collect();
    let reaction = worker.handle(message, now);
    assert_eq!(worker.number_of_pieces(), count);
    for piece in 0..count {
        if complete_before[piece] {
            assert!(is_complete(worker, piece), "piece {} stays complete", piece);
        }
    }
    assert_eq!(reaction.status, worker.status());
    check_invariants(worker, peers);
    reaction
}

#[test]
fn new_piece_manager_marks_initial_pieces_complete() {
    let (sender, worker) = new_piece_manager(5, vec![1, 3, 9]);
    assert!(sender.queue.is_empty());
    assert_eq!(worker.number_of_pieces(), 5);
    assert_eq!(worker.peer_count(), 0);
    assert_eq!(worker.bitfields_received(), 0);
    assert_eq!(worker.connections_established(), 0);
    assert!(!worker.is_downloading());
    for piece in 0..5 {
        assert_eq!(is_complete(&worker, piece), piece == 1 || piece == 3);
        assert_eq!(is_missing(&worker, piece), piece != 1 && piece != 3);
        assert_eq!(worker.is_orphan(piece), piece != 1 && piece != 3);
        assert!(!worker.is_ready(piece));
    }
    assert_eq!(worker.status(), DownloadStatus::Waiting);
    check_invariants(&worker, &[]);
}

#[test]
fn nothing_to_download_is_all_done() {
    let (_, worker) = new_piece_manager(2, vec![0, 1]);
    assert!(worker.all_complete());
    assert_eq!(worker.status(), DownloadStatus::AllDone);
    let (_, empty) = new_piece_manager(0, vec![]);
    assert_eq!(empty.status(), DownloadStatus::AllDone);
}

#[test]
fn nothing_is_handed_out_before_the_wave_has_settled() {
    let (_, mut worker) = new_piece_manager(3, vec![]);
    let reaction = step(&mut worker, peer_pieces(A, &[0xe0]), 1, &[A]);
    assert!(reaction.orders.is_empty());
    assert_eq!(reaction.status, DownloadStatus::Waiting);
    assert_eq!(reaction.progress, None);
    assert_eq!(worker.bitfields_received(), 1);
    assert_eq!(worker.peer_count(), 1);
    for piece in 0..3 {
        assert!(worker.is_ready(piece));
    }
}

#[test]
fn rarest_first_tie_break() {
    let peers = [A, B, C];
    let (_, mut worker) = new_piece_manager(3, vec![]);
    step(&mut worker, peer_pieces(A, &[0xe0]), 1, &peers);
    step(&mut worker, peer_pieces(B, &[0xa0]), 2, &peers);
    step(&mut worker, peer_pieces(C, &[0x80]), 3, &peers);
    assert_eq!(worker.holder_count(0), 3);
    assert_eq!(worker.holder_count(1), 1);
    assert_eq!(worker.holder_count(2), 2);

    let reaction = step(
        &mut worker,
        PieceManagerMessage::FinishedEstablishingConnections(3),
        10,
        &peers,
    );
    assert_eq!(
        orders(&reaction),
        vec![Some((A, 1)), Some((B, 2)), Some((C, 0))]
    );
    assert_eq!(reaction.status, DownloadStatus::Downloading);
    assert_eq!(worker.connections_established(), 3);
    assert_eq!(assignee(&worker, 1), Some(id(A)));
    assert_eq!(assignee(&worker, 2), Some(id(B)));
    assert_eq!(assignee(&worker, 0), Some(id(C)));
    assert!(matches!(
        worker.piece_state(1),
        Some(PieceState::Assigned { since: 10, .. })
    ));
}

#[test]
fn ties_go_to_the_lowest_index() {
    let (_, mut worker) = new_piece_manager(4, vec![]);
    step(&mut worker, peer_pieces(A, &[0x70]), 1, &[A]);
    let reaction = step(
        &mut worker,
        PieceManagerMessage::FinishedEstablishingConnections(1),
        2,
        &[A],
    );
    assert_eq!(orders(&reaction), vec![Some((A, 1))]);
    assert!(worker.is_orphan(0));
    assert!(worker.is_ready(2));
    assert!(worker.is_ready(3));
}

#[test]
fn a_peer_fetches_one_piece_at_a_time() {
    let (_, mut worker) = new_piece_manager(2, vec![]);
    step(&mut worker, peer_pieces(A, &[0xc0]), 1, &[A]);
    let first = step(
        &mut worker,
        PieceManagerMessage::FinishedEstablishingConnections(1),
        2,
        &[A],
    );
    assert_eq!(orders(&first), vec![Some((A, 0))]);
    let idle = step(&mut worker, PieceManagerMessage::Have(id(A), 1), 3, &[A]);
    assert!(idle.orders.is_empty());
    assert_eq!(worker.assignment_of(&id(A)), Some(0));
}

#[test]
fn single_peer_downloads_every_piece() {
    let (_, mut worker) = new_piece_manager(2, vec![]);
    step(&mut worker, peer_pieces(A, &[0xc0]), 1, &[A]);
    let start = step(
        &mut worker,
        PieceManagerMessage::FinishedEstablishingConnections(1),
        2,
        &[A],
    );
    assert_eq!(orders(&start), vec![Some((A, 0))]);

    let first = step(
        &mut worker,
        PieceManagerMessage::SuccessfulDownload(0, id(A)),
        3,
        &[A],
    );
    assert_eq!(first.progress, Some(0));
    assert_eq!(orders(&first), vec![Some((A, 1))]);
    assert_eq!(first.status, DownloadStatus::Downloading);

    let second = step(
        &mut worker,
        PieceManagerMessage::SuccessfulDownload(1, id(A)),
        4,
        &[A],
    );
    assert_eq!(second.progress, Some(1));
    assert_eq!(orders(&second), vec![None]);
    assert_eq!(second.status, DownloadStatus::AllDone);
    assert!(worker.all_complete());
}

#[test]
fn corrupt_piece_makes_an_orphan_and_stalls_the_download() {
    let (_, mut worker) = new_piece_manager(2, vec![]);
    step(&mut worker, peer_pieces(A, &[0xc0]), 1, &[A]);
    step(
        &mut worker,
        PieceManagerMessage::FinishedEstablishingConnections(1),
        2,
        &[A],
    );
    step(
        &mut worker,
        PieceManagerMessage::SuccessfulDownload(0, id(A)),
        3,
        &[A],
    );
    assert_eq!(assignee(&worker, 1), Some(id(A)));

    let reaction = step(
        &mut worker,
        PieceManagerMessage::FailedDownload(1, id(A)),
        4,
        &[A],
    );
    assert!(reaction.orders.is_empty());
    assert_eq!(reaction.progress, None);
    assert_eq!(reaction.status, DownloadStatus::Stalled);
    assert!(worker.is_orphan(1));
    assert_eq!(worker.holder_count(1), 0);
    assert!(worker.knows_peer(&id(A)));
    assert_eq!(worker.assignment_of(&id(A)), None);
    assert!(is_complete(&worker, 0));
}

#[test]
fn failed_piece_goes_to_another_holder() {
    let peers = [A, B];
    let (_, mut worker) = new_piece_manager(1, vec![]);
    step(&mut worker, peer_pieces(A, &[0x80]), 1, &peers);
    step(&mut worker, peer_pieces(B, &[0x80]), 2, &peers);
    step(
        &mut worker,
        PieceManagerMessage::FinishedEstablishingConnections(2),
        3,
        &peers,
    );
    assert_eq!(assignee(&worker, 0), Some(id(A)));
    let reaction = step(
        &mut worker,
        PieceManagerMessage::FailedDownload(0, id(A)),
        4,
        &peers,
    );
    assert_eq!(orders(&reaction), vec![Some((B, 0))]);
    assert_eq!(worker.holder_count(0), 1);
    assert_eq!(reaction.status, DownloadStatus::Downloading);
}

#[test]
fn peer_disconnects_mid_piece() {
    let peers = [A, B];
    let (_, mut worker) = new_piece_manager(1, vec![]);
    step(&mut worker, peer_pieces(A, &[0x80]), 1, &peers);
    step(&mut worker, peer_pieces(B, &[0x80]), 2, &peers);
    let start = step(
        &mut worker,
        PieceManagerMessage::FinishedEstablishingConnections(2),
        3,
        &peers,
    );
    assert_eq!(orders(&start), vec![Some((A, 0))]);

    let dropped = step(
        &mut worker,
        PieceManagerMessage::FailedConnection(id(A)),
        4,
        &peers,
    );
    assert_eq!(orders(&dropped), vec![Some((B, 0))]);
    assert!(!worker.knows_peer(&id(A)));
    assert_eq!(worker.peer_count(), 1);
    assert_eq!(assignee(&worker, 0), Some(id(B)));

    let done = step(
        &mut worker,
        PieceManagerMessage::SuccessfulDownload(0, id(B)),
        5,
        &peers,
    );
    assert_eq!(done.progress, Some(0));
    assert_eq!(orders(&done), vec![None]);
    assert_eq!(done.status, DownloadStatus::AllDone);
}

#[test]
fn empty_bitfield_records_the_peer_and_assigns_nothing() {
    let (_, mut worker) = new_piece_manager(2, vec![]);
    let recorded = step(&mut worker, peer_pieces(A, &[]), 1, &[A]);
    assert!(recorded.orders.is_empty());
    assert!(worker.knows_peer(&id(A)));
    assert_eq!(worker.bitfields_received(), 1);
    assert_eq!(worker.status(), DownloadStatus::Waiting);

    let latched = step(
        &mut worker,
        PieceManagerMessage::FinishedEstablishingConnections(1),
        2,
        &[A],
    );
    assert!(latched.orders.is_empty());
    assert_eq!(latched.status, DownloadStatus::Stalled);
    assert!(worker.is_orphan(0));
    assert!(worker.is_orphan(1));
    assert_eq!(worker.assignment_of(&id(A)), None);
}

#[test]
fn a_later_have_revives_a_parked_peer() {
    let (_, mut worker) = new_piece_manager(2, vec![]);
    step(&mut worker, peer_pieces(A, &[]), 1, &[A]);
    step(
        &mut worker,
        PieceManagerMessage::FinishedEstablishingConnections(1),
        2,
        &[A],
    );
    assert_eq!(worker.status(), DownloadStatus::Stalled);
    let revived = step(&mut worker, PieceManagerMessage::Have(id(A), 1), 3, &[A]);
    assert_eq!(orders(&revived), vec![Some((A, 1))]);
    assert_eq!(revived.status, DownloadStatus::Downloading);
}

#[test]
fn asking_the_tracker_again_lifts_the_stall() {
    let (_, mut worker) = new_piece_manager(1, vec![]);
    step(
        &mut worker,
        PieceManagerMessage::FinishedEstablishingConnections(0),
        1,
        &[],
    );
    assert_eq!(worker.status(), DownloadStatus::Stalled);
    let asked = step(&mut worker, PieceManagerMessage::ReaskedTracker(), 2, &[]);
    assert_eq!(asked.status, DownloadStatus::Downloading);
    assert_eq!(worker.connections_established(), 0);
    let joined = step(&mut worker, peer_pieces(A, &[0x80]), 3, &[A]);
    assert_eq!(orders(&joined), vec![Some((A, 0))]);
    let settled = step(
        &mut worker,
        PieceManagerMessage::FinishedEstablishingConnections(1),
        4,
        &[A],
    );
    assert_eq!(settled.status, DownloadStatus::Downloading);
    assert_eq!(worker.connections_established(), 1);
}

#[test]
fn stale_and_unknown_events_change_nothing() {
    let peers = [A, B];
    let (_, mut worker) = new_piece_manager(2, vec![1]);
    step(&mut worker, peer_pieces(A, &[0xc0]), 1, &peers);
    step(
        &mut worker,
        PieceManagerMessage::FinishedEstablishingConnections(1),
        2,
        &peers,
    );
    assert_eq!(assignee(&worker, 0), Some(id(A)));
    assert_eq!(worker.holder_count(1), 0);

    for message in [
        PieceManagerMessage::SuccessfulDownload(0, id(B)),
        PieceManagerMessage::SuccessfulDownload(7, id(A)),
        PieceManagerMessage::SuccessfulDownload(1, id(A)),
        PieceManagerMessage::FailedDownload(0, id(B)),
        PieceManagerMessage::FailedDownload(9, id(A)),
        PieceManagerMessage::FailedConnection(id(B)),
        PieceManagerMessage::Have(id(B), 0),
        PieceManagerMessage::Have(id(A), 1),
        PieceManagerMessage::Have(id(A), 2),
    ] {
        let reaction = step(&mut worker, message, 3, &peers);
        assert!(reaction.orders.is_empty());
        assert_eq!(reaction.progress, None);
        assert_eq!(assignee(&worker, 0), Some(id(A)));
        assert!(is_complete(&worker, 1));
        assert_eq!(worker.peer_count(), 1);
    }
}

#[test]
fn a_second_bitfield_from_a_peer_adds_to_the_first() {
    let (_, mut worker) = new_piece_manager(3, vec![]);
    step(&mut worker, peer_pieces(A, &[0x80]), 1, &[A]);
    step(&mut worker, peer_pieces(A, &[0x20]), 2, &[A]);
    assert_eq!(worker.peer_count(), 1);
    assert_eq!(worker.bitfields_received(), 2);
    assert_eq!(worker.holder_count(0), 1);
    assert_eq!(worker.holder_count(1), 0);
    assert_eq!(worker.holder_count(2), 1);
}

#[test]
fn a_full_seeder_completes_in_as_many_successes_as_pieces() {
    let pieces = 11u32;
    let (_, mut worker) = new_piece_manager(pieces, vec![]);
    step(&mut worker, peer_pieces(A, &[0xff, 0xff]), 0, &[A]);
    let mut reaction = step(
        &mut worker,
        PieceManagerMessage::FinishedEstablishingConnections(1),
        0,
        &[A],
    );
    let mut successes = 0;
    while reaction.status != DownloadStatus::AllDone {
        let next = match reaction.orders.first() {
            Some(PeerConnectionManagerMessage::DownloadPiece(_, piece)) => *piece,
            _ => panic!("a piece is handed out while pieces remain"),
        };
        reaction = step(
            &mut worker,
            PieceManagerMessage::SuccessfulDownload(next, id(A)),
            successes,
            &[A],
        );
        successes += 1;
        assert!(successes <= pieces as u64);
    }
    assert_eq!(successes, pieces as u64);
}

#[test]
fn many_peers_and_failures_keep_the_invariants() {
    let peers = [A, B, C];
    let (_, mut worker) = new_piece_manager(10, vec![4]);
    let script = vec![
        peer_pieces(A, &[0xff, 0xc0]),
        peer_pieces(B, &[0x0f, 0x00]),
        PieceManagerMessage::FinishedEstablishingConnections(2),
        PieceManagerMessage::Have(id(B), 0),
        peer_pieces(C, &[0xaa, 0x80]),
        PieceManagerMessage::SuccessfulDownload(8, id(A)),
        PieceManagerMessage::FailedDownload(5, id(B)),
        PieceManagerMessage::FailedConnection(id(A)),
        PieceManagerMessage::SuccessfulDownload(0, id(C)),
        PieceManagerMessage::ReaskedTracker(),
        peer_pieces(A, &[0xff, 0xc0]),
        PieceManagerMessage::FinishedEstablishingConnections(1),
        PieceManagerMessage::FailedConnection(id(C)),
        PieceManagerMessage::FailedConnection(id(B)),
    ];
    for (now, message) in script.into_iter().enumerate() {
        step(&mut worker, message, now as u64, &peers);
    }
    assert!(worker.knows_peer(&id(A)));
    assert!(!worker.knows_peer(&id(B)));
    assert!(!worker.knows_peer(&id(C)));
}

use bittorrent_rustico::metainfo::{Info, Metainfo};
use bittorrent_rustico::peer::{
    check_handshake_response, create_handshake_message, IPeerMessageServiceError, Peer,
    PeerConnection, PeerConnectionError, PeerMessage, PeerMessageId, PeerMessageService,
};
use bittorrent_rustico::peer_connection_manager::{
    new_peer_connection_manager, PeerConnectionManagerMessage, PeerConnectionManagerWorker,
};
use bittorrent_rustico::piece_manager::{
    new_piece_manager, DownloadStatus, PieceManagerMessage, PieceManagerWorker,
};
use bittorrent_rustico::piece_saver::{new_piece_saver, PieceSaverMessage, PieceSaverWorker};
use sha1::{Digest, Sha1};
use std::collections::VecDeque;

const FILE: [u8; 16] = [0, 0, 0, 0, 1, 1, 1, 1, 0, 0, 0, 0, 0, 0, 0, 0];

fn metainfo() -> Metainfo {
    Metainfo {
        announce: "".to_string(),
        info: Info {
            piece_length: 8,
            pieces: vec![
                Sha1::digest(&FILE[0..8]).to_vec(),
                Sha1::digest(&FILE[8..16]).to_vec(),
            ],
            length: 16,
            name: "file".to_string(),
        },
        info_hash: vec![0x11; 20],
    }
}

fn peer(name: u8) -> Peer {
    Peer {
        ip: format!("10.0.0.{}", name),
        port: 6881,
        peer_id: vec![name; 20],
    }
}

/// A peer that seeds `file`: it answers each request with the block asked
/// for, after an unchoke and its bitfield.
struct Seeder {
    file: Vec<u8>,
    piece_length: usize,
    info_hash: Vec<u8>,
    peer_id: Vec<u8>,
    queue: VecDeque<PeerMessage>,
    drop_after_blocks: Option<usize>,
    blocks_served: usize,
}

impl Seeder {
    fn new(name: u8, file: &[u8], bitfield: Vec<u8>) -> Seeder {
        let mut queue = VecDeque::new();
        queue.push_back(PeerMessage::unchoke());
        queue.push_back(PeerMessage {
            id: PeerMessageId::Bitfield,
            length: bitfield.len() as u32 + 1,
            payload: bitfield,
        });
        Seeder {
            file: file.to_vec(),
            piece_length: 8,
            info_hash: vec![0x11; 20],
            peer_id: vec![name; 20],
            queue,
            drop_after_blocks: None,
            blocks_served: 0,
        }
    }
}

fn number(bytes: &[u8]) -> usize {
    u32::from_be_bytes([bytes[0], bytes[1], bytes[2], bytes[3]]) as usize
}

impl PeerMessageService for Seeder {
    fn handshake(
        &mut self,
        info_hash: &[u8],
        _peer_id: &[u8],
    ) -> Result<(), IPeerMessageServiceError> {
        let response = create_handshake_message(&self.info_hash, &self.peer_id);
        match check_handshake_response(&response, info_hash) {
            Ok(_) => Ok(()),
            Err(_) => Err(IPeerMessageServiceError::PeerHandshakeError),
        }
    }

    fn wait_for_message(&mut self) -> Result<PeerMessage, IPeerMessageServiceError> {
        if let Some(limit) = self.drop_after_blocks {
            if self.blocks_served > limit {
                return Err(IPeerMessageServiceError::ReceivingMessageError);
            }
        }
        self.queue
            .pop_front()
            .ok_or(IPeerMessageServiceError::ReceivingMessageError)
    }

    fn send_message(&mut self, message: &PeerMessage) -> Result<(), IPeerMessageServiceError> {
        if message.id == PeerMessageId::Request && message.length != 0 {
            let index = number(&message.payload[0..4]);
            let begin = number(&message.payload[4..8]);
            let length = number(&message.payload[8..12]);
            let start = index * self.piece_length + begin;
            let block = self.file[start..start + length].to_vec();
            self.queue
                .push_back(PeerMessage::piece(index as u32, begin as u32, block));
            self.blocks_served += 1;
        }
        Ok(())
    }
}

/// The three workers and the file they fill, run on one thread: whatever a
/// worker sends is carried to its receiver until nothing is left to carry.
struct Download {
    scheduler: PieceManagerWorker,
    manager: PeerConnectionManagerWorker<Seeder>,
    verifier: PieceSaverWorker,
    disk: Vec<u8>,
    successes: Vec<(u32, Vec<u8>)>,
    failures: Vec<(u32, Vec<u8>)>,
    lost: Vec<Vec<u8>>,
    status: DownloadStatus,
    now: u64,
}

impl Download {
    fn new(block_size: u32) -> Download {
        let metainfo = metainfo();
        let (scheduler_inbox, scheduler) = new_piece_manager(2, vec![]);
        let (verifier_inbox, verifier) =
            new_piece_saver(scheduler_inbox, &metainfo, "downloads".to_string());
        let (_, mut manager) = new_peer_connection_manager::<Seeder>(
            bittorrent_rustico::piece_manager::PieceManagerSender::new(),
            verifier_inbox,
            &metainfo,
            &[0xcc; 20],
        );
        manager.set_block_size(block_size);
        Download {
            status: scheduler.status(),
            scheduler,
            manager,
            verifier,
            disk: vec![0xee; 16],
            successes: vec![],
            failures: vec![],
            lost: vec![],
            now: 0,
        }
    }

    fn run(&mut self, seeders: Vec<(Peer, Seeder)>) -> usize {
        let opened = self.manager.start(seeders);
        self.pump();
        opened
    }

    fn pump(&mut self) {
        loop {
            let mut moved = false;

            let to_verifier: Vec<_> = self.manager.piece_saver_sender.queue.drain(..).collect();
            if !to_verifier.is_empty() {
                moved = true;
                let report = self.verifier.listen(to_verifier);
                for order in report.saves {
                    let start = order.write.offset as usize;
                    self.disk[start..start + order.write.data.len()]
                        .copy_from_slice(&order.write.data);
                    self.verifier.confirm_saved(&order);
                }
            }

            let mut events: Vec<PieceManagerMessage> =
                self.manager.piece_manager_sender.queue.drain(..).collect();
            events.extend(self.verifier.piece_manager_sender.queue.drain(..));
            for event in events {
                moved = true;
                match &event {
                    PieceManagerMessage::SuccessfulDownload(piece, peer) => {
                        self.successes.push((*piece, peer.clone()))
                    }
                    PieceManagerMessage::FailedDownload(piece, peer) => {
                        self.failures.push((*piece, peer.clone()))
                    }
                    PieceManagerMessage::FailedConnection(peer) => self.lost.push(peer.clone()),
                    _ => {}
                }
                self.now += 1;
                let reaction = self.scheduler.handle(event, self.now);
                self.status = reaction.status;
                for order in reaction.orders {
                    let closing = matches!(order, PeerConnectionManagerMessage::CloseConnections);
                    let running = self.manager.handle(order);
                    assert_eq!(running, !closing);
                }
            }

            if !moved {
                break;
            }
        }
    }

    fn exit_code(&self) -> i32 {
        match self.status {
            DownloadStatus::AllDone => 0,
            _ => 3,
        }
    }
}

#[test]
fn single_peer_two_pieces() {
    let mut download = Download::new(2);
    let opened = download.run(vec![(peer(1), Seeder::new(1, &FILE, vec![0xc0]))]);
    assert_eq!(opened, 1);
    assert_eq!(
        download.successes,
        vec![(0, vec![1; 20]), (1, vec![1; 20])]
    );
    assert!(download.failures.is_empty());
    assert!(download.lost.is_empty());
    assert_eq!(download.disk, FILE.to_vec());
    assert_eq!(download.status, DownloadStatus::AllDone);
    assert_eq!(download.exit_code(), 0);
    assert_eq!(download.manager.session_count(), 0);
}

#[test]
fn corrupt_block() {
    let mut corrupt = FILE.to_vec();
    corrupt[12] ^= 0x01;
    let mut download = Download::new(2);
    download.run(vec![(peer(1), Seeder::new(1, &corrupt, vec![0xc0]))]);
    assert_eq!(download.successes, vec![(0, vec![1; 20])]);
    assert_eq!(download.failures, vec![(1, vec![1; 20])]);
    assert_eq!(&download.disk[0..8], &FILE[0..8]);
    assert_eq!(&download.disk[8..16], &[0xee; 8]);
    assert!(download.scheduler.is_orphan(1));
    assert_eq!(download.scheduler.holder_count(1), 0);
    assert_eq!(download.status, DownloadStatus::Stalled);
    assert_eq!(download.exit_code(), 3);
}

#[test]
fn peer_disconnects_mid_piece_and_another_takes_over() {
    let mut flaky = Seeder::new(1, &FILE[0..8], vec![0x80]);
    flaky.drop_after_blocks = Some(1);
    let steady = Seeder::new(2, &FILE, vec![0xc0]);
    let mut download = Download::new(2);
    let opened = download.run(vec![(peer(1), flaky), (peer(2), steady)]);
    assert_eq!(opened, 2);
    assert_eq!(download.lost, vec![vec![1; 20]]);
    assert!(download.failures.is_empty());
    assert_eq!(
        download.successes,
        vec![(1, vec![2; 20]), (0, vec![2; 20])]
    );
    assert_eq!(download.disk, FILE.to_vec());
    assert_eq!(download.exit_code(), 0);
}

#[test]
fn empty_bitfield_ends_with_nothing_downloaded() {
    let mut download = Download::new(2);
    let opened = download.run(vec![(peer(1), Seeder::new(1, &FILE, vec![]))]);
    assert_eq!(opened, 1);
    assert!(download.scheduler.knows_peer(&[1; 20]));
    assert_eq!(download.scheduler.assignment_of(&[1; 20]), None);
    assert!(download.successes.is_empty());
    assert_eq!(download.disk, vec![0xee; 16]);
    assert_eq!(download.status, DownloadStatus::Stalled);
    assert_eq!(download.exit_code(), 3);
}

#[test]
fn handshake_info_hash_mismatch() {
    let mut stranger = Seeder::new(1, &FILE, vec![0xc0]);
    stranger.info_hash = vec![0x22; 20];
    let friend = Seeder::new(2, &FILE, vec![0xc0]);
    let mut download = Download::new(4);
    let opened = download.run(vec![(peer(1), stranger), (peer(2), friend)]);
    assert_eq!(opened, 1);
    assert!(!download.scheduler.knows_peer(&[1; 20]));
    assert!(download.scheduler.knows_peer(&[2; 20]));
    assert_eq!(download.scheduler.connections_established(), 1);
    assert_eq!(
        download.successes,
        vec![(0, vec![2; 20]), (1, vec![2; 20])]
    );
    assert_eq!(download.disk, FILE.to_vec());
    assert_eq!(download.exit_code(), 0);
}

#[test]
fn no_peers_at_all() {
    let mut download = Download::new(2);
    let opened = download.run(vec![]);
    assert_eq!(opened, 0);
    assert_eq!(download.status, DownloadStatus::Stalled);
    assert_eq!(download.exit_code(), 3);
}

#[test]
fn an_order_for_an_unknown_peer_is_a_failed_connection() {
    let mut download = Download::new(2);
    let running = download
        .manager
        .handle(PeerConnectionManagerMessage::DownloadPiece(vec![9; 20], 0));
    assert!(running);
    assert_eq!(download.manager.piece_manager_sender.queue.len(), 1);
    assert!(matches!(
        &download.manager.piece_manager_sender.queue[0],
        PieceManagerMessage::FailedConnection(peer) if *peer == vec![9; 20]
    ));
    assert!(download.manager.piece_saver_sender.queue.is_empty());
}

#[test]
fn listen_stops_at_the_order_to_close() {
    let mut download = Download::new(2);
    download.manager.start(vec![(peer(1), Seeder::new(1, &FILE, vec![0xc0]))]);
    assert_eq!(download.manager.session_count(), 1);
    let closed = download.manager.listen(vec![
        PeerConnectionManagerMessage::DownloadPiece(vec![1; 20], 1),
        PeerConnectionManagerMessage::CloseConnections,
        PeerConnectionManagerMessage::DownloadPiece(vec![1; 20], 0),
    ]);
    assert!(closed);
    assert_eq!(download.manager.session_count(), 0);
    assert_eq!(download.manager.piece_saver_sender.queue.len(), 1);
    let open = download.manager.listen(vec![]);
    assert!(!open);
}

#[test]
fn announced_pieces_reach_the_scheduler() {
    // The peer advertises piece 0 only, and announces piece 1 while piece 0
    // is being fetched.
    let mut late = Seeder::new(1, &FILE, vec![0x80]);
    late.queue.push_back(PeerMessage::have(1));
    let mut download = Download::new(8);
    let opened = download.run(vec![(peer(1), late)]);
    assert_eq!(opened, 1);
    assert_eq!(
        download.successes,
        vec![(0, vec![1; 20]), (1, vec![1; 20])]
    );
    assert_eq!(download.disk, FILE.to_vec());
    assert_eq!(download.exit_code(), 0);
}

#[test]
fn a_session_is_taken_in_by_how_its_opening_ended() {
    let mut download = Download::new(2);

    let mut opened =
        PeerConnection::new(peer(1), &[0xcc; 20], &metainfo(), Seeder::new(1, &FILE, vec![0x40]));
    let outcome = opened.open_connection();
    assert_eq!(outcome, Ok(()));
    assert!(download.manager.take_in(opened, outcome));
    assert_eq!(download.manager.session_count(), 1);
    assert_eq!(download.manager.piece_manager_sender.queue.len(), 1);
    match &download.manager.piece_manager_sender.queue[0] {
        PieceManagerMessage::PeerPieces(peer_id, bitfield) => {
            assert_eq!(*peer_id, vec![1; 20]);
            assert!(!bitfield.has_piece(0));
            assert!(bitfield.has_piece(1));
        }
        _ => panic!("the scheduler is told the peer's bitfield"),
    }

    let failed =
        PeerConnection::new(peer(2), &[0xcc; 20], &metainfo(), Seeder::new(2, &FILE, vec![0xc0]));
    assert!(!download
        .manager
        .take_in(failed, Err(PeerConnectionError::HandshakeFailed)));

    let mut over =
        PeerConnection::new(peer(3), &[0xcc; 20], &metainfo(), Seeder::new(3, &FILE, vec![0xc0]));
    over.close();
    assert!(!download.manager.take_in(over, Ok(())));

    assert_eq!(download.manager.session_count(), 1);
    assert_eq!(download.manager.piece_manager_sender.queue.len(), 1);
    assert!(download.manager.piece_saver_sender.queue.is_empty());
}

#[test]
fn a_peer_gets_no_second_session() {
    let mut download = Download::new(2);
    assert!(download
        .manager
        .open_session(peer(1), Seeder::new(1, &FILE, vec![0xc0])));
    assert_eq!(download.manager.session_count(), 1);
    assert_eq!(download.manager.piece_manager_sender.queue.len(), 1);

    // The same peer again: turned away before its stream is asked anything.
    assert!(!download
        .manager
        .open_session(peer(1), Seeder::new(1, &FILE, vec![0xc0])));
    assert_eq!(download.manager.session_count(), 1);
    assert_eq!(download.manager.piece_manager_sender.queue.len(), 1);

    // A session for the same peer that was opened elsewhere is turned away
    // as well.
    let mut twin =
        PeerConnection::new(peer(1), &[0xcc; 20], &metainfo(), Seeder::new(1, &FILE, vec![0xc0]));
    let outcome = twin.open_connection();
    assert_eq!(outcome, Ok(()));
    assert!(!download.manager.take_in(twin, outcome));
    assert_eq!(download.manager.session_count(), 1);
    assert_eq!(download.manager.piece_manager_sender.queue.len(), 1);

    // Another peer is taken in.
    assert!(download
        .manager
        .open_session(peer(2), Seeder::new(2, &FILE, vec![0xc0])));
    assert_eq!(download.manager.session_count(), 2);

    // Among two candidates with one identifier, only the first is opened.
    let mut other = Download::new(2);
    let opened = other.manager.start(vec![
        (peer(5), Seeder::new(5, &FILE, vec![0xc0])),
        (peer(5), Seeder::new(5, &FILE, vec![0xc0])),
        (peer(6), Seeder::new(6, &FILE, vec![0xc0])),
    ]);
    assert_eq!(opened, 2);
    assert_eq!(other.manager.session_count(), 2);
}

#[test]
fn listen_carries_out_each_order_and_only_adds_reports() {
    let mut download = Download::new(2);
    download.manager.start(vec![(peer(1), Seeder::new(1, &FILE, vec![0xc0]))]);
    let told = download.manager.piece_manager_sender.queue.len();
    assert_eq!(told, 2);

    // Nothing to do changes nothing.
    assert!(!download.manager.listen(vec![]));
    assert_eq!(download.manager.session_count(), 1);
    assert_eq!(download.manager.piece_manager_sender.queue.len(), told);
    assert!(download.manager.piece_saver_sender.queue.is_empty());

    // Three orders, none to close: a piece for the verifier, a failed
    // connection for the peer nobody knows, and another piece.
    let closed = download.manager.listen(vec![
        PeerConnectionManagerMessage::DownloadPiece(vec![1; 20], 1),
        PeerConnectionManagerMessage::DownloadPiece(vec![9; 20], 0),
        PeerConnectionManagerMessage::DownloadPiece(vec![1; 20], 0),
    ]);
    assert!(!closed);
    assert_eq!(download.manager.session_count(), 1);
    assert_eq!(download.manager.piece_saver_sender.queue.len(), 2);
    assert_eq!(download.manager.piece_manager_sender.queue.len(), told + 1);
    match &download.manager.piece_saver_sender.queue[0] {
        PieceSaverMessage::ValidateAndSavePiece(piece, bytes, peer_id) => {
            assert_eq!(*piece, 1);
            assert_eq!(*bytes, FILE[8..16].to_vec());
            assert_eq!(*peer_id, vec![1; 20]);
        }
        _ => panic!("the verifier is handed the piece"),
    }
    match &download.manager.piece_saver_sender.queue[1] {
        PieceSaverMessage::ValidateAndSavePiece(piece, bytes, _) => {
            assert_eq!(*piece, 0);
            assert_eq!(*bytes, FILE[0..8].to_vec());
        }
        _ => panic!("the verifier is handed the piece"),
    }
    match &download.manager.piece_manager_sender.queue[told] {
        PieceManagerMessage::FailedConnection(peer_id) => assert_eq!(*peer_id, vec![9; 20]),
        _ => panic!("the scheduler is told that the connection failed"),
    }

    // An order behind the one to close is not looked at.
    let closed = download.manager.listen(vec![
        PeerConnectionManagerMessage::CloseConnections,
        PeerConnectionManagerMessage::DownloadPiece(vec![9; 20], 0),
    ]);
    assert!(closed);
    assert_eq!(download.manager.session_count(), 0);
    assert_eq!(download.manager.piece_manager_sender.queue.len(), told + 1);
    assert_eq!(download.manager.piece_saver_sender.queue.len(), 2);
}
